//! The messages that travel over a connection.

use crate::client::{ClientView, XpcClient};
use crate::listener::XpcListener;
use crate::text::{bytes_equal, copy_text_content, text_content};
use vstd::prelude::*;

verus! {

/// The two signals the transport reports about a connection.
#[derive(Debug, Clone, Copy, PartialEq, Eq, Structural)]
pub enum MessageError {
    /// The connection was interrupted but is still usable. The last message
    /// should be sent again.
    ConnectionInterrupted,
    /// The connection was closed and cannot be recovered.
    ConnectionInvalid,
}

/// One entry of a dictionary.
#[derive(Debug)]
struct DictionaryItem {
    key: Vec<u8>,
    value: Message,
}

/// A mapping from text keys to messages. Keys are kept without terminator
/// byte, and no key occurs twice.
#[derive(Debug)]
pub struct Dictionary {
    items: Vec<DictionaryItem>,
}

/// A message.
///
/// `Double` holds the IEEE 754 bit pattern of the number and `Date` the signed
/// number of nanoseconds since the epoch. `String` may carry one terminator
/// byte at its end; it is not sent.
#[derive(Debug)]
pub enum Message {
    Bool(bool),
    Client(XpcClient),
    Date(i64),
    Double(u64),
    Fd(i32),
    Listener(XpcListener),
    Int64(i64),
    String(Vec<u8>),
    Dictionary(Dictionary),
    Array(Vec<Message>),
    Data(Vec<u8>),
    Uint64(u64),
    Uuid(Vec<u8>),
    Error(MessageError),
    Null,
}

/// What a message means. A connection stands for its native handle.
pub enum MessageView {
    Bool(bool),
    Client(u64),
    Date(i64),
    Double(u64),
    Fd(i32),
    Listener(u64),
    Int64(i64),
    String(Seq<u8>),
    Dictionary(Map<Seq<u8>, MessageView>),
    Array(Seq<MessageView>),
    Data(Seq<u8>),
    Uint64(u64),
    Uuid(Seq<u8>),
    Error(MessageError),
    Null,
}

impl Dictionary {
    /// The entries in the order in which their keys were first inserted.
    pub closed spec fn entries(&self) -> Seq<(Seq<u8>, Message)> {
        Seq::new(self.items.len() as nat, |i: int| (self.items[i].key@, self.items[i].value))
    }

    /// Whether `key` is a key of the dictionary.
    pub open spec fn has_key(&self, key: Seq<u8>) -> bool {
        exists|i: int| 0 <= i < self.entries().len() && (#[trigger] self.entries()[i]).0 == key
    }

    /// The place of `key` among the entries.
    pub open spec fn slot(&self, key: Seq<u8>) -> int {
        choose|i: int| 0 <= i < self.entries().len() && (#[trigger] self.entries()[i]).0 == key
    }

    /// What each key leads to.
    pub open spec fn mapping(&self) -> Map<Seq<u8>, MessageView>
        decreases self,
    {
        Map::new(
            |key: Seq<u8>| self.has_key(key),
            |key: Seq<u8>|
                {
                    let i = self.slot(key);
                    if 0 <= i < self.entries().len() {
                        self.entries()[i].1.meaning()
                    } else {
                        MessageView::Null
                    }
                },
        )
    }

    /// Whether no key occurs twice and every value is well formed.
    pub open spec fn wf(&self) -> bool
        decreases self,
    {
        &&& forall|i: int, j: int|
            0 <= i < j < self.entries().len() ==> (#[trigger] self.entries()[i]).0 != (
            #[trigger] self.entries()[j]).0
        &&& forall|i: int|
            0 <= i < self.entries().len() ==> (#[trigger] self.entries()[i]).1.wf()
    }

    /// In a well-formed dictionary each entry's key leads to that entry's
    /// value, and only the entries' keys are keys.
    pub proof fn lemma_view_of_entries(&self)
        requires
            self.wf(),
        ensures
            self@.dom().finite(),
            forall|i: int|
                0 <= i < self.entries().len() ==> self@.dom().contains(
                    (#[trigger] self.entries()[i]).0,
                ) && self@[self.entries()[i].0] == self.entries()[i].1@,
            forall|key: Seq<u8>| #[trigger]
                self@.dom().contains(key) ==> 0 <= self.slot(key) < self.entries().len()
                    && self.entries()[self.slot(key)].0 == key,
    {
        let keys = Seq::new(self.entries().len(), |i: int| self.entries()[i].0);
        assert forall|key: Seq<u8>| self@.dom().contains(key) <==> keys.to_set().contains(
            key,
        ) by {
            if self@.dom().contains(key) {
                let i = self.slot(key);
                assert(keys[i] == key);
            }
            if keys.to_set().contains(key) {
                let i = choose|i: int| 0 <= i < keys.len() && keys[i] == key;
                assert(self.entries()[i].0 == key);
            }
        }
        assert(self@.dom() =~= keys.to_set());
        assert forall|i: int| 0 <= i < self.entries().len() implies self@.dom().contains(
            (#[trigger] self.entries()[i]).0,
        ) && self@[self.entries()[i].0] == self.entries()[i].1@ by {
            let key = self.entries()[i].0;
            assert(self.has_key(key));
            let j = self.slot(key);
            assert(i == j);
        }
    }

    /// What well-formedness says of the entries.
    pub proof fn lemma_wf_of_entries(&self)
        requires
            self.wf(),
        ensures
            forall|i: int, j: int|
                0 <= i < j < self.entries().len() ==> (#[trigger] self.entries()[i]).0 != (
                #[trigger] self.entries()[j]).0,
            forall|i: int| 0 <= i < self.entries().len() ==> (#[trigger] self.entries()[i]).1.wf(),
    {
    }

    /// Each value of a dictionary is a smaller term than the dictionary.
    pub proof fn lemma_value_decreases(&self, i: int)
        requires
            0 <= i < self.entries().len(),
        ensures
            decreases_to!(self => self.entries()[i].1),
    {
        assert(self.entries()[i].1 == self.items[i].value);
    }

    /// Appending an entry with a new key adds that key to the mapping.
    proof fn lemma_view_after_push(&self, older: &Dictionary, key: Seq<u8>, value: Message)
        requires
            older.wf(),
            value.wf(),
            !older.has_key(key),
            self.entries() == older.entries().push((key, value)),
        ensures
            self.wf(),
            self@ == older@.insert(key, value@),
    {
        let n = older.entries().len() as int;
        assert forall|i: int, j: int| 0 <= i < j < self.entries().len() implies (
        #[trigger] self.entries()[i]).0 != (#[trigger] self.entries()[j]).0 by {
            if j == n {
                assert(older.entries()[i].0 != key);
            } else {
                assert(older.entries()[i].0 != older.entries()[j].0);
            }
        }
        assert forall|i: int| 0 <= i < self.entries().len() implies (
        #[trigger] self.entries()[i]).1.wf() by {
            if i < n {
                assert(older.entries()[i].1.wf());
            }
        }
        self.lemma_view_of_entries();
        older.lemma_view_of_entries();
        let target = older@.insert(key, value@);
        assert forall|q: Seq<u8>| self@.dom().contains(q) <==> target.dom().contains(q) by {
            if self@.dom().contains(q) {
                let i = self.slot(q);
                if i < n {
                    assert(older.entries()[i].0 == q);
                }
            }
            if target.dom().contains(q) {
                if q == key {
                    assert(self.entries()[n].0 == q);
                } else {
                    let i = older.slot(q);
                    assert(self.entries()[i].0 == q);
                }
            }
        }
        assert forall|q: Seq<u8>| self@.dom().contains(q) implies self@[q] == target[q] by {
            let i = self.slot(q);
            assert(self@[self.entries()[i].0] == self.entries()[i].1@);
            if i < n {
                assert(older.entries()[i].0 == q);
                assert(older@[older.entries()[i].0] == older.entries()[i].1@);
            }
        }
        assert(self@ =~= target);
    }

    /// Replacing the value of an entry replaces what its key leads to.
    proof fn lemma_view_after_update(
        &self,
        older: &Dictionary,
        at: int,
        key: Seq<u8>,
        value: Message,
    )
        requires
            older.wf(),
            value.wf(),
            0 <= at < older.entries().len(),
            older.entries()[at].0 == key,
            self.entries() == older.entries().update(at, (key, value)),
        ensures
            self.wf(),
            self@ == older@.insert(key, value@),
    {
        assert forall|i: int, j: int| 0 <= i < j < self.entries().len() implies (
        #[trigger] self.entries()[i]).0 != (#[trigger] self.entries()[j]).0 by {
            assert(older.entries()[i].0 != older.entries()[j].0);
        }
        assert forall|i: int| 0 <= i < self.entries().len() implies (
        #[trigger] self.entries()[i]).1.wf() by {
            if i != at {
                assert(older.entries()[i].1.wf());
            }
        }
        self.lemma_view_of_entries();
        older.lemma_view_of_entries();
        let target = older@.insert(key, value@);
        assert forall|q: Seq<u8>| self@.dom().contains(q) <==> target.dom().contains(q) by {
            if self@.dom().contains(q) {
                let i = self.slot(q);
                assert(older.entries()[i].0 == q);
            }
            if target.dom().contains(q) {
                if q == key {
                    assert(self.entries()[at].0 == q);
                } else {
                    let i = older.slot(q);
                    assert(self.entries()[i].0 == q);
                }
            }
        }
        assert forall|q: Seq<u8>| self@.dom().contains(q) implies self@[q] == target[q] by {
            let i = self.slot(q);
            assert(self@[self.entries()[i].0] == self.entries()[i].1@);
            assert(older.entries()[i].0 == q);
            assert(older@[older.entries()[i].0] == older.entries()[i].1@);
        }
        assert(self@ =~= target);
    }

    /// A dictionary without entries.
    pub fn new() -> (dictionary: Dictionary)
        ensures
            dictionary.wf(),
            dictionary.entries() == Seq::<(Seq<u8>, Message)>::empty(),
            dictionary@ == Map::<Seq<u8>, MessageView>::empty(),
    {
        let dictionary = Dictionary { items: Vec::new() };
        assert(dictionary.entries() =~= Seq::<(Seq<u8>, Message)>::empty());
        assert(dictionary@ =~= Map::<Seq<u8>, MessageView>::empty());
        dictionary
    }

    /// The number of entries.
    pub fn len(&self) -> (len: usize)
        ensures
            len == self.entries().len(),
    {
        self.items.len()
    }

    /// The key of the entry at place `i`.
    pub fn key_at(&self, i: usize) -> (key: &[u8])
        requires
            i < self.entries().len(),
        ensures
            key@ == self.entries()[i as int].0,
    {
        self.items[i].key.as_slice()
    }

    /// The value of the entry at place `i`.
    pub fn value_at(&self, i: usize) -> (value: &Message)
        requires
            i < self.entries().len(),
        ensures
            *value == self.entries()[i as int].1,
    {
        &self.items[i].value
    }

    /// The place of the entry whose key is `key`, taken as it stands.
    fn position(&self, key: &[u8]) -> (found: Option<usize>)
        ensures
            match found {
                Some(i) => i < self.entries().len() && self.entries()[i as int].0 == key@,
                None => !self.has_key(key@),
            },
    {
        let mut i: usize = 0;
        while i < self.items.len()
            invariant
                i <= self.items.len(),
                forall|j: int| 0 <= j < i ==> (#[trigger] self.entries()[j]).0 != key@,
            decreases self.items.len() - i,
        {
            if bytes_equal(self.items[i].key.as_slice(), key) {
                return Some(i);
            }
            i += 1;
        }
        None
    }

    /// The value that `key` leads to, if it is a key. One terminator byte at
    /// the end of `key` is not part of the key.
    pub fn get(&self, key: &[u8]) -> (value: Option<&Message>)
        requires
            self.wf(),
        ensures
            match value {
                Some(found) => self@.dom().contains(text_content(key@)) && found@
                    == self@[text_content(key@)] && self.has_key(text_content(key@)) && *found
                    == self.entries()[self.slot(text_content(key@))].1,
                None => !self@.dom().contains(text_content(key@)),
            },
    {
        let content = copy_text_content(key);
        proof {
            self.lemma_view_of_entries();
        }
        match self.position(content.as_slice()) {
            Some(i) => {
                assert(self.has_key(content@));
                assert(self.slot(content@) == i);
                Some(&self.items[i].value)
            },
            None => None,
        }
    }

    /// Lets `key` lead to `value` and returns what it led to before, if it
    /// was a key. One terminator byte at the end of `key` is not part of the
    /// key. A new key is placed after the keys that are there.
    pub fn insert(&mut self, key: Vec<u8>, value: Message) -> (previous: Option<Message>)
        requires
            old(self).wf(),
            value.wf(),
        ensures
            final(self).wf(),
            final(self)@ == old(self)@.insert(text_content(key@), value@),
            old(self).has_key(text_content(key@)) ==> previous == Some(
                old(self).entries()[old(self).slot(text_content(key@))].1,
            ) && final(self).entries() == old(self).entries().update(
                old(self).slot(text_content(key@)),
                (text_content(key@), value),
            ),
            !old(self).has_key(text_content(key@)) ==> previous is None && final(self).entries()
                == old(self).entries().push((text_content(key@), value)),
    {
        let content = copy_text_content(key.as_slice());
        let ghost older = *self;
        match self.position(content.as_slice()) {
            Some(i) => {
                assert(older.has_key(content@));
                assert(older.slot(content@) == i);
                let mut item = DictionaryItem { key: content, value };
                self.items.set_and_swap(i, &mut item);
                proof {
                    assert(self.entries() =~= older.entries().update(
                        i as int,
                        (content@, value),
                    ));
                    self.lemma_view_after_update(&older, i as int, content@, value);
                }
                Some(item.value)
            },
            None => {
                self.items.push(DictionaryItem { key: content, value });
                proof {
                    assert(self.entries() =~= older.entries().push((content@, value)));
                    self.lemma_view_after_push(&older, content@, value);
                }
                None
            },
        }
    }
}

impl View for Dictionary {
    type V = Map<Seq<u8>, MessageView>;

    open spec fn view(&self) -> Map<Seq<u8>, MessageView> {
        self.mapping()
    }
}

impl View for Message {
    type V = MessageView;

    open spec fn view(&self) -> MessageView {
        self.meaning()
    }
}

impl Message {
    /// What the message means. A connection stands for its native handle.
    pub open spec fn meaning(&self) -> MessageView
        decreases self,
    {
        match self {
            Message::Bool(value) => MessageView::Bool(*value),
            Message::Client(client) => MessageView::Client(client.view().handle),
            Message::Date(nanos) => MessageView::Date(*nanos),
            Message::Double(bits) => MessageView::Double(*bits),
            Message::Fd(fd) => MessageView::Fd(*fd),
            Message::Listener(listener) => MessageView::Listener(listener.view().handle),
            Message::Int64(value) => MessageView::Int64(*value),
            Message::String(bytes) => MessageView::String(bytes@),
            Message::Dictionary(dictionary) => MessageView::Dictionary(dictionary.mapping()),
            Message::Array(items) => MessageView::Array(
                Seq::new(
                    items.len() as nat,
                    |i: int|
                        if 0 <= i < items.len() {
                            items[i].meaning()
                        } else {
                            MessageView::Null
                        },
                ),
            ),
            Message::Data(bytes) => MessageView::Data(bytes@),
            Message::Uint64(value) => MessageView::Uint64(*value),
            Message::Uuid(bytes) => MessageView::Uuid(bytes@),
            Message::Error(error) => MessageView::Error(*error),
            Message::Null => MessageView::Null,
        }
    }

    /// Whether every connection inside the message is a client that was
    /// just activated.
    pub open spec fn freshly_activated(&self) -> bool
        decreases self,
    {
        match self {
            Message::Client(client) => client@ == ClientView::activated(client@.handle),
            Message::Listener(_) => false,
            Message::Dictionary(dictionary) => forall|i: int|
                0 <= i < dictionary.entries().len() ==> (
                #[trigger] dictionary.entries()[i]).1.freshly_activated(),
            Message::Array(items) => forall|i: int|
                0 <= i < items.len() ==> (#[trigger] items[i]).freshly_activated(),
            _ => true,
        }
    }

    /// Whether every dictionary and every connection inside the message is
    /// well formed.
    pub open spec fn wf(&self) -> bool
        decreases self,
    {
        match self {
            Message::Client(client) => client.wf(),
            Message::Listener(listener) => listener.wf(),
            Message::Dictionary(dictionary) => dictionary.wf(),
            Message::Array(items) => forall|i: int|
                0 <= i < items.len() ==> (#[trigger] items[i]).wf(),
            _ => true,
        }
    }
}

} // verus!
