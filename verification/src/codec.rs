//! The codec between native objects and messages.

use crate::client::{activation_of_client, XpcClient};
use crate::message::{Dictionary, Message, MessageError, MessageView};
use crate::object::{
    array_has, array_indices_exact, array_slot, dictionary_keys_distinct, dictionary_slot,
    lemma_array_view, lemma_dictionary_view, ArrayEntry, DictionaryEntry, ObjectView,
    XpcErrorObject, XpcObject,
};
use crate::text::{
    check_text, copy_bytes, copy_text_content, has_no_nul, is_text, lemma_content_of_clean_text,
    no_nul, text_content,
};
use crate::transport::{ops_view, push_op, NativeOp, OpView};
use vstd::prelude::*;

verus! {

impl MessageView {
    /// Whether the message can be sent: no part of it is an error, text holds
    /// no terminator byte but at most one at its end, dictionary keys hold
    /// none, a UUID has 16 bytes, and dictionaries are finite.
    pub open spec fn encodable(self) -> bool
        decreases self,
    {
        match self {
            MessageView::Error(_) => false,
            MessageView::String(bytes) => is_text(bytes),
            MessageView::Uuid(bytes) => bytes.len() == 16,
            MessageView::Array(items) => forall|i: int|
                0 <= i < items.len() ==> (#[trigger] items[i]).encodable(),
            MessageView::Dictionary(entries) => {
                &&& entries.dom().finite()
                &&& forall|key: Seq<u8>| #[trigger] entries.dom().contains(key) ==> no_nul(key)
                &&& forall|key: Seq<u8>|
                    entries.dom().finite() && #[trigger] entries.dom().contains(key)
                        ==> entries[key].encodable()
            },
            _ => true,
        }
    }

    /// Whether no part of the message is a listener.
    pub open spec fn listener_free(self) -> bool
        decreases self,
    {
        match self {
            MessageView::Listener(_) => false,
            MessageView::Array(items) => forall|i: int|
                0 <= i < items.len() ==> (#[trigger] items[i]).listener_free(),
            MessageView::Dictionary(entries) => forall|key: Seq<u8>|
                entries.dom().finite() && #[trigger] entries.dom().contains(key)
                    ==> entries[key].listener_free(),
            _ => true,
        }
    }

    /// Whether no text in the message carries a terminator byte.
    pub open spec fn terminator_free(self) -> bool
        decreases self,
    {
        match self {
            MessageView::String(bytes) => no_nul(bytes),
            MessageView::Array(items) => forall|i: int|
                0 <= i < items.len() ==> (#[trigger] items[i]).terminator_free(),
            MessageView::Dictionary(entries) => forall|key: Seq<u8>|
                entries.dom().finite() && #[trigger] entries.dom().contains(key)
                    ==> entries[key].terminator_free(),
            _ => true,
        }
    }

    /// The message with the terminator byte taken off the end of each text
    /// that has one.
    pub open spec fn without_terminators(self) -> MessageView
        decreases self,
    {
        match self {
            MessageView::String(bytes) => MessageView::String(text_content(bytes)),
            MessageView::Array(items) => MessageView::Array(
                Seq::new(
                    items.len(),
                    |i: int|
                        if 0 <= i < items.len() {
                            items[i].without_terminators()
                        } else {
                            MessageView::Null
                        },
                ),
            ),
            MessageView::Dictionary(entries) => MessageView::Dictionary(
                Map::new(
                    |key: Seq<u8>| entries.dom().contains(key),
                    |key: Seq<u8>|
                        if entries.dom().finite() && entries.dom().contains(key) {
                            entries[key].without_terminators()
                        } else {
                            MessageView::Null
                        },
                ),
            ),
            _ => self,
        }
    }
}

/// The message that a native error object stands for. An error object that
/// is neither of the two well-known ones counts as the end of the connection.
pub open spec fn decode_error(which: XpcErrorObject) -> MessageError {
    match which {
        XpcErrorObject::ConnectionInterrupted => MessageError::ConnectionInterrupted,
        XpcErrorObject::ConnectionInvalid => MessageError::ConnectionInvalid,
        XpcErrorObject::Unrecognized => MessageError::ConnectionInvalid,
    }
}

/// The message that a native object decodes to. An activity, an endpoint and
/// shared memory have no message; what is given for them means nothing.
pub open spec fn decode_spec(object: ObjectView) -> MessageView
    decreases object,
{
    match object {
        ObjectView::Activity => MessageView::Null,
        ObjectView::Array(items) => MessageView::Array(
            Seq::new(
                items.len(),
                |i: int|
                    if 0 <= i < items.len() {
                        decode_spec(items[i])
                    } else {
                        MessageView::Null
                    },
            ),
        ),
        ObjectView::Bool(value) => MessageView::Bool(value),
        ObjectView::Connection(handle) => MessageView::Client(handle),
        ObjectView::Data(bytes) => MessageView::Data(bytes),
        ObjectView::Date(nanos) => MessageView::Date(nanos),
        ObjectView::Dictionary(entries) => MessageView::Dictionary(
            Map::new(
                |key: Seq<u8>| entries.dom().contains(key),
                |key: Seq<u8>|
                    if entries.dom().finite() && entries.dom().contains(key) {
                        decode_spec(entries[key])
                    } else {
                        MessageView::Null
                    },
            ),
        ),
        ObjectView::Double(bits) => MessageView::Double(bits),
        ObjectView::Endpoint => MessageView::Null,
        ObjectView::Error(which) => MessageView::Error(decode_error(which)),
        ObjectView::Fd(fd) => MessageView::Fd(fd),
        ObjectView::Int64(value) => MessageView::Int64(value),
        ObjectView::Null => MessageView::Null,
        ObjectView::Shmem => MessageView::Null,
        ObjectView::String(bytes) => MessageView::String(bytes),
        ObjectView::Uint64(value) => MessageView::Uint64(value),
        ObjectView::Uuid(bytes) => MessageView::Uuid(bytes),
    }
}

/// The native object that a message encodes to. Text is encoded without its
/// terminator byte, and a connection as its handle. An error has no native
/// object; what is given for it means nothing.
pub open spec fn encode_spec(message: MessageView) -> ObjectView
    decreases message,
{
    match message {
        MessageView::Bool(value) => ObjectView::Bool(value),
        MessageView::Client(handle) => ObjectView::Connection(handle),
        MessageView::Date(nanos) => ObjectView::Date(nanos),
        MessageView::Double(bits) => ObjectView::Double(bits),
        MessageView::Fd(fd) => ObjectView::Fd(fd),
        MessageView::Listener(handle) => ObjectView::Connection(handle),
        MessageView::Int64(value) => ObjectView::Int64(value),
        MessageView::String(bytes) => ObjectView::String(text_content(bytes)),
        MessageView::Dictionary(entries) => ObjectView::Dictionary(
            Map::new(
                |key: Seq<u8>| entries.dom().contains(key),
                |key: Seq<u8>|
                    if entries.dom().finite() && entries.dom().contains(key) {
                        encode_spec(entries[key])
                    } else {
                        ObjectView::Null
                    },
            ),
        ),
        MessageView::Array(items) => ObjectView::Array(
            Seq::new(
                items.len(),
                |i: int|
                    if 0 <= i < items.len() {
                        encode_spec(items[i])
                    } else {
                        ObjectView::Null
                    },
            ),
        ),
        MessageView::Data(bytes) => ObjectView::Data(bytes),
        MessageView::Uint64(value) => ObjectView::Uint64(value),
        MessageView::Uuid(bytes) => ObjectView::Uuid(bytes),
        MessageView::Error(_) => ObjectView::Null,
        MessageView::Null => ObjectView::Null,
    }
}

/// What decoding a connection object asks of the transport: keep a reference
/// to the handle, then activate the connection.
pub open spec fn activation_of_embedded(handle: u64) -> Seq<OpView> {
    seq![OpView::Retain(handle)] + activation_of_client(handle)
}

/// What decoding the first `upto` entries of an array asks of the transport.
pub open spec fn activation_of_array(entries: Seq<ArrayEntry>, upto: int) -> Seq<OpView>
    decreases entries, upto,
{
    if 0 < upto <= entries.len() {
        activation_of_array(entries, upto - 1) + entries[upto - 1].value.activation()
    } else {
        Seq::empty()
    }
}

/// What decoding the first `upto` entries of a dictionary asks of the
/// transport.
pub open spec fn activation_of_dictionary(
    entries: Seq<DictionaryEntry>,
    upto: int,
) -> Seq<OpView>
    decreases entries, upto,
{
    if 0 < upto <= entries.len() {
        activation_of_dictionary(entries, upto - 1) + entries[upto - 1].value.activation()
    } else {
        Seq::empty()
    }
}

impl XpcObject {
    /// What decoding the object asks of the transport: the activation of
    /// each connection inside it, in the order of the entries.
    pub open spec fn activation(&self) -> Seq<OpView>
        decreases self, 0int,
    {
        match self {
            XpcObject::Connection(handle) => activation_of_embedded(*handle),
            XpcObject::Array(entries) => activation_of_array(entries@, entries.len() as int),
            XpcObject::Dictionary(entries) => activation_of_dictionary(
                entries@,
                entries.len() as int,
            ),
            _ => Seq::empty(),
        }
    }
}

/// Decoding what a message encodes to gives the message back, but for the
/// terminator byte that text may carry at its end. This holds of every
/// message that can be sent and holds no listener: a listener is encoded as
/// its handle, which decodes to a client.
pub proof fn lemma_round_trip(message: MessageView)
    requires
        message.encodable(),
        message.listener_free(),
    ensures
        decode_spec(encode_spec(message)) == message.without_terminators(),
    decreases message,
{
    match message {
        MessageView::Array(items) => {
            let decoded = decode_spec(encode_spec(message))->Array_0;
            let expected = message.without_terminators()->Array_0;
            assert forall|i: int| 0 <= i < items.len() implies decoded[i] == expected[i] by {
                assert(items[i].encodable());
                assert(items[i].listener_free());
                lemma_round_trip(items[i]);
            }
            assert(decoded =~= expected);
        },
        MessageView::Dictionary(entries) => {
            let encoded = encode_spec(message)->Dictionary_0;
            let decoded = decode_spec(encode_spec(message))->Dictionary_0;
            let expected = message.without_terminators()->Dictionary_0;
            assert(encoded.dom() =~= entries.dom());
            assert forall|key: Seq<u8>| decoded.dom().contains(key) implies decoded[key]
                == expected[key] by {
                assert(entries.dom().contains(key));
                assert(entries[key].encodable());
                assert(entries[key].listener_free());
                lemma_round_trip(entries[key]);
            }
            assert(decoded =~= expected);
        },
        _ => {},
    }
}

/// Taking terminator bytes off a message whose text carries none changes
/// nothing.
pub proof fn lemma_without_terminators_of_terminator_free(message: MessageView)
    requires
        message.terminator_free(),
        message.encodable(),
    ensures
        message.without_terminators() == message,
    decreases message,
{
    match message {
        MessageView::Array(items) => {
            let stripped = message.without_terminators()->Array_0;
            assert forall|i: int| 0 <= i < items.len() implies stripped[i] == items[i] by {
                assert(items[i].terminator_free());
                assert(items[i].encodable());
                lemma_without_terminators_of_terminator_free(items[i]);
            }
            assert(stripped =~= items);
        },
        MessageView::Dictionary(entries) => {
            let stripped = message.without_terminators()->Dictionary_0;
            assert forall|key: Seq<u8>| stripped.dom().contains(key) implies stripped[key]
                == entries[key] by {
                assert(entries[key].terminator_free());
                assert(entries[key].encodable());
                lemma_without_terminators_of_terminator_free(entries[key]);
            }
            assert(stripped =~= entries);
        },
        _ => {},
    }
}

/// Decoding what a message encodes to gives the very message back when its
/// text carries no terminator byte.
pub proof fn lemma_round_trip_exact(message: MessageView)
    requires
        message.encodable(),
        message.listener_free(),
        message.terminator_free(),
    ensures
        decode_spec(encode_spec(message)) == message,
{
    lemma_round_trip(message);
    lemma_without_terminators_of_terminator_free(message);
}

impl Message {
    /// Whether the message can be sent.
    #[verifier::loop_isolation(false)]
    pub fn is_encodable(&self) -> (encodable: bool)
        requires
            self.wf(),
        ensures
            encodable == self@.encodable(),
        decreases self,
    {
        match self {
            Message::Error(_) => false,
            Message::String(bytes) => check_text(bytes.as_slice()),
            Message::Uuid(bytes) => bytes.len() == 16,
            Message::Array(items) => {
                let mut i: usize = 0;
                while i < items.len()
                    invariant
                        i <= items.len(),
                        forall|j: int| 0 <= j < i ==> (#[trigger] items[j])@.encodable(),
                    decreases items.len() - i,
                {
                    if !items[i].is_encodable() {
                        assert(self@->Array_0[i as int] == items[i as int]@);
                        return false;
                    }
                    i += 1;
                }
                assert forall|j: int| 0 <= j < self@->Array_0.len() implies (
                #[trigger] self@->Array_0[j]).encodable() by {
                    assert(items[j]@.encodable());
                }
                true
            },
            Message::Dictionary(dictionary) => {
                proof {
                    dictionary.lemma_wf_of_entries();
                    dictionary.lemma_view_of_entries();
                }
                let mut i: usize = 0;
                while i < dictionary.len()
                    invariant
                        i <= dictionary.entries().len(),
                        forall|j: int|
                            0 <= j < i ==> no_nul((#[trigger] dictionary.entries()[j]).0)
                                && dictionary.entries()[j].1@.encodable(),
                    decreases dictionary.entries().len() - i,
                {
                    proof {
                        dictionary.lemma_value_decreases(i as int);
                    }
                    let ghost key = dictionary.entries()[i as int].0;
                    assert(dictionary@.dom().contains(key) && dictionary@[key]
                        == dictionary.entries()[i as int].1@);
                    if !has_no_nul(dictionary.key_at(i)) {
                        return false;
                    }
                    if !dictionary.value_at(i).is_encodable() {
                        return false;
                    }
                    i += 1;
                }
                assert forall|key: Seq<u8>| #[trigger]
                    dictionary@.dom().contains(key) implies no_nul(key)
                    && dictionary@[key].encodable() by {
                    let j = dictionary.slot(key);
                    assert(dictionary@[dictionary.entries()[j].0] == dictionary.entries()[j].1@);
                }
                true
            },
            _ => true,
        }
    }
}

/// Encodes by reference; the bytes of the message are copied.
#[verifier::loop_isolation(false)]
fn encode(message: &Message) -> (object: XpcObject)
    requires
        message.wf(),
        message@.encodable(),
    ensures
        object@ == encode_spec(message@),
        object.decodable(),
        object.in_order(),
    decreases message,
{
    match message {
        Message::Bool(value) => XpcObject::Bool(*value),
        Message::Client(client) => XpcObject::Connection(client.handle()),
        Message::Date(nanos) => XpcObject::Date(*nanos),
        Message::Double(bits) => XpcObject::Double(*bits),
        Message::Fd(fd) => XpcObject::Fd(*fd),
        Message::Listener(listener) => XpcObject::Connection(listener.handle()),
        Message::Int64(value) => XpcObject::Int64(*value),
        Message::String(bytes) => XpcObject::String(copy_text_content(bytes.as_slice())),
        Message::Dictionary(dictionary) => {
            proof {
                dictionary.lemma_wf_of_entries();
                dictionary.lemma_view_of_entries();
            }
            let mut entries: Vec<DictionaryEntry> = Vec::new();
            let mut i: usize = 0;
            while i < dictionary.len()
                invariant
                    i <= dictionary.entries().len(),
                    entries.len() == i,
                    forall|j: int|
                        0 <= j < i ==> {
                            &&& (#[trigger] entries[j]).key@ == dictionary.entries()[j].0
                            &&& entries[j].value@ == encode_spec(dictionary.entries()[j].1@)
                            &&& entries[j].value.decodable()
                            &&& entries[j].value.in_order()
                        },
                decreases dictionary.entries().len() - i,
            {
                proof {
                    dictionary.lemma_value_decreases(i as int);
                }
                let ghost key = dictionary.entries()[i as int].0;
                assert(dictionary@.dom().contains(key) && dictionary@[key]
                    == dictionary.entries()[i as int].1@);
                let value = encode(dictionary.value_at(i));
                entries.push(DictionaryEntry { key: copy_bytes(dictionary.key_at(i)), value });
                i += 1;
            }
            let object = XpcObject::Dictionary(entries);
            proof {
                assert(dictionary_keys_distinct(entries@)) by {
                    assert forall|j: int, k: int| 0 <= j < k < entries.len() implies (
                    #[trigger] entries[j]).key@ != (#[trigger] entries[k]).key@ by {
                        assert(dictionary.entries()[j].0 != dictionary.entries()[k].0);
                    }
                }
                lemma_dictionary_view(object);
                let built = object@->Dictionary_0;
                let wanted = encode_spec(message@)->Dictionary_0;
                assert forall|key: Seq<u8>| built.dom().contains(key) <==> wanted.dom().contains(
                    key,
                ) by {
                    if built.dom().contains(key) {
                        let k = dictionary_slot(entries@, key);
                        assert(dictionary.entries()[k].0 == key);
                    }
                    if wanted.dom().contains(key) {
                        let k = dictionary.slot(key);
                        assert(entries[k].key@ == key);
                    }
                }
                assert forall|key: Seq<u8>| built.dom().contains(key) implies built[key]
                    == wanted[key] by {
                    let k = dictionary_slot(entries@, key);
                    assert(built[entries[k].key@] == entries[k].value@);
                    assert(dictionary@[dictionary.entries()[k].0] == dictionary.entries()[k].1@);
                }
                assert(built =~= wanted);
                assert forall|k: int| 0 <= k < entries.len() implies no_nul(
                    (#[trigger] entries[k]).key@,
                ) by {
                    assert(dictionary@.dom().contains(dictionary.entries()[k].0));
                }
            }
            object
        },
        Message::Array(items) => {
            let mut entries: Vec<ArrayEntry> = Vec::new();
            let mut i: usize = 0;
            while i < items.len()
                invariant
                    i <= items.len(),
                    entries.len() == i,
                    forall|j: int|
                        0 <= j < i ==> {
                            &&& (#[trigger] entries[j]).index == j
                            &&& entries[j].value@ == encode_spec(items[j]@)
                            &&& entries[j].value.decodable()
                            &&& entries[j].value.in_order()
                        },
                decreases items.len() - i,
            {
                assert(message@->Array_0[i as int] == items[i as int]@);
                let value = encode(&items[i]);
                entries.push(ArrayEntry { index: i, value });
                i += 1;
            }
            let object = XpcObject::Array(entries);
            proof {
                assert(array_indices_exact(entries@)) by {
                    assert forall|position: int| 0 <= position < entries.len() implies array_has(
                        entries@,
                        position,
                    ) by {
                        assert(entries@[position].index == position);
                    }
                }
                lemma_array_view(object);
                let built = object@->Array_0;
                let wanted = encode_spec(message@)->Array_0;
                assert forall|j: int| 0 <= j < built.len() implies built[j] == wanted[j] by {
                    assert(built[entries[j].index as int] == entries[j].value@);
                }
                assert(built =~= wanted);
            }
            object
        },
        Message::Data(bytes) => XpcObject::Data(copy_bytes(bytes.as_slice())),
        Message::Uint64(value) => XpcObject::Uint64(*value),
        Message::Uuid(bytes) => XpcObject::Uuid(copy_bytes(bytes.as_slice())),
        Message::Error(_) => XpcObject::Null,
        Message::Null => XpcObject::Null,
    }
}

/// Encodes a message as a native object.
///
/// Each variant goes to the native type of the same name, text without the
/// terminator byte that it may carry at its end, and a connection as its
/// handle, which passes to the object. The elements of an array stand in the
/// order of their positions. Bytes are copied. An error has no native form:
/// a message that holds one must not be handed over.
pub fn message_to_xpc_object(message: Message) -> (object: XpcObject)
    requires
        message.wf(),
        message@.encodable(),
    ensures
        object@ == encode_spec(message@),
        object.decodable(),
        object.in_order(),
{
    encode(&message)
}

/// Decodes a native object as a message.
///
/// The type tag of the object decides the variant. Each element of an array
/// is placed at the position that its entry reports, whatever the order of
/// the entries. An error object becomes one of the two signals; one that is
/// neither of the two well-known objects counts as the end of the
/// connection. A connection object becomes a client, and decoding it has an
/// effect: a reference to the handle is kept and the client activated, for
/// which the operations are appended to `ops`.
#[verifier::loop_isolation(false)]
pub fn xpc_object_to_message(xpc_object: &XpcObject, ops: &mut Vec<NativeOp>) -> (message: Message)
    requires
        xpc_object.decodable(),
    ensures
        message@ == decode_spec(xpc_object@),
        message.wf(),
        message.freshly_activated(),
        ops_view(final(ops)@) == ops_view(old(ops)@) + xpc_object.activation(),
    decreases xpc_object,
{
    match xpc_object {
        XpcObject::Bool(value) => Message::Bool(*value),
        XpcObject::Connection(handle) => {
            push_op(ops, NativeOp::Retain(*handle));
            let client = XpcClient::from_raw(*handle, ops);
            assert(ops_view(ops@) =~= ops_view(old(ops)@) + activation_of_embedded(*handle));
            Message::Client(client)
        },
        XpcObject::Date(nanos) => Message::Date(*nanos),
        XpcObject::Double(bits) => Message::Double(*bits),
        XpcObject::Int64(value) => Message::Int64(*value),
        XpcObject::Uint64(value) => Message::Uint64(*value),
        XpcObject::Fd(fd) => Message::Fd(*fd),
        XpcObject::String(bytes) => Message::String(copy_bytes(bytes.as_slice())),
        XpcObject::Dictionary(entries) => {
            let mut dictionary = Dictionary::new();
            let mut k: usize = 0;
            while k < entries.len()
                invariant
                    k <= entries.len(),
                    dictionary.wf(),
                    dictionary.entries().len() == k,
                    forall|j: int|
                        0 <= j < k ==> {
                            &&& (#[trigger] dictionary.entries()[j]).0 == entries[j].key@
                            &&& dictionary.entries()[j].1@ == decode_spec(entries[j].value@)
                            &&& dictionary.entries()[j].1.freshly_activated()
                        },
                    ops_view(ops@) == ops_view(old(ops)@) + activation_of_dictionary(
                        entries@,
                        k as int,
                    ),
                decreases entries.len() - k,
            {
                let ghost older = dictionary;
                let value = xpc_object_to_message(&entries[k].value, ops);
                let key = copy_bytes(entries[k].key.as_slice());
                proof {
                    lemma_content_of_clean_text(key@);
                    assert(!older.has_key(key@)) by {
                        if older.has_key(key@) {
                            let j = older.slot(key@);
                            assert(entries[j].key@ != entries[k as int].key@);
                        }
                    }
                }
                dictionary.insert(key, value);
                k += 1;
                assert(ops_view(ops@) =~= ops_view(old(ops)@) + activation_of_dictionary(
                    entries@,
                    k as int,
                ));
            }
            let message = Message::Dictionary(dictionary);
            proof {
                dictionary.lemma_view_of_entries();
                lemma_dictionary_view(*xpc_object);
                let built = dictionary@;
                let source = xpc_object@->Dictionary_0;
                let wanted = decode_spec(xpc_object@)->Dictionary_0;
                assert forall|key: Seq<u8>| built.dom().contains(key) <==> wanted.dom().contains(
                    key,
                ) by {
                    if built.dom().contains(key) {
                        let j = dictionary.slot(key);
                        assert(entries[j].key@ == key);
                    }
                    if wanted.dom().contains(key) {
                        let j = dictionary_slot(entries@, key);
                        assert(dictionary.entries()[j].0 == key);
                    }
                }
                assert forall|key: Seq<u8>| built.dom().contains(key) implies built[key]
                    == wanted[key] by {
                    let j = dictionary.slot(key);
                    assert(built[dictionary.entries()[j].0] == dictionary.entries()[j].1@);
                    assert(source[entries[j].key@] == entries[j].value@);
                }
                assert(built =~= wanted);
            }
            message
        },
        XpcObject::Array(entries) => {
            let len = entries.len();
            let mut items: Vec<Message> = Vec::with_capacity(len);
            let mut position: usize = 0;
            while position < len
                invariant
                    position <= len,
                    items.len() == position,
                decreases len - position,
            {
                items.push(Message::Null);
                position += 1;
            }
            let mut k: usize = 0;
            while k < len
                invariant
                    k <= len,
                    items.len() == len,
                    forall|j: int|
                        0 <= j < k ==> {
                            &&& items[(#[trigger] entries[j]).index as int]@ == decode_spec(
                                entries[j].value@,
                            )
                            &&& items[entries[j].index as int].wf()
                            &&& items[entries[j].index as int].freshly_activated()
                        },
                    ops_view(ops@) == ops_view(old(ops)@) + activation_of_array(entries@, k as int),
                decreases len - k,
            {
                let ghost placed = items@;
                let value = xpc_object_to_message(&entries[k].value, ops);
                items.set(entries[k].index, value);
                assert forall|j: int| 0 <= j < k implies items[(
                #[trigger] entries[j]).index as int] == placed[entries[j].index as int] by {
                    assert(entries[j].index != entries[k as int].index);
                }
                k += 1;
                assert(ops_view(ops@) =~= ops_view(old(ops)@) + activation_of_array(
                    entries@,
                    k as int,
                ));
            }
            let message = Message::Array(items);
            proof {
                lemma_array_view(*xpc_object);
                let source = xpc_object@->Array_0;
                let wanted = decode_spec(xpc_object@)->Array_0;
                assert forall|q: int| 0 <= q < len implies (#[trigger] items[q])@ == wanted[q]
                    && items[q].wf() && items[q].freshly_activated() by {
                    assert(array_has(entries@, q));
                    let j = array_slot(entries@, q);
                    assert(source[entries[j].index as int] == entries[j].value@);
                }
                assert(message@->Array_0 =~= wanted);
            }
            message
        },
        XpcObject::Data(bytes) => Message::Data(copy_bytes(bytes.as_slice())),
        XpcObject::Uuid(bytes) => Message::Uuid(copy_bytes(bytes.as_slice())),
        XpcObject::Error(which) => match which {
            XpcErrorObject::ConnectionInterrupted => Message::Error(
                MessageError::ConnectionInterrupted,
            ),
            XpcErrorObject::ConnectionInvalid => Message::Error(MessageError::ConnectionInvalid),
            XpcErrorObject::Unrecognized => Message::Error(MessageError::ConnectionInvalid),
        },
        XpcObject::Null => Message::Null,
        XpcObject::Activity => Message::Null,
        XpcObject::Endpoint => Message::Null,
        XpcObject::Shmem => Message::Null,
    }
}

} // verus!
