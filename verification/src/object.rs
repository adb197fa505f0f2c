//! The transport's dynamically typed objects, as plain values.
//!
//! An [`XpcObject`] holds what the transport's accessors report about one
//! native object: its type tag, its payload, and for containers the entries in
//! the order in which the transport's iteration primitive handed them over.

use crate::text::{bytes_equal, has_no_nul, no_nul};
use vstd::prelude::*;

verus! {

/// The type tags the transport knows.
#[derive(Debug, Clone, Copy, PartialEq, Eq, Structural)]
pub enum XpcType {
    Activity,
    Array,
    Bool,
    Connection,
    Data,
    Date,
    Dictionary,
    Double,
    Endpoint,
    Error,
    Fd,
    Int64,
    Null,
    Shmem,
    String,
    Uint64,
    Uuid,
}

/// Which error object the transport delivered. The transport has two
/// well-known error objects; any other one cannot be told apart further.
#[derive(Debug, Clone, Copy, PartialEq, Eq, Structural)]
pub enum XpcErrorObject {
    ConnectionInterrupted,
    ConnectionInvalid,
    Unrecognized,
}

/// One element of a native array, with the index the iteration reported for it.
#[derive(Debug, PartialEq, Eq)]
pub struct ArrayEntry {
    pub index: usize,
    pub value: XpcObject,
}

/// One entry of a native dictionary. The key has no terminator byte.
#[derive(Debug, PartialEq, Eq)]
pub struct DictionaryEntry {
    pub key: Vec<u8>,
    pub value: XpcObject,
}

/// A native object.
///
/// `Double` holds the IEEE 754 bit pattern of the number, `Date` the signed
/// number of nanoseconds since the epoch, `Connection` the identity of the
/// connection handle, and `Fd` the descriptor that the transport duplicated
/// for the receiver. Text has no terminator byte.
#[derive(Debug, PartialEq, Eq)]
pub enum XpcObject {
    Activity,
    Array(Vec<ArrayEntry>),
    Bool(bool),
    Connection(u64),
    Data(Vec<u8>),
    Date(i64),
    Dictionary(Vec<DictionaryEntry>),
    Double(u64),
    Endpoint,
    Error(XpcErrorObject),
    Fd(i32),
    Int64(i64),
    Null,
    Shmem,
    String(Vec<u8>),
    Uint64(u64),
    Uuid(Vec<u8>),
}

/// What a native object means: arrays by position, dictionaries by key.
pub enum ObjectView {
    Activity,
    Array(Seq<ObjectView>),
    Bool(bool),
    Connection(u64),
    Data(Seq<u8>),
    Date(i64),
    Dictionary(Map<Seq<u8>, ObjectView>),
    Double(u64),
    Endpoint,
    Error(XpcErrorObject),
    Fd(i32),
    Int64(i64),
    Null,
    Shmem,
    String(Seq<u8>),
    Uint64(u64),
    Uuid(Seq<u8>),
}

/// Whether some entry of `entries` reports index `position`.
pub open spec fn array_has(entries: Seq<ArrayEntry>, position: int) -> bool {
    exists|k: int| 0 <= k < entries.len() && #[trigger] entries[k].index == position
}

/// The place in `entries` of an entry that reports index `position`.
pub open spec fn array_slot(entries: Seq<ArrayEntry>, position: int) -> int {
    choose|k: int| 0 <= k < entries.len() && #[trigger] entries[k].index == position
}

/// Whether some entry of `entries` has the key `key`.
pub open spec fn dictionary_has(entries: Seq<DictionaryEntry>, key: Seq<u8>) -> bool {
    exists|k: int| 0 <= k < entries.len() && #[trigger] entries[k].key@ == key
}

/// The place in `entries` of an entry with the key `key`.
pub open spec fn dictionary_slot(entries: Seq<DictionaryEntry>, key: Seq<u8>) -> int {
    choose|k: int| 0 <= k < entries.len() && #[trigger] entries[k].key@ == key
}

/// Whether the entries report each position of the array exactly once.
pub open spec fn array_indices_exact(entries: Seq<ArrayEntry>) -> bool {
    &&& forall|k: int| 0 <= k < entries.len() ==> (#[trigger] entries[k]).index < entries.len()
    &&& forall|j: int, k: int|
        0 <= j < k < entries.len() ==> (#[trigger] entries[j]).index != (
        #[trigger] entries[k]).index
    &&& forall|position: int|
        0 <= position < entries.len() ==> #[trigger] array_has(entries, position)
}

/// Whether the keys of the entries differ from one another.
pub open spec fn dictionary_keys_distinct(entries: Seq<DictionaryEntry>) -> bool {
    forall|j: int, k: int|
        0 <= j < k < entries.len() ==> (#[trigger] entries[j]).key@ != (#[trigger] entries[k]).key@
}

impl View for XpcObject {
    type V = ObjectView;

    open spec fn view(&self) -> ObjectView {
        self.meaning()
    }
}

impl XpcObject {
    /// What the object means: arrays by position, dictionaries by key.
    pub open spec fn meaning(&self) -> ObjectView
        decreases self,
    {
        match self {
            XpcObject::Activity => ObjectView::Activity,
            XpcObject::Array(entries) => ObjectView::Array(
                Seq::new(
                    entries.len() as nat,
                    |position: int|
                        {
                            let k = array_slot(entries@, position);
                            if 0 <= k < entries.len() {
                                entries[k].value.meaning()
                            } else {
                                ObjectView::Null
                            }
                        },
                ),
            ),
            XpcObject::Bool(value) => ObjectView::Bool(*value),
            XpcObject::Connection(handle) => ObjectView::Connection(*handle),
            XpcObject::Data(bytes) => ObjectView::Data(bytes@),
            XpcObject::Date(nanos) => ObjectView::Date(*nanos),
            XpcObject::Dictionary(entries) => ObjectView::Dictionary(
                Map::new(
                    |key: Seq<u8>| dictionary_has(entries@, key),
                    |key: Seq<u8>|
                        {
                            let k = dictionary_slot(entries@, key);
                            if 0 <= k < entries.len() {
                                entries[k].value.meaning()
                            } else {
                                ObjectView::Null
                            }
                        },
                ),
            ),
            XpcObject::Double(bits) => ObjectView::Double(*bits),
            XpcObject::Endpoint => ObjectView::Endpoint,
            XpcObject::Error(which) => ObjectView::Error(*which),
            XpcObject::Fd(fd) => ObjectView::Fd(*fd),
            XpcObject::Int64(value) => ObjectView::Int64(*value),
            XpcObject::Null => ObjectView::Null,
            XpcObject::Shmem => ObjectView::Shmem,
            XpcObject::String(bytes) => ObjectView::String(bytes@),
            XpcObject::Uint64(value) => ObjectView::Uint64(*value),
            XpcObject::Uuid(bytes) => ObjectView::Uuid(bytes@),
        }
    }

    /// The type tag of the object.
    pub open spec fn type_tag(&self) -> XpcType {
        match self {
            XpcObject::Activity => XpcType::Activity,
            XpcObject::Array(_) => XpcType::Array,
            XpcObject::Bool(_) => XpcType::Bool,
            XpcObject::Connection(_) => XpcType::Connection,
            XpcObject::Data(_) => XpcType::Data,
            XpcObject::Date(_) => XpcType::Date,
            XpcObject::Dictionary(_) => XpcType::Dictionary,
            XpcObject::Double(_) => XpcType::Double,
            XpcObject::Endpoint => XpcType::Endpoint,
            XpcObject::Error(_) => XpcType::Error,
            XpcObject::Fd(_) => XpcType::Fd,
            XpcObject::Int64(_) => XpcType::Int64,
            XpcObject::Null => XpcType::Null,
            XpcObject::Shmem => XpcType::Shmem,
            XpcObject::String(_) => XpcType::String,
            XpcObject::Uint64(_) => XpcType::Uint64,
            XpcObject::Uuid(_) => XpcType::Uuid,
        }
    }

    /// Whether every array inside the object holds its elements in the
    /// order of their positions.
    pub open spec fn in_order(&self) -> bool
        decreases self,
    {
        match self {
            XpcObject::Array(entries) => forall|k: int|
                0 <= k < entries.len() ==> (#[trigger] entries[k]).index == k
                    && entries[k].value.in_order(),
            XpcObject::Dictionary(entries) => forall|k: int|
                0 <= k < entries.len() ==> (#[trigger] entries[k]).value.in_order(),
            _ => true,
        }
    }

    /// Whether the object is one the transport can hand over and the codec
    /// can decode: every array reports each of its positions exactly once,
    /// dictionary keys differ from one another, text has no terminator byte,
    /// a UUID has 16 bytes, and no part is an activity, an endpoint or shared
    /// memory.
    pub open spec fn decodable(&self) -> bool
        decreases self,
    {
        match self {
            XpcObject::Activity | XpcObject::Endpoint | XpcObject::Shmem => false,
            XpcObject::Array(entries) => {
                &&& array_indices_exact(entries@)
                &&& forall|k: int|
                    0 <= k < entries.len() ==> (#[trigger] entries[k]).value.decodable()
            },
            XpcObject::Dictionary(entries) => {
                &&& dictionary_keys_distinct(entries@)
                &&& forall|k: int| 0 <= k < entries.len() ==> no_nul((#[trigger] entries[k]).key@)
                &&& forall|k: int|
                    0 <= k < entries.len() ==> (#[trigger] entries[k]).value.decodable()
            },
            XpcObject::String(bytes) => no_nul(bytes@),
            XpcObject::Uuid(bytes) => bytes.len() == 16,
            _ => true,
        }
    }
}

/// In an array whose entries report each position once, the element at a
/// position is the value of the entry that reports it.
pub proof fn lemma_array_view(object: XpcObject)
    requires
        object is Array,
        array_indices_exact(object->Array_0@),
    ensures
        object@ is Array,
        object@->Array_0.len() == object->Array_0.len(),
        forall|k: int|
            0 <= k < object->Array_0.len() ==> object@->Array_0[(
            #[trigger] object->Array_0[k]).index as int] == object->Array_0[k].value@,
{
    let entries = object->Array_0;
    assert forall|k: int| 0 <= k < entries.len() implies object@->Array_0[(
    #[trigger] entries[k]).index as int] == entries[k].value@ by {
        let position = entries[k].index as int;
        assert(array_has(entries@, position));
        let found = array_slot(entries@, position);
        assert(found == k);
    }
}

/// In a dictionary whose keys differ, each entry's key leads to that entry's
/// value, and only the entries' keys are keys.
pub proof fn lemma_dictionary_view(object: XpcObject)
    requires
        object is Dictionary,
        dictionary_keys_distinct(object->Dictionary_0@),
    ensures
        object@ is Dictionary,
        object@->Dictionary_0.dom().finite(),
        forall|k: int|
            0 <= k < object->Dictionary_0.len() ==> object@->Dictionary_0.dom().contains(
                (#[trigger] object->Dictionary_0[k]).key@,
            ) && object@->Dictionary_0[object->Dictionary_0[k].key@]
                == object->Dictionary_0[k].value@,
        forall|key: Seq<u8>| #[trigger]
            object@->Dictionary_0.dom().contains(key) ==> 0 <= dictionary_slot(
                object->Dictionary_0@,
                key,
            ) < object->Dictionary_0.len() && object->Dictionary_0[dictionary_slot(
                object->Dictionary_0@,
                key,
            )].key@ == key,
{
    let entries = object->Dictionary_0;
    let mapping = object@->Dictionary_0;
    let keys = Seq::new(entries.len() as nat, |k: int| entries[k].key@);
    assert forall|key: Seq<u8>| mapping.dom().contains(key) <==> keys.to_set().contains(key) by {
        if mapping.dom().contains(key) {
            let k = dictionary_slot(entries@, key);
            assert(keys[k] == key);
        }
        if keys.to_set().contains(key) {
            let k = choose|k: int| 0 <= k < keys.len() && keys[k] == key;
            assert(entries[k].key@ == key);
        }
    }
    assert(mapping.dom() =~= keys.to_set());
    assert forall|k: int| 0 <= k < entries.len() implies mapping.dom().contains(
        (#[trigger] entries[k]).key@,
    ) && mapping[entries[k].key@] == entries[k].value@ by {
        let key = entries[k].key@;
        assert(dictionary_has(entries@, key));
        let found = dictionary_slot(entries@, key);
        assert(found == k);
    }
}

/// Whether the entries report each position of the array exactly once.
fn check_array_indices(entries: &Vec<ArrayEntry>) -> (exact: bool)
    ensures
        exact == array_indices_exact(entries@),
{
    let len = entries.len();
    let mut seen: Vec<bool> = Vec::with_capacity(len);
    let mut position: usize = 0;
    while position < len
        invariant
            position <= len,
            seen.len() == position,
            forall|p: int| 0 <= p < position ==> !seen[p],
        decreases len - position,
    {
        seen.push(false);
        position += 1;
    }
    let mut k: usize = 0;
    while k < len
        invariant
            k <= len,
            len == entries.len(),
            seen.len() == len,
            forall|j: int| 0 <= j < k ==> (#[trigger] entries[j]).index < len,
            forall|i: int, j: int|
                0 <= i < j < k ==> (#[trigger] entries[i]).index != (#[trigger] entries[j]).index,
            forall|p: int|
                0 <= p < len ==> (#[trigger] seen[p] <==> exists|j: int|
                    0 <= j < k && (#[trigger] entries[j]).index == p),
        decreases len - k,
    {
        let index = entries[k].index;
        if index >= len {
            return false;
        }
        if seen[index] {
            let ghost j = choose|j: int| 0 <= j < k && (#[trigger] entries[j]).index == index;
            assert(entries[j].index == entries[k as int].index);
            return false;
        }
        let ghost before = seen@;
        seen.set(index, true);
        assert forall|p: int| 0 <= p < len implies (#[trigger] seen[p] <==> exists|j: int|
            0 <= j < k + 1 && (#[trigger] entries[j]).index == p) by {
            if p == index {
                assert(entries[k as int].index == p);
            } else {
                if before[p] {
                    let j = choose|j: int| 0 <= j < k && (#[trigger] entries[j]).index == p;
                    assert(0 <= j < k + 1 && entries[j].index == p);
                }
                if exists|j: int| 0 <= j < k + 1 && (#[trigger] entries[j]).index == p {
                    let j = choose|j: int| 0 <= j < k + 1 && (#[trigger] entries[j]).index == p;
                    assert(j != k);
                    assert(0 <= j < k && entries[j].index == p);
                }
            }
        }
        k += 1;
    }
    let mut p: usize = 0;
    while p < len
        invariant
            p <= len,
            len == entries.len(),
            seen.len() == len,
            forall|q: int| 0 <= q < p ==> #[trigger] array_has(entries@, q),
            forall|q: int|
                0 <= q < len ==> (#[trigger] seen[q] <==> exists|j: int|
                    0 <= j < len && (#[trigger] entries[j]).index == q),
        decreases len - p,
    {
        if !seen[p] {
            assert(!array_has(entries@, p as int)) by {
                if array_has(entries@, p as int) {
                    let j = array_slot(entries@, p as int);
                    assert(0 <= j < len && entries[j].index == p);
                }
            }
            return false;
        }
        assert(array_has(entries@, p as int)) by {
            let j = choose|j: int| 0 <= j < len && (#[trigger] entries[j]).index == p;
            assert(entries@[j].index == p);
        }
        p += 1;
    }
    true
}

/// Whether the keys of the entries differ from one another.
fn check_dictionary_keys(entries: &Vec<DictionaryEntry>) -> (distinct: bool)
    ensures
        distinct == dictionary_keys_distinct(entries@),
{
    let len = entries.len();
    let mut k: usize = 0;
    while k < len
        invariant
            k <= len,
            len == entries.len(),
            forall|i: int, j: int|
                0 <= i < j < k ==> (#[trigger] entries[i]).key@ != (#[trigger] entries[j]).key@,
        decreases len - k,
    {
        let mut i: usize = 0;
        while i < k
            invariant
                i <= k < len,
                len == entries.len(),
                forall|h: int|
                    0 <= h < i ==> (#[trigger] entries[h]).key@ != entries[k as int].key@,
            decreases k - i,
        {
            if bytes_equal(entries[i].key.as_slice(), entries[k].key.as_slice()) {
                return false;
            }
            i += 1;
        }
        k += 1;
    }
    true
}

impl XpcObject {
    /// Whether the object is one the codec can decode.
    #[verifier::loop_isolation(false)]
    pub fn is_decodable(&self) -> (decodable: bool)
        ensures
            decodable == self.decodable(),
        decreases self,
    {
        match self {
            XpcObject::Activity => false,
            XpcObject::Endpoint => false,
            XpcObject::Shmem => false,
            XpcObject::String(bytes) => has_no_nul(bytes.as_slice()),
            XpcObject::Uuid(bytes) => bytes.len() == 16,
            XpcObject::Array(entries) => {
                if !check_array_indices(entries) {
                    return false;
                }
                let mut k: usize = 0;
                while k < entries.len()
                    invariant
                        k <= entries.len(),
                        forall|j: int| 0 <= j < k ==> (#[trigger] entries[j]).value.decodable(),
                    decreases entries.len() - k,
                {
                    if !entries[k].value.is_decodable() {
                        return false;
                    }
                    k += 1;
                }
                true
            },
            XpcObject::Dictionary(entries) => {
                if !check_dictionary_keys(entries) {
                    return false;
                }
                let mut k: usize = 0;
                while k < entries.len()
                    invariant
                        k <= entries.len(),
                        forall|j: int|
                            0 <= j < k ==> no_nul((#[trigger] entries[j]).key@)
                                && entries[j].value.decodable(),
                    decreases entries.len() - k,
                {
                    if !has_no_nul(entries[k].key.as_slice()) {
                        return false;
                    }
                    if !entries[k].value.is_decodable() {
                        return false;
                    }
                    k += 1;
                }
                true
            },
            _ => true,
        }
    }
}

/// Reports the type tag of a native object, together with the object.
pub fn xpc_object_to_xpctype(xpc_object: &XpcObject) -> (tagged: (XpcType, &XpcObject))
    ensures
        tagged.0 == xpc_object.type_tag(),
        tagged.1 == xpc_object,
{
    let tag = match xpc_object {
        XpcObject::Activity => XpcType::Activity,
        XpcObject::Array(_) => XpcType::Array,
        XpcObject::Bool(_) => XpcType::Bool,
        XpcObject::Connection(_) => XpcType::Connection,
        XpcObject::Data(_) => XpcType::Data,
        XpcObject::Date(_) => XpcType::Date,
        XpcObject::Dictionary(_) => XpcType::Dictionary,
        XpcObject::Double(_) => XpcType::Double,
        XpcObject::Endpoint => XpcType::Endpoint,
        XpcObject::Error(_) => XpcType::Error,
        XpcObject::Fd(_) => XpcType::Fd,
        XpcObject::Int64(_) => XpcType::Int64,
        XpcObject::Null => XpcType::Null,
        XpcObject::Shmem => XpcType::Shmem,
        XpcObject::String(_) => XpcType::String,
        XpcObject::Uint64(_) => XpcType::Uint64,
        XpcObject::Uuid(_) => XpcType::Uuid,
    };
    (tag, xpc_object)
}

} // verus!
