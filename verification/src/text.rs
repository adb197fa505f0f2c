//! Text as the transport sees it: a run of bytes that ends before the first
//! terminator byte.
//!
//! Inside the library text is kept without its terminator. A caller may hand
//! over text that still carries one terminator at its end; it is taken off
//! where the text enters the library's own representation.

use vstd::prelude::*;

verus! {

/// Whether `bytes` holds no terminator byte.
pub open spec fn no_nul(bytes: Seq<u8>) -> bool {
    forall|i: int| 0 <= i < bytes.len() ==> bytes[i] != 0u8
}

/// Whether `bytes` ends in a terminator byte.
pub open spec fn has_terminator(bytes: Seq<u8>) -> bool {
    bytes.len() > 0 && bytes.last() == 0u8
}

/// `bytes` without the one terminator byte at its end, if it has one.
pub open spec fn text_content(bytes: Seq<u8>) -> Seq<u8> {
    if has_terminator(bytes) {
        bytes.drop_last()
    } else {
        bytes
    }
}

/// Whether `bytes` is text a caller may hand over: no terminator byte but,
/// at most, one at the very end.
pub open spec fn is_text(bytes: Seq<u8>) -> bool {
    no_nul(text_content(bytes))
}

/// Whether `bytes` is text that ends in its terminator byte and holds no
/// other.
pub open spec fn is_nul_terminated(bytes: Seq<u8>) -> bool {
    has_terminator(bytes) && no_nul(bytes.drop_last())
}

/// Text without a terminator byte is its own content.
pub proof fn lemma_content_of_clean_text(bytes: Seq<u8>)
    requires
        no_nul(bytes),
    ensures
        text_content(bytes) == bytes,
        is_text(bytes),
{
}

/// Whether `bytes` holds no terminator byte.
pub fn has_no_nul(bytes: &[u8]) -> (clean: bool)
    ensures
        clean == no_nul(bytes@),
{
    let mut i: usize = 0;
    while i < bytes.len()
        invariant
            i <= bytes.len(),
            forall|j: int| 0 <= j < i ==> bytes@[j] != 0u8,
        decreases bytes.len() - i,
    {
        if bytes[i] == 0 {
            return false;
        }
        i += 1;
    }
    true
}

/// A copy of the first `len` bytes of `bytes`.
pub fn copy_prefix(bytes: &[u8], len: usize) -> (copy: Vec<u8>)
    requires
        len <= bytes@.len(),
    ensures
        copy@ == bytes@.subrange(0, len as int),
{
    let mut copy: Vec<u8> = Vec::with_capacity(len);
    let mut i: usize = 0;
    while i < len
        invariant
            i <= len <= bytes@.len(),
            copy@ == bytes@.subrange(0, i as int),
        decreases len - i,
    {
        copy.push(bytes[i]);
        i += 1;
    }
    copy
}

/// A copy of `bytes`. The copy shares nothing with the original.
pub fn copy_bytes(bytes: &[u8]) -> (copy: Vec<u8>)
    ensures
        copy@ == bytes@,
{
    let copy = copy_prefix(bytes, bytes.len());
    assert(bytes@.subrange(0, bytes@.len() as int) == bytes@);
    copy
}

/// A copy of `bytes` without the one terminator byte at its end, if it has
/// one.
pub fn copy_text_content(bytes: &[u8]) -> (content: Vec<u8>)
    ensures
        content@ == text_content(bytes@),
{
    let len = bytes.len();
    if len > 0 && bytes[len - 1] == 0 {
        copy_prefix(bytes, len - 1)
    } else {
        copy_bytes(bytes)
    }
}

/// Whether `bytes` is text a caller may hand over.
pub fn check_text(bytes: &[u8]) -> (valid: bool)
    ensures
        valid == is_text(bytes@),
{
    let len = bytes.len();
    let content_len = if len > 0 && bytes[len - 1] == 0 {
        len - 1
    } else {
        len
    };
    let ghost content = text_content(bytes@);
    assert(content == bytes@.subrange(0, content_len as int));
    let mut i: usize = 0;
    while i < content_len
        invariant
            i <= content_len <= bytes@.len(),
            content == text_content(bytes@),
            content == bytes@.subrange(0, content_len as int),
            forall|j: int| 0 <= j < i ==> content[j] != 0u8,
        decreases content_len - i,
    {
        if bytes[i] == 0 {
            assert(content[i as int] == 0u8);
            return false;
        }
        i += 1;
    }
    true
}

/// Whether `bytes` is text that ends in its terminator byte and holds no
/// other.
pub fn check_nul_terminated(bytes: &[u8]) -> (valid: bool)
    ensures
        valid == is_nul_terminated(bytes@),
{
    let len = bytes.len();
    if len == 0 || bytes[len - 1] != 0 {
        return false;
    }
    check_text(bytes)
}

/// Whether `left` and `right` hold the same bytes.
pub fn bytes_equal(left: &[u8], right: &[u8]) -> (same: bool)
    ensures
        same == (left@ == right@),
{
    if left.len() != right.len() {
        return false;
    }
    let mut i: usize = 0;
    while i < left.len()
        invariant
            i <= left.len(),
            left.len() == right.len(),
            forall|j: int| 0 <= j < i ==> left@[j] == right@[j],
        decreases left.len() - i,
    {
        if left[i] != right[i] {
            return false;
        }
        i += 1;
    }
    assert(left@ =~= right@);
    true
}

} // verus!
