//! Byte-level text helpers: finding the tab delimiters, comparing byte
//! strings, and the UTF-8 boundary facts that let the record parser slice
//! a `&str` at byte offsets.

use vstd::prelude::*;
use vstd::utf8::*;

verus! {

/// The record delimiter.
pub const TAB: u8 = 9;

/// Index of the first tab at or after `from`, if any.
pub open spec fn spec_find_tab(bytes: Seq<u8>, from: int) -> Option<int>
    decreases bytes.len() - from,
{
    if from < 0 || from >= bytes.len() {
        None
    } else if bytes[from] == TAB {
        Some(from)
    } else {
        spec_find_tab(bytes, from + 1)
    }
}

/// What `spec_find_tab` finds: the least tab position at or after `from`,
/// or nothing when no tab follows.
pub proof fn lemma_find_tab_props(bytes: Seq<u8>, from: int)
    requires
        0 <= from,
    ensures
        match spec_find_tab(bytes, from) {
            Some(i) => from <= i < bytes.len() && bytes[i] == TAB && (forall|j: int|
                from <= j < i ==> bytes[j] != TAB),
            None => forall|j: int| from <= j < bytes.len() ==> bytes[j] != TAB,
        },
    decreases bytes.len() - from,
{
    if from < bytes.len() && bytes[from] != TAB {
        lemma_find_tab_props(bytes, from + 1);
    }
}

/// Finds the first tab at or after `from`.
pub fn find_tab(bytes: &[u8], from: usize) -> (r: Option<usize>)
    requires
        from <= bytes@.len(),
    ensures
        match r {
            Some(i) => spec_find_tab(bytes@, from as int) == Some(i as int),
            None => spec_find_tab(bytes@, from as int) is None,
        },
{
    let mut i: usize = from;
    while i < bytes.len()
        invariant
            from <= i <= bytes@.len(),
            spec_find_tab(bytes@, from as int) == spec_find_tab(bytes@, i as int),
        decreases bytes@.len() - i,
    {
        if bytes[i] == TAB {
            return Some(i);
        }
        i = i + 1;
    }
    None
}

/// Compares two byte strings for equality.
pub fn bytes_eq(a: &[u8], b: &[u8]) -> (r: bool)
    ensures
        r == (a@ == b@),
{
    if a.len() != b.len() {
        return false;
    }
    let mut i: usize = 0;
    while i < a.len()
        invariant
            i <= a@.len(),
            a@.len() == b@.len(),
            forall|j: int| 0 <= j < i ==> a@[j] == b@[j],
        decreases a@.len() - i,
    {
        if a[i] != b[i] {
            return false;
        }
        i = i + 1;
    }
    proof {
        assert(a@ =~= b@);
    }
    true
}

/// In a valid UTF-8 byte string, the position after an ASCII byte is a
/// character boundary: the next byte, if any, starts a new scalar.
pub proof fn lemma_boundary_after_ascii(bytes: Seq<u8>, i: int)
    requires
        valid_utf8(bytes),
        0 <= i < bytes.len(),
        bytes[i] < 128,
    ensures
        is_char_boundary(bytes, i + 1),
{
    broadcast use vstd::seq::group_seq_axioms;

    assert(!is_continuation_byte(bytes[i]));
    is_char_boundary_iff_not_is_continuation_byte(bytes, i);
    assert(is_char_boundary(bytes, i));
    valid_utf8_split(bytes, i);
    let tail = bytes.subrange(i, bytes.len() as int);
    assert(valid_utf8(tail));
    assert(tail[0] == bytes[i]);
    if i + 1 == bytes.len() {
        is_char_boundary_start_end_of_seq(bytes);
    } else {
        assert(valid_first_scalar(tail) && valid_utf8(pop_first_scalar(tail))) by {
            reveal_with_fuel(valid_utf8, 2);
        }
        assert(is_leading_byte_width_1(tail[0]));
        assert(length_of_first_scalar(tail) == 1);
        let rest = pop_first_scalar(tail);
        assert(rest =~= bytes.subrange(i + 1, bytes.len() as int));
        assert(rest.len() > 0);
        assert(valid_first_scalar(rest)) by {
            reveal_with_fuel(valid_utf8, 2);
        }
        assert(rest[0] == bytes[i + 1]);
        assert(!is_continuation_byte(bytes[i + 1]));
        is_char_boundary_iff_not_is_continuation_byte(bytes, i + 1);
    }
}

} // verus!
