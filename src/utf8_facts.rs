//! Facts about UTF-8 byte sequences that the newline index relies on: a
//! newline byte, and the byte after it, both start a character.

use vstd::prelude::*;
use vstd::utf8::*;

verus! {

/// The byte value of `'\n'`.
pub const NEWLINE: u8 = 10;

/// In valid UTF-8, an index inside the text is a character boundary exactly
/// when the byte there is not a continuation byte; so a newline byte starts a
/// character.
pub proof fn lemma_newline_is_boundary(bytes: Seq<u8>, i: int)
    requires
        valid_utf8(bytes),
        0 <= i < bytes.len(),
        bytes[i] == NEWLINE,
    ensures
        is_char_boundary(bytes, i),
{
    is_char_boundary_iff_not_is_continuation_byte(bytes, i);
}

/// An ASCII byte is a whole character, so the byte after it is never a
/// continuation byte.
proof fn lemma_after_ascii_not_continuation(bytes: Seq<u8>, i: int)
    requires
        valid_utf8(bytes),
        0 <= i,
        i + 1 < bytes.len(),
        bytes[i] <= 0x7f,
    ensures
        !is_continuation_byte(bytes[i + 1]),
    decreases bytes.len(),
{
    reveal_with_fuel(valid_utf8, 2);
    let n = length_of_first_scalar(bytes);
    let rest = pop_first_scalar(bytes);
    assert(rest.len() == bytes.len() - n);
    if i == 0 {
        assert(n == 1);
        assert(rest[0] == bytes[1]);
        assert(valid_first_scalar(rest));
    } else if i < n {
        assert(is_continuation_byte(bytes[i]));
    } else {
        assert forall|j: int| 0 <= j < rest.len() implies rest[j] == bytes[j + n] by {}
        lemma_after_ascii_not_continuation(rest, i - n);
    }
}

/// The index just past a newline byte is a character boundary.
pub proof fn lemma_after_newline_is_boundary(bytes: Seq<u8>, i: int)
    requires
        valid_utf8(bytes),
        0 <= i < bytes.len(),
        bytes[i] == NEWLINE,
    ensures
        is_char_boundary(bytes, i + 1),
{
    if i + 1 == bytes.len() {
        is_char_boundary_start_end_of_seq(bytes);
    } else {
        lemma_after_ascii_not_continuation(bytes, i);
        is_char_boundary_iff_not_is_continuation_byte(bytes, i + 1);
    }
}

/// A boundary of a text at or before `end` is also a boundary of the text's
/// first `end` bytes, when `end` itself is a boundary.
pub proof fn lemma_boundary_in_prefix(bytes: Seq<u8>, end: int, i: int)
    requires
        valid_utf8(bytes),
        0 <= i <= end <= bytes.len(),
        is_char_boundary(bytes, end),
        is_char_boundary(bytes, i),
    ensures
        valid_utf8(bytes.subrange(0, end)),
        is_char_boundary(bytes.subrange(0, end), i),
{
    let head = bytes.subrange(0, end);
    valid_utf8_split(bytes, end);
    if i == end {
        is_char_boundary_start_end_of_seq(head);
    } else {
        is_char_boundary_iff_not_is_continuation_byte(bytes, i);
        is_char_boundary_iff_not_is_continuation_byte(head, i);
    }
}

} // verus!
