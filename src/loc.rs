use vstd::prelude::*;
use vstd::string::*;
use vstd::utf8::*;

use crate::utf8_facts::lemma_boundary_in_prefix;

verus! {

broadcast use vstd::utf8::encode_utf8_valid_utf8, vstd::utf8::encode_utf8_decode_utf8;

/// A half-open byte range `[start, end)` into a source text, with the
/// identifier of that text in a library of several, if any.
#[derive(Clone, Copy, PartialEq, Eq, Structural, Debug)]
pub struct Loc {
    pub start: usize,
    pub end: usize,
    pub file: Option<usize>,
}

/// The characters that the bytes `[lo, hi)` of a valid text encode.
pub open spec fn chars_between(bytes: Seq<u8>, lo: int, hi: int) -> Seq<char> {
    decode_utf8(bytes.subrange(lo, hi))
}

/// A span that can be cut out of a text: it ends inside the text and both of
/// its ends start a character.
pub open spec fn fits(loc: Loc, bytes: Seq<u8>) -> bool {
    &&& loc.start <= loc.end <= bytes.len()
    &&& is_char_boundary(bytes, loc.start as int)
    &&& is_char_boundary(bytes, loc.end as int)
}

/// The part of `text` between two character boundaries.
pub(crate) fn sub_str<'a>(text: &'a str, lo: usize, hi: usize) -> (r: &'a str)
    requires
        lo <= hi <= text.spec_bytes().len(),
        is_char_boundary(text.spec_bytes(), lo as int),
        is_char_boundary(text.spec_bytes(), hi as int),
    ensures
        r.spec_bytes() == text.spec_bytes().subrange(lo as int, hi as int),
        r@ == chars_between(text.spec_bytes(), lo as int, hi as int),
{
    let ghost bytes = text.spec_bytes();
    proof {
        lemma_boundary_in_prefix(bytes, hi as int, lo as int);
    }
    let (head, _) = text.split_at(hi);
    let (_, mid) = head.split_at(lo);
    proof {
        assert(mid.spec_bytes() =~= bytes.subrange(lo as int, hi as int));
        assert(decode_utf8(encode_utf8(mid@)) == mid@);
    }
    mid
}

impl Loc {
    /// A span from `start` to `end`; a start after the end is a caller's
    /// mistake, ruled out by the precondition.
    pub fn new(start: usize, end: usize) -> (r: Loc)
        requires
            start <= end,
        ensures
            r.start == start,
            r.end == end,
            r.file.is_none(),
    {
        Loc { start, end, file: None }
    }

    /// A span from `start` to `end` in the text registered as `file`.
    pub fn in_file(start: usize, end: usize, file: usize) -> (r: Loc)
        requires
            start <= end,
        ensures
            r.start == start,
            r.end == end,
            r.file == Some(file),
    {
        Loc { start, end, file: Some(file) }
    }

    /// The text that the span covers.
    pub fn slice<'a>(&self, source: &'a str) -> (r: &'a str)
        requires
            fits(*self, source.spec_bytes()),
        ensures
            r.spec_bytes() == source.spec_bytes().subrange(self.start as int, self.end as int),
            r@ == chars_between(source.spec_bytes(), self.start as int, self.end as int),
    {
        sub_str(source, self.start, self.end)
    }
}

} // verus!
