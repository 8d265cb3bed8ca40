//! Byte ranges into a source text, and the text they select.

use vstd::prelude::*;
use vstd::string::StringSliceAdditionalSpecFns;
use vstd::utf8::*;

verus! {

/// A half-open range of byte offsets into a source text.
#[derive(Clone, Copy, Debug, PartialEq, Eq, Structural)]
pub struct TextRange {
    pub start: u32,
    pub end: u32,
}

impl TextRange {
    pub fn new(start: u32, end: u32) -> (r: TextRange)
        ensures
            r.start == start,
            r.end == end,
    {
        TextRange { start, end }
    }

    pub fn start(&self) -> (r: u32)
        ensures
            r == self.start,
    {
        self.start
    }

    pub fn end(&self) -> (r: u32)
        ensures
            r == self.end,
    {
        self.end
    }

    /// The number of bytes covered; zero for a range that is not well formed.
    pub fn len(&self) -> (r: u32)
        ensures
            r == if self.start <= self.end { self.end - self.start } else { 0 },
    {
        if self.start <= self.end {
            self.end - self.start
        } else {
            0
        }
    }

    pub fn is_empty(&self) -> (r: bool)
        ensures
            r == (self.start >= self.end),
    {
        self.start >= self.end
    }
}

/// The text between the byte offsets `start` and `end` of `source`: those bytes,
/// decoded, when the two lie in order within the text and both fall between
/// characters.
pub open spec fn text_between(source: Seq<char>, start: int, end: int) -> Option<Seq<char>> {
    let bytes = encode_utf8(source);
    if 0 <= start <= end <= bytes.len() && is_char_boundary(bytes, start) && is_char_boundary(
        bytes,
        end,
    ) {
        Some(decode_utf8(bytes.subrange(start, end)))
    } else {
        None
    }
}

/// The text that `range` selects from `source`.
pub open spec fn text_at(source: Seq<char>, range: TextRange) -> Option<Seq<char>> {
    text_between(source, range.start as int, range.end as int)
}

/// A boundary of the whole text that lies at or after `start` is a boundary of the
/// text that begins at `start`.
proof fn lemma_boundary_in_suffix(bytes: Seq<u8>, start: int, end: int)
    requires
        valid_utf8(bytes),
        0 <= start <= end <= bytes.len(),
        is_char_boundary(bytes, start),
    ensures
        valid_utf8(bytes.subrange(start, bytes.len() as int)),
        is_char_boundary(bytes, end) == is_char_boundary(
            bytes.subrange(start, bytes.len() as int),
            end - start,
        ),
{
    let tail = bytes.subrange(start, bytes.len() as int);
    valid_utf8_split(bytes, start);
    if end < bytes.len() {
        is_char_boundary_iff_not_is_continuation_byte(bytes, end);
        is_char_boundary_iff_not_is_continuation_byte(tail, end - start);
        assert(tail[end - start] == bytes[end]);
    } else {
        is_char_boundary_start_end_of_seq(bytes);
        is_char_boundary_start_end_of_seq(tail);
    }
}

/// Selects the text between the byte offsets `start` and `end` of `source`, or
/// nothing where the two do not select whole characters of it.
pub fn slice_between<'a>(source: &'a str, start: usize, end: usize) -> (r: Option<&'a str>)
    ensures
        match r {
            Some(t) => text_between(source@, start as int, end as int) == Some(t@),
            None => text_between(source@, start as int, end as int).is_none(),
        },
{
    proof {
        encode_utf8_valid_utf8(source@);
    }
    if start > end || end > source.as_bytes().len() {
        return None;
    }
    if !source.is_char_boundary(start) || !source.is_char_boundary(end) {
        return None;
    }
    let (_, tail) = source.split_at(start);
    proof {
        lemma_boundary_in_suffix(source.spec_bytes(), start as int, end as int);
    }
    let (picked, _) = tail.split_at(end - start);
    proof {
        let bytes = source.spec_bytes();
        assert(picked.spec_bytes() =~= bytes.subrange(start as int, end as int));
        encode_utf8_decode_utf8(picked@);
    }
    Some(picked)
}

/// Selects the text of `range` from `source`, or nothing where the range does not
/// select whole characters of it.
pub fn slice_text<'a>(source: &'a str, range: TextRange) -> (r: Option<&'a str>)
    ensures
        match r {
            Some(t) => text_at(source@, range) == Some(t@),
            None => text_at(source@, range).is_none(),
        },
{
    slice_between(source, range.start as usize, range.end as usize)
}

/// Whether two strings hold the same characters.
pub fn str_eq(a: &str, b: &str) -> (r: bool)
    ensures
        r == (a@ == b@),
{
    let x = a.as_bytes();
    let y = b.as_bytes();
    proof {
        encode_utf8_decode_utf8(a@);
        encode_utf8_decode_utf8(b@);
    }
    if x.len() != y.len() {
        return false;
    }
    let mut i: usize = 0;
    while i < x.len()
        invariant
            i <= x.len(),
            x.len() == y.len(),
            x@ == a.spec_bytes(),
            y@ == b.spec_bytes(),
            forall|j: int| 0 <= j < i ==> x@[j] == y@[j],
        decreases x.len() - i,
    {
        if x[i] != y[i] {
            return false;
        }
        i += 1;
    }
    assert(x@ =~= y@);
    true
}

/// No line break lies in the bytes from `from` up to `to`; vacuously so where the
/// two are out of order.
pub open spec fn no_newline_between(bytes: Seq<u8>, from: int, to: int) -> bool {
    forall|i: int| from <= i < to && 0 <= i < bytes.len() ==> bytes[i] != 10u8
}

/// Whether the offsets `from` and `to` lie on one line of `source`.
pub fn same_line(source: &str, from: u32, to: u32) -> (r: bool)
    ensures
        r == no_newline_between(source.spec_bytes(), from as int, to as int),
{
    let bytes = source.as_bytes();
    let mut i: usize = from as usize;
    let stop: usize = if (to as usize) < bytes.len() {
        to as usize
    } else {
        bytes.len()
    };
    while i < stop
        invariant
            from <= i,
            stop <= bytes.len(),
            stop <= to,
            stop == to || stop == bytes.len(),
            bytes@ == source.spec_bytes(),
            forall|j: int| from <= j < i && 0 <= j < bytes.len() ==> bytes@[j] != 10u8,
        decreases stop - i,
    {
        if bytes[i] == 10u8 {
            return false;
        }
        i += 1;
    }
    true
}

} // verus!
