//! From byte offsets to lines and columns.

use vstd::prelude::*;
use vstd::string::StringSliceAdditionalSpecFns;

verus! {

/// The offsets at which the lines of a text begin, among its first `upto` bytes:
/// offset zero, and each offset that follows a line feed.
pub open spec fn line_starts(bytes: Seq<u8>, upto: int) -> Seq<u32>
    decreases upto,
{
    if upto <= 0 || upto > bytes.len() {
        seq![0u32]
    } else if bytes[upto - 1] == 10u8 {
        line_starts(bytes, upto - 1).push(upto as u32)
    } else {
        line_starts(bytes, upto - 1)
    }
}

/// The number of lines, from the line at `from` on, that begin at or before
/// `offset`, added to `from`.
pub open spec fn lines_up_to(starts: Seq<u32>, offset: u32, from: int) -> int
    decreases starts.len() - from,
{
    if from < 0 || from >= starts.len() || starts[from] > offset {
        from
    } else {
        lines_up_to(starts, offset, from + 1)
    }
}

/// A position in a text: line and column, both counted from one, the column in
/// bytes.
#[derive(Clone, Copy, Debug, PartialEq, Eq, Structural)]
pub struct LineColumn {
    pub line: u64,
    pub column: u64,
}

/// The position of `offset` in a text whose lines begin at `starts`: the last
/// line that begins at or before the offset, and the distance from where that
/// line begins.
pub open spec fn position_of(starts: Seq<u32>, offset: u32) -> LineColumn {
    let line = lines_up_to(starts, offset, 0);
    if line <= 0 {
        LineColumn { line: 1, column: (offset + 1) as u64 }
    } else {
        LineColumn { line: line as u64, column: (offset - starts[line - 1] + 1) as u64 }
    }
}

/// Where the lines of a text begin.
#[derive(Clone, Debug)]
pub struct LineIndex {
    pub starts: Vec<u32>,
}

impl LineIndex {
    /// Finds where the lines of `source` begin.
    pub fn from_source_text(source: &str) -> (r: LineIndex)
        requires
            source.spec_bytes().len() <= u32::MAX,
        ensures
            r.starts@ == line_starts(source.spec_bytes(), source.spec_bytes().len() as int),
    {
        let bytes = source.as_bytes();
        let mut starts: Vec<u32> = Vec::new();
        starts.push(0);
        let mut i: usize = 0;
        while i < bytes.len()
            invariant
                i <= bytes.len(),
                bytes@ == source.spec_bytes(),
                bytes@.len() <= u32::MAX,
                starts@ == line_starts(bytes@, i as int),
            decreases bytes.len() - i,
        {
            if bytes[i] == 10u8 {
                starts.push((i + 1) as u32);
            }
            i += 1;
        }
        LineIndex { starts }
    }

    /// The number of lines.
    pub fn line_count(&self) -> (r: usize)
        ensures
            r == self.starts@.len(),
    {
        self.starts.len()
    }

    /// The line and the column of `offset`.
    pub fn line_column(&self, offset: u32) -> (r: LineColumn)
        ensures
            r == position_of(self.starts@, offset),
    {
        let mut line: usize = 0;
        while line < self.starts.len() && self.starts[line] <= offset
            invariant
                line <= self.starts.len(),
                lines_up_to(self.starts@, offset, 0) == lines_up_to(
                    self.starts@,
                    offset,
                    line as int,
                ),
                line > 0 ==> self.starts@[line - 1] <= offset,
            decreases self.starts.len() - line,
        {
            line += 1;
        }
        if line == 0 {
            LineColumn { line: 1, column: offset as u64 + 1 }
        } else {
            LineColumn { line: line as u64, column: (offset - self.starts[line - 1]) as u64 + 1 }
        }
    }
}

/// The lines of a text begin in ascending order, the first of them at offset
/// zero, and each of the others right after a line feed.
pub proof fn lemma_line_starts(bytes: Seq<u8>, upto: int)
    requires
        0 <= upto <= bytes.len() <= u32::MAX,
    ensures
        line_starts(bytes, upto).len() >= 1,
        line_starts(bytes, upto)[0] == 0,
        forall|k: int|
            0 <= k < line_starts(bytes, upto).len() ==> (#[trigger] line_starts(bytes, upto)[k])
                <= upto,
        forall|k: int|
            1 <= k < line_starts(bytes, upto).len() ==> bytes[(#[trigger] line_starts(
                bytes,
                upto,
            )[k]) - 1] == 10u8,
        forall|j: int, k: int|
            0 <= j < k < line_starts(bytes, upto).len() ==> line_starts(bytes, upto)[j]
                < line_starts(bytes, upto)[k],
    decreases upto,
{
    if upto > 0 {
        lemma_line_starts(bytes, upto - 1);
    }
}

} // verus!
