//! A listing of a syntax tree, one line for each node.

use crate::cst::CstNode;
use crate::source_index::{position_of, LineColumn, LineIndex};
use vstd::prelude::*;
use vstd::string::{StrSliceExecFns, StringExecFns};

verus! {

/// The line of a listing that describes one node.
#[derive(Clone, Debug)]
pub struct DumpLine {
    /// How deep the node lies below the root.
    pub depth: usize,
    /// The kind of the node.
    pub kind: String,
    /// Where the node starts.
    pub start: LineColumn,
    /// Where the node ends.
    pub end: LineColumn,
    /// For a node without children, the first characters of its text, with its
    /// line breaks shown as arrows.
    pub preview: Option<String>,
}

pub struct DumpLineView {
    pub depth: usize,
    pub kind: Seq<char>,
    pub start: LineColumn,
    pub end: LineColumn,
    pub preview: Option<Seq<char>>,
}

impl View for DumpLine {
    type V = DumpLineView;

    open spec fn view(&self) -> DumpLineView {
        DumpLineView {
            depth: self.depth,
            kind: self.kind@,
            start: self.start,
            end: self.end,
            preview: match self.preview {
                Some(text) => Some(text@),
                None => None,
            },
        }
    }
}

/// The views of the lines of a listing, in order.
pub open spec fn dump_view(lines: Seq<DumpLine>) -> Seq<DumpLineView> {
    lines.map_values(|l: DumpLine| l@)
}

/// The first `limit` characters of `text`; all of it where it has no more.
pub open spec fn first_chars(text: Seq<char>, limit: int) -> Seq<char> {
    if text.len() <= limit {
        text
    } else {
        text.subrange(0, limit)
    }
}

/// The character that a listing shows for `c`: a return arrow for a line feed,
/// and every other character as it is.
pub open spec fn shown_char(c: char) -> char {
    if c == '\n' {
        '\u{21b5}'
    } else {
        c
    }
}

/// The text as a listing shows it on one line: with an arrow for each line feed.
pub open spec fn shown(text: Seq<char>) -> Seq<char> {
    text.map_values(|c: char| shown_char(c))
}

/// The line that describes `node`: a node without children shows the first
/// forty characters of its text, with an arrow for each line feed, and no text
/// where its text cannot be had.
pub open spec fn line_for(source: Seq<char>, starts: Seq<u32>, node: CstNode, depth: usize)
    -> DumpLineView {
    DumpLineView {
        depth,
        kind: node.kind@,
        start: position_of(starts, node.range.start),
        end: position_of(starts, node.range.end),
        preview: if node.children@.len() == 0 {
            Some(
                match node.text_in(source) {
                    Some(text) => shown(first_chars(text, 40)),
                    None => Seq::<char>::empty(),
                },
            )
        } else {
            None
        },
    }
}

/// The listing of the tree below `node`: the line of the node itself, then the
/// listings of its children, one level deeper. The depth stops growing at the
/// largest number it can hold.
pub open spec fn listing(source: Seq<char>, starts: Seq<u32>, node: CstNode, depth: usize) -> Seq<
    DumpLineView,
>
    decreases node,
{
    seq![line_for(source, starts, node, depth)] + listing_among(
        source,
        starts,
        node.children@,
        0,
        deeper(depth),
    )
}

/// One level below `depth`.
pub open spec fn deeper(depth: usize) -> usize {
    if depth < usize::MAX {
        (depth + 1) as usize
    } else {
        depth
    }
}

/// The listings of the trees from `from` on.
pub open spec fn listing_among(
    source: Seq<char>,
    starts: Seq<u32>,
    nodes: Seq<CstNode>,
    from: int,
    depth: usize,
) -> Seq<DumpLineView>
    decreases nodes, nodes.len() - from,
{
    if from < 0 || from >= nodes.len() {
        Seq::empty()
    } else {
        listing(source, starts, nodes[from], depth) + listing_among(
            source,
            starts,
            nodes,
            from + 1,
            depth,
        )
    }
}

/// The text as a listing shows it on one line.
pub fn show_breaks(text: &str) -> (r: String)
    ensures
        r@ == shown(text@),
{
    let n = text.unicode_len();
    let mut out = String::new();
    let mut i: usize = 0;
    assert(out@ =~= shown(text@.subrange(0, 0)));
    while i < n
        invariant
            i <= n,
            n == text@.len(),
            out@ == shown(text@.subrange(0, i as int)),
        decreases n - i,
    {
        if text.get_char(i) == '\n' {
            proof {
                reveal_strlit("\u{21b5}");
            }
            out.append("\u{21b5}");
        } else {
            out.append(text.substring_char(i, i + 1));
        }
        assert(out@ =~= shown(text@.subrange(0, i as int + 1)));
        i += 1;
    }
    assert(text@.subrange(0, n as int) =~= text@);
    out
}

/// The line that describes `node`.
pub fn dump_line(node: &CstNode, source: &str, index: &LineIndex, depth: usize) -> (r: DumpLine)
    ensures
        r@ == line_for(source@, index.starts@, *node, depth),
{
    let preview = if node.children.len() == 0 {
        match node.text(source) {
            Some(text) => {
                let n = text.unicode_len();
                if n <= 40 {
                    Some(show_breaks(text))
                } else {
                    Some(show_breaks(text.substring_char(0, 40)))
                }
            },
            None => Some(String::new()),
        }
    } else {
        None
    };
    DumpLine {
        depth,
        kind: String::from_str(node.kind()),
        start: index.line_column(node.range.start),
        end: index.line_column(node.range.end),
        preview,
    }
}

/// Adds the listing of the tree below `node` to `lines`.
pub fn print_tree(
    node: &CstNode,
    source: &str,
    index: &LineIndex,
    depth: usize,
    lines: &mut Vec<DumpLine>,
)
    ensures
        dump_view(final(lines)@) == dump_view(old(lines)@) + listing(
            source@,
            index.starts@,
            *node,
            depth,
        ),
    decreases *node,
{
    let line = dump_line(node, source, index, depth);
    lines.push(line);
    let ghost at_node = dump_view(lines@);
    assert(at_node =~= dump_view(old(lines)@) + seq![line@]);
    let below = if depth < usize::MAX {
        depth + 1
    } else {
        depth
    };
    let ghost mut done: Seq<DumpLineView> = Seq::empty();
    assert(dump_view(lines@) =~= at_node + done);
    let mut i: usize = 0;
    while i < node.children.len()
        invariant
            i <= node.children.len(),
            below == deeper(depth),
            dump_view(lines@) == at_node + done,
            done + listing_among(source@, index.starts@, node.children@, i as int, below)
                == listing_among(source@, index.starts@, node.children@, 0, below),
        decreases node.children.len() - i,
    {
        let ghost one = listing(source@, index.starts@, node.children@[i as int], below);
        let ghost rest = listing_among(source@, index.starts@, node.children@, i as int + 1, below);
        print_tree(&node.children[i], source, index, below, lines);
        proof {
            assert(dump_view(lines@) =~= at_node + (done + one));
            assert((done + one) + rest =~= done + (one + rest));
            done = done + one;
        }
        i += 1;
    }
    assert(done =~= listing_among(source@, index.starts@, node.children@, 0, below));
    assert(dump_view(lines@) =~= dump_view(old(lines)@) + listing(
        source@,
        index.starts@,
        *node,
        depth,
    ));
}

/// The listing of the tree below `root`.
pub fn dump_tree(root: &CstNode, source: &str, index: &LineIndex) -> (r: Vec<DumpLine>)
    ensures
        dump_view(r@) == listing(source@, index.starts@, *root, 0),
{
    let mut lines: Vec<DumpLine> = Vec::new();
    assert(dump_view(lines@) =~= Seq::empty());
    print_tree(root, source, index, 0, &mut lines);
    assert(dump_view(lines@) =~= listing(source@, index.starts@, *root, 0));
    lines
}

} // verus!
