//! The Macrocell text format: writing a node and reading one back.
use vstd::prelude::*;

use std::collections::HashMap;
use vstd::string::StringSliceAdditionalSpecFns;

use crate::block::Block;
use crate::node::{children_ok, depth_of, pop_of, wf, Content, Engine, Node, MAX_DEPTH, MIN_WIDTH_LOG2};
use crate::quad::Quad;

verus! {

/// The two header lines: `[M2] (metalife 1.0)` and `#R B3/S23`.
pub open spec fn header_spec() -> Seq<u8> {
    seq![
        91u8, 77u8, 50u8, 93u8, 32u8, 40u8, 109u8, 101u8, 116u8, 97u8, 108u8, 105u8, 102u8,
        101u8, 32u8, 49u8, 46u8, 48u8, 41u8, 10u8, 35u8, 82u8, 32u8, 66u8, 51u8, 47u8, 83u8,
        50u8, 51u8, 10u8,
    ]
}

/// The header lines as bytes.
fn header() -> (r: [u8; 30])
    ensures
        r@ == header_spec(),
{
    [
        91, 77, 50, 93, 32, 40, 109, 101, 116, 97, 108, 105, 102, 101, 32, 49, 46, 48, 41, 10, 35,
        82, 32, 66, 51, 47, 83, 50, 51, 10,
    ]
}

/// ASCII `0`.
pub const DIGIT_ZERO: u8 = 48;
/// ASCII `9`.
pub const DIGIT_NINE: u8 = 57;
/// ASCII `*`: a live cell.
pub const LIVE: u8 = 42;
/// ASCII `.`: a dead cell.
pub const DEAD: u8 = 46;
/// ASCII `$`: end of a block row.
pub const ROW_END: u8 = 36;
/// ASCII space.
pub const SPACE: u8 = 32;
/// ASCII tab.
pub const TAB: u8 = 9;
/// ASCII line feed.
pub const LF: u8 = 10;
/// ASCII carriage return.
pub const CR: u8 = 13;
/// ASCII `#`: a comment line.
pub const HASH: u8 = 35;

/// Whether every byte is ASCII.
pub open spec fn ascii(b: Seq<u8>) -> bool {
    forall|i: int| 0 <= i < b.len() ==> b[i] < 128
}

/// Writes a node DAG depth first, each distinct child before its parent.
pub struct McWriter {
    pub out: Vec<u8>,
    pub nodes: HashMap<u64, (Node, usize)>,
    pub blocks: HashMap<u64, usize>,
    pub last: usize,
}

impl McWriter {
    pub fn new() -> (r: McWriter)
        ensures
            r.out@ == Seq::<u8>::empty(),
            r.last == 0,
    {
        McWriter { out: Vec::new(), nodes: HashMap::new(), blocks: HashMap::new(), last: 0 }
    }

    /// Writes the header and then `node`.
    pub fn write(&mut self, node: &Node)
        requires
            ascii(old(self).out@),
            wf(*node),
        ensures
            ascii(final(self).out@),
            final(self).out@.len() >= old(self).out@.len() + 30,
            final(self).out@.subrange(old(self).out@.len() as int, old(self).out@.len() + 30int)
                == header_spec(),
    {
        self.write_header();
        let ghost mid = self.out@;
        self.write_node(node);
        assert(self.out@.subrange(old(self).out@.len() as int, old(self).out@.len() + 30int) =~= mid.subrange(
            old(self).out@.len() as int,
            old(self).out@.len() + 30int,
        ));
    }

    /// Appends the two header lines.
    pub fn write_header(&mut self)
        requires
            ascii(old(self).out@),
        ensures
            ascii(final(self).out@),
            final(self).out@ == old(self).out@ + header_spec(),
            final(self).last == old(self).last,
    {
        let h = header();
        let mut i: usize = 0;
        while i < 30
            invariant
                i <= 30,
                h@ == header_spec(),
                self.out@ == old(self).out@ + h@.subrange(0, i as int),
                ascii(old(self).out@),
                self.last == old(self).last,
            decreases 30 - i,
        {
            self.out.push(h[i]);
            i = i + 1;
            assert(h@.subrange(0, i as int) =~= h@.subrange(0, i - 1 as int).push(h@[i - 1]));
        }
        assert(h@.subrange(0, 30) =~= h@);
    }

    /// Appends `v` in decimal.
    pub fn write_number(&mut self, v: u64)
        requires
            ascii(old(self).out@),
        ensures
            ascii(final(self).out@),
            old(self).out@.is_prefix_of(final(self).out@),
            final(self).last == old(self).last,
    {
        let mut digits: Vec<u8> = Vec::new();
        let mut x = v;
        loop
            invariant
                self.out@ == old(self).out@,
                self.last == old(self).last,
                forall|j: int| 0 <= j < digits@.len() ==> digits@[j] < 128,
            decreases x,
        {
            digits.push((DIGIT_ZERO as u64 + x % 10) as u8);
            assert(digits@[digits@.len() - 1] < 128);
            x = x / 10;
            if x == 0 {
                break;
            }
        }
        let mut i = digits.len();
        while i > 0
            invariant
                i <= digits@.len(),
                old(self).out@.is_prefix_of(self.out@),
                self.last == old(self).last,
                ascii(self.out@),
                forall|j: int| 0 <= j < digits@.len() ==> digits@[j] < 128,
            decreases i,
        {
            i = i - 1;
            self.out.push(digits[i]);
        }
    }

    /// Appends one row of a block record: `.` and `*` up to the last live
    /// cell, then `$`.
    pub fn write_row(&mut self, row: u8)
        requires
            ascii(old(self).out@),
        ensures
            ascii(final(self).out@),
            old(self).out@.is_prefix_of(final(self).out@),
            final(self).last == old(self).last,
    {
        let mut dollar: u8 = 0;
        let mut i: u8 = 0;
        while i < 8
            invariant
                i <= 8,
                dollar <= i,
            decreases 8 - i,
        {
            if (row >> (7 - i)) & 1 == 1 {
                dollar = i + 1;
            }
            i = i + 1;
        }
        let mut j: u8 = 0;
        while j < dollar
            invariant
                j <= dollar <= 8,
                old(self).out@.is_prefix_of(self.out@),
                ascii(self.out@),
                self.last == old(self).last,
            decreases dollar - j,
        {
            if (row >> (7 - j)) & 1 == 1 {
                self.out.push(LIVE);
            } else {
                self.out.push(DEAD);
            }
            j = j + 1;
        }
        self.out.push(ROW_END);
    }

    /// Appends a node record after the records of its children.
    pub fn write_node(&mut self, node: &Node)
        requires
            ascii(old(self).out@),
            wf(*node),
        ensures
            ascii(final(self).out@),
            old(self).out@.is_prefix_of(final(self).out@),
        decreases *node, 0nat,
    {
        let ghost s0 = self.out@;
        let size = node.width_log2();
        let (a, b, c, d) = match &node.0.content {
            Content::Leaf(q) => {
                let a = self.maybe_write_block(q.nw);
                let b = self.maybe_write_block(q.ne);
                let c = self.maybe_write_block(q.sw);
                let d = self.maybe_write_block(q.se);
                (a, b, c, d)
            },
            Content::Inner(_, q) => {
                proof {
                    assert(wf(q.nw) && wf(q.ne) && wf(q.sw) && wf(q.se));
                }
                let a = self.maybe_write_node(&q.nw);
                let b = self.maybe_write_node(&q.ne);
                let c = self.maybe_write_node(&q.sw);
                let d = self.maybe_write_node(&q.se);
                (a, b, c, d)
            },
        };
        proof {
            lemma_prefix_trans(s0, s0, self.out@);
        }
        self.put_number(Ghost(s0), size as u64);
        self.put(Ghost(s0), SPACE);
        self.put_number(Ghost(s0), a as u64);
        self.put(Ghost(s0), SPACE);
        self.put_number(Ghost(s0), b as u64);
        self.put(Ghost(s0), SPACE);
        self.put_number(Ghost(s0), c as u64);
        self.put(Ghost(s0), SPACE);
        self.put_number(Ghost(s0), d as u64);
        self.put(Ghost(s0), LF);
    }

    /// Appends a byte, keeping `start` a prefix of the output.
    fn put(&mut self, Ghost(start): Ghost<Seq<u8>>, b: u8)
        requires
            b < 128,
            ascii(old(self).out@),
            start.is_prefix_of(old(self).out@),
        ensures
            ascii(final(self).out@),
            start.is_prefix_of(final(self).out@),
            final(self).last == old(self).last,
    {
        let ghost before = self.out@;
        self.out.push(b);
        proof {
            assert(before.is_prefix_of(self.out@)) by {
                assert(before =~= self.out@.subrange(0, before.len() as int));
            }
            lemma_prefix_trans(start, before, self.out@);
        }
    }

    /// Appends a number, keeping `start` a prefix of the output.
    fn put_number(&mut self, Ghost(start): Ghost<Seq<u8>>, v: u64)
        requires
            ascii(old(self).out@),
            start.is_prefix_of(old(self).out@),
        ensures
            ascii(final(self).out@),
            start.is_prefix_of(final(self).out@),
            final(self).last == old(self).last,
    {
        let ghost before = self.out@;
        self.write_number(v);
        proof {
            lemma_prefix_trans(start, before, self.out@);
        }
    }

    /// The record index of a child node: 0 when empty, else its index,
    /// writing its record first when it is new.
    pub fn maybe_write_node(&mut self, node: &Node) -> (r: usize)
        requires
            ascii(old(self).out@),
            wf(*node),
        ensures
            ascii(final(self).out@),
            old(self).out@.is_prefix_of(final(self).out@),
            pop_of(*node) == 0 ==> r == 0,
        decreases *node, 1nat,
    {
        if node.is_empty() {
            return 0;
        }
        match self.nodes.get(&node.0.id) {
            Some(hit) => {
                if crate::node::node_eq(&hit.0, node) {
                    return hit.1;
                }
            },
            None => {},
        }
        self.write_node(node);
        self.last = self.last.saturating_add(1);
        self.nodes.insert(node.0.id, (node.dup(), self.last));
        self.last
    }

    /// The record index of a block: 0 when empty, else its index, writing
    /// its record first when it is new.
    pub fn maybe_write_block(&mut self, block: Block) -> (r: usize)
        requires
            ascii(old(self).out@),
        ensures
            ascii(final(self).out@),
            old(self).out@.is_prefix_of(final(self).out@),
            block.bits == 0 ==> r == 0,
    {
        if block.bits == 0 {
            return 0;
        }
        match self.blocks.get(&block.bits) {
            Some(index) => {
                return *index;
            },
            None => {},
        }
        let rows = block.to_rows_array();
        let mut i: usize = 0;
        while i < 8
            invariant
                i <= 8,
                old(self).out@.is_prefix_of(self.out@),
                ascii(self.out@),
            decreases 8 - i,
        {
            self.write_row(rows[i]);
            i = i + 1;
        }
        self.out.push(LF);
        self.last = self.last.saturating_add(1);
        self.blocks.insert(block.bits, self.last);
        self.last
    }
}

/// Relies on `String::from_utf8_lossy`: ASCII bytes are valid UTF-8 and
/// come back as the same characters.
#[verifier::external_body]
fn ascii_string(b: &[u8]) -> (r: String)
    ensures
        ascii(b@) ==> r@ == b@.map_values(|c: u8| c as char),
{
    String::from_utf8_lossy(b).into_owned()
}

impl Node {
    /// The Macrocell text of this node.
    pub fn write_to_string(&self) -> (r: String)
        requires
            wf(*self),
        ensures
            r@.len() >= 30,
            r@.subrange(0, 30) == header_spec().map_values(|c: u8| c as char),
    {
        let bytes = self.write_to_bytes();
        let r = ascii_string(bytes.as_slice());
        proof {
            assert(r@.subrange(0, 30) =~= header_spec().map_values(|c: u8| c as char));
        }
        r
    }

    /// The Macrocell text of this node as bytes.
    pub fn write_to_bytes(&self) -> (r: Vec<u8>)
        requires
            wf(*self),
        ensures
            r@.len() >= 30,
            r@.subrange(0, 30) == header_spec(),
            ascii(r@),
    {
        let mut w = McWriter::new();
        w.write(self);
        w.out
    }
}

/// A prefix of a prefix is a prefix.
pub proof fn lemma_prefix_trans(a: Seq<u8>, b: Seq<u8>, c: Seq<u8>)
    requires
        a.is_prefix_of(b),
        b.is_prefix_of(c),
    ensures
        a.is_prefix_of(c),
{
    assert(a =~= c.subrange(0, a.len() as int)) by {
        assert(b =~= c.subrange(0, b.len() as int));
    }
}

} // verus!

verus! {

/// The broad class of a parse error.
#[derive(Clone, Copy, Debug, PartialEq, Eq, Structural)]
pub enum MacrocellErrorKind {
    InvalidHeader,
    InvalidContent,
}

/// What exactly went wrong while parsing.
#[derive(Clone, Copy, Debug, PartialEq, Eq, Structural)]
pub enum MacrocellErrorHint {
    InvalidHeader,
    TooManyBlockRows,
    TooManyBlockBits,
    InvalidTwoStateDepth,
    SizeTooLarge,
    InvalidForwardRef,
    InvalidRefDepth,
    InvalidBlockAfterBlock,
    InvalidNumberAfterBlock,
    InvalidBlockAfterNumber,
    InvalidNumberAfterNumber,
    InvalidEolAfterNumber,
    InvalidChar,
}

/// A parse error: 0-based line and column, the text of the line, and the
/// hint.
#[derive(Clone, Debug)]
pub struct MacrocellError {
    pub line: LineInfo,
    pub hint: MacrocellErrorHint,
}

impl MacrocellError {
    pub fn new(line: LineInfo, hint: MacrocellErrorHint) -> (r: MacrocellError)
        ensures
            r.line == line,
            r.hint == hint,
    {
        MacrocellError { line, hint }
    }

    /// `InvalidHeader` for a missing header, `InvalidContent` otherwise.
    pub fn kind(&self) -> (r: MacrocellErrorKind)
        ensures
            r == (if self.hint == MacrocellErrorHint::InvalidHeader {
                MacrocellErrorKind::InvalidHeader
            } else {
                MacrocellErrorKind::InvalidContent
            }),
    {
        match self.hint {
            MacrocellErrorHint::InvalidHeader => MacrocellErrorKind::InvalidHeader,
            _ => MacrocellErrorKind::InvalidContent,
        }
    }

    /// The text of the offending line, without its line terminator.
    pub fn line_src(&self) -> (r: &Vec<u8>)
        ensures
            *r == self.line.line_src,
    {
        &self.line.line_src
    }

    /// The 0-based line index.
    pub fn line(&self) -> (r: usize)
        ensures
            r == self.line.line,
    {
        self.line.line
    }

    /// The 0-based column index.
    pub fn column(&self) -> (r: usize)
        ensures
            r == self.line.column,
    {
        self.line.column
    }

    pub fn hint_code(&self) -> (r: MacrocellErrorHint)
        ensures
            r == self.hint,
    {
        self.hint
    }

    /// A human-readable explanation of the hint.
    pub fn hint(&self) -> (r: &'static str)
        ensures
            r == hint_text(self.hint),
    {
        match self.hint {
            MacrocellErrorHint::InvalidHeader => "Macrocell files start with [M2]",
            MacrocellErrorHint::TooManyBlockRows => "Can't have anything after the 8th '$' in a leaf node",
            MacrocellErrorHint::TooManyBlockBits => "Too many '.'s and '*'s in a row, max of 8",
            MacrocellErrorHint::InvalidTwoStateDepth => "Only handles two-state Macrocell files, use '.'s, '*'s, and '$' for 8x8 leaf nodes",
            MacrocellErrorHint::SizeTooLarge => "Node is too large to be handled",
            MacrocellErrorHint::InvalidForwardRef => "Child nodes must be declared before parent nodes",
            MacrocellErrorHint::InvalidRefDepth => "Child nodes must have a size exactly 1 less than the parent node",
            MacrocellErrorHint::InvalidBlockAfterBlock => "Leaf nodes must be specified on their own line",
            MacrocellErrorHint::InvalidNumberAfterBlock => "Leaf nodes don't reference other nodes",
            MacrocellErrorHint::InvalidBlockAfterNumber => "Leaf nodes must be specified on their own line",
            MacrocellErrorHint::InvalidNumberAfterNumber => "Need exactly 4 child nodes",
            MacrocellErrorHint::InvalidEolAfterNumber => "Need exactly 4 child nodes",
            MacrocellErrorHint::InvalidChar => "Invalid character",
        }
    }

    /// The error as an owned value.
    pub fn into_owned(self) -> (r: MacrocellError)
        ensures
            r.line == self.line,
            r.hint == self.hint,
    {
        self
    }
}

/// Whether byte `i` of `src` ends a line: a `\n`, or a `\r` not followed
/// by `\n`.
pub open spec fn is_line_end(src: Seq<u8>, i: int) -> bool {
    src[i] == LF || (src[i] == CR && !(i + 1 < src.len() && src[i + 1] == LF))
}

/// The number of line ends before byte `i`.
pub open spec fn line_count(src: Seq<u8>, i: int) -> int
    decreases i,
{
    if i <= 0 {
        0
    } else {
        line_count(src, i - 1) + if is_line_end(src, i - 1) { 1int } else { 0int }
    }
}

/// Where the line holding byte `i` starts: just after the last line end
/// before `i`, or 0.
pub open spec fn line_start(src: Seq<u8>, i: int) -> int
    decreases i,
{
    if i <= 0 {
        0
    } else if is_line_end(src, i - 1) {
        i
    } else {
        line_start(src, i - 1)
    }
}

/// The explanation shown for each hint.
pub open spec fn hint_text(h: MacrocellErrorHint) -> &'static str {
    match h {
        MacrocellErrorHint::InvalidHeader => "Macrocell files start with [M2]",
        MacrocellErrorHint::TooManyBlockRows => "Can't have anything after the 8th '$' in a leaf node",
        MacrocellErrorHint::TooManyBlockBits => "Too many '.'s and '*'s in a row, max of 8",
        MacrocellErrorHint::InvalidTwoStateDepth => "Only handles two-state Macrocell files, use '.'s, '*'s, and '$' for 8x8 leaf nodes",
        MacrocellErrorHint::SizeTooLarge => "Node is too large to be handled",
        MacrocellErrorHint::InvalidForwardRef => "Child nodes must be declared before parent nodes",
        MacrocellErrorHint::InvalidRefDepth => "Child nodes must have a size exactly 1 less than the parent node",
        MacrocellErrorHint::InvalidBlockAfterBlock => "Leaf nodes must be specified on their own line",
        MacrocellErrorHint::InvalidNumberAfterBlock => "Leaf nodes don't reference other nodes",
        MacrocellErrorHint::InvalidBlockAfterNumber => "Leaf nodes must be specified on their own line",
        MacrocellErrorHint::InvalidNumberAfterNumber => "Need exactly 4 child nodes",
        MacrocellErrorHint::InvalidEolAfterNumber => "Need exactly 4 child nodes",
        MacrocellErrorHint::InvalidChar => "Invalid character",
    }
}

/// Where an error was found: 0-based line and column, and the line's text.
#[derive(Clone, Debug)]
pub struct LineInfo {
    pub line: usize,
    pub column: usize,
    pub line_src: Vec<u8>,
}

impl LineInfo {
    /// The line that holds byte `offset` of `src`; `\n`, `\r` and `\r\n` end
    /// a line.
    pub fn from_src_offset(src: &[u8], offset: usize) -> (r: LineInfo)
        requires
            offset <= src@.len(),
        ensures
            r.line == line_count(src@, offset as int),
            r.column == offset - line_start(src@, offset as int),
            r.line_src@ == src@.subrange(
                line_start(src@, offset as int),
                line_start(src@, offset as int) + r.line_src@.len(),
            ),
            forall|j: int|
                line_start(src@, offset as int) <= j < line_start(src@, offset as int)
                    + r.line_src@.len() ==> src@[j] != LF && src@[j] != CR,
            line_start(src@, offset as int) + r.line_src@.len() == src@.len() || src@[line_start(
                src@,
                offset as int,
            ) + r.line_src@.len()] == LF || src@[line_start(src@, offset as int) + r.line_src@.len()]
                == CR,
    {
        let mut line: usize = 0;
        let mut start: usize = 0;
        let mut i: usize = 0;
        while i < offset
            invariant
                i <= offset <= src@.len(),
                start <= i,
                line <= i,
                line == line_count(src@, i as int),
                start == line_start(src@, i as int),
            decreases offset - i,
        {
            let b = src[i];
            if b == LF {
                line = line + 1;
                start = i + 1;
            } else if b == CR {
                if !(i + 1 < src.len() && src[i + 1] == LF) {
                    line = line + 1;
                    start = i + 1;
                }
            }
            i = i + 1;
        }
        let mut end = start;
        let mut line_src: Vec<u8> = Vec::new();
        while end < src.len() && src[end] != LF && src[end] != CR
            invariant
                start <= end <= src@.len(),
                start == line_start(src@, offset as int),
                line_src@ == src@.subrange(start as int, end as int),
                forall|j: int| start <= j < end ==> src@[j] != LF && src@[j] != CR,
            decreases src@.len() - end,
        {
            line_src.push(src[end]);
            end = end + 1;
            assert(line_src@ =~= src@.subrange(start as int, end as int));
        }
        LineInfo { line, column: offset - start, line_src }
    }

    /// The information as an owned value.
    pub fn into_owned(self) -> (r: LineInfo)
        ensures
            r.line == self.line,
            r.column == self.column,
            r.line_src == self.line_src,
    {
        self
    }
}

/// What the next significant byte starts.
#[derive(Clone, Copy, Debug, PartialEq, Eq, Structural)]
pub enum Token {
    Block,
    Number,
    Eol,
    Eof,
}

/// A record read so far: a block record or a node record.
#[derive(Clone, Debug)]
pub enum Record {
    Leaf(Block),
    Node(Node),
}

/// Whether every node record is well formed.
pub open spec fn records_ok(v: Seq<Record>) -> bool {
    forall|i: int|
        0 <= i < v.len() ==> match #[trigger] v[i] {
            Record::Node(n) => wf(n),
            Record::Leaf(_) => true,
        }
}

/// Whether `src` starts with `[M2]`.
pub open spec fn has_header(src: Seq<u8>) -> bool {
    src.len() >= 4 && src[0] == 91 && src[1] == 77 && src[2] == 50 && src[3] == 93
}

/// A streaming line-based reader of the Macrocell format.
pub struct McReader {
    pub at: usize,
    pub nodes: Vec<Record>,
}

impl McReader {
    pub fn new() -> (r: McReader)
        ensures
            r.at == 0,
            r.nodes@.len() == 0,
    {
        McReader { at: 0, nodes: Vec::new() }
    }

    pub open spec fn ok(&self, src: Seq<u8>) -> bool {
        self.at <= src.len() && records_ok(self.nodes@)
    }

    /// The byte under the cursor.
    pub fn peak(&self, src: &[u8]) -> (r: Option<u8>)
        ensures
            r == if self.at < src@.len() { Some(src@[self.at as int]) } else { None::<u8> },
    {
        if self.at < src.len() {
            Some(src[self.at])
        } else {
            None
        }
    }

    /// Steps over the byte under the cursor.
    pub fn consume(&mut self, src: &[u8])
        requires
            old(self).at < src@.len(),
        ensures
            final(self).at == old(self).at + 1,
            final(self).nodes == old(self).nodes,
    {
        if self.at < src.len() {
            self.at = self.at + 1;
        }
    }

    /// An error of hint `hint` at the cursor.
    pub fn fail(&self, src: &[u8], hint: MacrocellErrorHint) -> (r: MacrocellError)
        requires
            self.at <= src@.len(),
        ensures
            r.hint == hint,
            r.line.line == line_count(src@, self.at as int),
            r.line.column == self.at - line_start(src@, self.at as int),
    {
        self.fail_at(src, self.at, hint)
    }

    /// An error of hint `hint` at byte `at`.
    pub fn fail_at(&self, src: &[u8], at: usize, hint: MacrocellErrorHint) -> (r: MacrocellError)
        requires
            at <= src@.len(),
        ensures
            r.hint == hint,
            r.line.line == line_count(src@, at as int),
            r.line.column == at - line_start(src@, at as int),
    {
        MacrocellError::new(LineInfo::from_src_offset(src, at), hint)
    }

    /// Skips spaces and tabs and tells what comes next.
    pub fn peak_token(&mut self, src: &[u8]) -> (r: Result<Token, MacrocellError>)
        requires
            old(self).ok(src@),
        ensures
            final(self).ok(src@),
            final(self).at >= old(self).at,
            final(self).nodes == old(self).nodes,
            match r {
                Ok(Token::Block) => final(self).at < src@.len() && (src@[final(self).at as int]
                    == DEAD || src@[final(self).at as int] == LIVE || src@[final(self).at as int]
                    == ROW_END),
                Ok(Token::Number) => final(self).at < src@.len() && DIGIT_ZERO <= src@[final(self).at as int] <= DIGIT_NINE,
                Ok(Token::Eol) => final(self).at < src@.len(),
                Ok(Token::Eof) => final(self).at == src@.len(),
                Err(_) => true,
            },
            r matches Err(err) ==> err.hint != MacrocellErrorHint::InvalidHeader,
    {
        loop
            invariant
                self.ok(src@),
                self.at >= old(self).at,
                self.nodes == old(self).nodes,
            decreases src@.len() - self.at,
        {
            match self.peak(src) {
                Some(b) => {
                    if b == SPACE || b == TAB {
                        self.consume(src);
                    } else if b == DEAD || b == LIVE || b == ROW_END {
                        return Ok(Token::Block);
                    } else if DIGIT_ZERO <= b && b <= DIGIT_NINE {
                        return Ok(Token::Number);
                    } else if b == LF || b == CR || b == HASH {
                        return Ok(Token::Eol);
                    } else {
                        return Err(self.fail(src, MacrocellErrorHint::InvalidChar));
                    }
                },
                None => {
                    return Ok(Token::Eof);
                },
            }
        }
    }

    /// Skips the rest of the line and its terminator.
    pub fn consume_line(&mut self, src: &[u8])
        requires
            old(self).ok(src@),
        ensures
            final(self).ok(src@),
            final(self).nodes == old(self).nodes,
            final(self).at >= old(self).at,
            old(self).at < src@.len() ==> final(self).at > old(self).at,
    {
        loop
            invariant
                self.ok(src@),
                self.nodes == old(self).nodes,
                self.at >= old(self).at,
            decreases src@.len() - self.at,
        {
            match self.peak(src) {
                None => {
                    return;
                },
                Some(b) => {
                    self.consume(src);
                    if b == LF || b == CR {
                        return;
                    }
                },
            }
        }
    }

    /// Reads a decimal number of at most `max`.
    pub fn consume_number(&mut self, src: &[u8], max: usize, too_large_hint: MacrocellErrorHint) -> (r:
        Result<usize, MacrocellError>)
        requires
            old(self).ok(src@),
        ensures
            final(self).ok(src@),
            final(self).nodes == old(self).nodes,
            final(self).at >= old(self).at,
            match r {
                Ok(v) => v <= max && (old(self).at < src@.len() && DIGIT_ZERO <= src@[old(self).at as int] <= DIGIT_NINE ==> final(self).at > old(self).at),
                Err(e) => e.hint == too_large_hint,
            },
    {
        let pos = self.at;
        let mut value: usize = 0;
        loop
            invariant
                self.ok(src@),
                self.nodes == old(self).nodes,
                self.at >= old(self).at,
                pos == old(self).at,
                value <= max,
                self.at == pos ==> value == 0,
            decreases src@.len() - self.at,
        {
            match self.peak(src) {
                Some(b) => {
                    if DIGIT_ZERO <= b && b <= DIGIT_NINE {
                        self.consume(src);
                        let digit = (b - DIGIT_ZERO) as usize;
                        if digit > max || value > (max - digit) / 10 {
                            return Err(self.fail_at(src, pos, too_large_hint));
                        }
                        value = value * 10 + digit;
                    } else {
                        return Ok(value);
                    }
                },
                None => {
                    return Ok(value);
                },
            }
        }
    }

    /// Demands the end of the line (or of the input) and steps past it.
    pub fn expect_line(&mut self, src: &[u8], block_hint: MacrocellErrorHint, number_hint: MacrocellErrorHint) -> (r: Result<(), MacrocellError>)
        requires
            old(self).ok(src@),
            block_hint != MacrocellErrorHint::InvalidHeader,
            number_hint != MacrocellErrorHint::InvalidHeader,
        ensures
            final(self).ok(src@),
            final(self).nodes == old(self).nodes,
            final(self).at >= old(self).at,
            r matches Err(err) ==> err.hint != MacrocellErrorHint::InvalidHeader,
    {
        match self.peak_token(src)? {
            Token::Block => Err(self.fail(src, block_hint)),
            Token::Number => Err(self.fail(src, number_hint)),
            Token::Eol => {
                self.consume_line(src);
                Ok(())
            },
            Token::Eof => Ok(()),
        }
    }

    /// Reads a block record: rows of `.` and `*`, each ended by `$`.
    pub fn consume_block_line(&mut self, src: &[u8]) -> (r: Result<Block, MacrocellError>)
        requires
            old(self).ok(src@),
            old(self).at < src@.len(),
            src@[old(self).at as int] == DEAD || src@[old(self).at as int] == LIVE || src@[old(self).at as int] == ROW_END,
        ensures
            final(self).ok(src@),
            final(self).nodes == old(self).nodes,
            r is Ok ==> final(self).at > old(self).at,
            r matches Err(err) ==> err.hint != MacrocellErrorHint::InvalidHeader,
    {
        let mut rows: [u8; 8] = [0; 8];
        let mut r: usize = 0;
        let mut i: u8 = 8;
        let start = self.at;
        loop
            invariant
                self.ok(src@),
                self.nodes == old(self).nodes,
                self.at >= old(self).at,
                start == old(self).at,
                start < src@.len(),
                src@[start as int] == DEAD || src@[start as int] == LIVE || src@[start as int] == ROW_END,
                r <= 8,
                i <= 8,
                self.at == start ==> r == 0 && i == 8,
            ensures
                self.ok(src@),
                self.nodes == old(self).nodes,
                self.at > start,
            decreases src@.len() - self.at,
        {
            match self.peak(src) {
                Some(b) => {
                    if b == ROW_END {
                        if r >= 8 {
                            return Err(self.fail(src, MacrocellErrorHint::TooManyBlockRows));
                        }
                        self.consume(src);
                        r = r + 1;
                        i = 8;
                    } else if b == DEAD || b == LIVE {
                        if r >= 8 {
                            return Err(self.fail(src, MacrocellErrorHint::TooManyBlockRows));
                        }
                        if i == 0 {
                            return Err(self.fail(src, MacrocellErrorHint::TooManyBlockBits));
                        }
                        self.consume(src);
                        i = i - 1;
                        if b == LIVE {
                            rows[r] = rows[r] | (1u8 << i);
                        }
                    } else {
                        break;
                    }
                },
                None => {
                    break;
                },
            }
        }
        self.expect_line(
            src,
            MacrocellErrorHint::InvalidBlockAfterBlock,
            MacrocellErrorHint::InvalidNumberAfterBlock,
        )?;
        Ok(Block::from_rows_array(rows))
    }

    /// Reads a child reference: its index in the record table, 0 for empty.
    pub fn expect_ref(&mut self, src: &[u8]) -> (r: Result<usize, MacrocellError>)
        requires
            old(self).ok(src@),
        ensures
            final(self).ok(src@),
            final(self).nodes == old(self).nodes,
            final(self).at >= old(self).at,
            r matches Ok(i) ==> i <= old(self).nodes@.len(),
            r matches Err(err) ==> err.hint != MacrocellErrorHint::InvalidHeader,
    {
        match self.peak_token(src)? {
            Token::Block => {
                return Err(self.fail(src, MacrocellErrorHint::InvalidBlockAfterNumber));
            },
            Token::Number => {},
            Token::Eol | Token::Eof => {
                return Err(self.fail(src, MacrocellErrorHint::InvalidEolAfterNumber));
            },
        }
        let n = self.nodes.len();
        self.consume_number(src, n, MacrocellErrorHint::InvalidForwardRef)
    }

    /// Reads a reference to a block record.
    pub fn expect_block_ref(&mut self, src: &[u8]) -> (r: Result<Block, MacrocellError>)
        requires
            old(self).ok(src@),
        ensures
            final(self).ok(src@),
            final(self).nodes == old(self).nodes,
            final(self).at >= old(self).at,
            r matches Err(err) ==> err.hint != MacrocellErrorHint::InvalidHeader,
    {
        let pos = self.at;
        let index = self.expect_ref(src)?;
        if index == 0 {
            return Ok(Block::empty());
        }
        match &self.nodes[index - 1] {
            Record::Leaf(b) => Ok(*b),
            Record::Node(_) => Err(self.fail_at(src, pos, MacrocellErrorHint::InvalidRefDepth)),
        }
    }

    /// Reads a reference to a node record of depth `depth`.
    pub fn expect_node_ref(&mut self, src: &[u8], e: &Engine, depth: u8) -> (r: Result<Node, MacrocellError>)
        requires
            old(self).ok(src@),
            e.inv(),
            depth <= MAX_DEPTH,
        ensures
            final(self).ok(src@),
            final(self).nodes == old(self).nodes,
            final(self).at >= old(self).at,
            r matches Ok(n) ==> wf(n) && depth_of(n) == depth,
            r matches Err(err) ==> err.hint != MacrocellErrorHint::InvalidHeader,
    {
        let pos = self.at;
        let index = self.expect_ref(src)?;
        if index == 0 {
            return Ok(Node::empty(e, depth));
        }
        match &self.nodes[index - 1] {
            Record::Node(n) => {
                proof {
                    assert(records_ok(self.nodes@));
                    assert(match self.nodes@[index - 1] {
                        Record::Node(n) => wf(n),
                        Record::Leaf(_) => true,
                    });
                }
                if n.depth() == depth {
                    Ok(n.dup())
                } else {
                    Err(self.fail_at(src, pos, MacrocellErrorHint::InvalidRefDepth))
                }
            },
            Record::Leaf(_) => Err(self.fail_at(src, pos, MacrocellErrorHint::InvalidRefDepth)),
        }
    }

    /// Reads a node record: its size (width log2) and four child references.
    pub fn consume_node_line(&mut self, src: &[u8], e: &mut Engine) -> (r: Result<Node, MacrocellError>)
        requires
            old(self).ok(src@),
            old(e).inv(),
            old(self).at < src@.len(),
            DIGIT_ZERO <= src@[old(self).at as int] <= DIGIT_NINE,
        ensures
            final(self).ok(src@),
            final(e).inv(),
            final(self).nodes == old(self).nodes,
            r is Ok ==> final(self).at > old(self).at,
            r matches Ok(n) ==> wf(n),
            r matches Err(err) ==> err.hint != MacrocellErrorHint::InvalidHeader,
    {
        let pos = self.at;
        let size = self.consume_number(src, 63, MacrocellErrorHint::SizeTooLarge)?;
        if size < MIN_WIDTH_LOG2 as usize {
            return Err(self.fail_at(src, pos, MacrocellErrorHint::InvalidTwoStateDepth));
        }
        let value = if size == MIN_WIDTH_LOG2 as usize {
            let nw = self.expect_block_ref(src)?;
            let ne = self.expect_block_ref(src)?;
            let sw = self.expect_block_ref(src)?;
            let se = self.expect_block_ref(src)?;
            Node::new_leaf(e, Quad { nw, ne, sw, se })
        } else {
            let depth = (size - MIN_WIDTH_LOG2 as usize) as u8;
            let nw = self.expect_node_ref(src, e, depth - 1)?;
            let ne = self.expect_node_ref(src, e, depth - 1)?;
            let sw = self.expect_node_ref(src, e, depth - 1)?;
            let se = self.expect_node_ref(src, e, depth - 1)?;
            Node::new_depth_inner(e, depth, Quad { nw, ne, sw, se })
        };
        self.expect_line(
            src,
            MacrocellErrorHint::InvalidBlockAfterNumber,
            MacrocellErrorHint::InvalidNumberAfterNumber,
        )?;
        Ok(value)
    }

    /// Checks the `[M2]` header and skips its line.
    pub fn read_header(&mut self, src: &[u8]) -> (r: Result<(), MacrocellError>)
        requires
            old(self).ok(src@),
            old(self).at == 0,
        ensures
            final(self).ok(src@),
            final(self).nodes == old(self).nodes,
            r is Ok <==> has_header(src@),
            r matches Err(err) ==> err.hint == MacrocellErrorHint::InvalidHeader && err.line.line == 0
                && err.line.column == 0,
    {
        if src.len() >= 4 && src[0] == 91 && src[1] == 77 && src[2] == 50 && src[3] == 93 {
            self.at = 4;
            self.consume_line(src);
            Ok(())
        } else {
            Err(self.fail(src, MacrocellErrorHint::InvalidHeader))
        }
    }

    /// Reads records up to the end of the input; the last record is the
    /// result (a lone block record is expanded into a leaf, no record at all
    /// gives the empty leaf).
    pub fn read_body(&mut self, src: &[u8], e: &mut Engine) -> (r: Result<Node, MacrocellError>)
        requires
            old(self).ok(src@),
            old(e).inv(),
        ensures
            final(e).inv(),
            r matches Ok(n) ==> wf(n),
            r matches Err(err) ==> err.hint != MacrocellErrorHint::InvalidHeader,
    {
        loop
            invariant
                self.ok(src@),
                e.inv(),
            decreases src@.len() - self.at,
        {
            match self.peak_token(src)? {
                Token::Block => {
                    let block = self.consume_block_line(src)?;
                    self.nodes.push(Record::Leaf(block));
                },
                Token::Number => {
                    let node = self.consume_node_line(src, e)?;
                    self.nodes.push(Record::Node(node));
                },
                Token::Eol => {
                    self.consume_line(src);
                },
                Token::Eof => {
                    return Ok(
                        match self.nodes.pop() {
                            Some(Record::Node(n)) => n,
                            Some(Record::Leaf(b)) => {
                                let q = b.expand();
                                Node::new_leaf(e, q)
                            },
                            None => Node::empty(e, 0),
                        },
                    );
                },
            }
        }
    }

    /// Reads a whole file.
    pub fn read(&mut self, src: &[u8], e: &mut Engine) -> (r: Result<Node, MacrocellError>)
        requires
            old(self).at == 0,
            old(self).nodes@.len() == 0,
            old(e).inv(),
        ensures
            final(e).inv(),
            r matches Ok(n) ==> wf(n),
            !has_header(src@) <==> (r matches Err(err) && err.hint == MacrocellErrorHint::InvalidHeader),
            !has_header(src@) ==> (r matches Err(err) && err.line.line == 0 && err.line.column == 0),
    {
        self.read_header(src)?;
        self.read_body(src, e)
    }
}

impl Node {
    /// Parses a Macrocell file. An empty input is the empty leaf; any other
    /// input without the `[M2]` header is refused with `InvalidHeader` at
    /// line 0, column 0.
    pub fn read_from_bytes(e: &mut Engine, bytes: &[u8]) -> (r: Result<Node, MacrocellError>)
        requires
            old(e).inv(),
        ensures
            final(e).inv(),
            r matches Ok(n) ==> wf(n),
            bytes@.len() == 0 ==> (r matches Ok(n) && n == final(e).empties@[0]),
            bytes@.len() > 0 ==> (!has_header(bytes@) <==> (r matches Err(err) && err.hint
                == MacrocellErrorHint::InvalidHeader)),
            bytes@.len() > 0 && !has_header(bytes@) ==> (r matches Err(err) && err.line.line == 0
                && err.line.column == 0),
    {
        if bytes.len() == 0 {
            return Ok(Node::empty(e, 0));
        }
        let mut reader = McReader::new();
        reader.read(bytes, e)
    }

    /// Parses a Macrocell file held in a string, as [`Node::read_from_bytes`].
    pub fn read_from_string(e: &mut Engine, s: &str) -> (r: Result<Node, MacrocellError>)
        requires
            old(e).inv(),
        ensures
            final(e).inv(),
            r matches Ok(n) ==> wf(n),
            s.spec_bytes().len() == 0 ==> (r matches Ok(n) && n == final(e).empties@[0]),
            s.spec_bytes().len() > 0 ==> (!has_header(s.spec_bytes()) <==> (r matches Err(err)
                && err.hint == MacrocellErrorHint::InvalidHeader)),
            s.spec_bytes().len() > 0 && !has_header(s.spec_bytes()) ==> (r matches Err(err)
                && err.line.line == 0 && err.line.column == 0),
    {
        Node::read_from_bytes(e, s.as_bytes())
    }
}

} // verus!
