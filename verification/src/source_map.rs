//! Positions in a source text: byte offsets, spans, and the line table of a
//! source file.

use std::rc::Rc;
use vstd::prelude::*;
use vstd::std_specs::ops::{AddSpecImpl, SubSpecImpl};
use vstd::string::StringSliceAdditionalSpecFns;
use vstd::utf8::{
    decode_utf8, encode_utf8, encode_utf8_decode_utf8, encode_utf8_valid_utf8, is_char_boundary,
    is_char_boundary_iff_not_is_continuation_byte, is_char_boundary_start_end_of_seq,
    valid_utf8_split,
};

verus! {

/// A byte offset into a source text's buffer.
#[derive(Clone, Copy, PartialEq, Eq, Structural, Debug)]
pub struct BytePos(pub usize);

impl BytePos {
    /// The offset that stands for "no real location".
    pub fn dummy() -> (pos: BytePos)
        ensures
            pos == BytePos(0),
    {
        BytePos(0)
    }
}

impl AddSpecImpl for BytePos {
    open spec fn obeys_add_spec() -> bool {
        true
    }

    open spec fn add_req(self, rhs: BytePos) -> bool {
        self.0 + rhs.0 <= usize::MAX
    }

    open spec fn add_spec(self, rhs: BytePos) -> BytePos {
        BytePos((self.0 + rhs.0) as usize)
    }
}

impl std::ops::Add for BytePos {
    type Output = BytePos;

    /// The offset `rhs` bytes after `self`.
    fn add(self, rhs: BytePos) -> (sum: BytePos) {
        BytePos(self.0 + rhs.0)
    }
}

impl SubSpecImpl for BytePos {
    open spec fn obeys_sub_spec() -> bool {
        true
    }

    open spec fn sub_req(self, rhs: BytePos) -> bool {
        rhs.0 <= self.0
    }

    open spec fn sub_spec(self, rhs: BytePos) -> BytePos {
        BytePos((self.0 - rhs.0) as usize)
    }
}

impl std::ops::Sub for BytePos {
    type Output = BytePos;

    /// The distance in bytes from `rhs` up to `self`.
    fn sub(self, rhs: BytePos) -> (difference: BytePos) {
        BytePos(self.0 - rhs.0)
    }
}

/// Conversion between offsets and plain integers.
pub trait Pos: Sized {
    /// The integer that this offset stands for.
    spec fn index(&self) -> usize;

    /// The offset that stands for `value`.
    fn from_usize(value: usize) -> (pos: Self)
        ensures
            pos.index() == value,
    ;

    /// The integer that this offset stands for.
    fn to_usize(&self) -> (value: usize)
        ensures
            value == self.index(),
    ;
}

impl Pos for BytePos {
    open spec fn index(&self) -> usize {
        self.0
    }

    fn from_usize(value: usize) -> (pos: BytePos)
        ensures
            pos == BytePos(value),
    {
        BytePos(value)
    }

    fn to_usize(&self) -> (value: usize) {
        self.0
    }
}

/// A half-open range `[start, end)` of byte offsets.
#[derive(Clone, Copy, PartialEq, Eq, Structural, Debug)]
pub struct Span {
    pub start: BytePos,
    pub end: BytePos,
}

impl Span {
    /// The span that stands for "no real location".
    pub fn dummy() -> (span: Span)
        ensures
            span == (Span { start: BytePos(0), end: BytePos(0) }),
    {
        Span { start: BytePos(0), end: BytePos(0) }
    }

    /// The span from offset `start` up to offset `end`.
    pub fn with_usizes(start: usize, end: usize) -> (span: Span)
        ensures
            span == (Span { start: BytePos(start), end: BytePos(end) }),
    {
        Span { start: Pos::from_usize(start), end: Pos::from_usize(end) }
    }

    /// Whether the range is well ordered.
    pub open spec fn wf(self) -> bool {
        self.start.0 <= self.end.0
    }
}

/// A line and column, derived on demand from a byte offset.
#[derive(Clone, Copy, PartialEq, Eq, Structural, Debug)]
pub struct Loc {
    /// The line's number, counted from one.
    pub line: usize,
    /// The offset from the line's start.
    pub col: BytePos,
}

/// The byte that ends a line.
pub open spec fn is_newline(byte: u8) -> bool {
    byte == 10
}

/// The number of line ends among the first `n` bytes.
pub open spec fn newlines_before(bytes: Seq<u8>, n: int) -> nat
    decreases n,
{
    if n <= 0 {
        0
    } else {
        newlines_before(bytes, n - 1) + if is_newline(bytes[n - 1]) {
            1nat
        } else {
            0nat
        }
    }
}

/// The offsets at which the lines found in the first `n` bytes begin: zero,
/// then the offset after each line end, in order.
pub open spec fn line_starts_within(bytes: Seq<u8>, n: int) -> Seq<int>
    decreases n,
{
    if n <= 0 {
        seq![0int]
    } else if is_newline(bytes[n - 1]) {
        line_starts_within(bytes, n - 1).push(n)
    } else {
        line_starts_within(bytes, n - 1)
    }
}

/// The line table of a text: where each line begins, closed by the text's
/// length as a sentinel.
pub open spec fn line_table(bytes: Seq<u8>) -> Seq<int> {
    line_starts_within(bytes, bytes.len() as int).push(bytes.len() as int)
}

/// What `line_starts_within` holds: one entry per line, each entry `k` being
/// the least offset with `k` line ends before it.
pub proof fn lemma_line_starts_within(bytes: Seq<u8>, n: int)
    requires
        0 <= n <= bytes.len(),
    ensures
        line_starts_within(bytes, n).len() == newlines_before(bytes, n) + 1,
        line_starts_within(bytes, n)[0] == 0,
        forall|k: int|
            0 <= k < line_starts_within(bytes, n).len() ==> {
                &&& 0 <= #[trigger] line_starts_within(bytes, n)[k] <= n
                &&& newlines_before(bytes, line_starts_within(bytes, n)[k]) == k
                &&& k > 0 ==> is_newline(bytes[line_starts_within(bytes, n)[k] - 1])
            },
    decreases n,
{
    if n > 0 {
        lemma_line_starts_within(bytes, n - 1);
    }
}

/// The count of line ends never falls as the offset grows.
pub proof fn lemma_newlines_before_monotonic(bytes: Seq<u8>, m: int, n: int)
    requires
        m <= n,
    ensures
        newlines_before(bytes, m) <= newlines_before(bytes, n),
    decreases n - m,
{
    if m < n {
        lemma_newlines_before_monotonic(bytes, m, n - 1);
    }
}

/// There are no more line ends before an offset than bytes.
pub proof fn lemma_newlines_before_bound(bytes: Seq<u8>, n: int)
    ensures
        newlines_before(bytes, n) <= if n < 0 { 0 } else { n },
    decreases n,
{
    if n > 0 {
        lemma_newlines_before_bound(bytes, n - 1);
    }
}

/// The shape of the line table: it begins with zero, ends with the length of
/// the text, and holds one entry more than there are lines.
pub proof fn lemma_line_table_shape(bytes: Seq<u8>)
    ensures
        line_table(bytes).len() == newlines_before(bytes, bytes.len() as int) + 2,
        line_table(bytes)[0] == 0,
        line_table(bytes)[line_table(bytes).len() - 1] == bytes.len(),
        forall|k: int|
            0 <= k < line_table(bytes).len() ==> 0 <= #[trigger] line_table(bytes)[k]
                <= bytes.len(),
{
    let n = bytes.len() as int;
    let starts = line_starts_within(bytes, n);
    lemma_line_starts_within(bytes, n);
    assert(line_table(bytes)[0] == starts[0]);
    assert(newlines_before(bytes, 0) == 0);
    assert forall|k: int| 0 <= k < line_table(bytes).len() implies 0 <= #[trigger] line_table(
        bytes,
    )[k] <= bytes.len() by {
        if k < starts.len() {
            assert(line_table(bytes)[k] == starts[k]);
        }
    }
}

/// An offset that lies at or after the start of line `k` and before the
/// start of the next line lies inside the text, with `k` line ends before
/// it.
pub proof fn lemma_line_of_offset(bytes: Seq<u8>, k: int, pos: int)
    requires
        0 <= k < line_table(bytes).len() - 1,
        line_table(bytes)[k] <= pos < line_table(bytes)[k + 1],
    ensures
        0 <= pos < bytes.len(),
        newlines_before(bytes, pos) == k,
{
    let n = bytes.len() as int;
    let starts = line_starts_within(bytes, n);
    lemma_line_starts_within(bytes, n);
    assert(line_table(bytes)[k] == starts[k]);
    lemma_newlines_before_monotonic(bytes, starts[k], pos);
    if k + 1 < starts.len() {
        assert(line_table(bytes)[k + 1] == starts[k + 1]);
        lemma_newlines_before_monotonic(bytes, pos, starts[k + 1] - 1);
    } else {
        lemma_newlines_before_monotonic(bytes, pos, n);
    }
}

/// An offset inside the text lies at or after the start of its own line and
/// before the start of the next.
pub proof fn lemma_line_of_offset_converse(bytes: Seq<u8>, pos: int)
    requires
        0 <= pos < bytes.len(),
    ensures
        newlines_before(bytes, pos) + 1 < line_table(bytes).len(),
        line_table(bytes)[newlines_before(bytes, pos) as int] <= pos,
        pos < line_table(bytes)[newlines_before(bytes, pos) as int + 1],
{
    let n = bytes.len() as int;
    let k = newlines_before(bytes, pos) as int;
    let starts = line_starts_within(bytes, n);
    lemma_line_starts_within(bytes, n);
    lemma_newlines_before_monotonic(bytes, pos, n);
    assert(line_table(bytes)[k] == starts[k]);
    if starts[k] > pos {
        lemma_newlines_before_monotonic(bytes, pos, starts[k] - 1);
    }
    if k + 1 < starts.len() {
        assert(line_table(bytes)[k + 1] == starts[k + 1]);
        if starts[k + 1] <= pos {
            lemma_newlines_before_monotonic(bytes, starts[k + 1], pos);
        }
    }
}

/// The index, counted from zero, of the line that holds the byte at `pos`:
/// the number of line ends before it. An offset at or past the end of the
/// text lies on no line.
pub open spec fn line_index_of(bytes: Seq<u8>, pos: int) -> Option<usize> {
    if 0 <= pos < bytes.len() {
        Some(newlines_before(bytes, pos) as usize)
    } else {
        None
    }
}

/// The line, counted from one, and the column of the byte at `pos`, the
/// column being its distance from the start of its line.
pub open spec fn source_location_of(bytes: Seq<u8>, pos: int) -> Option<Loc> {
    match line_index_of(bytes, pos) {
        Some(line_index) => Some(
            Loc {
                line: (line_index + 1) as usize,
                col: BytePos((pos - line_table(bytes)[line_index as int]) as usize),
            },
        ),
        None => None,
    }
}

/// Line and column find the offset again: the byte `col` bytes into the line
/// with index `line_index` is reported on line `line_index + 1` at column
/// `col`, as long as it lies before the start of the next line. The end of
/// the text and all that follows has no location.
pub proof fn lemma_source_location_round_trip(bytes: Seq<u8>, line_index: int, col: int)
    requires
        bytes.len() <= usize::MAX,
        0 <= line_index < line_table(bytes).len() - 1,
        0 <= col,
        line_table(bytes)[line_index] + col < line_table(bytes)[line_index + 1],
    ensures
        source_location_of(bytes, line_table(bytes)[line_index] + col) == Some(
            Loc { line: (line_index + 1) as usize, col: BytePos(col as usize) },
        ),
        forall|pos: int| pos >= bytes.len() ==> source_location_of(bytes, pos) is None,
{
    let pos = line_table(bytes)[line_index] + col;
    lemma_line_of_offset(bytes, line_index, pos);
    lemma_newlines_before_bound(bytes, pos);
    lemma_line_table_shape(bytes);
}

/// A source text together with its line table.
pub struct SourceFile {
    /// The text itself.
    src: Rc<String>,
    /// Where each line begins, closed by the length of the text.
    start_pos_of_lines: Vec<BytePos>,
}

impl SourceFile {
    /// The text as a sequence of characters.
    pub closed spec fn text(&self) -> Seq<char> {
        (*self.src)@
    }

    /// The text as it lies in memory.
    pub open spec fn bytes(&self) -> Seq<u8> {
        encode_utf8(self.text())
    }

    /// The recorded line starts, as integers.
    pub closed spec fn line_starts(&self) -> Seq<int> {
        self.start_pos_of_lines@.map_values(|pos: BytePos| pos.0 as int)
    }

    /// The recorded line starts are the line table of the text.
    pub open spec fn wf(&self) -> bool {
        self.line_starts() == line_table(self.bytes())
    }

    /// Reads the text once and records where its lines begin.
    pub fn new(source_content: String) -> (file: SourceFile)
        ensures
            file.wf(),
            file.text() == source_content@,
    {
        let mut start_pos_of_lines: Vec<BytePos> = Vec::new();
        start_pos_of_lines.push(BytePos(0));
        let bytes = source_content.as_str().as_bytes();
        let length: usize = bytes.len();
        let mut i: usize = 0;
        while i < length
            invariant
                length == bytes@.len(),
                i <= length,
                start_pos_of_lines@.map_values(|pos: BytePos| pos.0 as int)
                    =~= line_starts_within(bytes@, i as int),
            decreases length - i,
        {
            if bytes[i] == 10u8 {
                start_pos_of_lines.push(BytePos(i + 1));
            }
            i += 1;
        }
        start_pos_of_lines.push(BytePos(length));
        assert(start_pos_of_lines@.map_values(|pos: BytePos| pos.0 as int) =~= line_table(
            bytes@,
        ));
        SourceFile { src: Rc::new(source_content), start_pos_of_lines }
    }

    /// The text.
    pub fn src(&self) -> (text: &str)
        ensures
            text@ == self.text(),
    {
        self.src.as_str()
    }

    /// The table of line starts.
    pub fn start_pos_of_lines(&self) -> (table: &Vec<BytePos>)
        ensures
            table@.map_values(|pos: BytePos| pos.0 as int) == self.line_starts(),
    {
        &self.start_pos_of_lines
    }

    /// The text that `span` covers. The span must lie within the text and
    /// begin and end between characters.
    pub fn span_to_snippet(&self, span: Span) -> (snippet: &str)
        requires
            span.start.0 <= span.end.0 <= self.bytes().len(),
            is_char_boundary(self.bytes(), span.start.0 as int),
            is_char_boundary(self.bytes(), span.end.0 as int),
        ensures
            snippet.spec_bytes() == self.bytes().subrange(span.start.0 as int, span.end.0 as int),
            snippet@ == decode_utf8(
                self.bytes().subrange(span.start.0 as int, span.end.0 as int),
            ),
    {
        let start_idx = span.start.0;
        let end_idx = span.end.0;
        let text: &str = self.src.as_str();
        let ghost bytes = self.bytes();
        proof {
            encode_utf8_valid_utf8(self.text());
            valid_utf8_split(bytes, end_idx as int);
        }
        let (head, _) = text.split_at(end_idx);
        proof {
            let head_bytes = bytes.subrange(0, end_idx as int);
            assert(head.spec_bytes() == head_bytes);
            if start_idx < end_idx {
                is_char_boundary_iff_not_is_continuation_byte(bytes, start_idx as int);
                is_char_boundary_iff_not_is_continuation_byte(head_bytes, start_idx as int);
            } else {
                is_char_boundary_start_end_of_seq(head_bytes);
            }
        }
        let (_, snippet) = head.split_at(start_idx);
        proof {
            assert(snippet.spec_bytes() =~= bytes.subrange(start_idx as int, end_idx as int));
            encode_utf8_decode_utf8(snippet@);
        }
        snippet
    }

    /// The index, counted from zero, of the line that holds `pos`.
    pub fn lookup_line_index(&self, pos: BytePos) -> (line_index: Option<usize>)
        requires
            self.wf(),
        ensures
            line_index == line_index_of(self.bytes(), pos.0 as int),
    {
        let pos_index = pos.to_usize();
        let count: usize = self.start_pos_of_lines.len();
        let ghost table = self.line_starts();
        let mut i: usize = 0;
        while i < count
            invariant
                self.wf(),
                table == self.line_starts(),
                count == table.len(),
                i <= count,
                pos_index == pos.0,
                forall|j: int| 0 <= j < i ==> table[j] <= pos_index,
            decreases count - i,
        {
            let line_pos_index = self.start_pos_of_lines[i].to_usize();
            assert(line_pos_index == table[i as int]);
            if pos_index < line_pos_index {
                proof {
                    lemma_line_table_shape(self.bytes());
                    lemma_line_of_offset(self.bytes(), i - 1, pos_index as int);
                }
                return Some(i - 1);
            }
            i += 1;
        }
        proof {
            lemma_line_table_shape(self.bytes());
        }
        None
    }

    /// The line and column of `pos`.
    pub fn lookup_source_location(&self, pos: BytePos) -> (loc: Option<Loc>)
        requires
            self.wf(),
        ensures
            loc == source_location_of(self.bytes(), pos.0 as int),
    {
        match self.lookup_line_index(pos) {
            Some(line_index) => {
                proof {
                    lemma_newlines_before_bound(self.bytes(), pos.0 as int);
                    lemma_line_of_offset_converse(self.bytes(), pos.0 as int);
                    assert(self.line_starts()[line_index as int]
                        == self.start_pos_of_lines@[line_index as int].0);
                }
                let line = line_index + 1;
                let col = pos - self.start_pos_of_lines[line_index];
                Some(Loc { line, col })
            },
            None => None,
        }
    }
}

} // verus!
