use vstd::prelude::*;

verus! {

use crate::editor::BufferEvent;
use crate::status_line::render_status_line;
use crate::status_line::status_content_width;
use crate::status_line::status_line_chars;
use crate::string::chars_to_string;
use crate::string::decimal_chars;
use crate::string::decimal_digits;
use crate::string::lemma_decimal_digits_bound;
use crate::string::lemma_decimal_digits_mono;
use crate::string::lemma_decimal_digits_small;
use crate::string::lemma_spec_decimal_len;
use crate::string::spaces;
use crate::string::zero_pad;
use crate::string::spec_decimal;

broadcast use vstd::std_specs::vec::group_vec_axioms, vstd::prelude::Seq::lemma_filter_len;

/// One line of the document: a pair of inclusive offsets `[start, end]` into
/// the flat character sequence. `end` points at the line terminator, or at the
/// last character of an unterminated final line, or equals `start` for the
/// empty trailing line of a document that ends in a terminator.
#[derive(Clone, Copy, Debug, PartialEq, Eq, Structural)]
pub struct Line {
    pub start: usize,
    pub end: usize,
}

impl Line {
    /// Number of cells the line occupies, terminator included.
    pub open spec fn spec_len(&self) -> int {
        self.end - self.start + 1
    }

    pub fn len(&self) -> (r: usize)
        requires
            self.start <= self.end,
            self.end - self.start < usize::MAX,
        ensures
            r == self.spec_len(),
    {
        self.end - self.start + 1
    }
}

/// Offset of the first line terminator at or after `i`, or `s.len()` if the
/// rest of the sequence has none.
pub open spec fn find_newline(s: Seq<char>, i: int) -> int
    decreases s.len() - i
        when 0 <= i <= s.len()
{
    if i >= s.len() {
        s.len() as int
    } else if s[i] == '\n' {
        i
    } else {
        find_newline(s, i + 1)
    }
}

proof fn lemma_find_newline_props(s: Seq<char>, b: int)
    requires
        0 <= b <= s.len(),
    ensures
        b <= find_newline(s, b) <= s.len(),
        find_newline(s, b) < s.len() ==> s[find_newline(s, b)] == '\n',
        forall|k: int| b <= k < find_newline(s, b) ==> s[k] != '\n',
    decreases s.len() - b,
{
    if b < s.len() && s[b] != '\n' {
        lemma_find_newline_props(s, b + 1);
    }
}

proof fn lemma_find_newline_skip(s: Seq<char>, b: int, i: int)
    requires
        0 <= b <= i <= s.len(),
        forall|k: int| b <= k < i ==> s[k] != '\n',
    ensures
        find_newline(s, b) == find_newline(s, i),
    decreases i - b,
{
    if b < i {
        lemma_find_newline_skip(s, b + 1, i);
    }
}

/// The line index of the suffix of `s` that begins at offset `b`: one entry
/// per line terminator, plus the trailing (possibly empty) partial line.
pub open spec fn line_index_from(s: Seq<char>, b: int) -> Seq<Line>
    decreases s.len() - b
        when 0 <= b <= s.len()
        via line_index_from_decreases
{
    let e = find_newline(s, b);
    if e < s.len() {
        seq![Line { start: b as usize, end: e as usize }] + line_index_from(s, e + 1)
    } else if b == s.len() {
        seq![Line { start: b as usize, end: b as usize }]
    } else {
        seq![Line { start: b as usize, end: (s.len() - 1) as usize }]
    }
}

#[via_fn]
proof fn line_index_from_decreases(s: Seq<char>, b: int) {
    lemma_find_newline_props(s, b);
}

/// The whole line index derived from the character sequence `s`.
pub open spec fn line_index(s: Seq<char>) -> Seq<Line> {
    line_index_from(s, 0)
}

/// Structural facts about `line_index_from`: at least one entry, entries are
/// contiguous, every entry but the last ends on a terminator, no terminator
/// hides in the interior of an entry, and the last entry reaches the end of
/// the sequence.
proof fn lemma_line_index_from_ok(s: Seq<char>, b: int)
    requires
        0 <= b <= s.len(),
        s.len() <= usize::MAX,
    ensures
        ({
            let ls = line_index_from(s, b);
            &&& 1 <= ls.len() <= s.len() - b + 1
            &&& ls[0].start == b
            &&& forall|j: int|
                0 <= j < ls.len() - 1 ==> (#[trigger] ls[j]).end + 1 == ls[j + 1].start
            &&& forall|j: int|
                0 <= j < ls.len() ==> b <= (#[trigger] ls[j]).start <= ls[j].end <= s.len()
            &&& forall|j: int|
                0 <= j < ls.len() - 1 ==> (#[trigger] ls[j]).end < s.len() && s[ls[j].end as int]
                    == '\n'
            &&& forall|j: int, k: int|
                #![trigger ls[j], s[k]]
                0 <= j < ls.len() && ls[j].start <= k < ls[j].end ==> s[k] != '\n'
            &&& (ls.last().start == s.len() ==> ls.last().end == s.len())
            &&& (ls.last().start < s.len() ==> ls.last().end == s.len() - 1)
            &&& forall|k: int| ls.last().start <= k < s.len() ==> s[k] != '\n'
        }),
    decreases s.len() - b,
{
    lemma_find_newline_props(s, b);
    let e = find_newline(s, b);
    let ls = line_index_from(s, b);
    if e < s.len() {
        lemma_line_index_from_ok(s, e + 1);
        let first = seq![Line { start: b as usize, end: e as usize }];
        let rest = line_index_from(s, e + 1);
        assert(ls == first + rest);
        assert(ls.len() == 1 + rest.len());
        assert forall|j: int| 1 <= j < ls.len() implies ls[j] == rest[j - 1] by {}
        assert(ls.last() == rest.last());
        assert forall|j: int|
            0 <= j < ls.len() - 1 implies (#[trigger] ls[j]).end + 1 == ls[j + 1].start by {
            if j == 0 {
                assert(rest[0].start == e + 1);
            } else {
                assert(rest[j - 1].end + 1 == rest[j].start);
            }
        }
        assert forall|j: int|
            0 <= j < ls.len() implies b <= (#[trigger] ls[j]).start <= ls[j].end <= s.len() by {
            if j > 0 {
                assert(e + 1 <= rest[j - 1].start <= rest[j - 1].end <= s.len());
            }
        }
        assert forall|j: int|
            0 <= j < ls.len() - 1 implies (#[trigger] ls[j]).end < s.len() && s[ls[j].end as int]
                == '\n' by {
            if j > 0 {
                if j - 1 < rest.len() - 1 {
                    assert(rest[j - 1].end < s.len() && s[rest[j - 1].end as int] == '\n');
                }
            }
        }
        assert forall|j: int, k: int|
            #![trigger ls[j], s[k]]
            0 <= j < ls.len() && ls[j].start <= k < ls[j].end implies s[k] != '\n' by {
            if j > 0 {
                assert(rest[j - 1].start <= k < rest[j - 1].end);
            }
        }
    } else {
        // single trailing line
    }
}

/// Every offset strictly inside the sequence lies on some line.
proof fn lemma_line_index_from_covers(s: Seq<char>, b: int, o: int)
    requires
        0 <= b <= o < s.len(),
        s.len() <= usize::MAX,
    ensures
        exists|j: int|
            0 <= j < line_index_from(s, b).len() && (#[trigger] line_index_from(s, b)[j]).start
                <= o <= line_index_from(s, b)[j].end,
    decreases s.len() - b,
{
    lemma_find_newline_props(s, b);
    let e = find_newline(s, b);
    let ls = line_index_from(s, b);
    if e < s.len() {
        if o <= e {
            assert(ls[0].start <= o <= ls[0].end);
        } else {
            lemma_line_index_from_covers(s, e + 1, o);
            let rest = line_index_from(s, e + 1);
            let j = choose|j: int|
                0 <= j < rest.len() && (#[trigger] rest[j]).start <= o <= rest[j].end;
            assert(ls[j + 1] == rest[j]);
            assert(ls[j + 1].start <= o <= ls[j + 1].end);
        }
    } else {
        assert(ls[0].start <= o <= ls[0].end);
    }
}

/// Entries of a contiguous line index are ordered: an earlier line ends
/// strictly before a later line starts.
proof fn lemma_lines_mono(ls: Seq<Line>, j1: int, j2: int)
    requires
        0 <= j1 < j2 < ls.len(),
        forall|j: int| 0 <= j < ls.len() - 1 ==> (#[trigger] ls[j]).end + 1 == ls[j + 1].start,
        forall|j: int| 0 <= j < ls.len() ==> (#[trigger] ls[j]).start <= ls[j].end,
    ensures
        ls[j1].end < ls[j2].start,
    decreases j2 - j1,
{
    if j1 + 1 < j2 {
        lemma_lines_mono(ls, j1 + 1, j2);
    }
}

/// The line index derived from any character sequence is well formed: it has
/// at least one entry; entries are contiguous, starting at offset 0; every
/// entry but the last ends exactly on a line terminator and hides none in its
/// interior; the last entry reaches the end of the sequence; and every offset
/// of the sequence lies on some line.
pub proof fn lemma_line_index_wf(s: Seq<char>)
    requires
        s.len() <= usize::MAX,
    ensures
        ({
            let ls = line_index(s);
            &&& ls.len() >= 1
            &&& ls[0].start == 0
            &&& forall|j: int|
                0 <= j < ls.len() - 1 ==> (#[trigger] ls[j]).end + 1 == ls[j + 1].start
            &&& forall|j: int| 0 <= j < ls.len() ==> (#[trigger] ls[j]).start <= ls[j].end <= s.len()
            &&& forall|j: int|
                0 <= j < ls.len() - 1 ==> (#[trigger] ls[j]).end < s.len() && s[ls[j].end as int]
                    == '\n'
            &&& forall|j: int, k: int|
                #![trigger ls[j], s[k]]
                0 <= j < ls.len() && ls[j].start <= k < ls[j].end ==> s[k] != '\n'
            &&& (ls.last().start == s.len() ==> ls.last().end == s.len())
            &&& (ls.last().start < s.len() ==> ls.last().end == s.len() - 1)
        }),
{
    lemma_line_index_from_ok(s, 0);
}

/// Every offset of the character sequence lies on some line of its derived
/// line index.
pub proof fn lemma_line_index_covers(s: Seq<char>, o: int)
    requires
        s.len() <= usize::MAX,
        0 <= o < s.len(),
    ensures
        exists|j: int|
            0 <= j < line_index(s).len() && (#[trigger] line_index(s)[j]).start <= o
                <= line_index(s)[j].end,
{
    lemma_line_index_from_covers(s, 0, o);
    let j = choose|j: int|
        0 <= j < line_index_from(s, 0).len() && (#[trigger] line_index_from(s, 0)[j]).start <= o
            <= line_index_from(s, 0)[j].end;
    assert(0 <= j < line_index(s).len() && line_index(s)[j].start <= o <= line_index(s)[j].end);
}

/// Entries of a well-formed line index are pairwise disjoint, so the line the
/// cursor is on is unique.
pub proof fn lemma_current_line_unique(b: BufferData, j1: int, j2: int)
    requires
        b.wf(),
        b.data@.len() <= usize::MAX,
        b.is_current_line(j1),
        b.is_current_line(j2),
    ensures
        j1 == j2,
{
    lemma_line_index_from_ok(b.data@, 0);
    let ls = b.lines@;
    if j1 < j2 {
        assert(b.cursor <= ls[j1].end) by {
            if j1 == ls.len() - 1 {
                assert(false);
            }
        }
        lemma_lines_mono(ls, j1, j2);
        assert(false);
    } else if j2 < j1 {
        assert(b.cursor <= ls[j2].end) by {
            if j2 == ls.len() - 1 {
                assert(false);
            }
        }
        lemma_lines_mono(ls, j2, j1);
        assert(false);
    }
}

/// Relation between the buffer before and after a vertical cursor move from
/// current line `c` to target line `t`: the desired column is kept if the
/// target line is long enough; otherwise the cursor clamps to the target
/// line's last cell and the desired column is remembered as the sticky
/// column.
pub open spec fn vertical_move_post(pre: BufferData, post: BufferData, c: int, t: int) -> bool {
    let line = pre.lines@[t];
    let x = pre.desired_column(c);
    &&& post.data == pre.data
    &&& post.lines == pre.lines
    &&& if x >= line.spec_len() {
        &&& post.cursor == line.end
        &&& post.prev_cursor_offset == Some(x as usize)
    } else {
        &&& post.cursor == line.start + x
        &&& post.prev_cursor_offset == pre.prev_cursor_offset
    }
}

/// A well-formed buffer always has a current line.
pub proof fn lemma_current_line_exists(b: BufferData)
    requires
        b.wf(),
        b.data@.len() <= usize::MAX,
    ensures
        exists|c: int| b.is_current_line(c),
{
    lemma_line_index_from_ok(b.data@, 0);
    if b.cursor < b.data@.len() {
        lemma_line_index_from_covers(b.data@, 0, b.cursor as int);
        let j = choose|j: int|
            0 <= j < b.lines@.len() && (#[trigger] b.lines@[j]).start <= b.cursor
                <= b.lines@[j].end;
        assert(b.is_current_line(j));
    } else {
        assert(b.is_current_line(b.lines@.len() - 1));
    }
}

/// Relation of `move_cursor_right`: the cursor advances by `dx` unless that
/// would pass the end of the document, in which case nothing moves; the
/// sticky column is cleared either way.
pub open spec fn moved_right(pre: BufferData, post: BufferData, dx: int) -> bool {
    &&& post.data == pre.data
    &&& post.lines == pre.lines
    &&& post.prev_cursor_offset is None
    &&& post.cursor as int == if pre.cursor + dx <= pre.data@.len() {
        pre.cursor + dx
    } else {
        pre.cursor as int
    }
}

/// Relation of `move_cursor_left`: the cursor retreats by `dx` unless that
/// would pass offset 0, in which case nothing moves; the sticky column is
/// cleared either way.
pub open spec fn moved_left(pre: BufferData, post: BufferData, dx: int) -> bool {
    &&& post.data == pre.data
    &&& post.lines == pre.lines
    &&& post.prev_cursor_offset is None
    &&& post.cursor as int == if pre.cursor >= dx {
        pre.cursor - dx
    } else {
        pre.cursor as int
    }
}

/// Relation of `move_cursor_up`: from current line `c`, the move targets line
/// `c - dy`; a target above line 0 is a no-op.
pub open spec fn moved_up(pre: BufferData, post: BufferData, dy: int) -> bool {
    forall|c: int|
        #[trigger] pre.is_current_line(c) ==> if c >= dy {
            vertical_move_post(pre, post, c, c - dy)
        } else {
            post == pre
        }
}

/// Relation of `move_cursor_down`: from current line `c`, the move targets
/// line `c + dy`; a target past the last line is a no-op.
pub open spec fn moved_down(pre: BufferData, post: BufferData, dy: int) -> bool {
    forall|c: int|
        #[trigger] pre.is_current_line(c) ==> if c + dy < pre.lines@.len() {
            vertical_move_post(pre, post, c, c + dy)
        } else {
            post == pre
        }
}

/// Relation of `insert_ch`: the character lands at the cursor, the cursor
/// advances past it, the sticky column is cleared, and the line index is
/// left stale.
pub open spec fn inserted(pre: BufferData, post: BufferData, ch: char) -> bool {
    &&& post.data@ == pre.data@.insert(pre.cursor as int, ch)
    &&& post.cursor == pre.cursor + 1
    &&& post.lines == pre.lines
    &&& post.prev_cursor_offset is None
}

/// Relation of `backspace`: the character before the cursor goes away and
/// the cursor retreats onto its place; a no-op at offset 0. The sticky
/// column is cleared and the line index is left stale.
pub open spec fn backspaced(pre: BufferData, post: BufferData) -> bool {
    &&& pre.cursor > 0 ==> post.data@ == pre.data@.remove(pre.cursor - 1) && post.cursor
        == pre.cursor - 1
    &&& pre.cursor == 0 ==> post.data@ == pre.data@ && post.cursor == 0
    &&& post.lines == pre.lines
    &&& post.prev_cursor_offset is None
}

/// Relation of `delete`: the character at the cursor goes away and the
/// cursor stays put; a no-op when the cursor sits past the last character.
/// The sticky column is cleared and the line index is left stale.
pub open spec fn deleted(pre: BufferData, post: BufferData) -> bool {
    &&& pre.cursor < pre.data@.len() ==> post.data@ == pre.data@.remove(pre.cursor as int)
    &&& pre.cursor >= pre.data@.len() ==> post.data@ == pre.data@
    &&& post.cursor == pre.cursor
    &&& post.lines == pre.lines
    &&& post.prev_cursor_offset is None
}

/// The number of entries in a vector fits the machine word, so the digit
/// count of any line number stays small.
proof fn lemma_line_count_digits(lines: &Vec<Line>)
    ensures
        lines@.len() <= usize::MAX,
        decimal_digits(lines@.len() as nat) <= 20,
{
    assert(vstd::std_specs::vec::spec_vec_len(lines) == lines@.len());
    lemma_decimal_digits_small(lines@.len() as nat);
}

/// The document model: a flat character sequence, the line index derived from
/// it, the cursor offset, and the sticky column remembered across a run of
/// vertical cursor moves.
pub struct BufferData {
    pub data: Vec<char>,
    pub lines: Vec<Line>,
    pub cursor: usize,
    pub prev_cursor_offset: Option<usize>,
}

/// Characters of `s` with every carriage return removed.
pub open spec fn strip_carriage_returns(s: Seq<char>) -> Seq<char> {
    s.filter(|c: char| c != '\r')
}

impl BufferData {
    /// The line index matches the character sequence: it must be recomputed
    /// after every mutation before it is read again.
    pub open spec fn lines_fresh(self) -> bool {
        self.lines@ == line_index(self.data@)
    }

    /// Full well-formedness: fresh line index and in-bounds cursor.
    pub open spec fn wf(self) -> bool {
        &&& self.lines_fresh()
        &&& self.cursor <= self.data@.len()
    }

    /// Line `j` is the one the cursor is on: it contains the cursor offset,
    /// or the cursor sits at the very end of the document and `j` is the last
    /// line.
    pub open spec fn is_current_line(self, j: int) -> bool {
        &&& 0 <= j < self.lines@.len()
        &&& self.lines@[j].start <= self.cursor
        &&& (self.cursor <= self.lines@[j].end || j == self.lines@.len() - 1)
    }

    /// The column a vertical move aims for: the remembered sticky column if
    /// one is set, otherwise the cursor's offset within its current line `c`.
    pub open spec fn desired_column(self, c: int) -> int {
        match self.prev_cursor_offset {
            Some(o) => o as int,
            None => self.cursor - self.lines@[c].start,
        }
    }

    /// `(x, y)` is the cursor position in content coordinates: `y` is the
    /// current line's index and `x` the cursor's offset within that line.
    pub open spec fn rel_pos_is(self, x: int, y: int) -> bool {
        &&& self.is_current_line(y)
        &&& x == self.cursor - self.lines@[y].start
    }

    pub fn new() -> (r: Self)
        ensures
            r.wf(),
            r.data@ == Seq::<char>::empty(),
            r.cursor == 0,
            r.prev_cursor_offset is None,
    {
        let mut buf_data = Self {
            data: Vec::new(),
            lines: Vec::new(),
            cursor: 0,
            prev_cursor_offset: None,
        };
        buf_data.recalculate_lines();
        buf_data
    }

    /// Builds a buffer from raw document text, normalizing CRLF line endings
    /// by dropping every carriage return.
    pub fn from(data: String) -> (r: Self)
        ensures
            r.wf(),
            r.data@ == strip_carriage_returns(data@),
            r.cursor == 0,
            r.prev_cursor_offset is None,
    {
        let n = data.as_str().unicode_len();
        let mut chars: Vec<char> = Vec::new();
        proof {
            reveal(Seq::filter);
            assert(chars@ =~= strip_carriage_returns(data@.subrange(0, 0)));
        }
        let mut i: usize = 0;
        while i < n
            invariant
                n == data@.len(),
                i <= n,
                chars@ == strip_carriage_returns(data@.subrange(0, i as int)),
            decreases n - i,
        {
            let c = data.as_str().get_char(i);
            proof {
                reveal(Seq::filter);
                assert(data@.subrange(0, i + 1).drop_last() =~= data@.subrange(0, i as int));
                assert(data@.subrange(0, i + 1).last() == data@[i as int]);
            }
            if c != '\r' {
                chars.push(c);
            }
            i = i + 1;
        }
        proof {
            assert(data@.subrange(0, n as int) =~= data@);
        }
        let mut buf_data = Self {
            data: chars,
            lines: Vec::new(),
            cursor: 0,
            prev_cursor_offset: None,
        };
        buf_data.recalculate_lines();
        buf_data
    }

    pub fn line_count(&self) -> (r: usize)
        ensures
            r == self.lines@.len(),
    {
        self.lines.len()
    }

    /// Rebuilds the line index from the character sequence in one linear pass.
    pub fn recalculate_lines(&mut self)
        ensures
            final(self).data == old(self).data,
            final(self).cursor == old(self).cursor,
            final(self).prev_cursor_offset == old(self).prev_cursor_offset,
            final(self).lines_fresh(),
    {
        let ghost s = self.data@;
        let mut previous_begining: usize = 0;
        self.lines.clear();
        let n = self.data.len();
        let mut i: usize = 0;
        while i < n
            invariant
                self.data == old(self).data,
                self.cursor == old(self).cursor,
                self.prev_cursor_offset == old(self).prev_cursor_offset,
                s == self.data@,
                n == s.len(),
                previous_begining <= i <= n,
                forall|k: int| previous_begining <= k < i ==> s[k] != '\n',
                self.lines@ + line_index_from(s, previous_begining as int) == line_index(s),
            decreases n - i,
        {
            if self.data[i] == '\n' {
                proof {
                    lemma_find_newline_skip(s, previous_begining as int, i as int);
                    assert(find_newline(s, previous_begining as int) == i);
                    let rest = line_index_from(s, i + 1);
                    assert(line_index_from(s, previous_begining as int) == seq![
                        Line { start: previous_begining, end: i },
                    ] + rest);
                    assert(self.lines@.push(Line { start: previous_begining, end: i }) + rest
                        =~= self.lines@ + line_index_from(s, previous_begining as int));
                }
                self.lines.push(Line { start: previous_begining, end: i });
                previous_begining = i + 1;
            }
            i = i + 1;
        }
        proof {
            lemma_find_newline_skip(s, previous_begining as int, n as int);
            assert(find_newline(s, previous_begining as int) == s.len());
        }
        assert(self.data.len() >= previous_begining);
        let end = if previous_begining == n {
            previous_begining
        } else {
            n - 1
        };
        proof {
            assert(line_index_from(s, previous_begining as int) == seq![
                Line { start: previous_begining, end: end },
            ]);
            assert(self.lines@.push(Line { start: previous_begining, end: end }) =~= self.lines@
                + line_index_from(s, previous_begining as int));
        }
        self.lines.push(Line { start: previous_begining, end });
    }

    /// The index of the line containing the cursor; the last line when the
    /// cursor sits just past the end of the document.
    pub fn current_line(&self) -> (r: usize)
        requires
            self.wf(),
        ensures
            self.is_current_line(r as int),
    {
        let ghost s = self.data@;
        proof {
            assert(vstd::std_specs::vec::spec_vec_len(&self.data) == s.len());
            lemma_line_index_from_ok(s, 0);
            if self.cursor < s.len() {
                lemma_line_index_from_covers(s, 0, self.cursor as int);
            }
        }
        let n = self.lines.len();
        let mut current_line: usize = 0;
        while current_line < n
            invariant
                s == self.data@,
                self.cursor <= s.len(),
                n == self.lines@.len(),
                n >= 1,
                self.lines@[n - 1].start <= s.len(),
                current_line <= n,
                self.cursor < s.len() ==> exists|j: int|
                    current_line <= j < n && (#[trigger] self.lines@[j]).start <= self.cursor
                        <= self.lines@[j].end,
            decreases n - current_line,
        {
            let line = &self.lines[current_line];
            if line.start <= self.cursor && line.end >= self.cursor {
                return current_line;
            }
            current_line = current_line + 1;
        }
        assert(self.cursor == self.data.len());
        current_line - 1
    }

    /// Moves the cursor `dx` cells to the right; a move past the end of the
    /// document is a silent no-op. Clears the sticky column.
    pub fn move_cursor_right(&mut self, dx: usize)
        requires
            old(self).cursor <= old(self).data@.len(),
        ensures
            moved_right(*old(self), *final(self), dx as int),
    {
        let len = self.data.len();
        if dx <= len - self.cursor {
            self.cursor = self.cursor + dx;
        }
        self.prev_cursor_offset = None;
    }

    /// Moves the cursor `dx` cells to the left; a move past offset 0 is a
    /// silent no-op. Clears the sticky column.
    pub fn move_cursor_left(&mut self, dx: usize)
        ensures
            moved_left(*old(self), *final(self), dx as int),
    {
        if self.cursor >= dx {
            self.cursor = self.cursor - dx;
        }
        self.prev_cursor_offset = None;
    }

    /// Moves the cursor `dy` lines up, keeping the desired column as far as
    /// the target line allows; a move above line 0 is a silent no-op.
    pub fn move_cursor_up(&mut self, dy: usize)
        requires
            old(self).wf(),
        ensures
            final(self).wf(),
            moved_up(*old(self), *final(self), dy as int),
    {
        let ghost s = self.data@;
        proof {
            assert(vstd::std_specs::vec::spec_vec_len(&self.data) == s.len());
            lemma_line_index_from_ok(s, 0);
        }
        let r = self.current_line();
        if r >= dy {
            let line = &self.lines[r];
            let mut x_offset = match self.prev_cursor_offset {
                Some(offset) => offset,
                None => self.cursor - line.start,
            };
            let t = r - dy;
            let line = &self.lines[t];
            if x_offset >= line.len() {
                self.prev_cursor_offset = Some(x_offset);
                x_offset = line.len() - 1;
            }
            self.cursor = line.start + x_offset;
        }
        proof {
            assert forall|c: int| #[trigger] old(self).is_current_line(c) implies if c >= dy {
                vertical_move_post(*old(self), *final(self), c, c - dy)
            } else {
                *final(self) == *old(self)
            } by {
                lemma_current_line_unique(*old(self), c, r as int);
            }
        }
    }

    /// Moves the cursor `dy` lines down, keeping the desired column as far as
    /// the target line allows; a move past the last line is a silent no-op.
    pub fn move_cursor_down(&mut self, dy: usize)
        requires
            old(self).wf(),
        ensures
            final(self).wf(),
            moved_down(*old(self), *final(self), dy as int),
    {
        let ghost s = self.data@;
        proof {
            assert(vstd::std_specs::vec::spec_vec_len(&self.data) == s.len());
            lemma_line_index_from_ok(s, 0);
        }
        let r = self.current_line();
        let n = self.lines.len();
        if dy < n - r {
            let line = &self.lines[r];
            let mut x_offset = match self.prev_cursor_offset {
                Some(offset) => offset,
                None => self.cursor - line.start,
            };
            let t = r + dy;
            let line = &self.lines[t];
            if x_offset >= line.len() {
                self.prev_cursor_offset = Some(x_offset);
                x_offset = line.len() - 1;
            }
            self.cursor = line.start + x_offset;
        }
        proof {
            assert forall|c: int| #[trigger] old(self).is_current_line(c) implies if c + dy < old(
                self,
            ).lines@.len() {
                vertical_move_post(*old(self), *final(self), c, c + dy)
            } else {
                *final(self) == *old(self)
            } by {
                lemma_current_line_unique(*old(self), c, r as int);
            }
        }
    }

    /// Inserts a character at the cursor and advances the cursor past it.
    /// The line index is stale afterwards and must be recomputed before the
    /// next position query. Clears the sticky column.
    pub fn insert_ch(&mut self, ch: char)
        requires
            old(self).cursor <= old(self).data@.len(),
            old(self).data@.len() < usize::MAX,
        ensures
            inserted(*old(self), *final(self), ch),
    {
        self.data.insert(self.cursor, ch);
        self.cursor = self.cursor + 1;
        self.prev_cursor_offset = None;
    }

    /// Removes the character just before the cursor, as the backspace key
    /// does; a no-op at offset 0. The line index is stale afterwards.
    /// Clears the sticky column.
    pub fn backspace(&mut self)
        requires
            old(self).cursor <= old(self).data@.len(),
        ensures
            backspaced(*old(self), *final(self)),
    {
        if self.cursor > 0 {
            self.cursor = self.cursor - 1;
            self.data.remove(self.cursor);
        }
        self.prev_cursor_offset = None;
    }

    /// Removes the character at the cursor, as the delete key does; a no-op
    /// when the cursor sits past the last character. The line index is stale
    /// afterwards. Clears the sticky column.
    pub fn delete(&mut self)
        ensures
            deleted(*old(self), *final(self)),
    {
        if self.cursor < self.data.len() {
            self.data.remove(self.cursor);
        }
        self.prev_cursor_offset = None;
    }

    /// Number of cells the line-number gutter needs: the decimal digits of
    /// the largest line number, plus one gap cell.
    pub fn digits_in_line_num(&self) -> (r: usize)
        ensures
            r == 1 + decimal_digits(self.lines@.len() as nat),
    {
        let mut max = self.lines.len();
        let ghost n0 = max as nat;
        let mut digits: usize = 1;
        proof {
            lemma_decimal_digits_bound(n0);
        }
        while max > 0
            invariant
                digits as nat + decimal_digits(max as nat) == 1 + decimal_digits(n0),
                decimal_digits(n0) <= 1 + n0 / 10,
                n0 <= usize::MAX,
            decreases max,
        {
            digits = digits + 1;
            max = max / 10;
        }
        digits
    }

    /// The whole document as one string.
    pub fn to_string(&self) -> (r: String)
        ensures
            r@ == self.data@,
    {
        chars_to_string(&self.data)
    }
}

/// Inserting a character at the cursor and then pressing backspace restores
/// both the original character sequence and the original cursor offset.
pub proof fn lemma_insert_backspace_round_trip(
    pre: BufferData,
    mid: BufferData,
    post: BufferData,
    ch: char,
)
    requires
        pre.cursor <= pre.data@.len(),
        inserted(pre, mid, ch),
        backspaced(mid, post),
    ensures
        post.data@ == pre.data@,
        post.cursor == pre.cursor,
{
    assert(pre.data@.insert(pre.cursor as int, ch).remove(pre.cursor as int) =~= pre.data@);
}

/// Cursor moves at the document's boundaries are silent no-ops: a left move
/// at offset 0, a right move at the end of the document, an upward move on
/// the first line, and a downward move on the last line all leave the cursor
/// where it was.
pub proof fn lemma_boundary_moves_are_no_ops(pre: BufferData, post: BufferData, n: int)
    requires
        n > 0,
    ensures
        moved_left(pre, post, n) && pre.cursor == 0 ==> post.cursor == pre.cursor,
        moved_right(pre, post, n) && pre.cursor == pre.data@.len() ==> post.cursor == pre.cursor,
        moved_up(pre, post, n) && pre.is_current_line(0) ==> post == pre,
        moved_down(pre, post, n) && pre.is_current_line(pre.lines@.len() - 1) ==> post == pre,
{
}

/// Recomputing the line index without mutating the character sequence in
/// between yields an identical line index: the index is a pure function of
/// the sequence.
pub proof fn lemma_recalculate_lines_idempotent(b1: BufferData, b2: BufferData)
    requires
        b1.lines_fresh(),
        b2.lines_fresh(),
        b2.data@ == b1.data@,
    ensures
        b2.lines@ == b1.lines@,
{
}

/// Modifier flags of a decoded key press. `other` stands for any modifier
/// beyond control, alt and shift, so that exact modifier combinations can be
/// told apart.
#[derive(Clone, Copy, Debug, PartialEq, Eq, Structural)]
pub struct Modifiers {
    pub ctrl: bool,
    pub alt: bool,
    pub shift: bool,
    pub other: bool,
}

pub open spec fn mods_none(m: Modifiers) -> bool {
    !m.ctrl && !m.alt && !m.shift && !m.other
}

pub open spec fn mods_only_shift(m: Modifiers) -> bool {
    !m.ctrl && !m.alt && m.shift && !m.other
}

pub open spec fn mods_only_ctrl(m: Modifiers) -> bool {
    m.ctrl && !m.alt && !m.shift && !m.other
}

pub open spec fn mods_ctrl_shift(m: Modifiers) -> bool {
    m.ctrl && !m.alt && m.shift && !m.other
}

/// A decoded key, as the terminal layer hands it over; anything the editor
/// has no binding for arrives as `Unsupported`.
#[derive(Clone, Copy, Debug, PartialEq, Eq, Structural)]
pub enum KeyCode {
    Char(char),
    Left,
    Right,
    Up,
    Down,
    Enter,
    Esc,
    Backspace,
    Delete,
    Unsupported,
}

/// A decoded input event: a key press with its modifiers, or any other
/// terminal event (release, repeat, mouse, paste), which the surfaces
/// ignore apart from refreshing their derived state.
#[derive(Clone, Copy, Debug, PartialEq, Eq, Structural)]
pub enum InputEvent {
    KeyPress { code: KeyCode, modifiers: Modifiers },
    Other,
}

/// The uppercase form of an ASCII letter; any other character is unchanged.
pub open spec fn ascii_uppercase(c: char) -> char {
    if 'a' <= c <= 'z' {
        ((c as int) - 32) as char
    } else {
        c
    }
}

fn ascii_to_uppercase(c: char) -> (r: char)
    ensures
        r == ascii_uppercase(c),
{
    if c >= 'a' && c <= 'z' {
        (c as u8 - 32) as char
    } else {
        c
    }
}

/// What a surface's input handler does with its text: full editing, a
/// single-line input box, or the selector that is not implemented yet.
#[derive(Clone, Copy, Debug, PartialEq, Eq, Structural)]
pub enum BufferLogic {
    Editor,
    InputBox,
    Selector,
}

/// Cells reserved on each side of a surface by its decorations.
pub struct Padding {
    pub top: usize,
    pub right: usize,
    pub bottom: usize,
    pub left: usize,
}

/// A positioned, sized, decorated presentation of one document: an editor
/// pane, an input box, or a future selector.
pub struct Buffer {
    pub id: u128,
    pub is_overlay: bool,
    pub data: BufferData,
    pub x: u16,
    pub y: u16,
    pub width: u16,
    pub height: u16,
    pub scroll_x: usize,
    pub scroll_y: usize,
    pub file_path: Option<String>,
    pub read_only: bool,
    pub visible: bool,
    pub line_numbers: bool,
    pub show_status_line: bool,
    pub bordered: bool,
    pub top_border: String,
    pub bottom_border: String,
    pub logic: BufferLogic,
    pub paused_event_id: u128,
}

/// The new scroll offset that re-admits a cursor at content position `pos`
/// into a window of `view` cells starting at `scroll`: the minimal move, and
/// no move at all when the cursor is already visible.
pub open spec fn scroll_adjust(scroll: int, pos: int, view: int) -> int {
    if pos < scroll {
        pos
    } else if pos >= scroll + view {
        pos + 1 - view
    } else {
        scroll
    }
}

/// All fields equal but the scroll offsets.
pub open spec fn same_but_scroll(pre: Buffer, post: Buffer) -> bool {
    &&& post.id == pre.id
    &&& post.is_overlay == pre.is_overlay
    &&& post.data == pre.data
    &&& post.x == pre.x
    &&& post.y == pre.y
    &&& post.width == pre.width
    &&& post.height == pre.height
    &&& post.file_path == pre.file_path
    &&& post.read_only == pre.read_only
    &&& post.visible == pre.visible
    &&& post.line_numbers == pre.line_numbers
    &&& post.show_status_line == pre.show_status_line
    &&& post.bordered == pre.bordered
    &&& post.top_border == pre.top_border
    &&& post.bottom_border == pre.bottom_border
    &&& post.logic == pre.logic
    &&& post.paused_event_id == pre.paused_event_id
}

/// Relation of `scroll`: both offsets move by exactly the amount needed to
/// re-admit the cursor into the visible content rectangle, and nothing else
/// changes.
pub open spec fn scroll_post(pre: Buffer, post: Buffer) -> bool {
    &&& same_but_scroll(pre, post)
    &&& forall|cx: int, cy: int|
        #[trigger] pre.data.rel_pos_is(cx, cy) ==> post.scroll_y == scroll_adjust(
            pre.scroll_y as int,
            cy,
            pre.spec_view_h(),
        ) && post.scroll_x == scroll_adjust(pre.scroll_x as int, cx, pre.spec_view_w())
}

impl Buffer {
    /// Cells taken by one border side.
    pub open spec fn spec_border(self) -> int {
        if self.bordered {
            1int
        } else {
            0int
        }
    }

    /// Cells taken by the line-number gutter, gap included.
    pub open spec fn spec_gutter_width(self) -> int {
        if self.line_numbers {
            1 + decimal_digits(self.data.lines@.len() as nat) as int
        } else {
            0
        }
    }

    pub open spec fn spec_left_pad(self) -> int {
        self.spec_border() + self.spec_gutter_width()
    }

    pub open spec fn spec_right_pad(self) -> int {
        self.spec_border()
    }

    pub open spec fn spec_top_pad(self) -> int {
        self.spec_border()
    }

    pub open spec fn spec_bottom_pad(self) -> int {
        self.spec_border() + if self.show_status_line {
            1int
        } else {
            0int
        }
    }

    /// Width of the visible content rectangle (clamped at zero for a surface
    /// too narrow for its decorations).
    pub open spec fn spec_view_w(self) -> int {
        let v = self.width - self.spec_left_pad() - self.spec_right_pad();
        if v >= 0 {
            v
        } else {
            0
        }
    }

    /// Height of the visible content rectangle (clamped at zero).
    pub open spec fn spec_view_h(self) -> int {
        let v = self.height - self.spec_top_pad() - self.spec_bottom_pad();
        if v >= 0 {
            v
        } else {
            0
        }
    }

    /// Cell counts reserved by the decorations: one per border side, the
    /// gutter on the left, the status line at the bottom.
    pub fn get_padding(&self) -> (p: Padding)
        ensures
            p.top == self.spec_top_pad(),
            p.right == self.spec_right_pad(),
            p.bottom == self.spec_bottom_pad(),
            p.left == self.spec_left_pad(),
    {
        proof {
            lemma_line_count_digits(&self.data.lines);
        }
        let line_numbers_offset = if self.line_numbers {
            self.data.digits_in_line_num()
        } else {
            0
        };
        let border_offset: usize = if self.bordered {
            1
        } else {
            0
        };
        let status_line_offset: usize = if self.show_status_line {
            1
        } else {
            0
        };
        Padding {
            top: border_offset,
            right: border_offset,
            bottom: border_offset + status_line_offset,
            left: border_offset + line_numbers_offset,
        }
    }

    pub fn set_paused_event_id(&mut self, id: u128)
        ensures
            *final(self) == (Buffer { paused_event_id: id, ..*old(self) }),
    {
        self.paused_event_id = id;
    }

    /// Records the path the document saves to; whether the path is usable on
    /// disk is the caller's concern.
    pub fn set_path(&mut self, path: String)
        ensures
            *final(self) == (Buffer { file_path: final(self).file_path, ..*old(self) }),
            (final(self).file_path matches Some(p) && p@ == path@),
    {
        self.file_path = Some(path);
    }

    pub fn move_to(&mut self, x: u16, y: u16)
        ensures
            *final(self) == (Buffer { x, y, ..*old(self) }),
    {
        self.x = x;
        self.y = y;
    }

    pub fn resize(&mut self, w: u16, h: u16)
        ensures
            *final(self) == (Buffer { width: w, height: h, ..*old(self) }),
    {
        self.width = w;
        self.height = h;
    }

    /// The cursor position in content coordinates: column within the current
    /// line, and the current line's index.
    pub fn cursor_xy_relative(&self) -> (r: (usize, usize))
        requires
            self.data.wf(),
        ensures
            self.data.rel_pos_is(r.0 as int, r.1 as int),
    {
        let y = self.data.current_line();
        let x = self.data.cursor - self.data.lines[y].start;
        (x, y)
    }

    /// The cursor position in absolute terminal coordinates. Either
    /// coordinate may fall outside the surface's rectangle; the caller must
    /// bounds-check before moving the hardware cursor.
    #[verifier::rlimit(50)]
    pub fn cursor_xy(&self) -> (r: (isize, isize))
        requires
            self.data.wf(),
            self.data.data@.len() + 0x20000 < isize::MAX,
            self.scroll_x < isize::MAX,
            self.scroll_y < isize::MAX,
        ensures
            forall|cx: int, cy: int|
                #[trigger] self.data.rel_pos_is(cx, cy) ==> r.0 == cx - self.scroll_x + self.x
                    + self.spec_left_pad() && r.1 == cy - self.scroll_y + self.y
                    + self.spec_top_pad(),
    {
        let (cx, cy) = self.cursor_xy_relative();
        let p = self.get_padding();
        proof {
            lemma_line_count_digits(&self.data.lines);
            assert(vstd::std_specs::vec::spec_vec_len(&self.data.data) == self.data.data@.len());
            lemma_line_index_from_ok(self.data.data@, 0);
        }
        let rx = cx as isize - self.scroll_x as isize + self.x as isize + p.left as isize;
        let ry = cy as isize - self.scroll_y as isize + self.y as isize + p.top as isize;
        proof {
            assert forall|cx2: int, cy2: int| #[trigger]
                self.data.rel_pos_is(cx2, cy2) implies rx == cx2 - self.scroll_x + self.x
                + self.spec_left_pad() && ry == cy2 - self.scroll_y + self.y
                + self.spec_top_pad() by {
                lemma_current_line_unique(self.data, cy2, cy as int);
            }
        }
        (rx, ry)
    }

    /// Scrolls by exactly the amount needed to bring the cursor back inside
    /// the visible content rectangle; no move when it already is inside.
    #[verifier::rlimit(50)]
    pub fn scroll(&mut self)
        requires
            old(self).data.wf(),
            old(self).data.data@.len() < usize::MAX,
        ensures
            scroll_post(*old(self), *final(self)),
    {
        let (x, y) = self.cursor_xy_relative();
        let p = self.get_padding();
        proof {
            lemma_line_count_digits(&self.data.lines);
            assert(vstd::std_specs::vec::spec_vec_len(&self.data.data) == self.data.data@.len());
            lemma_line_index_from_ok(self.data.data@, 0);
        }
        let w = self.width as usize;
        let h = self.height as usize;
        let view_w = if w > p.left + p.right {
            w - (p.left + p.right)
        } else {
            0
        };
        let view_h = if h > p.top + p.bottom {
            h - (p.top + p.bottom)
        } else {
            0
        };
        if y < self.scroll_y {
            self.scroll_y = y;
        } else if y - self.scroll_y >= view_h {
            self.scroll_y = y + 1 - view_h;
        }
        if x < self.scroll_x {
            self.scroll_x = x;
        } else if x - self.scroll_x >= view_w {
            self.scroll_x = x + 1 - view_w;
        }
        proof {
            assert forall|cx: int, cy: int| #[trigger]
                old(self).data.rel_pos_is(cx, cy) implies final(self).scroll_y == scroll_adjust(
                old(self).scroll_y as int,
                cy,
                old(self).spec_view_h(),
            ) && final(self).scroll_x == scroll_adjust(
                old(self).scroll_x as int,
                cx,
                old(self).spec_view_w(),
            ) by {
                lemma_current_line_unique(old(self).data, cy, y as int);
            }
        }
    }
}

/// Characters of `s` with every line terminator removed.
pub open spec fn drop_newlines(s: Seq<char>) -> Seq<char> {
    s.filter(|c: char| c != '\n')
}

/// The part of line `l` that lands in a window of `take` cells after
/// horizontal scrolling by `scroll_x`, line terminators dropped. A line whose
/// `end` offset points past the sequence (the empty trailing line) shows no
/// content.
pub open spec fn visible_content(data: Seq<char>, l: Line, scroll_x: int, take: int) -> Seq<
    char,
> {
    if l.end < data.len() {
        let src = data.subrange(l.start as int, l.end + 1);
        let lo = if scroll_x < src.len() {
            scroll_x
        } else {
            src.len() as int
        };
        let hi0 = if lo + take < src.len() {
            lo + take
        } else {
            src.len() as int
        };
        let hi = if hi0 >= lo {
            hi0
        } else {
            lo
        };
        drop_newlines(src.subrange(lo, hi))
    } else {
        Seq::empty()
    }
}

/// Collects the visible window of one line's content, terminators dropped.
fn line_window_chars(data: &Vec<char>, l: Line, scroll_x: usize, take: usize) -> (r: Vec<char>)
    requires
        l.end < data@.len() ==> l.start <= l.end,
    ensures
        r@ == visible_content(data@, l, scroll_x as int, take as int),
        r@.len() <= take,
{
    let mut out: Vec<char> = Vec::new();
    if l.end < data.len() {
        let src_len = l.end + 1 - l.start;
        let lo = if scroll_x < src_len {
            scroll_x
        } else {
            src_len
        };
        let rem = src_len - lo;
        let cnt = if take < rem {
            take
        } else {
            rem
        };
        let ghost src = data@.subrange(l.start as int, l.end + 1);
        proof {
            reveal(Seq::filter);
            assert(src.subrange(lo as int, lo as int) =~= Seq::<char>::empty());
            assert(out@ =~= drop_newlines(src.subrange(lo as int, lo as int)));
        }
        let mut j: usize = 0;
        while j < cnt
            invariant
                j <= cnt,
                l.start <= l.end,
                data@.len() <= usize::MAX,
                l.start + lo + cnt <= data@.len(),
                lo + cnt <= src.len(),
                src == data@.subrange(l.start as int, l.end + 1),
                l.end < data@.len(),
                out@ == drop_newlines(src.subrange(lo as int, lo + j)),
                out@.len() <= j,
            decreases cnt - j,
        {
            let c = data[l.start + lo + j];
            proof {
                reveal(Seq::filter);
                let t = src.subrange(lo as int, lo + j + 1);
                assert(t.drop_last() =~= src.subrange(lo as int, lo + j));
                assert(t.last() == src[lo + j]);
                assert(src[lo + j] == data@[l.start + lo + j]);
            }
            if c != '\n' {
                out.push(c);
            }
            j = j + 1;
        }
        proof {
            assert(visible_content(data@, l, scroll_x as int, take as int) == drop_newlines(
                src.subrange(lo as int, lo + cnt),
            ));
        }
    } else {
        proof {
            assert(visible_content(data@, l, scroll_x as int, take as int) =~= Seq::<
                char,
            >::empty());
        }
    }
    out
}

/// The characters after the last `/` of a path: the file's own name.
pub open spec fn after_last_slash(s: Seq<char>) -> Seq<char>
    decreases s.len(),
{
    if s.len() == 0 {
        s
    } else if s.last() == '/' {
        Seq::empty()
    } else {
        after_last_slash(s.drop_last()).push(s.last())
    }
}

proof fn lemma_after_last_slash(s: Seq<char>, i: int)
    requires
        0 <= i <= s.len(),
        forall|k: int| i <= k < s.len() ==> s[k] != '/',
        i > 0 ==> s[i - 1] == '/',
    ensures
        after_last_slash(s) == s.subrange(i, s.len() as int),
    decreases s.len(),
{
    if s.len() == i {
        assert(after_last_slash(s) =~= s.subrange(i, s.len() as int));
    } else {
        lemma_after_last_slash(s.drop_last(), i);
        assert(s.drop_last().subrange(i, s.len() - 1) =~= s.subrange(i, s.len() - 1));
        assert(after_last_slash(s) =~= s.subrange(i, s.len() as int));
    }
}

fn no_name_chars() -> (r: Vec<char>)
    ensures
        r@ == "NO NAME"@,
{
    proof {
        reveal_strlit("NO NAME");
    }
    let mut v: Vec<char> = Vec::new();
    v.push('N');
    v.push('O');
    v.push(' ');
    v.push('N');
    v.push('A');
    v.push('M');
    v.push('E');
    proof {
        assert(v@ =~= "NO NAME"@);
    }
    v
}

/// A run of `n` horizontal border cells (empty when `n` is negative).
pub open spec fn dashes(n: int) -> Seq<char> {
    Seq::new(
        if n >= 0 {
            n as nat
        } else {
            0
        },
        |i: int| '─',
    )
}

/// The top border of a bordered surface: corner, title, a run of dashes
/// filling the width, corner.
pub open spec fn spec_top_border(width: int, title: Seq<char>) -> Seq<char> {
    seq!['╭'] + title + dashes(width - 2 - title.len()) + seq!['╮']
}

/// The bottom border of a bordered surface.
pub open spec fn spec_bottom_border(width: int) -> Seq<char> {
    seq!['╰'] + dashes(width - 2) + seq!['╯']
}

/// Extends a row with blank cells up to `w` cells.
fn pad_row(out: &mut Vec<char>, w: usize)
    requires
        old(out)@.len() <= w,
    ensures
        final(out)@ == old(out)@ + spaces(w - old(out)@.len()),
{
    while out.len() < w
        invariant
            old(out)@.len() <= out@.len() <= w,
            forall|k: int| 0 <= k < old(out)@.len() ==> out@[k] == old(out)@[k],
            forall|k: int| old(out)@.len() <= k < out@.len() ==> out@[k] == ' ',
        decreases w - out@.len(),
    {
        out.push(' ');
    }
    proof {
        assert(out@ =~= old(out)@ + spaces(w - old(out)@.len()));
    }
}

impl Buffer {
    /// The left border cell of a rendered row, if any.
    pub open spec fn spec_border_l(self) -> Seq<char> {
        if self.bordered {
            seq!['│']
        } else {
            Seq::empty()
        }
    }

    /// The line-number gutter of a rendered row: the line number
    /// zero-padded and right aligned in the gutter, followed by one gap
    /// cell.
    pub open spec fn spec_gutter(self, row: int) -> Seq<char> {
        if self.line_numbers {
            let num = spec_decimal((row + 1) as nat);
            zero_pad(self.spec_gutter_width() - 1 - num.len()) + num + seq![' ']
        } else {
            Seq::empty()
        }
    }

    /// The rendered line-number gutter for one row.
    fn gutter_chars(&self, row: usize) -> (r: Vec<char>)
        requires
            self.data.wf(),
            row < self.data.lines@.len(),
        ensures
            r@ == self.spec_gutter(row as int),
    {
        let mut out: Vec<char> = Vec::new();
        if self.line_numbers {
            proof {
                lemma_line_count_digits(&self.data.lines);
                lemma_spec_decimal_len((row + 1) as nat);
                lemma_decimal_digits_mono((row + 1) as nat, self.data.lines@.len() as nat);
            }
            let digits_in_line_nums = self.data.digits_in_line_num();
            let mut dvec = decimal_chars(row + 1);
            let gap = digits_in_line_nums - 1 - dvec.len();
            let mut g: usize = 0;
            while g < gap
                invariant
                    g <= gap,
                    out@ == zero_pad(g as int),
                decreases gap - g,
            {
                out.push('0');
                proof {
                    assert(out@ =~= zero_pad(g + 1));
                }
                g = g + 1;
            }
            out.append(&mut dvec);
            out.push(' ');
            proof {
                assert(out@ =~= self.spec_gutter(row as int));
            }
        } else {
            proof {
                assert(out@ =~= self.spec_gutter(row as int));
            }
        }
        out
    }

    /// One fully formed display row of exactly `width` cells: optional left
    /// border, optional zero-padded right-aligned line number plus gap, the
    /// visible window of the line's content, blank padding, and an optional
    /// right border overwriting the last cell.
    pub open spec fn spec_render_row(self, row: int) -> Seq<char> {
        let w = self.width as int;
        let l = self.data.lines@[row];
        let take = w - self.spec_left_pad() - self.spec_right_pad();
        let core = self.spec_border_l() + self.spec_gutter(row) + visible_content(
            self.data.data@,
            l,
            self.scroll_x as int,
            take,
        );
        let padded = core + spaces(w - core.len());
        if self.bordered {
            padded.update(w - 1, '│')
        } else {
            padded
        }
    }

    /// Renders one display row; nothing when `row` is past the last line.
    #[verifier::spinoff_prover]
    #[verifier::rlimit(100)]
    pub fn get_row(&self, row: usize) -> (r: Option<String>)
        requires
            self.data.wf(),
            self.width as int >= self.spec_left_pad() + self.spec_right_pad(),
        ensures
            r is Some <==> row < self.data.lines@.len(),
            (r matches Some(s) ==> s@ == self.spec_render_row(row as int) && s@.len()
                == self.width as int),
    {
        if row >= self.data.lines.len() {
            return None;
        }
        proof {
            lemma_line_count_digits(&self.data.lines);
            assert(vstd::std_specs::vec::spec_vec_len(&self.data.data) == self.data.data@.len());
            lemma_line_index_from_ok(self.data.data@, 0);
            lemma_spec_decimal_len((row + 1) as nat);
            lemma_decimal_digits_mono((row + 1) as nat, self.data.lines@.len() as nat);
        }
        let l = self.data.lines[row];
        let p = self.get_padding();
        let w = self.width as usize;
        let chars_to_take = w - p.left - p.right;
        let mut out: Vec<char> = Vec::new();
        if self.bordered {
            out.push('│');
        }
        let ghost border_l = self.spec_border_l();
        proof {
            assert(out@ =~= border_l);
        }
        let mut gutter = self.gutter_chars(row);
        out.append(&mut gutter);
        let ghost head = border_l + self.spec_gutter(row as int);
        proof {
            assert(out@ =~= head);
        }
        let ghost content = visible_content(
            self.data.data@,
            l,
            self.scroll_x as int,
            chars_to_take as int,
        );
        let mut window = line_window_chars(&self.data.data, l, self.scroll_x, chars_to_take);
        out.append(&mut window);
        let ghost core = head + content;
        proof {
            assert(out@ == core);
            assert(core.len() <= w);
        }
        pad_row(&mut out, w);
        proof {
            assert(out@ == core + spaces(w - core.len()));
        }
        if self.bordered {
            let wi = w - 1;
            out[wi] = '│';
        }
        let s = chars_to_string(&out);
        proof {
            assert(out@ =~= self.spec_render_row(row as int));
        }
        Some(s)
    }

    /// The name shown for the document: the last path component, or a fixed
    /// placeholder when there is none.
    pub open spec fn spec_display_name(self) -> Seq<char> {
        match self.file_path {
            Some(p) => if after_last_slash(p@).len() == 0 {
                "NO NAME"@
            } else {
                after_last_slash(p@)
            },
            None => "NO NAME"@,
        }
    }

    fn display_name_chars(&self) -> (r: Vec<char>)
        ensures
            r@ == self.spec_display_name(),
    {
        match &self.file_path {
            Some(path) => {
                let n = path.as_str().unicode_len();
                let mut base_start: usize = 0;
                let mut k: usize = 0;
                while k < n
                    invariant
                        base_start <= k <= n,
                        n == path@.len(),
                        forall|t: int| base_start <= t < k ==> path@[t] != '/',
                        base_start > 0 ==> path@[base_start - 1] == '/',
                    decreases n - k,
                {
                    if path.as_str().get_char(k) == '/' {
                        base_start = k + 1;
                    }
                    k = k + 1;
                }
                proof {
                    lemma_after_last_slash(path@, base_start as int);
                }
                if base_start == n {
                    no_name_chars()
                } else {
                    let mut out: Vec<char> = Vec::new();
                    let mut i = base_start;
                    while i < n
                        invariant
                            base_start <= i <= n,
                            n == path@.len(),
                            out@ == path@.subrange(base_start as int, i as int),
                        decreases n - i,
                    {
                        let c = path.as_str().get_char(i);
                        out.push(c);
                        proof {
                            assert(out@ =~= path@.subrange(base_start as int, i + 1));
                        }
                        i = i + 1;
                    }
                    out
                }
            },
            None => no_name_chars(),
        }
    }

    /// The surface's status line: document name on the left, 1-indexed
    /// cursor coordinates on the right, rendered to exactly the surface's
    /// width.
    pub fn get_status_line(&self) -> (r: String)
        requires
            self.data.wf(),
            self.data.data@.len() < usize::MAX,
            forall|cx: int, cy: int|
                #[trigger] self.data.rel_pos_is(cx, cy) ==> self.width as int >= 2
                    + status_content_width(
                    self.spec_display_name(),
                    (cx + 1) as nat,
                    (cy + 1) as nat,
                ),
        ensures
            forall|cx: int, cy: int|
                #[trigger] self.data.rel_pos_is(cx, cy) ==> r@ == status_line_chars(
                    self.spec_display_name(),
                    (cx + 1) as nat,
                    (cy + 1) as nat,
                    self.width as int,
                ) && r@.len() == self.width as int,
    {
        let (x, y) = self.cursor_xy_relative();
        proof {
            assert(vstd::std_specs::vec::spec_vec_len(&self.data.lines) == self.data.lines@.len());
        }
        let name = self.display_name_chars();
        let r = render_status_line(&name, x + 1, y + 1, self.width);
        proof {
            assert(vstd::std_specs::vec::spec_vec_len(&self.data.data) == self.data.data@.len());
            assert forall|cx: int, cy: int| #[trigger]
                self.data.rel_pos_is(cx, cy) implies r@ == status_line_chars(
                self.spec_display_name(),
                (cx + 1) as nat,
                (cy + 1) as nat,
                self.width as int,
            ) && r@.len() == self.width as int by {
                lemma_current_line_unique(self.data, cy, y as int);
            }
        }
        r
    }

    /// Builds a surface around a document: either the given raw text, CRLF
    /// endings normalized, or an empty document. The caller reads the file
    /// (or finds there is none) and checks the path; this constructor only
    /// shapes the surface.
    pub fn new(
        contents: Option<String>,
        path: String,
        x: u16,
        y: u16,
        width: u16,
        height: u16,
        show_status_line: bool,
        bordered: bool,
        logic: BufferLogic,
        title: &str,
    ) -> (r: Self)
        requires
            bordered ==> title@.len() + 2 <= width as int,
        ensures
            r.id == 0,
            r.is_overlay == false,
            (contents matches Some(c) ==> r.data.data@ == strip_carriage_returns(c@)),
            contents is None ==> r.data.data@ == Seq::<char>::empty(),
            r.data.wf(),
            r.data.cursor == 0,
            r.data.prev_cursor_offset is None,
            r.x == x,
            r.y == y,
            r.width == width,
            r.height == height,
            r.scroll_x == 0,
            r.scroll_y == 0,
            (r.file_path matches Some(p) && p@ == path@),
            r.read_only == false,
            r.visible == true,
            r.line_numbers == (logic == BufferLogic::Editor),
            r.show_status_line == show_status_line,
            r.bordered == bordered,
            bordered ==> r.top_border@ == spec_top_border(width as int, title@)
                && r.bottom_border@ == spec_bottom_border(width as int),
            !bordered ==> r.top_border@ == Seq::<char>::empty() && r.bottom_border@ == Seq::<
                char,
            >::empty(),
            r.logic == logic,
            r.paused_event_id == 0,
    {
        let data = match contents {
            Some(c) => BufferData::from(c),
            None => BufferData::new(),
        };
        let line_numbers = match logic {
            BufferLogic::Editor => true,
            BufferLogic::InputBox => false,
            BufferLogic::Selector => false,
        };
        let top_border = if bordered {
            let mut v: Vec<char> = Vec::new();
            v.push('╭');
            let tn = title.unicode_len();
            let mut i: usize = 0;
            while i < tn
                invariant
                    i <= tn,
                    tn == title@.len(),
                    v@ == seq!['╭'] + title@.subrange(0, i as int),
                decreases tn - i,
            {
                let c = title.get_char(i);
                v.push(c);
                proof {
                    assert(v@ =~= seq!['╭'] + title@.subrange(0, i + 1));
                }
                i = i + 1;
            }
            proof {
                assert(title@.subrange(0, tn as int) =~= title@);
            }
            let ghost head = seq!['╭'] + title@;
            let dash_len = width as usize - 2 - tn;
            let mut g: usize = 0;
            while g < dash_len
                invariant
                    g <= dash_len,
                    v@ == head + dashes(g as int),
                decreases dash_len - g,
            {
                v.push('─');
                proof {
                    assert(v@ =~= head + dashes(g + 1));
                }
                g = g + 1;
            }
            v.push('╮');
            proof {
                assert(v@ =~= spec_top_border(width as int, title@));
            }
            chars_to_string(&v)
        } else {
            String::new()
        };
        let bottom_border = if bordered {
            let mut v: Vec<char> = Vec::new();
            v.push('╰');
            let ghost head = seq!['╰'];
            let dash_len = width as usize - 2;
            let mut g: usize = 0;
            while g < dash_len
                invariant
                    g <= dash_len,
                    v@ == head + dashes(g as int),
                decreases dash_len - g,
            {
                v.push('─');
                proof {
                    assert(v@ =~= head + dashes(g + 1));
                }
                g = g + 1;
            }
            v.push('╯');
            proof {
                assert(v@ =~= spec_bottom_border(width as int));
            }
            chars_to_string(&v)
        } else {
            String::new()
        };
        Self {
            id: 0,
            is_overlay: false,
            data,
            x,
            y,
            width,
            height,
            scroll_x: 0,
            scroll_y: 0,
            file_path: Some(path),
            read_only: false,
            visible: true,
            line_numbers,
            show_status_line,
            bordered,
            top_border,
            bottom_border,
            logic,
            paused_event_id: 0,
        }
    }
}

impl Buffer {
    /// Handles one input event with the editor bindings: applies the key to
    /// the document, recomputes the line index, re-admits the cursor into
    /// view, and hands back the notifications to send outward. A read-only
    /// surface ignores input.
    #[verifier::spinoff_prover]
    pub fn editor_logic(&mut self, event: InputEvent) -> (r: Vec<BufferEvent>)
        requires
            old(self).data.wf(),
            old(self).data.data@.len() + 1 < usize::MAX,
        ensures
            final(self).data.wf(),
            editor_logic_post(*old(self), *final(self), event, r@),
    {
        let mut events: Vec<BufferEvent> = Vec::new();
        if self.read_only {
            return events;
        }
        if let InputEvent::KeyPress { code, modifiers: m } = event {
            match code {
                KeyCode::Char(c) => {
                    if c == 'S' && m.ctrl && !m.alt && m.shift && !m.other {
                        events.push(BufferEvent::SaveAs { id: self.id });
                        proof {
                            assert(events@ =~= seq![BufferEvent::SaveAs { id: self.id }]);
                        }
                    } else if c == 's' && m.ctrl && !m.alt && !m.shift && !m.other {
                        events.push(BufferEvent::Save { id: self.id });
                        proof {
                            assert(events@ =~= seq![BufferEvent::Save { id: self.id }]);
                        }
                    } else if !m.ctrl && !m.alt && !m.shift && !m.other {
                        self.data.insert_ch(c);
                    } else if !m.ctrl && !m.alt && m.shift && !m.other {
                        let u = ascii_to_uppercase(c);
                        self.data.insert_ch(u);
                    }
                },
                KeyCode::Left => {
                    if !m.ctrl && !m.alt && !m.shift && !m.other {
                        self.data.move_cursor_left(1);
                    }
                },
                KeyCode::Right => {
                    if !m.ctrl && !m.alt && !m.shift && !m.other {
                        self.data.move_cursor_right(1);
                    }
                },
                KeyCode::Up => {
                    if !m.ctrl && !m.alt && !m.shift && !m.other {
                        self.data.move_cursor_up(1);
                    }
                },
                KeyCode::Down => {
                    if !m.ctrl && !m.alt && !m.shift && !m.other {
                        self.data.move_cursor_down(1);
                    }
                },
                KeyCode::Enter => {
                    if !m.ctrl && !m.alt && !m.shift && !m.other {
                        self.data.insert_ch('\n');
                    }
                },
                KeyCode::Backspace => {
                    if !m.ctrl && !m.alt && !m.shift && !m.other {
                        self.data.backspace();
                    }
                },
                KeyCode::Delete => {
                    if !m.ctrl && !m.alt && !m.shift && !m.other {
                        self.data.delete();
                    }
                },
                KeyCode::Esc => {},
                KeyCode::Unsupported => {},
            }
        }
        let ghost d1 = self.data;
        let ghost emitted = events@;
        proof {
            assert(editor_key_transition(*old(self), d1, event, emitted));
            lemma_current_line_exists(old(self).data);
            assert(d1.data@.len() <= old(self).data.data@.len() + 1);
        }
        self.data.recalculate_lines();
        let ghost mid = *self;
        self.scroll();
        proof {
            assert(mid == (Buffer {
                data: BufferData { lines: mid.data.lines, ..d1 },
                ..*old(self)
            }));
            assert(scroll_post(mid, *final(self)));
            assert(editor_logic_post(*old(self), *final(self), event, emitted));
        }
        events
    }

    /// Handles one input event with the input-box bindings: edits and cursor
    /// moves as in the editor; Enter resolves the suspended request with the
    /// box's whole text and closes the box, Esc cancels it and closes the
    /// box. A read-only surface ignores input.
    #[verifier::spinoff_prover]
    pub fn input_box_logic(&mut self, event: InputEvent) -> (r: Vec<BufferEvent>)
        requires
            old(self).data.wf(),
            old(self).data.data@.len() + 1 < usize::MAX,
        ensures
            final(self).data.wf(),
            input_box_logic_post(*old(self), *final(self), event, r@),
    {
        let mut events: Vec<BufferEvent> = Vec::new();
        if self.read_only {
            return events;
        }
        if let InputEvent::KeyPress { code, modifiers: m } = event {
            match code {
                KeyCode::Char(c) => {
                    if !m.ctrl && !m.alt && !m.shift && !m.other {
                        self.data.insert_ch(c);
                    } else if !m.ctrl && !m.alt && m.shift && !m.other {
                        let u = ascii_to_uppercase(c);
                        self.data.insert_ch(u);
                    }
                },
                KeyCode::Left => {
                    if !m.ctrl && !m.alt && !m.shift && !m.other {
                        self.data.move_cursor_left(1);
                    }
                },
                KeyCode::Right => {
                    if !m.ctrl && !m.alt && !m.shift && !m.other {
                        self.data.move_cursor_right(1);
                    }
                },
                KeyCode::Up => {
                    if !m.ctrl && !m.alt && !m.shift && !m.other {
                        self.data.move_cursor_up(1);
                    }
                },
                KeyCode::Down => {
                    if !m.ctrl && !m.alt && !m.shift && !m.other {
                        self.data.move_cursor_down(1);
                    }
                },
                KeyCode::Enter => {
                    if !m.ctrl && !m.alt && !m.shift && !m.other {
                        let result = chars_to_string(&self.data.data);
                        events.push(
                            BufferEvent::ResumeEvent {
                                paused_event_id: self.paused_event_id,
                                result,
                            },
                        );
                        events.push(
                            BufferEvent::Close { id: self.id, is_overlay: self.is_overlay },
                        );
                    }
                },
                KeyCode::Esc => {
                    if !m.ctrl && !m.alt && !m.shift && !m.other {
                        events.push(
                            BufferEvent::CancelEvent { paused_event_id: self.paused_event_id },
                        );
                        events.push(
                            BufferEvent::Close { id: self.id, is_overlay: self.is_overlay },
                        );
                        proof {
                            assert(events@ =~= seq![
                                BufferEvent::CancelEvent {
                                    paused_event_id: self.paused_event_id,
                                },
                                BufferEvent::Close { id: self.id, is_overlay: self.is_overlay },
                            ]);
                        }
                    }
                },
                KeyCode::Backspace => {
                    if !m.ctrl && !m.alt && !m.shift && !m.other {
                        self.data.backspace();
                    }
                },
                KeyCode::Delete => {
                    if !m.ctrl && !m.alt && !m.shift && !m.other {
                        self.data.delete();
                    }
                },
                KeyCode::Unsupported => {},
            }
        }
        let ghost d1 = self.data;
        let ghost emitted = events@;
        proof {
            assert(input_box_key_transition(*old(self), d1, event, emitted));
            lemma_current_line_exists(old(self).data);
            assert(d1.data@.len() <= old(self).data.data@.len() + 1);
        }
        self.data.recalculate_lines();
        let ghost mid = *self;
        self.scroll();
        proof {
            assert(mid == (Buffer {
                data: BufferData { lines: mid.data.lines, ..d1 },
                ..*old(self)
            }));
            assert(scroll_post(mid, *final(self)));
            assert(input_box_logic_post(*old(self), *final(self), event, emitted));
        }
        events
    }

    /// Routes one input event to the handler of the surface's editing mode.
    /// The selector mode is not implemented yet.
    pub fn parse_input(&mut self, event: InputEvent) -> (r: Vec<BufferEvent>)
        requires
            old(self).logic != BufferLogic::Selector,
            old(self).data.wf(),
            old(self).data.data@.len() + 1 < usize::MAX,
        ensures
            final(self).data.wf(),
            old(self).logic == BufferLogic::Editor ==> editor_logic_post(
                *old(self),
                *final(self),
                event,
                r@,
            ),
            old(self).logic == BufferLogic::InputBox ==> input_box_logic_post(
                *old(self),
                *final(self),
                event,
                r@,
            ),
    {
        match self.logic {
            BufferLogic::Editor => self.editor_logic(event),
            BufferLogic::InputBox => self.input_box_logic(event),
            BufferLogic::Selector => {
                proof {
                    assert(false);
                }
                Vec::new()
            },
        }
    }
}

/// A key with no binding: the document is untouched and nothing is emitted.
pub open spec fn key_unbound(pre: Buffer, d1: BufferData, emitted: Seq<BufferEvent>) -> bool {
    d1 == pre.data && emitted == Seq::<BufferEvent>::empty()
}

/// What one decoded key does to the document of an editor surface and which
/// notifications it emits: save requests on the two save bindings, cursor
/// moves on bare arrows, insertion of plain (or shifted, uppercased)
/// characters and of line terminators, the two deletions, and a no-op for
/// every unbound combination.
pub open spec fn editor_key_transition(
    pre: Buffer,
    d1: BufferData,
    ev: InputEvent,
    emitted: Seq<BufferEvent>,
) -> bool {
    match ev {
        InputEvent::KeyPress { code, modifiers: m } => match code {
            KeyCode::Char(c) => {
                if c == 'S' && mods_ctrl_shift(m) {
                    d1 == pre.data && emitted == seq![BufferEvent::SaveAs { id: pre.id }]
                } else if c == 's' && mods_only_ctrl(m) {
                    d1 == pre.data && emitted == seq![BufferEvent::Save { id: pre.id }]
                } else if mods_none(m) {
                    inserted(pre.data, d1, c) && emitted == Seq::<BufferEvent>::empty()
                } else if mods_only_shift(m) {
                    inserted(pre.data, d1, ascii_uppercase(c)) && emitted == Seq::<
                        BufferEvent,
                    >::empty()
                } else {
                    key_unbound(pre, d1, emitted)
                }
            },
            KeyCode::Left => if mods_none(m) {
                moved_left(pre.data, d1, 1) && emitted == Seq::<BufferEvent>::empty()
            } else {
                key_unbound(pre, d1, emitted)
            },
            KeyCode::Right => if mods_none(m) {
                moved_right(pre.data, d1, 1) && emitted == Seq::<BufferEvent>::empty()
            } else {
                key_unbound(pre, d1, emitted)
            },
            KeyCode::Up => if mods_none(m) {
                moved_up(pre.data, d1, 1) && emitted == Seq::<BufferEvent>::empty()
            } else {
                key_unbound(pre, d1, emitted)
            },
            KeyCode::Down => if mods_none(m) {
                moved_down(pre.data, d1, 1) && emitted == Seq::<BufferEvent>::empty()
            } else {
                key_unbound(pre, d1, emitted)
            },
            KeyCode::Enter => if mods_none(m) {
                inserted(pre.data, d1, '\n') && emitted == Seq::<BufferEvent>::empty()
            } else {
                key_unbound(pre, d1, emitted)
            },
            KeyCode::Backspace => if mods_none(m) {
                backspaced(pre.data, d1) && emitted == Seq::<BufferEvent>::empty()
            } else {
                key_unbound(pre, d1, emitted)
            },
            KeyCode::Delete => if mods_none(m) {
                deleted(pre.data, d1) && emitted == Seq::<BufferEvent>::empty()
            } else {
                key_unbound(pre, d1, emitted)
            },
            KeyCode::Esc => key_unbound(pre, d1, emitted),
            KeyCode::Unsupported => key_unbound(pre, d1, emitted),
        },
        InputEvent::Other => key_unbound(pre, d1, emitted),
    }
}

/// What one decoded key does to an input box: cursor moves and edits as in
/// the editor, no save bindings; Enter resolves the suspended request with
/// the box's whole text and closes the box, Esc cancels the request and
/// closes the box.
pub open spec fn input_box_key_transition(
    pre: Buffer,
    d1: BufferData,
    ev: InputEvent,
    emitted: Seq<BufferEvent>,
) -> bool {
    match ev {
        InputEvent::KeyPress { code, modifiers: m } => match code {
            KeyCode::Char(c) => {
                if mods_none(m) {
                    inserted(pre.data, d1, c) && emitted == Seq::<BufferEvent>::empty()
                } else if mods_only_shift(m) {
                    inserted(pre.data, d1, ascii_uppercase(c)) && emitted == Seq::<
                        BufferEvent,
                    >::empty()
                } else {
                    key_unbound(pre, d1, emitted)
                }
            },
            KeyCode::Left => if mods_none(m) {
                moved_left(pre.data, d1, 1) && emitted == Seq::<BufferEvent>::empty()
            } else {
                key_unbound(pre, d1, emitted)
            },
            KeyCode::Right => if mods_none(m) {
                moved_right(pre.data, d1, 1) && emitted == Seq::<BufferEvent>::empty()
            } else {
                key_unbound(pre, d1, emitted)
            },
            KeyCode::Up => if mods_none(m) {
                moved_up(pre.data, d1, 1) && emitted == Seq::<BufferEvent>::empty()
            } else {
                key_unbound(pre, d1, emitted)
            },
            KeyCode::Down => if mods_none(m) {
                moved_down(pre.data, d1, 1) && emitted == Seq::<BufferEvent>::empty()
            } else {
                key_unbound(pre, d1, emitted)
            },
            KeyCode::Enter => if mods_none(m) {
                &&& d1 == pre.data
                &&& emitted.len() == 2
                &&& (emitted[0] matches BufferEvent::ResumeEvent { paused_event_id, result }
                    && paused_event_id == pre.paused_event_id && result@ == pre.data.data@)
                &&& emitted[1] == (BufferEvent::Close { id: pre.id, is_overlay: pre.is_overlay })
            } else {
                key_unbound(pre, d1, emitted)
            },
            KeyCode::Esc => if mods_none(m) {
                d1 == pre.data && emitted == seq![
                    BufferEvent::CancelEvent { paused_event_id: pre.paused_event_id },
                    BufferEvent::Close { id: pre.id, is_overlay: pre.is_overlay },
                ]
            } else {
                key_unbound(pre, d1, emitted)
            },
            KeyCode::Backspace => if mods_none(m) {
                backspaced(pre.data, d1) && emitted == Seq::<BufferEvent>::empty()
            } else {
                key_unbound(pre, d1, emitted)
            },
            KeyCode::Delete => if mods_none(m) {
                deleted(pre.data, d1) && emitted == Seq::<BufferEvent>::empty()
            } else {
                key_unbound(pre, d1, emitted)
            },
            KeyCode::Unsupported => key_unbound(pre, d1, emitted),
        },
        InputEvent::Other => key_unbound(pre, d1, emitted),
    }
}

/// Relation of `editor_logic` between the surface before and after one
/// input event, with `emitted` the notifications handed back: unless the
/// surface is read-only, the key transition acts on the document, the line
/// index is recomputed, and the viewport re-admits the cursor.
pub open spec fn editor_logic_post(
    pre: Buffer,
    post: Buffer,
    ev: InputEvent,
    emitted: Seq<BufferEvent>,
) -> bool {
    if pre.read_only {
        post == pre && emitted == Seq::<BufferEvent>::empty()
    } else {
        exists|d1: BufferData, mid: Buffer|
            #![trigger editor_key_transition(pre, d1, ev, emitted), scroll_post(mid, post)]
            {
                &&& editor_key_transition(pre, d1, ev, emitted)
                &&& mid == (Buffer { data: BufferData { lines: mid.data.lines, ..d1 }, ..pre })
                &&& mid.data.lines_fresh()
                &&& scroll_post(mid, post)
            }
    }
}

/// Relation of `input_box_logic` between the surface before and after one
/// input event, with `emitted` the notifications handed back: as for the
/// editor, with the input-box bindings.
pub open spec fn input_box_logic_post(
    pre: Buffer,
    post: Buffer,
    ev: InputEvent,
    emitted: Seq<BufferEvent>,
) -> bool {
    if pre.read_only {
        post == pre && emitted == Seq::<BufferEvent>::empty()
    } else {
        exists|d1: BufferData, mid: Buffer|
            #![trigger input_box_key_transition(pre, d1, ev, emitted), scroll_post(mid, post)]
            {
                &&& input_box_key_transition(pre, d1, ev, emitted)
                &&& mid == (Buffer { data: BufferData { lines: mid.data.lines, ..d1 }, ..pre })
                &&& mid.data.lines_fresh()
                &&& scroll_post(mid, post)
            }
    }
}

/// Whether a path may be recorded as a save target, judged from the facts
/// the caller read off the disk: the path must name a file, and must not
/// already exist as something other than a file. The disk is the caller's;
/// this rule is the library's.
pub fn save_path_ok(has_file_name: bool, exists: bool, is_file: bool) -> (r: bool)
    ensures
        r == (has_file_name && !(exists && !is_file)),
{
    has_file_name && !(exists && !is_file)
}

/// Moving the cursor to a row a given distance below the bottom of the
/// visible rectangle scrolls down by exactly that distance plus one short of
/// the window, i.e. by the minimal amount: a cursor 3 rows below the last
/// visible row moves the scroll offset down by exactly 3.
pub proof fn lemma_scroll_minimal(scroll: int, pos: int, view: int, below: int)
    requires
        view >= 1,
        below >= 1,
        pos == scroll + view - 1 + below,
    ensures
        scroll_adjust(scroll, pos, view) == scroll + below,
{
}

} // verus!
