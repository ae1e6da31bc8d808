use vstd::prelude::*;

verus! {

use crate::buffer::Buffer;
use crate::buffer::BufferLogic;
use crate::status_line::StatusLine;
use crate::status_line::status_content_width;
use crate::status_line::status_line_chars;
use crate::string::spaces;
use crate::theme::Rgb;
use crate::theme::Theme;
use crate::theme::spec_rgb;
use crate::theme::valid_hex_color;
use crate::vec_ext::VecExt;
use crate::vec_ext::spec_replace_from;

broadcast use vstd::std_specs::vec::group_vec_axioms;

/// One color-change event at a column of a row: set a new background or
/// foreground color, or restore the one in effect before the last change
/// (one level of restore only; spans are painted left to right and do not
/// nest further).
#[derive(Clone, Copy, Debug, PartialEq, Eq, Structural)]
pub enum BrushEvent {
    SetBG(Rgb),
    PreviousBG,
    SetFG(Rgb),
    PreviousFG,
}

/// One primitive the compositor asks of the output sink: place the hardware
/// cursor, write text at it, or switch a color.
#[derive(Debug)]
pub enum DrawCommand {
    MoveTo { x: u16, y: u16 },
    Print { text: Vec<char> },
    SetBackground { color: Rgb },
    SetForeground { color: Rgb },
}

/// The mathematical shape of a draw command.
pub enum DrawOp {
    GoTo { x: int, y: int },
    Write { text: Seq<char> },
    Background { color: Rgb },
    Foreground { color: Rgb },
}

impl View for DrawCommand {
    type V = DrawOp;

    open spec fn view(&self) -> DrawOp {
        match self {
            DrawCommand::MoveTo { x, y } => DrawOp::GoTo { x: *x as int, y: *y as int },
            DrawCommand::Print { text } => DrawOp::Write { text: text@ },
            DrawCommand::SetBackground { color } => DrawOp::Background { color: *color },
            DrawCommand::SetForeground { color } => DrawOp::Foreground { color: *color },
        }
    }
}

/// The draw commands of a whole frame, as their mathematical shapes.
pub open spec fn ops_of(cmds: Seq<DrawCommand>) -> Seq<DrawOp> {
    cmds.map_values(|c: DrawCommand| c@)
}

/// Inserts one event into a column-sorted event list, after every event of
/// the same column: the stable position.
pub open spec fn sorted_insert(s: Seq<(usize, BrushEvent)>, x: (usize, BrushEvent)) -> Seq<
    (usize, BrushEvent),
>
    decreases s.len(),
{
    if s.len() == 0 {
        seq![x]
    } else if s.last().0 <= x.0 {
        s.push(x)
    } else {
        sorted_insert(s.drop_last(), x).push(s.last())
    }
}

/// The stable sort of an event list by column: events keep their relative
/// order within one column.
pub open spec fn stable_sort(s: Seq<(usize, BrushEvent)>) -> Seq<(usize, BrushEvent)>
    decreases s.len(),
{
    if s.len() == 0 {
        s
    } else {
        sorted_insert(stable_sort(s.drop_last()), s.last())
    }
}

pub open spec fn sorted_by_col(s: Seq<(usize, BrushEvent)>) -> bool {
    forall|k1: int, k2: int|
        0 <= k1 < k2 < s.len() ==> (#[trigger] s[k1]).0 <= (#[trigger] s[k2]).0
}

proof fn lemma_sorted_insert_at(s: Seq<(usize, BrushEvent)>, x: (usize, BrushEvent), j: int)
    requires
        0 <= j <= s.len(),
        forall|k: int| j <= k < s.len() ==> (#[trigger] s[k]).0 > x.0,
        j > 0 ==> s[j - 1].0 <= x.0,
    ensures
        sorted_insert(s, x) == s.insert(j, x),
    decreases s.len(),
{
    if j == s.len() {
        assert(sorted_insert(s, x) =~= s.insert(j, x));
    } else {
        lemma_sorted_insert_at(s.drop_last(), x, j);
        assert(s.drop_last().insert(j, x).push(s.last()) =~= s.insert(j, x));
    }
}

proof fn lemma_sorted_insert_sorted(s: Seq<(usize, BrushEvent)>, x: (usize, BrushEvent))
    requires
        sorted_by_col(s),
    ensures
        sorted_by_col(sorted_insert(s, x)),
        forall|k: int|
            0 <= k < sorted_insert(s, x).len() ==> (#[trigger] sorted_insert(s, x)[k]) == x
                || exists|k2: int| 0 <= k2 < s.len() && sorted_insert(s, x)[k] == s[k2],
    decreases s.len(),
{
    let r = sorted_insert(s, x);
    if s.len() == 0 {
        assert(r =~= seq![x]);
    } else if s.last().0 <= x.0 {
        assert(r =~= s.push(x));
        assert forall|k: int|
            0 <= k < r.len() implies (#[trigger] r[k]) == x || exists|k2: int|
                0 <= k2 < s.len() && r[k] == s[k2] by {
            if k < s.len() {
                assert(r[k] == s[k]);
            }
        }
        assert forall|k1: int, k2: int|
            0 <= k1 < k2 < r.len() implies (#[trigger] r[k1]).0 <= (#[trigger] r[k2]).0 by {
            if k2 == s.len() && k1 < s.len() - 1 {
                assert(s[k1].0 <= s[s.len() - 1].0);
            }
        }
    } else {
        assert(sorted_by_col(s.drop_last())) by {
            assert forall|k1: int, k2: int|
                0 <= k1 < k2 < s.drop_last().len() implies (#[trigger] s.drop_last()[k1]).0 <= (
            #[trigger] s.drop_last()[k2]).0 by {
                assert(s[k1].0 <= s[k2].0);
            }
        }
        lemma_sorted_insert_sorted(s.drop_last(), x);
        let inner = sorted_insert(s.drop_last(), x);
        assert(r =~= inner.push(s.last()));
        assert forall|k: int|
            0 <= k < r.len() implies (#[trigger] r[k]) == x || exists|k2: int|
                0 <= k2 < s.len() && r[k] == s[k2] by {
            if k < inner.len() {
                if inner[k] != x {
                    let k3 = choose|k3: int|
                        0 <= k3 < s.drop_last().len() && inner[k] == s.drop_last()[k3];
                    assert(r[k] == s[k3]);
                }
            } else {
                assert(r[k] == s[s.len() - 1]);
            }
        }
        assert forall|k1: int, k2: int|
            0 <= k1 < k2 < r.len() implies (#[trigger] r[k1]).0 <= (#[trigger] r[k2]).0 by {
            if k2 == inner.len() {
                if r[k1] != x {
                    let k3 = choose|k3: int|
                        0 <= k3 < s.drop_last().len() && inner[k1] == s.drop_last()[k3];
                    assert(s[k3].0 <= s[s.len() - 1].0);
                }
            }
        }
    }
}

/// Stable insertion sort of a row's color events by column.
fn sort_brushes(v: &Vec<(usize, BrushEvent)>) -> (r: Vec<(usize, BrushEvent)>)
    ensures
        r@ == stable_sort(v@),
        sorted_by_col(r@),
        forall|k: int|
            0 <= k < r@.len() ==> exists|k2: int|
                0 <= k2 < v@.len() && (#[trigger] r@[k]) == v@[k2],
    decreases v@.len(),
{
    let n = v.len();
    let mut out: Vec<(usize, BrushEvent)> = Vec::new();
    let mut i: usize = 0;
    while i < n
        invariant
            i <= n,
            n == v@.len(),
            out@ == stable_sort(v@.subrange(0, i as int)),
            out@.len() == i,
            sorted_by_col(out@),
            forall|k: int|
                0 <= k < out@.len() ==> exists|k2: int|
                    0 <= k2 < v@.len() && (#[trigger] out@[k]) == v@[k2],
        decreases n - i,
    {
        let x = v[i];
        let mut j = out.len();
        while j > 0 && out[j - 1].0 > x.0
            invariant
                0 <= j <= out@.len(),
                sorted_by_col(out@),
                forall|k: int| j <= k < out@.len() ==> (#[trigger] out@[k]).0 > x.0,
            decreases j,
        {
            j = j - 1;
        }
        let ghost out0 = out@;
        out.insert(j, x);
        proof {
            lemma_sorted_insert_at(out0, x, j as int);
            lemma_sorted_insert_sorted(out0, x);
            assert(v@.subrange(0, i + 1).drop_last() =~= v@.subrange(0, i as int));
            assert(v@.subrange(0, i + 1).last() == v@[i as int]);
            assert(out@ == stable_sort(v@.subrange(0, i + 1)));
        }
        i = i + 1;
    }
    proof {
        assert(v@.subrange(0, n as int) =~= v@);
    }
    out
}

/// The colors in effect while a row's events are replayed: the current
/// background and foreground, each with the one it replaced.
pub struct PainterState {
    pub bg_prev: Option<Rgb>,
    pub bg_prev_prev: Option<Rgb>,
    pub fg_prev: Option<Rgb>,
    pub fg_prev_prev: Option<Rgb>,
}

/// The painter state every row starts from: no color set yet.
pub open spec fn initial_painter() -> PainterState {
    PainterState { bg_prev: None, bg_prev_prev: None, fg_prev: None, fg_prev_prev: None }
}

/// A slice of a row, clamped to the row (total even on wild columns).
pub open spec fn row_slice(row: Seq<char>, a: int, b: int) -> Seq<char> {
    let lo = if a < 0 {
        0
    } else if a > row.len() {
        row.len() as int
    } else {
        a
    };
    let hi = if b < lo {
        lo
    } else if b > row.len() {
        row.len() as int
    } else {
        b
    };
    row.subrange(lo, hi)
}

/// The run-length emission of one row: from the cursor sitting at `start`,
/// write the text up to the next event's column, apply that event's color
/// change (a restore with nothing underneath changes no color), and repeat;
/// after the last event, write the rest of the row.
pub open spec fn emit_row_from(
    row: Seq<char>,
    evs: Seq<(usize, BrushEvent)>,
    y: int,
    start: int,
    st: PainterState,
) -> Seq<DrawOp>
    decreases evs.len(),
{
    if evs.len() == 0 {
        seq![
            DrawOp::GoTo { x: start, y },
            DrawOp::Write { text: row_slice(row, start, row.len() as int) },
        ]
    } else {
        let idx = evs[0].0;
        let ev = evs[0].1;
        let pre = seq![
            DrawOp::GoTo { x: start, y },
            DrawOp::Write { text: row_slice(row, start, idx as int) },
        ];
        match ev {
            BrushEvent::SetBG(c) => pre + seq![DrawOp::Background { color: c }] + emit_row_from(
                row,
                evs.drop_first(),
                y,
                idx as int,
                PainterState { bg_prev: Some(c), bg_prev_prev: st.bg_prev, ..st },
            ),
            BrushEvent::PreviousBG => match st.bg_prev_prev {
                Some(c) => pre + seq![DrawOp::Background { color: c }] + emit_row_from(
                    row,
                    evs.drop_first(),
                    y,
                    idx as int,
                    PainterState { bg_prev: Some(c), bg_prev_prev: st.bg_prev, ..st },
                ),
                None => pre + emit_row_from(row, evs.drop_first(), y, idx as int, st),
            },
            BrushEvent::SetFG(c) => pre + seq![DrawOp::Foreground { color: c }] + emit_row_from(
                row,
                evs.drop_first(),
                y,
                idx as int,
                PainterState { fg_prev: Some(c), fg_prev_prev: st.fg_prev, ..st },
            ),
            BrushEvent::PreviousFG => match st.fg_prev_prev {
                Some(c) => pre + seq![DrawOp::Foreground { color: c }] + emit_row_from(
                    row,
                    evs.drop_first(),
                    y,
                    idx as int,
                    PainterState { fg_prev: Some(c), fg_prev_prev: st.fg_prev, ..st },
                ),
                None => pre + emit_row_from(row, evs.drop_first(), y, idx as int, st),
            },
        }
    }
}

/// The emission of one whole row, events replayed in column order.
pub open spec fn emit_row(row: Seq<char>, evs: Seq<(usize, BrushEvent)>, y: int) -> Seq<DrawOp> {
    emit_row_from(row, stable_sort(evs), y, 0, initial_painter())
}

/// The emission of the whole frame from row `i` on.
pub open spec fn frame_ops(
    grid: Seq<Vec<char>>,
    brushes: Seq<Vec<(usize, BrushEvent)>>,
    i: int,
) -> Seq<DrawOp>
    decreases grid.len() - i,
{
    if 0 <= i < grid.len() && brushes.len() == grid.len() {
        emit_row(grid[i]@, brushes[i]@, i) + frame_ops(grid, brushes, i + 1)
    } else {
        Seq::empty()
    }
}

/// One painted background span: set the color at `start`, restore the one
/// before it at `end`.
pub open spec fn bg_span(start: usize, end: usize, c: Rgb) -> Seq<(usize, BrushEvent)> {
    seq![(start, BrushEvent::SetBG(c)), (end, BrushEvent::PreviousBG)]
}

/// One painted foreground span.
pub open spec fn fg_span(start: usize, end: usize, c: Rgb) -> Seq<(usize, BrushEvent)> {
    seq![(start, BrushEvent::SetFG(c)), (end, BrushEvent::PreviousFG)]
}

/// How many content rows of the surface land on the screen: the lines from
/// the vertical scroll offset on, no more than the visible rectangle holds.
pub open spec fn drawn_rows(b: Buffer) -> int {
    let remain = b.data.lines@.len() - b.scroll_y;
    let avail = b.spec_view_h();
    if remain < 0 {
        0
    } else if remain < avail {
        remain
    } else {
        avail
    }
}

/// The grid rows `draw_buffer` writes: the border rows and the drawn
/// content rows.
pub open spec fn row_touched(b: Buffer, j: int) -> bool {
    ||| (b.bordered && (j == b.y || j == b.y + b.spec_top_pad() + drawn_rows(b)))
    ||| (b.y + b.spec_top_pad() <= j < b.y + b.spec_top_pad() + drawn_rows(b))
}

/// The color spans painted under a border row: background and foreground
/// over the surface's whole width, in the overlay or editor palette.
pub open spec fn border_events(b: Buffer, t: Theme) -> Seq<(usize, BrushEvent)> {
    let bg = if b.is_overlay {
        t.overlay.bg
    } else {
        t.editor.bg
    };
    let fg = if b.is_overlay {
        t.overlay.text
    } else {
        t.editor.text
    };
    bg_span(b.x as usize, ((b.x + b.width) as usize), spec_rgb(bg@)) + fg_span(
        b.x as usize,
        ((b.x + b.width) as usize),
        spec_rgb(fg@),
    )
}

/// The color spans painted under one drawn content row: the row background
/// (highlighted under the cursor's line in an editor), the gutter
/// foreground, and the text foreground.
pub open spec fn row_paint_events(b: Buffer, t: Theme, ln: int) -> Seq<(usize, BrushEvent)> {
    let buf_x = b.x as usize;
    let buf_end = ((b.x + b.width) as usize);
    let start_x = ((b.x + b.spec_left_pad()) as usize);
    match b.logic {
        BufferLogic::Editor => {
            let line_color = if b.data.is_current_line(ln) {
                t.editor.current_line
            } else {
                t.editor.bg
            };
            let border_gap: int = if b.bordered {
                1
            } else {
                0
            };
            bg_span(buf_x, buf_end, spec_rgb(line_color@)) + (if b.line_numbers {
                fg_span(
                    ((b.x + border_gap) as usize),
                    start_x,
                    spec_rgb(t.editor.line_numbers@),
                )
            } else {
                Seq::empty()
            }) + fg_span(start_x, buf_end, spec_rgb(t.editor.text@))
        },
        BufferLogic::InputBox => bg_span(buf_x, buf_end, spec_rgb(t.overlay.bg@)) + fg_span(
            start_x,
            buf_end,
            spec_rgb(t.overlay.text@),
        ),
        BufferLogic::Selector => Seq::empty(),
    }
}

/// Grid row `j` of `b` is exactly as it was in `a`, cells and color events
/// both.
pub open spec fn grid_row_same(a: Terminal, b: Terminal, j: int) -> bool {
    &&& b.buffer@[j] == a.buffer@[j]
    &&& b.brushes@[j] == a.brushes@[j]
}

/// Grid row `j` of `cur` shows line `ln` of the surface: the rendered row
/// written over the old cells at the surface's position, and the row's
/// paint spans appended to the old color events.
pub open spec fn content_row_done(
    pre: Terminal,
    cur: Terminal,
    b: Buffer,
    t: Theme,
    j: int,
    ln: int,
) -> bool {
    &&& cur.buffer@[j]@ == spec_replace_from(
        pre.buffer@[j]@,
        b.x as int,
        b.spec_render_row(ln),
    )
    &&& cur.brushes@[j]@ == pre.brushes@[j]@ + row_paint_events(b, t, ln)
}

/// The double-buffered screen compositor: a grid of character cells, one
/// row of color events per grid row, and the frame state. The grid is
/// rebuilt from scratch every frame.
pub struct Terminal {
    pub width: u16,
    pub height: u16,
    pub buffer: Vec<Vec<char>>,
    pub brushes: Vec<Vec<(usize, BrushEvent)>>,
    pub framing: bool,
}

impl Terminal {
    /// One grid row and one event row per terminal row, every grid row
    /// exactly `width` cells, every event column on the screen.
    pub open spec fn wf(self) -> bool {
        &&& self.buffer@.len() == self.height as int
        &&& self.brushes@.len() == self.height as int
        &&& forall|i: int|
            0 <= i < self.height as int ==> (#[trigger] self.buffer@[i])@.len()
                == self.width as int
        &&& forall|i: int, k: int|
            0 <= i < self.height as int && 0 <= k < self.brushes@[i]@.len() ==> (
            #[trigger] self.brushes@[i]@[k]).0 <= self.width
    }

    pub fn new(width: u16, height: u16) -> (r: Self)
        ensures
            r.wf(),
            r.width == width,
            r.height == height,
            !r.framing,
            forall|i: int| 0 <= i < height as int ==> (#[trigger] r.buffer@[i])@ == spaces(
                width as int,
            ),
            forall|i: int| 0 <= i < height as int ==> (#[trigger] r.brushes@[i])@ == Seq::<
                (usize, BrushEvent),
            >::empty(),
    {
        let mut buffer: Vec<Vec<char>> = Vec::new();
        let mut brushes: Vec<Vec<(usize, BrushEvent)>> = Vec::new();
        let mut i: usize = 0;
        let h = height as usize;
        while i < h
            invariant
                i <= h,
                buffer@.len() == i,
                brushes@.len() == i,
                forall|j: int| 0 <= j < i ==> (#[trigger] buffer@[j])@ == spaces(width as int),
                forall|j: int| 0 <= j < i ==> (#[trigger] brushes@[j])@ == Seq::<
                    (usize, BrushEvent),
                >::empty(),
            decreases h - i,
        {
            buffer.push(blank_row(width as usize));
            brushes.push(Vec::new());
            i = i + 1;
        }
        Terminal { width, height, buffer, brushes, framing: false }
    }

    /// Rebuilds the grid for a new terminal size; any frame in progress is
    /// abandoned.
    pub fn resize(&mut self, w: u16, h: u16)
        ensures
            final(self).wf(),
            final(self).width == w,
            final(self).height == h,
            final(self).framing == old(self).framing,
            forall|i: int| 0 <= i < h as int ==> (#[trigger] final(self).buffer@[i])@ == spaces(
                w as int,
            ),
            forall|i: int| 0 <= i < h as int ==> (#[trigger] final(self).brushes@[i])@ == Seq::<
                (usize, BrushEvent),
            >::empty(),
    {
        let fresh = Terminal::new(w, h);
        self.width = fresh.width;
        self.height = fresh.height;
        self.buffer = fresh.buffer;
        self.brushes = fresh.brushes;
    }

    /// Opens a frame: every cell goes blank and every row's color events
    /// reset to the base background and text colors.
    pub fn begin_draw(&mut self, theme: &Theme)
        requires
            old(self).wf(),
            theme.wf(),
        ensures
            final(self).wf(),
            final(self).framing,
            final(self).width == old(self).width,
            final(self).height == old(self).height,
            forall|i: int|
                0 <= i < old(self).height as int ==> (#[trigger] final(self).buffer@[i])@
                    == spaces(old(self).width as int),
            forall|i: int|
                0 <= i < old(self).height as int ==> (#[trigger] final(self).brushes@[i])@
                    == seq![
                    (0usize, BrushEvent::SetBG(spec_rgb(theme.ui.base_bg@))),
                    (0usize, BrushEvent::SetFG(spec_rgb(theme.ui.base_text@))),
                ],
    {
        let bg = rgb_of(theme.ui.base_bg.as_str());
        let fg = rgb_of(theme.ui.base_text.as_str());
        let h = self.height as usize;
        let w = self.width as usize;
        let mut i: usize = 0;
        while i < h
            invariant
                i <= h,
                h == old(self).height as usize,
                w == old(self).width as usize,
                self.width == old(self).width,
                self.height == old(self).height,
                self.framing == old(self).framing,
                self.buffer@.len() == h,
                self.brushes@.len() == h,
                bg == spec_rgb(theme.ui.base_bg@),
                fg == spec_rgb(theme.ui.base_text@),
                forall|j: int| 0 <= j < i ==> (#[trigger] self.buffer@[j])@ == spaces(w as int),
                forall|j: int|
                    0 <= j < i ==> (#[trigger] self.brushes@[j])@ == seq![
                        (0usize, BrushEvent::SetBG(bg)),
                        (0usize, BrushEvent::SetFG(fg)),
                    ],
                forall|j: int|
                    i <= j < h ==> (#[trigger] self.buffer@[j])@ == old(self).buffer@[j]@,
            decreases h - i,
        {
            self.buffer[i] = blank_row(w);
            let mut evs: Vec<(usize, BrushEvent)> = Vec::new();
            evs.push((0, BrushEvent::SetBG(bg)));
            evs.push((0, BrushEvent::SetFG(fg)));
            proof {
                assert(evs@ =~= seq![
                    (0usize, BrushEvent::SetBG(bg)),
                    (0usize, BrushEvent::SetFG(fg)),
                ]);
            }
            self.brushes[i] = evs;
            i = i + 1;
        }
        self.framing = true;
    }

    /// Paints the background of one row from `start` to `end` (exclusive),
    /// restoring the previous background at `end`.
    fn paint_bg(&mut self, row: usize, start: usize, end: usize, color: &str)
        requires
            old(self).wf(),
            row < old(self).height as usize,
            start <= old(self).width as usize,
            end <= old(self).width as usize,
            valid_hex_color(color@),
            old(self).framing,
        ensures
            final(self).wf(),
            *final(self) == (Terminal { brushes: final(self).brushes, ..*old(self) }),
            final(self).brushes@.len() == old(self).brushes@.len(),
            final(self).brushes@[row as int]@ == old(self).brushes@[row as int]@ + seq![
                (start, BrushEvent::SetBG(spec_rgb(color@))),
                (end, BrushEvent::PreviousBG),
            ],
            forall|j: int|
                0 <= j < old(self).brushes@.len() && j != row ==> (#[trigger] final(self).brushes@[j])
                    == old(self).brushes@[j],
    {
        let c = rgb_of(color);
        let rb = &mut self.brushes[row];
        rb.push((start, BrushEvent::SetBG(c)));
        rb.push((end, BrushEvent::PreviousBG));
        proof {
            assert(final(self).brushes@[row as int]@ =~= old(self).brushes@[row as int]@ + seq![
                (start, BrushEvent::SetBG(spec_rgb(color@))),
                (end, BrushEvent::PreviousBG),
            ]);
        }
    }

    /// Paints the foreground of one row from `start` to `end` (exclusive),
    /// restoring the previous foreground at `end`.
    fn paint_fg(&mut self, row: usize, start: usize, end: usize, color: &str)
        requires
            old(self).wf(),
            row < old(self).height as usize,
            start <= old(self).width as usize,
            end <= old(self).width as usize,
            valid_hex_color(color@),
            old(self).framing,
        ensures
            final(self).wf(),
            *final(self) == (Terminal { brushes: final(self).brushes, ..*old(self) }),
            final(self).brushes@.len() == old(self).brushes@.len(),
            final(self).brushes@[row as int]@ == old(self).brushes@[row as int]@ + seq![
                (start, BrushEvent::SetFG(spec_rgb(color@))),
                (end, BrushEvent::PreviousFG),
            ],
            forall|j: int|
                0 <= j < old(self).brushes@.len() && j != row ==> (#[trigger] final(self).brushes@[j])
                    == old(self).brushes@[j],
    {
        let c = rgb_of(color);
        let rb = &mut self.brushes[row];
        rb.push((start, BrushEvent::SetFG(c)));
        rb.push((end, BrushEvent::PreviousFG));
        proof {
            assert(final(self).brushes@[row as int]@ =~= old(self).brushes@[row as int]@ + seq![
                (start, BrushEvent::SetFG(spec_rgb(color@))),
                (end, BrushEvent::PreviousFG),
            ]);
        }
    }

    /// Writes the chrome's status line onto the bottom grid row, painted in
    /// the status line colors over the whole width.
    pub fn draw_status_line(&mut self, sl: &StatusLine, theme: &Theme)
        requires
            old(self).wf(),
            old(self).framing,
            old(self).height >= 1,
            theme.wf(),
            old(self).width as int >= 2 + status_content_width(
                sl.file_name@,
                sl.cursor_x as nat,
                sl.cursor_y as nat,
            ),
        ensures
            final(self).wf(),
            *final(self) == (Terminal {
                buffer: final(self).buffer,
                brushes: final(self).brushes,
                ..*old(self)
            }),
            final(self).buffer@.len() == old(self).buffer@.len(),
            final(self).brushes@.len() == old(self).brushes@.len(),
            final(self).buffer@[old(self).height - 1]@ == spec_replace_from(
                old(self).buffer@[old(self).height - 1]@,
                0,
                status_line_chars(
                    sl.file_name@,
                    sl.cursor_x as nat,
                    sl.cursor_y as nat,
                    old(self).width as int,
                ),
            ),
            final(self).brushes@[old(self).height - 1]@ == old(self).brushes@[old(self).height
                - 1]@ + seq![
                (0usize, BrushEvent::SetBG(spec_rgb(theme.status_line.bg@))),
                (0usize, BrushEvent::SetFG(spec_rgb(theme.status_line.text@))),
                (old(self).width as usize, BrushEvent::PreviousBG),
                (old(self).width as usize, BrushEvent::PreviousFG),
            ],
            forall|j: int|
                0 <= j < old(self).height - 1 ==> (#[trigger] final(self).buffer@[j]) == old(
                    self,
                ).buffer@[j] && final(self).brushes@[j] == old(self).brushes@[j],
    {
        let line = sl.get_line(self.width);
        let row = self.height as usize - 1;
        let rowv = &mut self.buffer[row];
        rowv.replace_from(0, line.as_str());
        let bg = rgb_of(theme.status_line.bg.as_str());
        let fg = rgb_of(theme.status_line.text.as_str());
        let rb = &mut self.brushes[row];
        rb.push((0, BrushEvent::SetBG(bg)));
        rb.push((0, BrushEvent::SetFG(fg)));
        rb.push((self.width as usize, BrushEvent::PreviousBG));
        rb.push((self.width as usize, BrushEvent::PreviousFG));
        proof {
            assert(final(self).brushes@[row as int]@ =~= old(self).brushes@[row as int]@ + seq![
                (0usize, BrushEvent::SetBG(spec_rgb(theme.status_line.bg@))),
                (0usize, BrushEvent::SetFG(spec_rgb(theme.status_line.text@))),
                (old(self).width as usize, BrushEvent::PreviousBG),
                (old(self).width as usize, BrushEvent::PreviousFG),
            ]);
        }
    }

    /// The commands that blank the whole screen: for each row, a cursor move
    /// to its start and a full row of spaces.
    pub fn clear(&self) -> (r: Vec<DrawCommand>)
        ensures
            ops_of(r@).len() == 2 * self.height as int,
            forall|i: int|
                0 <= i < self.height as int ==> ops_of(r@)[2 * i] == (DrawOp::GoTo {
                    x: 0,
                    y: i,
                }) && ops_of(r@)[2 * i + 1] == (DrawOp::Write {
                    text: spaces(self.width as int),
                }),
    {
        let mut cmds: Vec<DrawCommand> = Vec::new();
        let h = self.height as usize;
        let mut i: usize = 0;
        while i < h
            invariant
                i <= h,
                h == self.height as usize,
                ops_of(cmds@).len() == 2 * i,
                cmds@.len() == 2 * i,
                forall|j: int|
                    0 <= j < i ==> ops_of(cmds@)[2 * j] == (DrawOp::GoTo { x: 0, y: j }) && ops_of(
                        cmds@,
                    )[2 * j + 1] == (DrawOp::Write { text: spaces(self.width as int) }),
            decreases h - i,
        {
            cmds.push(DrawCommand::MoveTo { x: 0, y: i as u16 });
            cmds.push(DrawCommand::Print { text: blank_row(self.width as usize) });
            proof {
                assert(ops_of(cmds@) =~= ops_of(cmds@.subrange(0, cmds@.len() - 2)).push(
                    cmds@[cmds@.len() - 2]@,
                ).push(cmds@[cmds@.len() - 1]@));
                assert(cmds@.subrange(0, cmds@.len() - 2) =~= cmds@.subrange(
                    0,
                    cmds@.len() - 2,
                ));
            }
            i = i + 1;
        }
        cmds
    }

    /// Writes one border row: the border text over the grid row at the
    /// surface's position, painted over the surface's whole width.
    fn draw_border_row(&mut self, buffer: &Buffer, theme: &Theme, row_idx: usize, top: bool)
        requires
            old(self).wf(),
            old(self).framing,
            theme.wf(),
            row_idx < old(self).height as usize,
            buffer.x as int + buffer.width as int <= old(self).width as int,
        ensures
            final(self).wf(),
            final(self).framing,
            *final(self) == (Terminal {
                buffer: final(self).buffer,
                brushes: final(self).brushes,
                ..*old(self)
            }),
            final(self).buffer@[row_idx as int]@ == spec_replace_from(
                old(self).buffer@[row_idx as int]@,
                buffer.x as int,
                if top {
                    buffer.top_border@
                } else {
                    buffer.bottom_border@
                },
            ),
            final(self).brushes@[row_idx as int]@ == old(self).brushes@[row_idx as int]@
                + border_events(*buffer, *theme),
            forall|j: int|
                0 <= j < old(self).height as int && j != row_idx ==> #[trigger] grid_row_same(
                    *old(self),
                    *final(self),
                    j,
                ),
    {
        let buf_x = buffer.x as usize;
        let buf_end = buffer.x as usize + buffer.width as usize;
        let rowv = &mut self.buffer[row_idx];
        if top {
            rowv.replace_from(buf_x, buffer.top_border.as_str());
        } else {
            rowv.replace_from(buf_x, buffer.bottom_border.as_str());
        }
        let bg = if buffer.is_overlay {
            theme.overlay.bg.as_str()
        } else {
            theme.editor.bg.as_str()
        };
        let fg = if buffer.is_overlay {
            theme.overlay.text.as_str()
        } else {
            theme.editor.text.as_str()
        };
        self.paint_bg(row_idx, buf_x, buf_end, bg);
        self.paint_fg(row_idx, buf_x, buf_end, fg);
        proof {
            assert(final(self).brushes@[row_idx as int]@ =~= old(self).brushes@[row_idx as int]@
                + border_events(*buffer, *theme));
        }
    }

    /// Writes one visible content row: the rendered display line over the
    /// grid row at the surface's position, painted by the surface's editing
    /// mode.
    #[verifier::spinoff_prover]
    #[verifier::rlimit(100)]
    fn draw_content_row(&mut self, buffer: &Buffer, theme: &Theme, row_idx: usize, line_num: usize)
        requires
            old(self).wf(),
            old(self).framing,
            theme.wf(),
            buffer.data.wf(),
            buffer.logic != BufferLogic::Selector,
            row_idx < old(self).height as usize,
            line_num < buffer.data.lines@.len(),
            buffer.x as int + buffer.width as int <= old(self).width as int,
            buffer.width as int >= buffer.spec_left_pad() + buffer.spec_right_pad(),
        ensures
            final(self).wf(),
            final(self).framing,
            *final(self) == (Terminal {
                buffer: final(self).buffer,
                brushes: final(self).brushes,
                ..*old(self)
            }),
            content_row_done(*old(self), *final(self), *buffer, *theme, row_idx as int, line_num as int),
            forall|j: int|
                0 <= j < old(self).height as int && j != row_idx ==> #[trigger] grid_row_same(
                    *old(self),
                    *final(self),
                    j,
                ),
    {
        let buf_x = buffer.x as usize;
        let buf_end = buffer.x as usize + buffer.width as usize;
        let p = buffer.get_padding();
        let start_x = buf_x + p.left;
        let buf_current_line = buffer.data.current_line();
        let display = buffer.get_row(line_num);
        match display {
            Some(display_line) => {
                let rowv = &mut self.buffer[row_idx];
                rowv.replace_from(buf_x, display_line.as_str());
                match buffer.logic {
                    BufferLogic::Editor => {
                        let line_color = if buf_current_line == line_num {
                            theme.editor.current_line.as_str()
                        } else {
                            theme.editor.bg.as_str()
                        };
                        self.paint_bg(row_idx, buf_x, buf_end, line_color);
                        if buffer.line_numbers {
                            let border_gap: usize = if buffer.bordered {
                                1
                            } else {
                                0
                            };
                            self.paint_fg(
                                row_idx,
                                buf_x + border_gap,
                                start_x,
                                theme.editor.line_numbers.as_str(),
                            );
                        }
                        self.paint_fg(row_idx, start_x, buf_end, theme.editor.text.as_str());
                    },
                    BufferLogic::InputBox => {
                        self.paint_bg(row_idx, buf_x, buf_end, theme.overlay.bg.as_str());
                        self.paint_fg(row_idx, start_x, buf_end, theme.overlay.text.as_str());
                    },
                    BufferLogic::Selector => {
                        proof {
                            assert(false);
                        }
                    },
                }
                proof {
                    assert(vstd::std_specs::vec::spec_vec_len(&buffer.data.data)
                        == buffer.data.data@.len());
                    if buf_current_line != line_num && buffer.data.is_current_line(
                        line_num as int,
                    ) {
                        crate::buffer::lemma_current_line_unique(
                            buffer.data,
                            line_num as int,
                            buf_current_line as int,
                        );
                    }
                    assert(final(self).brushes@[row_idx as int]@ =~= old(
                        self,
                    ).brushes@[row_idx as int]@ + row_paint_events(
                        *buffer,
                        *theme,
                        line_num as int,
                    ));
                }
            },
            None => {
                proof {
                    assert(false);
                }
            },
        }
    }

    /// Composites one surface onto the grid: optional top border, the
    /// visible content rows, each written over the grid row at the
    /// surface's position and painted, and an optional bottom border. Grid
    /// rows the surface does not cover are untouched.
    #[verifier::spinoff_prover]
    #[verifier::rlimit(100)]
    pub fn draw_buffer(&mut self, buffer: &Buffer, theme: &Theme)
        requires
            old(self).wf(),
            old(self).framing,
            theme.wf(),
            buffer.data.wf(),
            buffer.logic != BufferLogic::Selector,
            buffer.y as int + buffer.height as int <= old(self).height as int,
            buffer.x as int + buffer.width as int <= old(self).width as int,
            buffer.width as int >= buffer.spec_left_pad() + buffer.spec_right_pad(),
            buffer.bordered ==> buffer.spec_top_pad() + buffer.spec_bottom_pad()
                <= buffer.height as int,
        ensures
            final(self).wf(),
            final(self).framing,
            *final(self) == (Terminal {
                buffer: final(self).buffer,
                brushes: final(self).brushes,
                ..*old(self)
            }),
            forall|j: int|
                buffer.y + buffer.spec_top_pad() <= j < buffer.y + buffer.spec_top_pad()
                    + drawn_rows(*buffer) ==> #[trigger] content_row_done(
                    *old(self),
                    *final(self),
                    *buffer,
                    *theme,
                    j,
                    buffer.scroll_y + j - buffer.y - buffer.spec_top_pad(),
                ),
            buffer.bordered ==> final(self).buffer@[buffer.y as int]@ == spec_replace_from(
                old(self).buffer@[buffer.y as int]@,
                buffer.x as int,
                buffer.top_border@,
            ) && final(self).brushes@[buffer.y as int]@ == old(self).brushes@[buffer.y as int]@
                + border_events(*buffer, *theme),
            buffer.bordered ==> final(self).buffer@[buffer.y + buffer.spec_top_pad()
                + drawn_rows(*buffer)]@ == spec_replace_from(
                old(self).buffer@[buffer.y + buffer.spec_top_pad() + drawn_rows(*buffer)]@,
                buffer.x as int,
                buffer.bottom_border@,
            ) && final(self).brushes@[buffer.y + buffer.spec_top_pad() + drawn_rows(*buffer)]@
                == old(self).brushes@[buffer.y + buffer.spec_top_pad() + drawn_rows(*buffer)]@
                + border_events(*buffer, *theme),
            forall|j: int|
                0 <= j < old(self).height as int && !row_touched(*buffer, j)
                    ==> #[trigger] grid_row_same(*old(self), *final(self), j),
    {
        let p = buffer.get_padding();
        let y0 = buffer.y as usize;
        let mut row_idx = y0 + p.top;
        if buffer.bordered {
            self.draw_border_row(buffer, theme, y0, true);
        }
        let h = buffer.height as usize;
        let avail = if h > p.top + p.bottom {
            h - (p.top + p.bottom)
        } else {
            0
        };
        let lc = buffer.data.line_count();
        let remain = if buffer.scroll_y < lc {
            lc - buffer.scroll_y
        } else {
            0
        };
        let n_rows = if remain < avail {
            remain
        } else {
            avail
        };
        proof {
            assert(n_rows as int == drawn_rows(*buffer));
        }
        let mut k: usize = 0;
        while k < n_rows
            invariant
                k <= n_rows,
                n_rows as int == drawn_rows(*buffer),
                row_idx == y0 + p.top + k,
                y0 == buffer.y as usize,
                p.top == buffer.spec_top_pad(),
                p.bottom == buffer.spec_bottom_pad(),
                lc == buffer.data.lines@.len(),
                n_rows == 0 || buffer.scroll_y + n_rows <= lc,
                y0 + p.top + n_rows <= old(self).height as int,
                buffer.data.wf(),
                buffer.logic != BufferLogic::Selector,
                buffer.y as int + buffer.height as int <= old(self).height as int,
                buffer.x as int + buffer.width as int <= old(self).width as int,
                buffer.width as int >= buffer.spec_left_pad() + buffer.spec_right_pad(),
                theme.wf(),
                old(self).wf(),
                self.wf(),
                self.framing,
                *self == (Terminal { buffer: self.buffer, brushes: self.brushes, ..*old(self) }),
                buffer.bordered ==> self.buffer@[y0 as int]@ == spec_replace_from(
                    old(self).buffer@[y0 as int]@,
                    buffer.x as int,
                    buffer.top_border@,
                ) && self.brushes@[y0 as int]@ == old(self).brushes@[y0 as int]@ + border_events(
                    *buffer,
                    *theme,
                ),
                forall|j: int|
                    y0 + p.top <= j < y0 + p.top + k ==> #[trigger] content_row_done(
                        *old(self),
                        *self,
                        *buffer,
                        *theme,
                        j,
                        buffer.scroll_y + j - y0 - p.top,
                    ),
                forall|j: int|
                    0 <= j < old(self).height as int && !(buffer.bordered && j == y0 as int) && !(
                    y0 + p.top <= j < y0 + p.top + k) ==> #[trigger] grid_row_same(
                        *old(self),
                        *self,
                        j,
                    ),
            decreases n_rows - k,
        {
            let ghost prev = *self;
            let line_num = buffer.scroll_y + k;
            self.draw_content_row(buffer, theme, row_idx, line_num);
            proof {
                assert(grid_row_same(*old(self), prev, row_idx as int));
                if buffer.bordered {
                    assert(grid_row_same(prev, *self, y0 as int));
                }
                assert(content_row_done(prev, *self, *buffer, *theme, row_idx as int, line_num as int));
                assert(content_row_done(
                    *old(self),
                    *self,
                    *buffer,
                    *theme,
                    row_idx as int,
                    line_num as int,
                ));
                assert forall|j: int|
                    y0 + p.top <= j < y0 + p.top + (k + 1) implies #[trigger] content_row_done(
                    *old(self),
                    *self,
                    *buffer,
                    *theme,
                    j,
                    buffer.scroll_y + j - y0 - p.top,
                ) by {
                    if j != row_idx {
                        assert(content_row_done(
                            *old(self),
                            prev,
                            *buffer,
                            *theme,
                            j,
                            buffer.scroll_y + j - y0 - p.top,
                        ));
                        assert(grid_row_same(prev, *self, j));
                    }
                }
                assert forall|j: int|
                    0 <= j < old(self).height as int && !(buffer.bordered && j == y0 as int) && !(
                    y0 + p.top <= j < y0 + p.top + (k + 1)) implies #[trigger] grid_row_same(
                    *old(self),
                    *self,
                    j,
                ) by {
                    assert(grid_row_same(*old(self), prev, j));
                    assert(grid_row_same(prev, *self, j));
                }
            }
            row_idx = row_idx + 1;
            k = k + 1;
        }
        let ghost after_loop = *self;
        if buffer.bordered {
            self.draw_border_row(buffer, theme, row_idx, false);
            proof {
                assert(grid_row_same(*old(self), after_loop, row_idx as int));
            }
        }
        proof {
            if buffer.bordered {
                assert(grid_row_same(after_loop, *self, y0 as int));
            }
            assert forall|j: int|
                0 <= j < old(self).height as int && !row_touched(*buffer, j)
                    implies #[trigger] grid_row_same(*old(self), *self, j) by {
                assert(grid_row_same(*old(self), after_loop, j));
                if buffer.bordered {
                    assert(grid_row_same(after_loop, *self, j));
                }
            }
            assert forall|j: int|
                buffer.y + buffer.spec_top_pad() <= j < buffer.y + buffer.spec_top_pad()
                    + drawn_rows(*buffer) implies #[trigger] content_row_done(
                *old(self),
                *self,
                *buffer,
                *theme,
                j,
                buffer.scroll_y + j - buffer.y - buffer.spec_top_pad(),
            ) by {
                assert(content_row_done(
                    *old(self),
                    after_loop,
                    *buffer,
                    *theme,
                    j,
                    buffer.scroll_y + j - buffer.y - buffer.spec_top_pad(),
                ));
                if buffer.bordered {
                    assert(grid_row_same(after_loop, *self, j));
                }
            }
        }
    }

    /// Closes the frame: hands back the run-length command stream that
    /// paints every row, each row's color events replayed in column order,
    /// and leaves the frame state idle.
    #[verifier::spinoff_prover]
    #[verifier::rlimit(100)]
    pub fn end_draw(&mut self) -> (r: Vec<DrawCommand>)
        requires
            old(self).wf(),
            old(self).framing,
        ensures
            final(self).wf(),
            !final(self).framing,
            final(self).width == old(self).width,
            final(self).height == old(self).height,
            final(self).buffer == old(self).buffer,
            forall|i: int|
                0 <= i < old(self).height as int ==> (#[trigger] final(self).brushes@[i])@
                    == stable_sort(old(self).brushes@[i]@),
            ops_of(r@) == frame_ops(old(self).buffer@, old(self).brushes@, 0),
    {
        let mut cmds: Vec<DrawCommand> = Vec::new();
        let h = self.height as usize;
        let w = self.width;
        let mut i: usize = 0;
        while i < h
            invariant
                i <= h,
                h == self.height as usize,
                w == self.width,
                self.width == old(self).width,
                self.height == old(self).height,
                self.framing == old(self).framing,
                self.buffer == old(self).buffer,
                self.buffer@.len() == h,
                self.brushes@.len() == h,
                old(self).brushes@.len() == h,
                old(self).wf(),
                forall|j: int|
                    0 <= j < i ==> (#[trigger] self.brushes@[j])@ == stable_sort(
                        old(self).brushes@[j]@,
                    ),
                forall|j: int|
                    i <= j < h ==> (#[trigger] self.brushes@[j]) == old(self).brushes@[j],
                forall|j: int, k: int|
                    0 <= j < h && 0 <= k < self.brushes@[j]@.len() ==> (
                    #[trigger] self.brushes@[j]@[k]).0 <= w,
                ops_of(cmds@) + frame_ops(old(self).buffer@, old(self).brushes@, i as int)
                    == frame_ops(old(self).buffer@, old(self).brushes@, 0),
            decreases h - i,
        {
            let sorted = sort_brushes(&self.brushes[i]);
            let ghost old_row_events = self.brushes@[i as int]@;
            proof {
                assert forall|k: int| 0 <= k < sorted@.len() implies (#[trigger] sorted@[k]).0
                    <= w by {
                    let k2 = choose|k2: int|
                        0 <= k2 < old_row_events.len() && sorted@[k] == old_row_events[k2];
                }
            }
            let ghost rowv = self.buffer@[i as int]@;
            let ghost base = ops_of(cmds@);
            let m = sorted.len();
            let mut start: usize = 0;
            let mut bg_prev: Option<Rgb> = None;
            let mut bg_prev_prev: Option<Rgb> = None;
            let mut fg_prev: Option<Rgb> = None;
            let mut fg_prev_prev: Option<Rgb> = None;
            proof {
                assert(sorted@.skip(0) =~= sorted@);
            }
            let mut k: usize = 0;
            while k < m
                invariant
                    k <= m,
                    m == sorted@.len(),
                    i < h,
                    h == self.height as usize,
                    self.buffer@.len() == h,
                    rowv == self.buffer@[i as int]@,
                    forall|k2: int| 0 <= k2 < sorted@.len() ==> (#[trigger] sorted@[k2]).0 <= w,
                    start <= w,
                    base + emit_row_from(rowv, sorted@, i as int, 0, initial_painter())
                        == ops_of(cmds@) + emit_row_from(
                        rowv,
                        sorted@.skip(k as int),
                        i as int,
                        start as int,
                        (PainterState { bg_prev, bg_prev_prev, fg_prev, fg_prev_prev }),
                    ),
                decreases m - k,
            {
                let ghost st_before = PainterState { bg_prev, bg_prev_prev, fg_prev, fg_prev_prev };
                let ghost cmds_before = cmds@;
                let (idx, ev) = sorted[k];
                cmds.push(DrawCommand::MoveTo { x: start as u16, y: i as u16 });
                let text = slice_clamped(&self.buffer[i], start, idx);
                cmds.push(DrawCommand::Print { text });
                match ev {
                    BrushEvent::SetBG(c) => {
                        cmds.push(DrawCommand::SetBackground { color: c });
                        bg_prev_prev = bg_prev;
                        bg_prev = Some(c);
                    },
                    BrushEvent::PreviousBG => {
                        match bg_prev_prev {
                            Some(c) => {
                                cmds.push(DrawCommand::SetBackground { color: c });
                                bg_prev_prev = bg_prev;
                                bg_prev = Some(c);
                            },
                            None => {},
                        }
                    },
                    BrushEvent::SetFG(c) => {
                        cmds.push(DrawCommand::SetForeground { color: c });
                        fg_prev_prev = fg_prev;
                        fg_prev = Some(c);
                    },
                    BrushEvent::PreviousFG => {
                        match fg_prev_prev {
                            Some(c) => {
                                cmds.push(DrawCommand::SetForeground { color: c });
                                fg_prev_prev = fg_prev;
                                fg_prev = Some(c);
                            },
                            None => {},
                        }
                    },
                }
                proof {
                    assert(sorted@.skip(k as int).drop_first() =~= sorted@.skip(k + 1));
                    assert(sorted@.skip(k as int)[0] == sorted@[k as int]);
                    match ev {
                        BrushEvent::SetBG(c) => {
                            assert(ops_of(cmds@) =~= ops_of(cmds_before) + seq![
                                DrawOp::GoTo { x: start as int, y: i as int },
                                DrawOp::Write {
                                    text: row_slice(rowv, start as int, idx as int),
                                },
                                DrawOp::Background { color: c },
                            ]);
                        },
                        BrushEvent::PreviousBG => {
                            match st_before.bg_prev_prev {
                                Some(c) => {
                                    assert(ops_of(cmds@) =~= ops_of(cmds_before) + seq![
                                        DrawOp::GoTo { x: start as int, y: i as int },
                                        DrawOp::Write {
                                            text: row_slice(rowv, start as int, idx as int),
                                        },
                                        DrawOp::Background { color: c },
                                    ]);
                                },
                                None => {
                                    assert(ops_of(cmds@) =~= ops_of(cmds_before) + seq![
                                        DrawOp::GoTo { x: start as int, y: i as int },
                                        DrawOp::Write {
                                            text: row_slice(rowv, start as int, idx as int),
                                        },
                                    ]);
                                },
                            }
                        },
                        BrushEvent::SetFG(c) => {
                            assert(ops_of(cmds@) =~= ops_of(cmds_before) + seq![
                                DrawOp::GoTo { x: start as int, y: i as int },
                                DrawOp::Write {
                                    text: row_slice(rowv, start as int, idx as int),
                                },
                                DrawOp::Foreground { color: c },
                            ]);
                        },
                        BrushEvent::PreviousFG => {
                            match st_before.fg_prev_prev {
                                Some(c) => {
                                    assert(ops_of(cmds@) =~= ops_of(cmds_before) + seq![
                                        DrawOp::GoTo { x: start as int, y: i as int },
                                        DrawOp::Write {
                                            text: row_slice(rowv, start as int, idx as int),
                                        },
                                        DrawOp::Foreground { color: c },
                                    ]);
                                },
                                None => {
                                    assert(ops_of(cmds@) =~= ops_of(cmds_before) + seq![
                                        DrawOp::GoTo { x: start as int, y: i as int },
                                        DrawOp::Write {
                                            text: row_slice(rowv, start as int, idx as int),
                                        },
                                    ]);
                                },
                            }
                        },
                    }
                    assert(base + emit_row_from(rowv, sorted@, i as int, 0, initial_painter())
                        == ops_of(cmds@) + emit_row_from(
                        rowv,
                        sorted@.skip(k + 1),
                        i as int,
                        idx as int,
                        (PainterState { bg_prev, bg_prev_prev, fg_prev, fg_prev_prev }),
                    ));
                }
                start = idx;
                k = k + 1;
            }
            let ghost cmds_before = cmds@;
            cmds.push(DrawCommand::MoveTo { x: start as u16, y: i as u16 });
            let row_len = self.buffer[i].len();
            let text = slice_clamped(&self.buffer[i], start, row_len);
            cmds.push(DrawCommand::Print { text });
            proof {
                assert(sorted@.skip(m as int) =~= Seq::<(usize, BrushEvent)>::empty());
                assert(ops_of(cmds@) =~= ops_of(cmds_before) + seq![
                    DrawOp::GoTo { x: start as int, y: i as int },
                    DrawOp::Write { text: row_slice(rowv, start as int, rowv.len() as int) },
                ]);
                assert(ops_of(cmds@) == base + emit_row_from(
                    rowv,
                    sorted@,
                    i as int,
                    0,
                    initial_painter(),
                ));
                assert(emit_row(rowv, old(self).brushes@[i as int]@, i as int) == emit_row_from(
                    rowv,
                    sorted@,
                    i as int,
                    0,
                    initial_painter(),
                ));
                assert(frame_ops(old(self).buffer@, old(self).brushes@, i as int) == emit_row(
                    rowv,
                    old(self).brushes@[i as int]@,
                    i as int,
                ) + frame_ops(old(self).buffer@, old(self).brushes@, i + 1));
            }
            self.brushes[i] = sorted;
            i = i + 1;
        }
        self.framing = false;
        proof {
            assert(frame_ops(old(self).buffer@, old(self).brushes@, h as int) =~= Seq::<
                DrawOp,
            >::empty());
            assert(ops_of(cmds@) =~= ops_of(cmds@) + frame_ops(
                old(self).buffer@,
                old(self).brushes@,
                h as int,
            ));
        }
        cmds
    }

    /// Where to reveal the hardware cursor for a surface: its absolute
    /// coordinates if they fall inside the surface's own rectangle, nothing
    /// otherwise (an overlay may be hiding it).
    pub fn show_cursor(&self, buffer: &Buffer) -> (r: Option<(u16, u16)>)
        requires
            buffer.data.wf(),
            buffer.data.data@.len() + 0x20000 < isize::MAX,
            buffer.scroll_x < isize::MAX,
            buffer.scroll_y < isize::MAX,
        ensures
            forall|cx: int, cy: int|
                #[trigger] buffer.data.rel_pos_is(cx, cy) ==> {
                    let sx = cx - buffer.scroll_x + buffer.x + buffer.spec_left_pad();
                    let sy = cy - buffer.scroll_y + buffer.y + buffer.spec_top_pad();
                    if buffer.x <= sx < buffer.x + buffer.width && buffer.y <= sy < buffer.y
                        + buffer.height {
                        r == Some((sx as u16, sy as u16))
                    } else {
                        r is None
                    }
                },
    {
        let (cursor_x, cursor_y) = buffer.cursor_xy();
        if cursor_x >= buffer.x as isize && cursor_x < buffer.x as isize + buffer.width as isize
            && cursor_y >= buffer.y as isize && cursor_y < buffer.y as isize
            + buffer.height as isize {
            Some((cursor_x as u16, cursor_y as u16))
        } else {
            None
        }
    }
}

/// A copy of the cells of `row` between `a` and `b`, clamped to the row.
fn slice_clamped(row: &Vec<char>, a: usize, b: usize) -> (r: Vec<char>)
    ensures
        r@ == row_slice(row@, a as int, b as int),
{
    let n = row.len();
    let lo = if a > n {
        n
    } else {
        a
    };
    let hi = if b < lo {
        lo
    } else if b > n {
        n
    } else {
        b
    };
    let mut out: Vec<char> = Vec::new();
    let mut j = lo;
    while j < hi
        invariant
            lo <= j <= hi <= n,
            n == row@.len(),
            out@ == row@.subrange(lo as int, j as int),
        decreases hi - j,
    {
        let c = row[j];
        out.push(c);
        proof {
            assert(out@ =~= row@.subrange(lo as int, j + 1));
        }
        j = j + 1;
    }
    out
}

/// A row of `w` blank cells.
fn blank_row(w: usize) -> (r: Vec<char>)
    ensures
        r@ == spaces(w as int),
{
    let mut row: Vec<char> = Vec::new();
    let mut i: usize = 0;
    while i < w
        invariant
            i <= w,
            row@ == spaces(i as int),
        decreases w - i,
    {
        row.push(' ');
        proof {
            assert(row@ =~= spaces(i + 1));
        }
        i = i + 1;
    }
    row
}

/// Decodes a theme color string.
fn rgb_of(hex: &str) -> (c: Rgb)
    requires
        valid_hex_color(hex@),
    ensures
        c == spec_rgb(hex@),
{
    let (r, g, b) = Theme::hex_to_rgb(hex);
    Rgb { r, g, b }
}

} // verus!
