//! A bordered container widget with justified text printing.
//!
//! The border is a six-glyph descriptor: horizontal bar, vertical bar,
//! top-left, top-right, bottom-right and bottom-left corner. The sentinel
//! `'\0'` in a position omits that part of the border. Toggling the border
//! shifts the existing content in or out by one cell on both axes.

use vstd::prelude::*;
use crate::grid::{blank_grid, grid_dims, grid_filled, grid_put, grid_set, grid_get};
use crate::layout::{Justify, Rect};
use crate::inner::{
    InnerWidget, InnerWidgetBody, Widget, WidgetArena, lemma_wf_same_but_buffer, printed_row,
    same_arena_except, same_but_buffer,
};

verus! {

/// Border glyphs: horizontal bars, vertical bars, top-left, top-right,
/// bottom-right, bottom-left corner. `'\0'` omits a position.
pub type BorderStyle = (char, char, char, char, char, char);

/// The character left at `(y, x)` after the border glyphs of `s` are drawn
/// over a cell holding `orig`, in a widget of `h` rows and `w` columns.
/// Later glyphs paint over earlier ones: bars first, then the corners.
pub open spec fn border_char(
    s: BorderStyle,
    h: int,
    w: int,
    y: int,
    x: int,
    orig: char,
) -> char {
    let c1 = if s.0 != '\0' && (y == 0 || y == h - 1) {
        s.0
    } else {
        orig
    };
    let c2 = if s.1 != '\0' && (x == 0 || x == w - 1) {
        s.1
    } else {
        c1
    };
    let c3 = if s.2 != '\0' && y == 0 && x == 0 {
        s.2
    } else {
        c2
    };
    let c4 = if s.3 != '\0' && y == 0 && x == w - 1 {
        s.3
    } else {
        c3
    };
    let c5 = if s.4 != '\0' && y == h - 1 && x == w - 1 {
        s.4
    } else {
        c4
    };
    if s.5 != '\0' && y == h - 1 && x == 0 {
        s.5
    } else {
        c5
    }
}

/// The grid after the border of `s` is drawn along its edges.
pub open spec fn spec_draw_border(g: Seq<Seq<char>>, h: int, w: int, s: BorderStyle) -> Seq<
    Seq<char>,
> {
    Seq::new(g.len(), |y: int| Seq::new(g[y].len(), |x: int| border_char(s, h, w, y, x, g[y][x])))
}

/// The grid with every edge cell reset to the transparent sentinel.
pub open spec fn spec_clear_border(g: Seq<Seq<char>>, h: int, w: int) -> Seq<Seq<char>> {
    Seq::new(
        g.len(),
        |y: int|
            Seq::new(
                g[y].len(),
                |x: int|
                    if y == 0 || y == h - 1 || x == 0 || x == w - 1 {
                        '\0'
                    } else {
                        g[y][x]
                    },
            ),
    )
}

/// The grid with its content moved one cell down and right; row 0 and column 0
/// keep their old cells, content on the far edges falls off.
pub open spec fn spec_shift_in(g: Seq<Seq<char>>) -> Seq<Seq<char>> {
    Seq::new(
        g.len(),
        |y: int|
            Seq::new(
                g[y].len(),
                |x: int|
                    if y >= 1 && x >= 1 {
                        g[y - 1][x - 1]
                    } else {
                        g[y][x]
                    },
            ),
    )
}

/// The grid with its content moved one cell up and left; the last row and
/// column keep their old cells.
pub open spec fn spec_shift_out(g: Seq<Seq<char>>) -> Seq<Seq<char>> {
    Seq::new(
        g.len(),
        |y: int|
            Seq::new(
                g[y].len(),
                |x: int|
                    if y + 1 < g.len() && x + 1 < g[y].len() {
                        g[y + 1][x + 1]
                    } else {
                        g[y][x]
                    },
            ),
    )
}

/// The all-transparent grid of `h` rows and `w` columns.
pub open spec fn spec_blank(h: int, w: int) -> Seq<Seq<char>> {
    Seq::new(h as nat, |y: int| Seq::new(w as nat, |x: int| '\0'))
}

/// Toggling a border on and then off again restores the original buffer
/// exactly, provided the content in the two bottom rows and two rightmost
/// columns is transparent: that margin is what the border and the shift
/// consume, and what the round trip cannot bring back.
pub proof fn lemma_toggle_border_round_trip(g: Seq<Seq<char>>, h: int, w: int, s: BorderStyle)
    requires
        grid_dims(g, h, w),
        h >= 2,
        w >= 2,
        forall|y: int, x: int|
            0 <= y < h && 0 <= x < w && (y >= h - 2 || x >= w - 2) ==> g[y][x] == '\0',
    ensures
        spec_shift_out(spec_clear_border(spec_draw_border(spec_shift_in(g), h, w, s), h, w)) == g,
{
    let g1 = spec_shift_in(g);
    let g2 = spec_draw_border(g1, h, w, s);
    let g3 = spec_clear_border(g2, h, w);
    let g4 = spec_shift_out(g3);
    assert forall|y: int| 0 <= y < h implies #[trigger] g4[y] =~= g[y] by {
        assert forall|x: int| 0 <= x < w implies #[trigger] g4[y][x] == g[y][x] by {
            if y < h - 1 && x < w - 1 {
                assert(g4[y][x] == g3[y + 1][x + 1]);
                if y + 1 < h - 1 && x + 1 < w - 1 {
                    assert(g3[y + 1][x + 1] == g1[y + 1][x + 1]);
                    assert(g1[y + 1][x + 1] == g[y][x]);
                } else {
                    assert(g3[y + 1][x + 1] == '\0');
                    assert(g[y][x] == '\0');
                }
            } else {
                assert(g4[y][x] == g3[y][x]);
                assert(g3[y][x] == '\0');
                assert(g[y][x] == '\0');
            }
        }
    }
    assert(g4 =~= g);
}

/// Draw the border glyphs of `s` along the edges of the grid.
fn apply_border(g: &mut Vec<Vec<char>>, height: usize, width: usize, s: BorderStyle)
    requires
        grid_dims(old(g).deep_view(), height as int, width as int),
        height >= 1,
        width >= 1,
    ensures
        final(g).deep_view() == spec_draw_border(
            old(g).deep_view(),
            height as int,
            width as int,
            s,
        ),
{
    let ghost g0 = g.deep_view();
    let h = height;
    let w = width;
    if s.0 != '\0' {
        for i in 0..w
            invariant
                grid_dims(g.deep_view(), h as int, w as int),
                h >= 1,
                w >= 1,
                grid_dims(g0, h as int, w as int),
                s.0 != '\0',
                forall|y: int, x: int|
                    0 <= y < h && 0 <= x < w ==> #[trigger] g.deep_view()[y][x] == (if (y == 0 || y
                        == h - 1) && x < i {
                        s.0
                    } else {
                        g0[y][x]
                    }),
        {
            grid_put(g, 0, i, s.0);
            grid_put(g, h - 1, i, s.0);
        }
    }
    let ghost ga = g.deep_view();
    if s.1 != '\0' {
        for i in 0..h
            invariant
                grid_dims(g.deep_view(), h as int, w as int),
                h >= 1,
                w >= 1,
                grid_dims(ga, h as int, w as int),
                s.1 != '\0',
                forall|y: int, x: int|
                    0 <= y < h && 0 <= x < w ==> #[trigger] g.deep_view()[y][x] == (if (x == 0 || x
                        == w - 1) && y < i {
                        s.1
                    } else {
                        ga[y][x]
                    }),
        {
            grid_put(g, i, 0, s.1);
            grid_put(g, i, w - 1, s.1);
        }
    }
    if s.2 != '\0' {
        grid_put(g, 0, 0, s.2);
    }
    if s.3 != '\0' {
        grid_put(g, 0, w - 1, s.3);
    }
    if s.4 != '\0' {
        grid_put(g, h - 1, w - 1, s.4);
    }
    if s.5 != '\0' {
        grid_put(g, h - 1, 0, s.5);
    }
    proof {
        let gf = g.deep_view();
        let target = spec_draw_border(g0, h as int, w as int, s);
        assert forall|y: int| 0 <= y < h implies #[trigger] gf[y] =~= target[y] by {
            assert forall|x: int| 0 <= x < w implies #[trigger] gf[y][x] == target[y][x] by {
                assert(target[y][x] == border_char(s, h as int, w as int, y, x, g0[y][x]));
            }
        }
        assert(gf =~= target);
    }
}

/// Reset every edge cell of the grid to the transparent sentinel.
fn apply_clear_border(g: &mut Vec<Vec<char>>, height: usize, width: usize)
    requires
        grid_dims(old(g).deep_view(), height as int, width as int),
        height >= 1,
        width >= 1,
    ensures
        final(g).deep_view() == spec_clear_border(old(g).deep_view(), height as int, width as int),
{
    let ghost g0 = g.deep_view();
    let h = height;
    let w = width;
    for i in 0..w
        invariant
            grid_dims(g.deep_view(), h as int, w as int),
            h >= 1,
            w >= 1,
            grid_dims(g0, h as int, w as int),
            forall|y: int, x: int|
                0 <= y < h && 0 <= x < w ==> #[trigger] g.deep_view()[y][x] == (if (y == 0 || y == h
                    - 1) && x < i {
                    '\0'
                } else {
                    g0[y][x]
                }),
    {
        grid_put(g, 0, i, '\0');
        grid_put(g, h - 1, i, '\0');
    }
    let ghost ga = g.deep_view();
    for i in 0..h
        invariant
            grid_dims(g.deep_view(), h as int, w as int),
            h >= 1,
            w >= 1,
            grid_dims(ga, h as int, w as int),
            forall|y: int, x: int|
                0 <= y < h && 0 <= x < w ==> #[trigger] g.deep_view()[y][x] == (if (x == 0 || x == w
                    - 1) && y < i {
                    '\0'
                } else {
                    ga[y][x]
                }),
    {
        grid_put(g, i, 0, '\0');
        grid_put(g, i, w - 1, '\0');
    }
    proof {
        let gf = g.deep_view();
        let target = spec_clear_border(g0, h as int, w as int);
        assert forall|y: int| 0 <= y < h implies #[trigger] gf[y] =~= target[y] by {
            assert forall|x: int| 0 <= x < w implies #[trigger] gf[y][x] == target[y][x] by {}
        }
        assert(gf =~= target);
    }
}

/// A copy of the grid with the content moved one cell down and right.
fn shifted_in_grid(src: &Vec<Vec<char>>, height: usize, width: usize) -> (g: Vec<Vec<char>>)
    requires
        grid_dims(src.deep_view(), height as int, width as int),
    ensures
        g.deep_view() == spec_shift_in(src.deep_view()),
{
    let ghost g0 = src.deep_view();
    let mut g: Vec<Vec<char>> = Vec::new();
    for y in 0..height
        invariant
            g0 == src.deep_view(),
            grid_dims(g0, height as int, width as int),
            g@.len() == y,
            forall|r: int, c: int|
                0 <= r < y && 0 <= c < width ==> #[trigger] g@[r]@[c] == spec_shift_in(g0)[r][c],
            forall|r: int| 0 <= r < y ==> #[trigger] g@[r]@.len() == width,
    {
        let mut row: Vec<char> = Vec::new();
        for x in 0..width
            invariant
                g0 == src.deep_view(),
                grid_dims(g0, height as int, width as int),
                y < height,
                row@.len() == x,
                forall|c: int| 0 <= c < x ==> #[trigger] row@[c] == spec_shift_in(g0)[y as int][c],
        {
            let cc: char = if y >= 1 && x >= 1 {
                grid_get(src, y - 1, x - 1)
            } else {
                grid_get(src, y, x)
            };
            row.push(cc);
        }
        g.push(row);
    }
    proof {
        let gf = g.deep_view();
        let target = spec_shift_in(g0);
        assert forall|y: int| 0 <= y < height implies #[trigger] gf[y] =~= target[y] by {
            crate::grid::lemma_grid_deep_view(g, y);
        }
        assert(gf =~= target);
    }
    g
}

/// A copy of the grid with the content moved one cell up and left.
fn shifted_out_grid(src: &Vec<Vec<char>>, height: usize, width: usize) -> (g: Vec<Vec<char>>)
    requires
        grid_dims(src.deep_view(), height as int, width as int),
    ensures
        g.deep_view() == spec_shift_out(src.deep_view()),
{
    let ghost g0 = src.deep_view();
    let mut g: Vec<Vec<char>> = Vec::new();
    for y in 0..height
        invariant
            g0 == src.deep_view(),
            grid_dims(g0, height as int, width as int),
            g@.len() == y,
            forall|r: int, c: int|
                0 <= r < y && 0 <= c < width ==> #[trigger] g@[r]@[c] == spec_shift_out(g0)[r][c],
            forall|r: int| 0 <= r < y ==> #[trigger] g@[r]@.len() == width,
    {
        let mut row: Vec<char> = Vec::new();
        for x in 0..width
            invariant
                g0 == src.deep_view(),
                grid_dims(g0, height as int, width as int),
                y < height,
                row@.len() == x,
                forall|c: int| 0 <= c < x ==> #[trigger] row@[c] == spec_shift_out(g0)[y as int][c],
        {
            let cc: char = if y + 1 < height && x + 1 < width {
                grid_get(src, y + 1, x + 1)
            } else {
                grid_get(src, y, x)
            };
            row.push(cc);
        }
        g.push(row);
    }
    proof {
        let gf = g.deep_view();
        let target = spec_shift_out(g0);
        assert forall|y: int| 0 <= y < height implies #[trigger] gf[y] =~= target[y] by {
            crate::grid::lemma_grid_deep_view(g, y);
        }
        assert(gf =~= target);
    }
    g
}

/// A widget decorated with an optional per-edge border, printing text into
/// its content area.
pub struct Window {
    pub inner: InnerWidget,
    pub has_border: bool,
    pub border_style: BorderStyle,
}

impl Window {
    /// The handle of the underlying widget record.
    pub open spec fn spec_inner(&self) -> InnerWidget {
        self.inner
    }

    /// Whether the border is currently on.
    pub open spec fn spec_has_border(&self) -> bool {
        self.has_border
    }

    /// The current border glyphs.
    pub open spec fn spec_border_style(&self) -> BorderStyle {
        self.border_style
    }

    /// The window's record in the arena.
    pub open spec fn body(&self, a: &WidgetArena) -> InnerWidgetBody {
        self.inner.body(a)
    }

    /// The window points into the arena, and a window with a border is at
    /// least two cells on both axes.
    pub open spec fn wf(&self, a: &WidgetArena) -> bool {
        &&& self.inner.valid(a)
        &&& self.has_border ==> self.body(a).width >= 2 && self.body(a).height >= 2
    }

    /// The number of content columns: the full width, less the border.
    pub open spec fn spec_content_width(&self, a: &WidgetArena) -> int {
        if self.has_border {
            self.body(a).width - 2
        } else {
            self.body(a).width as int
        }
    }

    /// The number of content rows: the full height, less the border.
    pub open spec fn spec_content_height(&self, a: &WidgetArena) -> int {
        if self.has_border {
            self.body(a).height - 2
        } else {
            self.body(a).height as int
        }
    }

    /// The offset of the content area inside the widget.
    pub open spec fn spec_off(&self) -> int {
        if self.has_border {
            1
        } else {
            0
        }
    }

    /// Allocate a borderless window of the given geometry; its buffer starts
    /// fully transparent and the widget starts hidden.
    pub fn new(a: &mut WidgetArena, start_y: u32, start_x: u32, height: usize, width: usize) -> (
        win: Window)
        requires
            old(a).wf(),
            height <= u32::MAX,
            width <= u32::MAX,
        ensures
            final(a).wf(),
            win.wf(final(a)),
            !win.spec_has_border(),
            win.spec_border_style() == (('\0', '\0', '\0', '\0', '\0', '\0')),
            win.spec_inner().id == old(a).bodies@.len(),
            final(a).bodies@.len() == old(a).bodies@.len() + 1,
            forall|k: int|
                0 <= k < old(a).bodies@.len() ==> final(a).bodies@[k] == old(a).bodies@[k],
            ({
                let b = win.body(final(a));
                &&& b.start_y == start_y
                &&& b.start_x == start_x
                &&& b.height == height
                &&& b.width == width
                &&& grid_filled(b.grid(), '\0')
                &&& b.z_index == 1u32
                &&& b.hidden == true
                &&& b.subwidgets@ == Seq::<usize>::empty()
            }),
    {
        let inner = InnerWidget::new(a, start_y, start_x, height, width);
        Window { inner, has_border: false, border_style: ('\0', '\0', '\0', '\0', '\0', '\0') }
    }

    /// The number of content columns.
    pub fn content_width(&self, a: &WidgetArena) -> (w: usize)
        requires
            a.wf(),
            self.wf(a),
        ensures
            w == self.spec_content_width(a),
    {
        proof {
            assert(a.body_ok(self.inner.id as int));
        }
        let b = &a.bodies[self.inner.id];
        if self.has_border {
            b.width - 2
        } else {
            b.width
        }
    }

    /// The number of content rows.
    pub fn content_height(&self, a: &WidgetArena) -> (h: usize)
        requires
            a.wf(),
            self.wf(a),
        ensures
            h == self.spec_content_height(a),
    {
        proof {
            assert(a.body_ok(self.inner.id as int));
        }
        let b = &a.bodies[self.inner.id];
        if self.has_border {
            b.height - 2
        } else {
            b.height
        }
    }

    /// The absolute origin of the content area.
    pub fn content_yx(&self, a: &WidgetArena) -> (r: (u32, u32))
        requires
            a.wf(),
            self.wf(a),
            self.body(a).start_y + self.spec_off() <= u32::MAX,
            self.body(a).start_x + self.spec_off() <= u32::MAX,
        ensures
            r.0 == self.body(a).start_y + self.spec_off(),
            r.1 == self.body(a).start_x + self.spec_off(),
    {
        proof {
            assert(a.body_ok(self.inner.id as int));
        }
        let b = &a.bodies[self.inner.id];
        if self.has_border {
            (b.start_y + 1, b.start_x + 1)
        } else {
            (b.start_y, b.start_x)
        }
    }

    /// The window's full rectangle, for aligning followers against its outer
    /// edges.
    pub fn outer_rect(&self, a: &WidgetArena) -> (r: Rect)
        requires
            a.wf(),
            self.wf(a),
        ensures
            r.y == self.body(a).start_y,
            r.x == self.body(a).start_x,
            r.height == self.body(a).height,
            r.width == self.body(a).width,
    {
        self.inner.outer_rect(a)
    }

    /// The window's content rectangle, for aligning followers against the
    /// area inside the border.
    pub fn inner_rect(&self, a: &WidgetArena) -> (r: Rect)
        requires
            a.wf(),
            self.wf(a),
            self.body(a).start_y + self.spec_off() <= u32::MAX,
            self.body(a).start_x + self.spec_off() <= u32::MAX,
        ensures
            r.y == self.body(a).start_y + self.spec_off(),
            r.x == self.body(a).start_x + self.spec_off(),
            r.height == self.spec_content_height(a),
            r.width == self.spec_content_width(a),
    {
        let (y, x): (u32, u32) = self.content_yx(a);
        let height: usize = self.content_height(a);
        let width: usize = self.content_width(a);
        Rect { y, x, height, width }
    }

    /// Set the border glyphs; when the border is on, redraw it at once.
    pub fn set_border(&mut self, a: &mut WidgetArena, border: BorderStyle)
        requires
            old(a).wf(),
            old(self).wf(old(a)),
        ensures
            final(a).wf(),
            final(self).wf(final(a)),
            final(self).spec_inner() == old(self).spec_inner(),
            final(self).spec_has_border() == old(self).spec_has_border(),
            final(self).spec_border_style() == border,
            same_arena_except(*old(a), *final(a), old(self).spec_inner().id as int),
            same_but_buffer(old(self).body(old(a)), final(self).body(final(a))),
            ({
                let b1 = old(self).body(old(a));
                let b2 = final(self).body(final(a));
                if old(self).spec_has_border() {
                    b2.grid() == spec_draw_border(
                        b1.grid(),
                        b1.height as int,
                        b1.width as int,
                        border,
                    )
                } else {
                    b2.grid() == b1.grid()
                }
            }),
    {
        proof {
            assert(old(a).body_ok(self.inner.id as int));
        }
        self.border_style = border;
        if self.has_border {
            let b = &mut a.bodies[self.inner.id];
            let height: usize = b.height;
            let width: usize = b.width;
            apply_border(&mut b.buffer, height, width, border);
            proof {
                lemma_wf_same_but_buffer(*old(a), *a, self.inner.id as int);
            }
        }
    }

    /// Toggle the border. Turning it on shifts the content in by one cell on
    /// both axes and draws the border; turning it off clears the border cells
    /// and shifts the content back out. A window smaller than two cells on
    /// either axis cannot take a border and is left unchanged.
    pub fn toggle_border(&mut self, a: &mut WidgetArena) -> (r: Result<(), ()>)
        requires
            old(a).wf(),
            old(self).wf(old(a)),
        ensures
            final(a).wf(),
            final(self).wf(final(a)),
            final(self).spec_inner() == old(self).spec_inner(),
            final(self).spec_border_style() == old(self).spec_border_style(),
            same_arena_except(*old(a), *final(a), old(self).spec_inner().id as int),
            ({
                let b1 = old(self).body(old(a));
                let b2 = final(self).body(final(a));
                let h = b1.height as int;
                let w = b1.width as int;
                if !old(self).spec_has_border() && (b1.width < 2 || b1.height < 2) {
                    &&& r is Err
                    &&& *final(self) == *old(self)
                    &&& b2 == b1
                } else if old(self).spec_has_border() {
                    &&& r is Ok
                    &&& !final(self).spec_has_border()
                    &&& same_but_buffer(b1, b2)
                    &&& b2.grid() == spec_shift_out(spec_clear_border(b1.grid(), h, w))
                } else {
                    &&& r is Ok
                    &&& final(self).spec_has_border()
                    &&& same_but_buffer(b1, b2)
                    &&& b2.grid() == spec_draw_border(
                        spec_shift_in(b1.grid()),
                        h,
                        w,
                        old(self).spec_border_style(),
                    )
                }
            }),
    {
        proof {
            assert(old(a).body_ok(self.inner.id as int));
        }
        let (height, width): (usize, usize) = {
            let bb = &a.bodies[self.inner.id];
            (bb.height, bb.width)
        };
        if !self.has_border && (width < 2 || height < 2) {
            return Err(());
        }
        let b = &mut a.bodies[self.inner.id];
        if self.has_border {
            self.has_border = false;
            apply_clear_border(&mut b.buffer, height, width);
            let shifted = shifted_out_grid(&b.buffer, height, width);
            b.buffer = shifted;
        } else {
            self.has_border = true;
            let shifted = shifted_in_grid(&b.buffer, height, width);
            b.buffer = shifted;
            apply_border(&mut b.buffer, height, width, self.border_style);
        }
        proof {
            lemma_wf_same_but_buffer(*old(a), *a, self.inner.id as int);
        }
        Ok(())
    }

    /// Write one character at content position `(y, x)`; a write outside the
    /// content area is silently dropped.
    pub fn putc(&self, a: &mut WidgetArena, y: u32, x: u32, c: char)
        requires
            old(a).wf(),
            self.wf(old(a)),
        ensures
            final(a).wf(),
            self.wf(final(a)),
            same_arena_except(*old(a), *final(a), self.spec_inner().id as int),
            same_but_buffer(self.body(old(a)), self.body(final(a))),
            ({
                let b1 = self.body(old(a));
                let b2 = self.body(final(a));
                if y < self.spec_content_height(old(a)) && x < self.spec_content_width(old(a)) {
                    b2.grid() == grid_set(
                        b1.grid(),
                        y + self.spec_off(),
                        x + self.spec_off(),
                        c,
                    )
                } else {
                    b2.grid() == b1.grid()
                }
            }),
    {
        proof {
            assert(old(a).body_ok(self.inner.id as int));
        }
        let ch: usize = self.content_height(a);
        let cw: usize = self.content_width(a);
        if (y as usize) >= ch || (x as usize) >= cw {
            return ;
        }
        if self.has_border {
            self.inner.putc(a, y + 1, x + 1, c);
        } else {
            self.inner.putc(a, y, x, c);
        }
    }

    /// Print a line starting at content position `(y, x)`; the text is
    /// truncated at the content area's right edge, counting by character, and
    /// a start position outside the content area is silently dropped.
    pub fn print(&self, a: &mut WidgetArena, y: u32, x: u32, line: &str)
        requires
            old(a).wf(),
            self.wf(old(a)),
        ensures
            final(a).wf(),
            self.wf(final(a)),
            same_arena_except(*old(a), *final(a), self.spec_inner().id as int),
            same_but_buffer(self.body(old(a)), self.body(final(a))),
            ({
                let b1 = self.body(old(a));
                let b2 = self.body(final(a));
                let cw = self.spec_content_width(old(a));
                let n = if line@.len() > cw - x {
                    cw - x
                } else {
                    line@.len() as int
                };
                if y < self.spec_content_height(old(a)) && x < cw {
                    printed_row(
                        b1.grid(),
                        b2.grid(),
                        y + self.spec_off(),
                        x + self.spec_off(),
                        line@.take(n),
                    )
                } else {
                    b2.grid() == b1.grid()
                }
            }),
    {
        proof {
            assert(old(a).body_ok(self.inner.id as int));
        }
        let ch: usize = self.content_height(a);
        let cw: usize = self.content_width(a);
        if (y as usize) >= ch || (x as usize) >= cw {
            return ;
        }
        let mut print_len: usize = line.unicode_len();
        if print_len > cw - (x as usize) {
            print_len = cw - (x as usize);
        }
        let sliced: &str = line.substring_char(0, print_len);
        if self.has_border {
            self.inner.print(a, y + 1, x + 1, sliced);
        } else {
            self.inner.print(a, y, x, sliced);
        }
    }

    /// Print a line placed by the named justification inside the content
    /// area: the same as `print` at the row and column that
    /// `spec_justify_pos` computes from the content size and the text length.
    pub fn printj(&self, a: &mut WidgetArena, j: Justify, line: &str)
        requires
            old(a).wf(),
            self.wf(old(a)),
        ensures
            final(a).wf(),
            self.wf(final(a)),
            same_arena_except(*old(a), *final(a), self.spec_inner().id as int),
            same_but_buffer(self.body(old(a)), self.body(final(a))),
            ({
                let b1 = self.body(old(a));
                let b2 = self.body(final(a));
                let ch = self.spec_content_height(old(a));
                let cw = self.spec_content_width(old(a));
                let (ry, cx) = spec_justify_pos(j, ch, cw, line@.len() as int);
                let n = if line@.len() > cw - cx {
                    cw - cx
                } else {
                    line@.len() as int
                };
                if ry < ch && cx < cw {
                    printed_row(
                        b1.grid(),
                        b2.grid(),
                        ry + self.spec_off(),
                        cx + self.spec_off(),
                        line@.take(n),
                    )
                } else {
                    b2.grid() == b1.grid()
                }
            }),
    {
        proof {
            assert(old(a).body_ok(self.inner.id as int));
        }
        let ch: usize = self.content_height(a);
        let cw: usize = self.content_width(a);
        let len: usize = line.unicode_len();
        let hc: u32 = if len >= cw {
            0
        } else {
            ((cw - len) / 2) as u32
        };
        let rc: u32 = if len >= cw {
            0
        } else {
            (cw - len) as u32
        };
        let last: u32 = if ch > 0 {
            (ch - 1) as u32
        } else {
            0
        };
        let mid: u32 = last / 2;
        let (row, col): (u32, u32) = match j {
            Justify::Left(r) => (r, 0),
            Justify::HCentre(r) => (r, hc),
            Justify::Right(r) => (r, rc),
            Justify::Top(c) => (0, c),
            Justify::VCentre(c) => (mid, c),
            Justify::Bottom(c) => (last, c),
            Justify::TopLeft => (0, 0),
            Justify::TopCentre => (0, hc),
            Justify::TopRight => (0, rc),
            Justify::CentreLeft => (mid, 0),
            Justify::Centre => (mid, hc),
            Justify::CentreRight => (mid, rc),
            Justify::BottomLeft => (last, 0),
            Justify::BottomCentre => (last, hc),
            Justify::BottomRight => (last, rc),
        };
        proof {
            assert((row as int, col as int) == spec_justify_pos(j, ch as int, cw as int, len as int));
        }
        self.print(a, row, col, line);
    }

    /// Reset one content row to the transparent sentinel; a row outside the
    /// content area is silently dropped.
    pub fn clearln(&self, a: &mut WidgetArena, y: usize)
        requires
            old(a).wf(),
            self.wf(old(a)),
        ensures
            final(a).wf(),
            self.wf(final(a)),
            same_arena_except(*old(a), *final(a), self.spec_inner().id as int),
            same_but_buffer(self.body(old(a)), self.body(final(a))),
            ({
                let g1 = self.body(old(a)).grid();
                let g2 = self.body(final(a)).grid();
                let off = self.spec_off();
                let ch = self.spec_content_height(old(a));
                let cw = self.spec_content_width(old(a));
                let h = self.body(old(a)).height as int;
                let w = self.body(old(a)).width as int;
                if y < ch {
                    forall|r: int, c: int|
                        0 <= r < h && 0 <= c < w ==> #[trigger] g2[r][c] == (if r == y + off && off
                            <= c < off + cw {
                            '\0'
                        } else {
                            g1[r][c]
                        })
                } else {
                    g2 == g1
                }
            }),
    {
        proof {
            assert(old(a).body_ok(self.inner.id as int));
        }
        let ch: usize = self.content_height(a);
        let cw: usize = self.content_width(a);
        if y >= ch {
            return ;
        }
        let off: usize = if self.has_border {
            1
        } else {
            0
        };
        let b = &mut a.bodies[self.inner.id];
        let ghost g1 = b.grid();
        for x in 0..cw
            invariant
                grid_dims(g1, b.height as int, b.width as int),
                grid_dims(b.grid(), b.height as int, b.width as int),
                y + off < b.height,
                off + cw <= b.width,
                *b == (InnerWidgetBody { buffer: b.buffer, ..self.body(old(a)) }),
                g1 == self.body(old(a)).grid(),
                forall|r: int, c: int|
                    0 <= r < b.height && 0 <= c < b.width ==> #[trigger] b.grid()[r][c] == (if r == y
                        + off && off <= c < off + x {
                        '\0'
                    } else {
                        g1[r][c]
                    }),
        {
            grid_put(&mut b.buffer, y + off, off + x, '\0');
        }
        proof {
            lemma_wf_same_but_buffer(*old(a), *a, self.inner.id as int);
        }
    }

    /// Reset the whole buffer to the transparent sentinel; when the border is
    /// on, redraw it at once.
    pub fn clear(&self, a: &mut WidgetArena)
        requires
            old(a).wf(),
            self.wf(old(a)),
        ensures
            final(a).wf(),
            self.wf(final(a)),
            same_arena_except(*old(a), *final(a), self.spec_inner().id as int),
            same_but_buffer(self.body(old(a)), self.body(final(a))),
            ({
                let b1 = self.body(old(a));
                let b2 = self.body(final(a));
                let h = b1.height as int;
                let w = b1.width as int;
                if self.spec_has_border() {
                    b2.grid() == spec_draw_border(
                        spec_blank(h, w),
                        h,
                        w,
                        self.spec_border_style(),
                    )
                } else {
                    b2.grid() == spec_blank(h, w)
                }
            }),
    {
        proof {
            assert(old(a).body_ok(self.inner.id as int));
        }
        let b = &mut a.bodies[self.inner.id];
        let height: usize = b.height;
        let width: usize = b.width;
        b.buffer = blank_grid(height, width, '\0');
        proof {
            assert forall|yy: int| 0 <= yy < height implies #[trigger] b.grid()[yy] =~= spec_blank(
                height as int,
                width as int,
            )[yy] by {}
            assert(b.grid() =~= spec_blank(height as int, width as int));
        }
        if self.has_border {
            apply_border(&mut b.buffer, height, width, self.border_style);
        }
        proof {
            lemma_wf_same_but_buffer(*old(a), *a, self.inner.id as int);
        }
    }
}

impl Widget for Window {
    open spec fn inner_id(&self) -> int {
        self.inner.id as int
    }

    fn share_inner(&self) -> (w: InnerWidget) {
        self.inner.share()
    }
}

/// The content-area position at which `printj` places a text of `len`
/// characters under justification `j`, for a content area of `ch` rows and
/// `cw` columns.
pub open spec fn spec_justify_pos(j: Justify, ch: int, cw: int, len: int) -> (int, int) {
    let hc = if len >= cw {
        0
    } else {
        (cw - len) / 2
    };
    let rc = if len >= cw {
        0
    } else {
        cw - len
    };
    let last = if ch > 0 {
        ch - 1
    } else {
        0
    };
    let mid = last / 2;
    match j {
        Justify::Left(r) => (r as int, 0),
        Justify::HCentre(r) => (r as int, hc),
        Justify::Right(r) => (r as int, rc),
        Justify::Top(c) => (0, c as int),
        Justify::VCentre(c) => (mid, c as int),
        Justify::Bottom(c) => (last, c as int),
        Justify::TopLeft => (0, 0),
        Justify::TopCentre => (0, hc),
        Justify::TopRight => (0, rc),
        Justify::CentreLeft => (mid, 0),
        Justify::Centre => (mid, hc),
        Justify::CentreRight => (mid, rc),
        Justify::BottomLeft => (last, 0),
        Justify::BottomCentre => (last, hc),
        Justify::BottomRight => (last, rc),
    }
}

} // verus!
