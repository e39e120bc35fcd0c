//! The compositor: owns the screen-sized character grid, walks the registered
//! root widgets and their children in z-order, composites their buffers into
//! the grid with per-axis clipping, and tracks the single hardware cursor.
//!
//! Serialising the grid to the terminal, raw mode and the check that the
//! physical terminal is large enough are the terminal collaborator's job;
//! the compositor only computes the frame.

use vstd::prelude::*;
use vstd::seq_lib::group_to_multiset_ensures;
use crate::grid::{blank_grid, grid_dims, grid_get, grid_put};
use crate::inner::{Cursor, InnerWidget, InnerWidgetBody, Widget, WidgetArena};

verus! {

/// The z-index of record `id`.
pub open spec fn z_of(a: WidgetArena, id: int) -> int {
    a.bodies@[id].z_index as int
}

/// The ids are ordered by non-decreasing z-index.
pub open spec fn sorted_ids(a: WidgetArena, ids: Seq<usize>) -> bool {
    forall|p: int, q: int|
        0 <= p < q < ids.len() ==> z_of(a, #[trigger] ids[p] as int) <= z_of(
            a,
            #[trigger] ids[q] as int,
        )
}

/// Where a new id lands among already z-ordered ids: after every id whose
/// z-index is strictly greater, and after every earlier id with the same
/// z-index — the insertion rule of a stable sort.
pub open spec fn insert_by_z(a: WidgetArena, sorted: Seq<usize>, id: usize) -> Seq<usize>
    decreases sorted.len(),
{
    if sorted.len() == 0 {
        seq![id]
    } else if z_of(a, sorted.last() as int) > z_of(a, id as int) {
        insert_by_z(a, sorted.drop_last(), id).push(sorted.last())
    } else {
        sorted.push(id)
    }
}

/// The stable sort of the ids by z-index: the one reordering that is sorted
/// by non-decreasing z-index and keeps ids of equal z-index in their
/// original insertion order.
pub open spec fn stable_sort_ids(a: WidgetArena, ids: Seq<usize>) -> Seq<usize>
    decreases ids.len(),
{
    if ids.len() == 0 {
        Seq::empty()
    } else {
        insert_by_z(a, stable_sort_ids(a, ids.drop_last()), ids.last())
    }
}

/// Inserting an id adds exactly that id to the multiset.
proof fn lemma_insert_by_z_multiset(a: WidgetArena, sorted: Seq<usize>, id: usize)
    ensures
        insert_by_z(a, sorted, id).to_multiset() == sorted.to_multiset().insert(id),
    decreases sorted.len(),
{
    broadcast use group_to_multiset_ensures;

    if sorted.len() == 0 {
        assert(seq![id] =~= Seq::<usize>::empty().push(id));
    } else if z_of(a, sorted.last() as int) > z_of(a, id as int) {
        lemma_insert_by_z_multiset(a, sorted.drop_last(), id);
        assert(sorted =~= sorted.drop_last().push(sorted.last()));
        assert(insert_by_z(a, sorted, id).to_multiset() =~= sorted.to_multiset().insert(id));
    }
}

/// The stable sort is a permutation of its input.
pub proof fn lemma_stable_sort_multiset(a: WidgetArena, ids: Seq<usize>)
    ensures
        stable_sort_ids(a, ids).to_multiset() == ids.to_multiset(),
    decreases ids.len(),
{
    broadcast use group_to_multiset_ensures;

    if ids.len() > 0 {
        lemma_stable_sort_multiset(a, ids.drop_last());
        lemma_insert_by_z_multiset(a, stable_sort_ids(a, ids.drop_last()), ids.last());
        assert(ids =~= ids.drop_last().push(ids.last()));
        assert(stable_sort_ids(a, ids).to_multiset() =~= ids.to_multiset());
    }
}

/// The stable sort keeps the length.
pub proof fn lemma_stable_sort_len(a: WidgetArena, ids: Seq<usize>)
    ensures
        stable_sort_ids(a, ids).len() == ids.len(),
{
    broadcast use group_to_multiset_ensures;

    lemma_stable_sort_multiset(a, ids);
    assert(stable_sort_ids(a, ids).len() == stable_sort_ids(a, ids).to_multiset().len());
    assert(ids.len() == ids.to_multiset().len());
}

/// The stable sort leaves an empty or one-element list unchanged.
proof fn lemma_stable_sort_trivial(a: WidgetArena, s: Seq<usize>)
    requires
        s.len() <= 1,
    ensures
        stable_sort_ids(a, s) == s,
{
    if s.len() == 0 {
        assert(stable_sort_ids(a, s) =~= s);
    } else {
        assert(s.drop_last() =~= Seq::<usize>::empty());
        assert(stable_sort_ids(a, s.drop_last()) == Seq::<usize>::empty()) by {
            assert(stable_sort_ids(a, Seq::<usize>::empty()) =~= Seq::<usize>::empty());
        }
        assert(insert_by_z(a, Seq::<usize>::empty(), s.last()) =~= seq![s.last()]);
        assert(stable_sort_ids(a, s) =~= s);
    }
}

/// Where the lower boundary of the strictly greater z-indices is known, the
/// insertion position is pinned exactly.
proof fn lemma_insert_by_z_at(a: WidgetArena, sorted: Seq<usize>, id: usize, j: int)
    requires
        0 <= j <= sorted.len(),
        forall|k: int|
            j <= k < sorted.len() ==> z_of(a, #[trigger] sorted[k] as int) > z_of(a, id as int),
        j > 0 ==> z_of(a, sorted[j - 1] as int) <= z_of(a, id as int),
    ensures
        insert_by_z(a, sorted, id) == sorted.take(j) + seq![id] + sorted.skip(j),
    decreases sorted.len(),
{
    if sorted.len() == 0 {
        assert(insert_by_z(a, sorted, id) =~= sorted.take(j) + seq![id] + sorted.skip(j));
    } else if j == sorted.len() {
        assert(z_of(a, sorted.last() as int) <= z_of(a, id as int));
        assert(sorted.push(id) =~= sorted.take(j) + seq![id] + sorted.skip(j));
    } else {
        assert(z_of(a, sorted.last() as int) > z_of(a, id as int));
        lemma_insert_by_z_at(a, sorted.drop_last(), id, j);
        assert(sorted.drop_last().take(j) =~= sorted.take(j));
        assert(insert_by_z(a, sorted, id) =~= sorted.take(j) + seq![id] + sorted.skip(j));
    }
}

/// Insertion consults only the z-indices of the ids involved: two arenas that
/// agree on them insert alike.
proof fn lemma_insert_by_z_congruent(a1: WidgetArena, a2: WidgetArena, sorted: Seq<usize>, id: usize)
    requires
        z_of(a1, id as int) == z_of(a2, id as int),
        forall|k: int|
            0 <= k < sorted.len() ==> z_of(a1, #[trigger] sorted[k] as int) == z_of(
                a2,
                sorted[k] as int,
            ),
    ensures
        insert_by_z(a1, sorted, id) == insert_by_z(a2, sorted, id),
    decreases sorted.len(),
{
    if sorted.len() > 0 {
        if z_of(a1, sorted.last() as int) > z_of(a1, id as int) {
            lemma_insert_by_z_congruent(a1, a2, sorted.drop_last(), id);
        }
    }
}

/// The stable sort consults only the z-indices of the ids it sorts: two
/// arenas that agree on them sort alike.
pub proof fn lemma_stable_sort_congruent(a1: WidgetArena, a2: WidgetArena, ids: Seq<usize>)
    requires
        forall|k: int|
            0 <= k < ids.len() ==> z_of(a1, #[trigger] ids[k] as int) == z_of(a2, ids[k] as int),
    ensures
        stable_sort_ids(a1, ids) == stable_sort_ids(a2, ids),
    decreases ids.len(),
{
    broadcast use group_to_multiset_ensures;

    if ids.len() > 0 {
        lemma_stable_sort_congruent(a1, a2, ids.drop_last());
        let s = stable_sort_ids(a1, ids.drop_last());
        lemma_stable_sort_multiset(a1, ids.drop_last());
        lemma_multiset_same_elements(ids.drop_last(), s);
        assert forall|k: int| 0 <= k < s.len() implies z_of(a1, #[trigger] s[k] as int) == z_of(
            a2,
            s[k] as int,
        ) by {
            assert(ids.drop_last().contains(s[k]));
            let w = choose|w: int| 0 <= w < ids.drop_last().len() && ids.drop_last()[w] == s[k];
            assert(ids[w] == s[k]);
        }
        lemma_insert_by_z_congruent(a1, a2, s, ids.last());
    }
}

/// Arena `a2` holds the same records as `a1`, except that any record's child
/// list may have been reordered.
pub open spec fn arena_orders_only(a1: WidgetArena, a2: WidgetArena) -> bool {
    &&& a2.bodies@.len() == a1.bodies@.len()
    &&& forall|k: int|
        0 <= k < a1.bodies@.len() ==> #[trigger] a2.bodies@[k] == (InnerWidgetBody {
            subwidgets: a2.bodies@[k].subwidgets,
            ..a1.bodies@[k]
        }) && a2.bodies@[k].subwidgets@.to_multiset() == a1.bodies@[k].subwidgets@.to_multiset()
}

/// Widget `b` owns the screen cell `(gy, gx)`.
pub open spec fn covers(b: InnerWidgetBody, gy: int, gx: int) -> bool {
    &&& b.start_y <= gy < b.start_y + b.height
    &&& b.start_x <= gx < b.start_x + b.width
}

/// The screen grid after the buffer of `b` is painted over it: every grid
/// cell that `b` covers with a non-transparent character takes that
/// character; every other cell keeps its old content. Cells outside the grid
/// are clipped away by construction.
pub open spec fn paint_body(g: Seq<Seq<char>>, b: InnerWidgetBody) -> Seq<Seq<char>> {
    Seq::new(
        g.len(),
        |gy: int|
            Seq::new(
                g[gy].len(),
                |gx: int|
                    if covers(b, gy, gx) && b.grid()[gy - b.start_y][gx - b.start_x] != '\0' {
                        b.grid()[gy - b.start_y][gx - b.start_x]
                    } else {
                        g[gy][gx]
                    },
            ),
    )
}

/// The tracked cursor after widget `b` is visited: a widget with a shown
/// cursor takes over the frame's cursor, at its absolute position when that
/// lies on the screen of `h` rows and `w` columns.
pub open spec fn cursor_after_body(cur: Cursor, b: InnerWidgetBody, h: int, w: int) -> Cursor {
    if b.cursor.hidden {
        cur
    } else {
        let cy = b.start_y + b.cursor.y;
        let cx = b.start_x + b.cursor.x;
        if cy < h && cx < w {
            Cursor { y: cy as u32, x: cx as u32, hidden: false }
        } else {
            Cursor { y: cur.y, x: cur.x, hidden: false }
        }
    }
}

/// The grid and cursor after the widget tree rooted at `id` is visited: a
/// hidden widget and its children are skipped entirely; otherwise the
/// widget's own buffer is painted, its cursor is tracked, and its children
/// are visited in the order of the child list.
pub open spec fn visit_tree(
    g: Seq<Seq<char>>,
    cur: Cursor,
    h: int,
    w: int,
    a: WidgetArena,
    id: int,
) -> (Seq<Seq<char>>, Cursor)
    decreases a.bodies@.len() - id, a.bodies@[id].subwidgets@.len() + 1, 0int,
        when a.wf() && 0 <= id < a.bodies@.len()
{
    let b = a.bodies@[id];
    if b.hidden {
        (g, cur)
    } else {
        visit_kids(paint_body(g, b), cursor_after_body(cur, b, h, w), h, w, a, id, 0)
    }
}

/// The grid and cursor after the children of `id` from position `i` on are
/// visited.
pub open spec fn visit_kids(
    g: Seq<Seq<char>>,
    cur: Cursor,
    h: int,
    w: int,
    a: WidgetArena,
    id: int,
    i: int,
) -> (Seq<Seq<char>>, Cursor)
    decreases a.bodies@.len() - id, a.bodies@[id].subwidgets@.len() - i, 1int,
        when a.wf() && 0 <= id < a.bodies@.len() && 0 <= i
        via visit_kids_decreases
{
    let subs = a.bodies@[id].subwidgets@;
    if i >= subs.len() {
        (g, cur)
    } else {
        let r = visit_tree(g, cur, h, w, a, subs[i] as int);
        visit_kids(r.0, r.1, h, w, a, id, i + 1)
    }
}

#[via_fn]
proof fn visit_kids_decreases(
    g: Seq<Seq<char>>,
    cur: Cursor,
    h: int,
    w: int,
    a: WidgetArena,
    id: int,
    i: int,
) {
    if a.wf() && 0 <= id < a.bodies@.len() && 0 <= i {
        assert(a.body_ok(id));
    }
}

/// The grid and cursor after the root widgets `ids` from position `i` on are
/// visited in order.
pub open spec fn visit_roots(
    g: Seq<Seq<char>>,
    cur: Cursor,
    h: int,
    w: int,
    a: WidgetArena,
    ids: Seq<usize>,
    i: int,
) -> (Seq<Seq<char>>, Cursor)
    decreases ids.len() - i,
        when a.wf() && (forall|k: int| 0 <= k < ids.len() ==> #[trigger] ids[k] < a.bodies@.len())
{
    if i < 0 || i >= ids.len() {
        (g, cur)
    } else {
        let r = visit_tree(g, cur, h, w, a, ids[i] as int);
        visit_roots(r.0, r.1, h, w, a, ids, i + 1)
    }
}

/// The all-blank screen grid: `h` rows and `w` columns of spaces.
pub open spec fn spec_space_grid(h: int, w: int) -> Seq<Seq<char>> {
    Seq::new(h as nat, |y: int| Seq::new(w as nat, |x: int| ' '))
}

/// The compositor: the full-size character grid, the registered root
/// widgets, and the frame's single tracked cursor.
pub struct Screen {
    pub height: usize,
    pub width: usize,
    pub cursor: Cursor,
    pub buffer: Vec<Vec<char>>,
    pub widgets: Vec<usize>,
}

impl Screen {
    /// The grid matches the screen size, which fits the coordinate space.
    pub open spec fn swf(&self) -> bool {
        &&& grid_dims(self.buffer.deep_view(), self.height as int, self.width as int)
        &&& self.height <= u32::MAX
        &&& self.width <= u32::MAX
    }

    /// Every registered root points into the arena.
    pub open spec fn roots_valid(&self, a: &WidgetArena) -> bool {
        forall|k: int| 0 <= k < self.widgets@.len() ==> #[trigger] self.widgets@[k]
            < a.bodies@.len()
    }

    /// The grid as a mathematical grid of characters.
    pub open spec fn grid(&self) -> Seq<Seq<char>> {
        self.buffer.deep_view()
    }

    /// Allocate a blank screen grid of the given size with no registered
    /// widgets and a hidden cursor. Checking the physical terminal size and
    /// entering raw mode are the terminal collaborator's responsibility.
    pub fn init(rows: usize, cols: usize) -> (s: Screen)
        requires
            rows <= u32::MAX,
            cols <= u32::MAX,
        ensures
            s.swf(),
            s.height == rows,
            s.width == cols,
            s.widgets@ == Seq::<usize>::empty(),
            s.cursor == (Cursor { y: 0, x: 0, hidden: true }),
            s.grid() == spec_space_grid(rows as int, cols as int),
    {
        let buffer = blank_grid(rows, cols, ' ');
        proof {
            assert forall|y: int| 0 <= y < rows implies #[trigger] buffer.deep_view()[y]
                =~= spec_space_grid(rows as int, cols as int)[y] by {}
            assert(buffer.deep_view() =~= spec_space_grid(rows as int, cols as int));
        }
        Screen {
            height: rows,
            width: cols,
            cursor: Cursor { y: 0, x: 0, hidden: true },
            buffer,
            widgets: Vec::new(),
        }
    }

    /// Register a root-level widget by its identity (its arena index).
    pub fn add_widget<T: Widget>(&mut self, w: &T)
        ensures
            final(self).widgets@ == old(self).widgets@.push(w.inner_id() as usize),
            *final(self) == (Screen { widgets: final(self).widgets, ..*old(self) }),
    {
        let handle: InnerWidget = w.share_inner();
        self.widgets.push(handle.id);
    }

    /// Unregister a root-level widget by its identity: the first registration
    /// of the same record, if any, is removed.
    pub fn rm_widget<T: Widget>(&mut self, w: &T)
        ensures
            *final(self) == (Screen { widgets: final(self).widgets, ..*old(self) }),
            ({
                let ids = old(self).widgets@;
                let id = w.inner_id() as usize;
                if exists|k: int| 0 <= k < ids.len() && ids[k] == id {
                    exists|k: int|
                        0 <= k < ids.len() && ids[k] == id && (forall|p: int|
                            0 <= p < k ==> ids[p] != id) && final(self).widgets@ == ids.remove(k)
                } else {
                    final(self).widgets@ == ids
                }
            }),
    {
        let handle: InnerWidget = w.share_inner();
        let id: usize = handle.id;
        let n: usize = self.widgets.len();
        for i in 0..n
            invariant
                n == self.widgets@.len(),
                *self == (Screen { widgets: self.widgets, ..*old(self) }),
                self.widgets@ == old(self).widgets@,
                id == w.inner_id(),
                forall|p: int| 0 <= p < i ==> old(self).widgets@[p] != id,
        {
            if self.widgets[i] == id {
                self.widgets.remove(i);
                return ;
            }
        }
    }

    /// Read one cell of the screen grid.
    pub fn cell(&self, y: usize, x: usize) -> (c: char)
        requires
            self.swf(),
            y < self.height,
            x < self.width,
        ensures
            c == self.grid()[y as int][x as int],
    {
        grid_get(&self.buffer, y, x)
    }

    /// Paint the buffer of record `id` into the screen grid at the record's
    /// absolute origin, clipped to the grid per axis, skipping transparent
    /// cells.
    fn draw_widget_buffer(&mut self, a: &WidgetArena, id: usize)
        requires
            a.wf(),
            id < a.bodies@.len(),
            old(self).swf(),
        ensures
            final(self).swf(),
            *final(self) == (Screen { buffer: final(self).buffer, ..*old(self) }),
            final(self).grid() == paint_body(old(self).grid(), a.bodies@[id as int]),
    {
        proof {
            assert(a.body_ok(id as int));
        }
        let ghost b = a.bodies@[id as int];
        let ghost g0 = self.grid();
        let ghost target = paint_body(g0, b);
        let (sy, sx, bh, bw): (usize, usize, usize, usize) = {
            let bb = &a.bodies[id];
            (bb.start_y as usize, bb.start_x as usize, bb.height, bb.width)
        };
        let y_it: usize = if sy >= self.height {
            0
        } else if bh > self.height - sy {
            self.height - sy
        } else {
            bh
        };
        let x_it: usize = if sx >= self.width {
            0
        } else if bw > self.width - sx {
            self.width - sx
        } else {
            bw
        };
        let height: usize = self.height;
        let width: usize = self.width;
        for y in 0..y_it
            invariant
                a.wf(),
                id < a.bodies@.len(),
                b == a.bodies@[id as int],
                b.body_wf(),
                g0 == old(self).grid(),
                grid_dims(g0, height as int, width as int),
                target == paint_body(g0, b),
                sy == b.start_y,
                sx == b.start_x,
                bh == b.height,
                bw == b.width,
                y_it as int == (if sy >= height {
                    0int
                } else if bh > height - sy {
                    height - sy
                } else {
                    bh as int
                }),
                x_it as int == (if sx >= width {
                    0int
                } else if bw > width - sx {
                    width - sx
                } else {
                    bw as int
                }),
                height == self.height,
                width == self.width,
                *self == (Screen { buffer: self.buffer, ..*old(self) }),
                grid_dims(self.grid(), height as int, width as int),
                forall|gy: int, gx: int|
                    0 <= gy < height && 0 <= gx < width ==> #[trigger] self.grid()[gy][gx] == (if sy
                        <= gy < sy + y {
                        target[gy][gx]
                    } else {
                        g0[gy][gx]
                    }),
        {
            for x in 0..x_it
                invariant
                    a.wf(),
                    id < a.bodies@.len(),
                    b == a.bodies@[id as int],
                    b.body_wf(),
                    g0 == old(self).grid(),
                    grid_dims(g0, height as int, width as int),
                    target == paint_body(g0, b),
                    sy == b.start_y,
                    sx == b.start_x,
                    bh == b.height,
                    bw == b.width,
                    sy + y_it <= height,
                    y < y_it,
                    y_it <= bh,
                    x_it as int == (if sx >= width {
                        0int
                    } else if bw > width - sx {
                        width - sx
                    } else {
                        bw as int
                    }),
                    height == self.height,
                    width == self.width,
                    *self == (Screen { buffer: self.buffer, ..*old(self) }),
                    grid_dims(self.grid(), height as int, width as int),
                    forall|gy: int, gx: int|
                        0 <= gy < height && 0 <= gx < width ==> #[trigger] self.grid()[gy][gx] == (
                        if sy <= gy < sy + y || (gy == sy + y && sx <= gx < sx + x) {
                            target[gy][gx]
                        } else {
                            g0[gy][gx]
                        }),
            {
                let c: char = grid_get(&a.bodies[id].buffer, y, x);
                if c != '\0' {
                    grid_put(&mut self.buffer, sy + y, sx + x, c);
                } else {
                    proof {
                        assert(target[(sy + y) as int][(sx + x) as int] == g0[(sy + y) as int][(sx
                            + x) as int]);
                    }
                }
            }
            proof {
                assert forall|gx: int| 0 <= gx < width implies #[trigger] self.grid()[(sy
                    + y) as int][gx] == target[(sy + y) as int][gx] by {
                    if gx < sx || gx >= sx + x_it {
                        if covers(b, sy + y, gx) {
                            assert(gx >= sx + x_it);
                            assert(x_it < bw);
                            assert(gx >= width);
                        }
                        assert(target[(sy + y) as int][gx] == g0[(sy + y) as int][gx]);
                    }
                }
            }
        }
        proof {
            let gf = self.grid();
            assert forall|gy: int| 0 <= gy < height implies #[trigger] gf[gy] =~= target[gy] by {
                assert forall|gx: int| 0 <= gx < width implies #[trigger] gf[gy][gx]
                    == target[gy][gx] by {
                    if !(sy <= gy < sy + y_it) {
                        if covers(b, gy, gx) {
                            assert(gy - sy < y_it);
                        } else {
                            assert(target[gy][gx] == g0[gy][gx]);
                        }
                    }
                }
            }
            assert(gf =~= target);
        }
    }

    /// Paint the widget tree rooted at `id`: the widget's own buffer, its
    /// cursor, then its children in the order of its child list. A hidden
    /// widget and its children are skipped entirely.
    fn draw_widget(&mut self, a: &WidgetArena, id: usize)
        requires
            a.wf(),
            id < a.bodies@.len(),
            old(self).swf(),
        ensures
            final(self).swf(),
            *final(self) == (Screen {
                buffer: final(self).buffer,
                cursor: final(self).cursor,
                ..*old(self)
            }),
            ({
                let r = visit_tree(
                    old(self).grid(),
                    old(self).cursor,
                    old(self).height as int,
                    old(self).width as int,
                    *a,
                    id as int,
                );
                final(self).grid() == r.0 && final(self).cursor == r.1
            }),
        decreases a.bodies@.len() - id,
    {
        proof {
            assert(a.body_ok(id as int));
        }
        let hidden: bool = a.bodies[id].hidden;
        if hidden {
            return ;
        }
        let height: usize = self.height;
        let width: usize = self.width;
        self.draw_widget_buffer(a, id);
        let (c_hidden, cby, cbx, sy, sx): (bool, u32, u32, u32, u32) = {
            let bb = &a.bodies[id];
            (bb.cursor.hidden, bb.cursor.y, bb.cursor.x, bb.start_y, bb.start_x)
        };
        if !c_hidden {
            let cy: u64 = sy as u64 + cby as u64;
            let cx: u64 = sx as u64 + cbx as u64;
            if cy < height as u64 && cx < width as u64 {
                self.cursor.y = cy as u32;
                self.cursor.x = cx as u32;
            }
            self.cursor.hidden = false;
        }
        let ghost b = a.bodies@[id as int];
        let ghost g1 = self.grid();
        let ghost c1 = self.cursor;
        proof {
            assert(g1 == paint_body(old(self).grid(), b));
            assert(c1 == cursor_after_body(old(self).cursor, b, height as int, width as int));
        }
        let nsubs: usize = a.bodies[id].subwidgets.len();
        for i in 0..nsubs
            invariant
                a.wf(),
                id < a.bodies@.len(),
                a.body_ok(id as int),
                nsubs == a.bodies@[id as int].subwidgets@.len(),
                self.swf(),
                height == self.height,
                width == self.width,
                *self == (Screen { buffer: self.buffer, cursor: self.cursor, ..*old(self) }),
                visit_kids(
                    self.grid(),
                    self.cursor,
                    height as int,
                    width as int,
                    *a,
                    id as int,
                    i as int,
                ) == visit_kids(g1, c1, height as int, width as int, *a, id as int, 0),
        {
            let child: usize = a.bodies[id].subwidgets[i];
            let ghost pg = self.grid();
            let ghost pc = self.cursor;
            self.draw_widget(a, child);
            proof {
                let r = visit_tree(pg, pc, height as int, width as int, *a, child as int);
                assert(visit_kids(pg, pc, height as int, width as int, *a, id as int, i as int)
                    == visit_kids(
                    r.0,
                    r.1,
                    height as int,
                    width as int,
                    *a,
                    id as int,
                    i + 1,
                ));
            }
        }
        proof {
            assert(visit_kids(
                self.grid(),
                self.cursor,
                height as int,
                width as int,
                *a,
                id as int,
                nsubs as int,
            ) == (self.grid(), self.cursor));
            assert(visit_tree(
                old(self).grid(),
                old(self).cursor,
                height as int,
                width as int,
                *a,
                id as int,
            ) == visit_kids(g1, c1, height as int, width as int, *a, id as int, 0));
        }
    }

    /// Composite the whole frame: blank the grid, hide the tracked cursor,
    /// bring every child list and the root list into z-order (a stable sort:
    /// equal z-indices keep their insertion order), and paint every root's
    /// tree in that order.
    pub fn draw(&mut self, a: &mut WidgetArena)
        requires
            old(a).wf(),
            old(self).swf(),
            old(self).roots_valid(old(a)),
        ensures
            final(a).wf(),
            final(self).swf(),
            arena_orders_only(*old(a), *final(a)),
            forall|k: int|
                0 <= k < final(a).bodies@.len() ==> sorted_ids(
                    *final(a),
                    #[trigger] final(a).bodies@[k].subwidgets@,
                ),
            final(self).height == old(self).height,
            final(self).width == old(self).width,
            final(self).widgets@.to_multiset() == old(self).widgets@.to_multiset(),
            sorted_ids(*final(a), final(self).widgets@),
            final(self).widgets@ == stable_sort_ids(*final(a), old(self).widgets@),
            forall|k: int|
                0 <= k < final(a).bodies@.len() ==> #[trigger] final(a).bodies@[k].subwidgets@
                    == stable_sort_ids(*final(a), old(a).bodies@[k].subwidgets@),
            final(self).roots_valid(final(a)),
            ({
                let r = visit_roots(
                    spec_space_grid(old(self).height as int, old(self).width as int),
                    Cursor { y: old(self).cursor.y, x: old(self).cursor.x, hidden: true },
                    old(self).height as int,
                    old(self).width as int,
                    *final(a),
                    final(self).widgets@,
                    0,
                );
                final(self).grid() == r.0 && final(self).cursor == r.1
            }),
    {
        let height: usize = self.height;
        let width: usize = self.width;
        self.buffer = blank_grid(height, width, ' ');
        self.cursor.hidden = true;
        proof {
            assert forall|y: int| 0 <= y < height implies #[trigger] self.grid()[y]
                =~= spec_space_grid(height as int, width as int)[y] by {}
            assert(self.grid() =~= spec_space_grid(height as int, width as int));
        }
        sort_children(a);
        sort_ids_by_z(&mut self.widgets, a);
        let ghost g0 = self.grid();
        let ghost c0 = self.cursor;
        let ghost afinal = *a;
        let n: usize = self.widgets.len();
        for i in 0..n
            invariant
                a.wf(),
                *a == afinal,
                n == self.widgets@.len(),
                self.roots_valid(a),
                self.swf(),
                height == self.height,
                width == self.width,
                *self == (Screen {
                    buffer: self.buffer,
                    cursor: self.cursor,
                    widgets: self.widgets,
                    ..*old(self)
                }),
                self.widgets@.to_multiset() == old(self).widgets@.to_multiset(),
                sorted_ids(*a, self.widgets@),
                self.widgets@ == stable_sort_ids(*a, old(self).widgets@),
                forall|k: int|
                    0 <= k < a.bodies@.len() ==> #[trigger] a.bodies@[k].subwidgets@
                        == stable_sort_ids(*a, old(a).bodies@[k].subwidgets@),
                visit_roots(
                    self.grid(),
                    self.cursor,
                    height as int,
                    width as int,
                    *a,
                    self.widgets@,
                    i as int,
                ) == visit_roots(g0, c0, height as int, width as int, *a, self.widgets@, 0),
        {
            let id: usize = self.widgets[i];
            let ghost pg = self.grid();
            let ghost pc = self.cursor;
            self.draw_widget(a, id);
            proof {
                let r = visit_tree(pg, pc, height as int, width as int, *a, id as int);
                assert(visit_roots(
                    pg,
                    pc,
                    height as int,
                    width as int,
                    *a,
                    self.widgets@,
                    i as int,
                ) == visit_roots(
                    r.0,
                    r.1,
                    height as int,
                    width as int,
                    *a,
                    self.widgets@,
                    i + 1,
                ));
            }
        }
        proof {
            assert(visit_roots(
                self.grid(),
                self.cursor,
                height as int,
                width as int,
                *a,
                self.widgets@,
                n as int,
            ) == (self.grid(), self.cursor));
        }
    }
}

/// A list of two distinct roots that is sorted by z-index and holds the same
/// multiset as `[ida, idb]`, where `ida`'s z-index is strictly lower, is
/// exactly `[ida, idb]`: after `draw`, the lower-z widget is painted first.
pub proof fn lemma_sorted_pair_order(a: WidgetArena, ids: Seq<usize>, ida: usize, idb: usize)
    requires
        ids.to_multiset() == seq![ida, idb].to_multiset(),
        sorted_ids(a, ids),
        z_of(a, ida as int) < z_of(a, idb as int),
    ensures
        ids == seq![ida, idb],
{
    broadcast use group_to_multiset_ensures;

    let pair = seq![ida, idb];
    assert(pair.to_multiset().len() == 2);
    assert(ids.len() == 2);
    lemma_multiset_same_elements(pair, ids);
    assert(ids.contains(ids[0]) && ids.contains(ids[1]));
    assert(pair.contains(ids[0]) && pair.contains(ids[1]));
    if ids[0] == idb {
        assert(ids[1] == idb) by {
            if ids[1] == ida {
                assert(z_of(a, ids[0] as int) <= z_of(a, ids[1] as int));
            }
            assert(pair.contains(ids[1]));
        }
        assert(ids.to_multiset().count(ida) == pair.to_multiset().count(ida));
        assert(pair.to_multiset().count(ida) > 0) by {
            assert(pair.contains(ida));
        }
        assert(ids.to_multiset().count(ida) == 0) by {
            assert(forall|k: int| 0 <= k < ids.len() ==> ids[k] == idb);
            assert(!ids.contains(ida));
        }
        assert(false);
    }
    assert(ids[0] == ida);
    assert(ids[1] == idb) by {
        if ids[1] == ida {
            assert(ids.to_multiset().count(idb) == 0) by {
                assert(!ids.contains(idb));
            }
            assert(pair.to_multiset().count(idb) > 0) by {
                assert(pair.contains(idb));
            }
            assert(false);
        }
        assert(pair.contains(ids[1]));
    }
    assert(ids =~= pair);
}

/// Painting two fully overlapping, visible, childless widgets in the order
/// `[ida, idb]` leaves, in every cell of their shared rectangle where the
/// later widget `idb` has a non-transparent character, exactly that
/// character: the higher-z widget wins, never the lower one.
pub proof fn lemma_higher_z_paints_over(
    g0: Seq<Seq<char>>,
    cur0: Cursor,
    h: int,
    w: int,
    a: WidgetArena,
    ida: usize,
    idb: usize,
)
    requires
        a.wf(),
        ida < a.bodies@.len(),
        idb < a.bodies@.len(),
        grid_dims(g0, h, w),
        !a.bodies@[ida as int].hidden,
        !a.bodies@[idb as int].hidden,
        a.bodies@[ida as int].subwidgets@ == Seq::<usize>::empty(),
        a.bodies@[idb as int].subwidgets@ == Seq::<usize>::empty(),
    ensures
        ({
            let bb = a.bodies@[idb as int];
            let r = visit_roots(g0, cur0, h, w, a, seq![ida, idb], 0);
            forall|gy: int, gx: int|
                0 <= gy < h && 0 <= gx < w && covers(bb, gy, gx) && bb.grid()[gy - bb.start_y][gx
                    - bb.start_x] != '\0' ==> #[trigger] r.0[gy][gx] == bb.grid()[gy - bb.start_y][gx
                    - bb.start_x]
        }),
{
    let ids = seq![ida, idb];
    assert(forall|k: int| 0 <= k < ids.len() ==> #[trigger] ids[k] < a.bodies@.len());
    let ba = a.bodies@[ida as int];
    let bb = a.bodies@[idb as int];
    let ra = visit_tree(g0, cur0, h, w, a, ida as int);
    assert(ra == visit_kids(paint_body(g0, ba), cursor_after_body(cur0, ba, h, w), h, w, a, ida as int, 0));
    assert(ra.0 == paint_body(g0, ba));
    let rb = visit_tree(ra.0, ra.1, h, w, a, idb as int);
    assert(rb.0 == paint_body(ra.0, bb));
    let r = visit_roots(g0, cur0, h, w, a, ids, 0);
    assert(r == visit_roots(ra.0, ra.1, h, w, a, ids, 1));
    assert(visit_roots(ra.0, ra.1, h, w, a, ids, 1) == visit_roots(rb.0, rb.1, h, w, a, ids, 2));
    assert(visit_roots(rb.0, rb.1, h, w, a, ids, 2) == (rb.0, rb.1));
    assert forall|gy: int, gx: int|
        0 <= gy < h && 0 <= gx < w && covers(bb, gy, gx) && bb.grid()[gy - bb.start_y][gx
            - bb.start_x] != '\0' implies #[trigger] r.0[gy][gx] == bb.grid()[gy - bb.start_y][gx
        - bb.start_x] by {
        assert(ra.0.len() == h);
        assert(ra.0[gy].len() == w);
    }
}

/// A full-screen window that just had a full border toggled on frames the
/// whole screen: after painting it as the only visible root, every edge cell
/// of the grid shows the border glyph of its position, and the cell at
/// (1, 1) shows the character that sat at the window's cell (0, 0) before
/// the toggle, whenever that character was visible. A transparent pre-toggle
/// origin lets the background show through at (1, 1) instead.
pub proof fn lemma_framed_window_after_draw(
    g0: Seq<Seq<char>>,
    cur0: Cursor,
    a: WidgetArena,
    id: usize,
    before: Seq<Seq<char>>,
    s: crate::window::BorderStyle,
    h: int,
    w: int,
)
    requires
        a.wf(),
        id < a.bodies@.len(),
        grid_dims(g0, h, w),
        grid_dims(before, h, w),
        h >= 3,
        w >= 3,
        ({
            let b = a.bodies@[id as int];
            &&& !b.hidden
            &&& b.subwidgets@ == Seq::<usize>::empty()
            &&& b.start_y == 0
            &&& b.start_x == 0
            &&& b.height == h
            &&& b.width == w
            &&& b.grid() == crate::window::spec_draw_border(
                crate::window::spec_shift_in(before),
                h,
                w,
                s,
            )
        }),
        s.0 != '\0',
        s.1 != '\0',
        s.2 != '\0',
        s.3 != '\0',
        s.4 != '\0',
        s.5 != '\0',
    ensures
        ({
            let r = visit_roots(g0, cur0, h, w, a, seq![id], 0);
            &&& forall|x: int|
                0 <= x < w ==> #[trigger] r.0[0][x] == (if x == 0 {
                    s.2
                } else if x == w - 1 {
                    s.3
                } else {
                    s.0
                })
            &&& forall|x: int|
                0 <= x < w ==> #[trigger] r.0[h - 1][x] == (if x == 0 {
                    s.5
                } else if x == w - 1 {
                    s.4
                } else {
                    s.0
                })
            &&& forall|y: int| 0 < y < h - 1 ==> #[trigger] r.0[y][0] == s.1
            &&& forall|y: int| 0 < y < h - 1 ==> #[trigger] r.0[y][w - 1] == s.1
            &&& before[0][0] != '\0' ==> r.0[1][1] == before[0][0]
        }),
{
    let ids = seq![id];
    assert(forall|k: int| 0 <= k < ids.len() ==> #[trigger] ids[k] < a.bodies@.len());
    let b = a.bodies@[id as int];
    let rt = visit_tree(g0, cur0, h, w, a, id as int);
    assert(rt == visit_kids(
        paint_body(g0, b),
        cursor_after_body(cur0, b, h, w),
        h,
        w,
        a,
        id as int,
        0,
    ));
    assert(rt.0 == paint_body(g0, b));
    let r = visit_roots(g0, cur0, h, w, a, ids, 0);
    assert(r == visit_roots(rt.0, rt.1, h, w, a, ids, 1));
    assert(visit_roots(rt.0, rt.1, h, w, a, ids, 1) == (rt.0, rt.1));
    let shifted = crate::window::spec_shift_in(before);
    assert forall|gy: int, gx: int| 0 <= gy < h && 0 <= gx < w implies #[trigger] r.0[gy][gx]
        == (if b.grid()[gy][gx] != '\0' {
        b.grid()[gy][gx]
    } else {
        g0[gy][gx]
    }) by {
        assert(covers(b, gy, gx));
    }
    assert forall|gy: int, gx: int| 0 <= gy < h && 0 <= gx < w implies #[trigger] b.grid()[gy][gx]
        == crate::window::border_char(s, h, w, gy, gx, shifted[gy][gx]) by {}
    assert(b.grid()[1][1] == shifted[1][1]);
    assert(shifted[1][1] == before[0][0]);
}

/// Every element of `s2` occurs in `s1` when the two hold the same multiset.
proof fn lemma_multiset_same_elements(s1: Seq<usize>, s2: Seq<usize>)
    requires
        s1.to_multiset() == s2.to_multiset(),
    ensures
        forall|k: int| 0 <= k < s2.len() ==> s1.contains(#[trigger] s2[k]),
{
    broadcast use group_to_multiset_ensures;

    assert forall|k: int| 0 <= k < s2.len() implies s1.contains(#[trigger] s2[k]) by {
        assert(s2.contains(s2[k]));
        assert(s2.to_multiset().count(s2[k]) > 0);
    }
}

/// Bring every record's child list into z-order — each list becomes the
/// stable sort of itself — changing nothing else.
fn sort_children(a: &mut WidgetArena)
    requires
        old(a).wf(),
    ensures
        final(a).wf(),
        arena_orders_only(*old(a), *final(a)),
        forall|k: int|
            0 <= k < final(a).bodies@.len() ==> sorted_ids(
                *final(a),
                #[trigger] final(a).bodies@[k].subwidgets@,
            ),
        forall|k: int|
            0 <= k < final(a).bodies@.len() ==> #[trigger] final(a).bodies@[k].subwidgets@
                == stable_sort_ids(*final(a), old(a).bodies@[k].subwidgets@),
{
    let n: usize = a.bodies.len();
    for k in 0..n
        invariant
            a.wf(),
            old(a).wf(),
            n == a.bodies@.len(),
            n == old(a).bodies@.len(),
            arena_orders_only(*old(a), *a),
            forall|kk: int|
                0 <= kk < k ==> sorted_ids(*a, #[trigger] a.bodies@[kk].subwidgets@),
            forall|kk: int|
                0 <= kk < k ==> #[trigger] a.bodies@[kk].subwidgets@ == stable_sort_ids(
                    *a,
                    old(a).bodies@[kk].subwidgets@,
                ),
            forall|kk: int|
                k <= kk < n ==> #[trigger] a.bodies@[kk].subwidgets
                    == old(a).bodies@[kk].subwidgets,
    {
        let ghost aprev = *a;
        let mut list: Vec<usize> = Vec::new();
        proof {
            assert(a.body_ok(k as int));
        }
        let bk = &mut a.bodies[k];
        core::mem::swap(&mut list, &mut bk.subwidgets);
        let ghost amid = *a;
        proof {
            assert forall|i: int| 0 <= i < a.bodies@.len() implies #[trigger] a.body_ok(i) by {
                assert(aprev.body_ok(i));
            }
            assert(aprev.body_ok(k as int));
        }
        sort_ids_by_z(&mut list, a);
        let bk = &mut a.bodies[k];
        core::mem::swap(&mut bk.subwidgets, &mut list);
        proof {
            let orig_k = old(a).bodies@[k as int].subwidgets@;
            assert(old(a).body_ok(k as int));
            assert(a.bodies@[k as int].subwidgets@ == stable_sort_ids(amid, orig_k));
            assert forall|j: int| 0 <= j < orig_k.len() implies z_of(
                amid,
                #[trigger] orig_k[j] as int,
            ) == z_of(*a, orig_k[j] as int) by {}
            lemma_stable_sort_congruent(amid, *a, orig_k);
            assert(a.bodies@[k as int].subwidgets@ == stable_sort_ids(*a, orig_k));
            assert forall|kk: int| 0 <= kk < k implies #[trigger] a.bodies@[kk].subwidgets@
                == stable_sort_ids(*a, old(a).bodies@[kk].subwidgets@) by {
                let orig_kk = old(a).bodies@[kk].subwidgets@;
                assert(old(a).body_ok(kk));
                assert(a.bodies@[kk] == aprev.bodies@[kk]);
                assert(aprev.bodies@[kk].subwidgets@ == stable_sort_ids(aprev, orig_kk));
                assert forall|j: int| 0 <= j < orig_kk.len() implies z_of(
                    aprev,
                    #[trigger] orig_kk[j] as int,
                ) == z_of(*a, orig_kk[j] as int) by {}
                lemma_stable_sort_congruent(aprev, *a, orig_kk);
            }
        }
        proof {
            lemma_multiset_same_elements(
                aprev.bodies@[k as int].subwidgets@,
                a.bodies@[k as int].subwidgets@,
            );
            assert forall|i: int| 0 <= i < a.bodies@.len() implies #[trigger] a.body_ok(i) by {
                assert(aprev.body_ok(i));
                if i == k {
                    let subs = a.bodies@[i].subwidgets@;
                    assert forall|j: int| 0 <= j < subs.len() implies i < #[trigger] subs[j]
                        < a.bodies@.len() by {
                        assert(aprev.bodies@[i].subwidgets@.contains(subs[j]));
                        let jj = choose|jj: int|
                            0 <= jj < aprev.bodies@[i].subwidgets@.len()
                                && aprev.bodies@[i].subwidgets@[jj] == subs[j];
                        assert(aprev.body_ok(i));
                    }
                }
            }
            assert forall|kk: int| 0 <= kk <= k implies sorted_ids(
                *a,
                #[trigger] a.bodies@[kk].subwidgets@,
            ) by {
                let ids = a.bodies@[kk].subwidgets@;
                assert(a.body_ok(kk));
                if kk < k {
                    assert(a.bodies@[kk] == aprev.bodies@[kk]);
                    assert(sorted_ids(aprev, aprev.bodies@[kk].subwidgets@));
                    assert forall|p: int, q: int| 0 <= p < q < ids.len() implies z_of(
                        *a,
                        #[trigger] ids[p] as int,
                    ) <= z_of(*a, #[trigger] ids[q] as int) by {
                        assert(z_of(*a, ids[p] as int) == z_of(aprev, ids[p] as int));
                        assert(z_of(*a, ids[q] as int) == z_of(aprev, ids[q] as int));
                    }
                } else {
                    assert forall|p: int, q: int| 0 <= p < q < ids.len() implies z_of(
                        *a,
                        #[trigger] ids[p] as int,
                    ) <= z_of(*a, #[trigger] ids[q] as int) by {}
                }
            }
        }
    }
}

/// Sort the ids in place by the z-index of their records, in non-decreasing
/// order: exactly the stable sort of the input, so ids of equal z-index keep
/// their original order.
fn sort_ids_by_z(ids: &mut Vec<usize>, a: &WidgetArena)
    requires
        a.wf(),
        forall|k: int| 0 <= k < old(ids)@.len() ==> #[trigger] old(ids)@[k] < a.bodies@.len(),
    ensures
        final(ids)@.to_multiset() == old(ids)@.to_multiset(),
        final(ids)@.len() == old(ids)@.len(),
        forall|k: int| 0 <= k < final(ids)@.len() ==> #[trigger] final(ids)@[k] < a.bodies@.len(),
        sorted_ids(*a, final(ids)@),
        final(ids)@ == stable_sort_ids(*a, old(ids)@),
{
    proof {
        broadcast use group_to_multiset_ensures;

    }
    let n: usize = ids.len();
    if n < 2 {
        proof {
            lemma_stable_sort_trivial(*a, ids@);
        }
        return ;
    }
    let ghost orig = ids@;
    proof {
        lemma_stable_sort_trivial(*a, orig.subrange(0, 1));
        assert(orig.subrange(0, 1) =~= seq![orig[0]]);
        assert(ids@ =~= stable_sort_ids(*a, orig.subrange(0, 1)) + orig.subrange(1, n as int));
    }
    for i in 1..n
        invariant
            a.wf(),
            n == ids@.len(),
            orig == old(ids)@,
            n == orig.len(),
            ids@.to_multiset() == old(ids)@.to_multiset(),
            forall|k: int| 0 <= k < ids@.len() ==> #[trigger] ids@[k] < a.bodies@.len(),
            forall|p: int, q: int|
                0 <= p < q < i ==> z_of(*a, #[trigger] ids@[p] as int) <= z_of(
                    *a,
                    #[trigger] ids@[q] as int,
                ),
            ids@ == stable_sort_ids(*a, orig.subrange(0, i as int)) + orig.subrange(
                i as int,
                n as int,
            ),
    {
        let ghost sorted_prefix = stable_sort_ids(*a, orig.subrange(0, i as int));
        let ghost x = orig[i as int];
        proof {
            lemma_stable_sort_len(*a, orig.subrange(0, i as int));
            assert(ids@[i as int] == x);
        }
        let mut j: usize = i;
        loop
            invariant
                a.wf(),
                n == ids@.len(),
                j <= i < n,
                n == orig.len(),
                sorted_prefix == stable_sort_ids(*a, orig.subrange(0, i as int)),
                sorted_prefix.len() == i,
                x == orig[i as int],
                ids@.to_multiset() == old(ids)@.to_multiset(),
                forall|k: int| 0 <= k < ids@.len() ==> #[trigger] ids@[k] < a.bodies@.len(),
                forall|p: int, q: int|
                    0 <= p < q <= i && q != j ==> z_of(*a, #[trigger] ids@[p] as int) <= z_of(
                        *a,
                        #[trigger] ids@[q] as int,
                    ),
                ids@ == sorted_prefix.take(j as int) + seq![x] + sorted_prefix.skip(j as int)
                    + orig.subrange(i as int + 1, n as int),
                forall|k: int|
                    j <= k < i ==> z_of(*a, #[trigger] sorted_prefix[k] as int) > z_of(
                        *a,
                        x as int,
                    ),
            ensures
                j == 0 || z_of(*a, ids@[j - 1] as int) <= z_of(*a, ids@[j as int] as int),
                ids@ == sorted_prefix.take(j as int) + seq![x] + sorted_prefix.skip(j as int)
                    + orig.subrange(i as int + 1, n as int),
                forall|k: int|
                    j <= k < i ==> z_of(*a, #[trigger] sorted_prefix[k] as int) > z_of(
                        *a,
                        x as int,
                    ),
            decreases j,
        {
            if j == 0 {
                break ;
            }
            let prev: usize = ids[j - 1];
            let cur: usize = ids[j];
            proof {
                assert(prev == sorted_prefix[j - 1]);
                assert(cur == x);
            }
            if a.bodies[prev].z_index <= a.bodies[cur].z_index {
                break ;
            }
            proof {
                broadcast use group_to_multiset_ensures;

            }
            let ghost before = ids@;
            ids[j - 1] = cur;
            ids[j] = prev;
            proof {
                assert(ids@ =~= before.update(j - 1, cur).update(j as int, prev));
                assert(ids@.to_multiset() =~= before.to_multiset());
                assert(ids@ =~= sorted_prefix.take(j - 1) + seq![x] + sorted_prefix.skip(j - 1)
                    + orig.subrange(i as int + 1, n as int));
            }
            j = j - 1;
        }
        proof {
            assert(j > 0 ==> z_of(*a, sorted_prefix[j - 1] as int) <= z_of(*a, x as int));
            lemma_insert_by_z_at(*a, sorted_prefix, x, j as int);
            assert(orig.subrange(0, i as int + 1).drop_last() =~= orig.subrange(0, i as int));
            assert(stable_sort_ids(*a, orig.subrange(0, i as int + 1)) == insert_by_z(
                *a,
                sorted_prefix,
                x,
            ));
            assert(ids@ =~= stable_sort_ids(*a, orig.subrange(0, i as int + 1)) + orig.subrange(
                i as int + 1,
                n as int,
            ));
        }
    }
    proof {
        assert(orig.subrange(0, n as int) =~= orig);
        assert(orig.subrange(n as int, n as int) =~= Seq::<usize>::empty());
        assert(ids@ =~= stable_sort_ids(*a, orig));
    }
}

} // verus!
