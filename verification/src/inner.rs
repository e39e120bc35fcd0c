//! The widget arena and the primitive widget record.
//!
//! Widget records live in an arena and are addressed by stable indices; a
//! handle (`InnerWidget`) is such an index. Shared access without aliasing
//! hazards follows structurally: every mutation goes through the one arena.
//! A container may only adopt a widget allocated after it, which keeps the
//! child graph acyclic.

use vstd::prelude::*;
use crate::grid::{blank_grid, grid_dims, grid_filled, grid_put, grid_set};
use crate::layout::{align, spec_align, spec_centre, rect_centre, Align, Rect};

verus! {

/// A text cursor inside a widget: a cell position and a visibility flag.
pub struct Cursor {
    pub y: u32,
    pub x: u32,
    pub hidden: bool,
}

/// One widget record: its own cell buffer, absolute origin, size, cursor,
/// paint priority, visibility, and the indices of its child widgets.
pub struct InnerWidgetBody {
    pub buffer: Vec<Vec<char>>,
    pub start_y: u32,
    pub start_x: u32,
    pub width: usize,
    pub height: usize,
    pub cursor: Cursor,
    pub z_index: u32,
    pub hidden: bool,
    pub subwidgets: Vec<usize>,
}

impl InnerWidgetBody {
    /// The buffer as a mathematical grid of characters.
    pub open spec fn grid(&self) -> Seq<Seq<char>> {
        self.buffer.deep_view()
    }

    /// The buffer has exactly `height` rows of `width` cells, and both sizes
    /// fit the `u32` coordinate space.
    pub open spec fn body_wf(&self) -> bool {
        &&& grid_dims(self.grid(), self.height as int, self.width as int)
        &&& self.width <= u32::MAX
        &&& self.height <= u32::MAX
    }
}

/// The arena that owns every widget record.
pub struct WidgetArena {
    pub bodies: Vec<InnerWidgetBody>,
}

/// A shared handle to a widget record: a stable index into the arena.
#[derive(Clone, Copy)]
pub struct InnerWidget {
    pub id: usize,
}

impl WidgetArena {
    /// Record `i` is well formed: its buffer matches its size and every child
    /// index points past `i` and into the arena.
    pub open spec fn body_ok(&self, i: int) -> bool {
        &&& self.bodies@[i].body_wf()
        &&& forall|j: int|
            0 <= j < self.bodies@[i].subwidgets@.len() ==> i < #[trigger] self.bodies@[i].subwidgets@[j]
                < self.bodies@.len()
    }

    /// Every record in the arena is well formed.
    pub open spec fn wf(&self) -> bool {
        forall|i: int| 0 <= i < self.bodies@.len() ==> #[trigger] self.body_ok(i)
    }

    /// An empty arena.
    pub fn new() -> (a: WidgetArena)
        ensures
            a.wf(),
            a.bodies@.len() == 0,
    {
        WidgetArena { bodies: Vec::new() }
    }
}

/// Arenas `a1` and `a2` hold the same records, except possibly record `id`.
pub open spec fn same_arena_except(a1: WidgetArena, a2: WidgetArena, id: int) -> bool {
    &&& a2.bodies@.len() == a1.bodies@.len()
    &&& forall|k: int|
        0 <= k < a1.bodies@.len() && k != id ==> a2.bodies@[k] == a1.bodies@[k]
}

/// Records `b1` and `b2` agree on every field but the buffer, whose dimensions
/// also agree.
pub open spec fn same_but_buffer(b1: InnerWidgetBody, b2: InnerWidgetBody) -> bool {
    &&& b2 == (InnerWidgetBody { buffer: b2.buffer, ..b1 })
    &&& grid_dims(b2.grid(), b1.height as int, b1.width as int)
}

/// Well-formedness is preserved when one record's buffer is rewritten without
/// changing its dimensions or its children.
pub proof fn lemma_wf_same_but_buffer(a1: WidgetArena, a2: WidgetArena, id: int)
    requires
        a1.wf(),
        0 <= id < a1.bodies@.len(),
        same_arena_except(a1, a2, id),
        same_but_buffer(a1.bodies@[id], a2.bodies@[id]),
    ensures
        a2.wf(),
{
    assert forall|i: int| 0 <= i < a2.bodies@.len() implies #[trigger] a2.bodies@.index(
        i,
    ) == a2.bodies@[i] && a2.body_ok(i) by {
        assert(a1.body_ok(i));
    }
}

/// Well-formedness is preserved when one record changes only its scalar fields
/// (origin, cursor, z-index, visibility), keeping buffer, size and children.
pub proof fn lemma_wf_same_scalars(a1: WidgetArena, a2: WidgetArena, id: int)
    requires
        a1.wf(),
        0 <= id < a1.bodies@.len(),
        same_arena_except(a1, a2, id),
        a2.bodies@[id].buffer == a1.bodies@[id].buffer,
        a2.bodies@[id].width == a1.bodies@[id].width,
        a2.bodies@[id].height == a1.bodies@[id].height,
        a2.bodies@[id].subwidgets == a1.bodies@[id].subwidgets,
    ensures
        a2.wf(),
{
    assert forall|i: int| 0 <= i < a2.bodies@.len() implies #[trigger] a2.body_ok(i) by {
        assert(a1.body_ok(i));
    }
}

impl InnerWidget {
    /// The handle points into the arena.
    pub open spec fn valid(&self, a: &WidgetArena) -> bool {
        self.id < a.bodies@.len()
    }

    /// The record this handle addresses.
    pub open spec fn body(&self, a: &WidgetArena) -> InnerWidgetBody {
        a.bodies@[self.id as int]
    }

    /// Allocate a fresh, hidden, transparent widget record and return its
    /// handle.
    pub fn new(
        a: &mut WidgetArena,
        start_y: u32,
        start_x: u32,
        height: usize,
        width: usize,
    ) -> (w: InnerWidget)
        requires
            old(a).wf(),
            height <= u32::MAX,
            width <= u32::MAX,
        ensures
            final(a).wf(),
            w.id == old(a).bodies@.len(),
            final(a).bodies@.len() == old(a).bodies@.len() + 1,
            forall|k: int|
                0 <= k < old(a).bodies@.len() ==> final(a).bodies@[k] == old(a).bodies@[k],
            ({
                let b = w.body(final(a));
                &&& b.body_wf()
                &&& b.start_y == start_y
                &&& b.start_x == start_x
                &&& b.width == width
                &&& b.height == height
                &&& grid_filled(b.grid(), '\0')
                &&& b.cursor == (Cursor { y: 0, x: 0, hidden: true })
                &&& b.z_index == 1u32
                &&& b.hidden == true
                &&& b.subwidgets@ == Seq::<usize>::empty()
            }),
    {
        let id: usize = a.bodies.len();
        let body = InnerWidgetBody {
            buffer: blank_grid(height, width, '\0'),
            start_y,
            start_x,
            height,
            width,
            cursor: Cursor { y: 0, x: 0, hidden: true },
            z_index: 1,
            hidden: true,
            subwidgets: Vec::new(),
        };
        a.bodies.push(body);
        proof {
            assert forall|i: int| 0 <= i < a.bodies@.len() implies #[trigger] a.body_ok(i) by {
                if i < old(a).bodies@.len() {
                    assert(old(a).body_ok(i));
                }
            }
        }
        InnerWidget { id }
    }

    /// Another handle to the same record.
    pub fn share(&self) -> (w: InnerWidget)
        ensures
            w == *self,
    {
        InnerWidget { id: self.id }
    }

    /// Adopt `sub` as a child of this widget. A widget may only adopt widgets
    /// allocated after it, which keeps the child graph acyclic.
    pub fn add_subwidget(&self, a: &mut WidgetArena, sub: InnerWidget)
        requires
            old(a).wf(),
            self.valid(old(a)),
            sub.valid(old(a)),
            self.id < sub.id,
        ensures
            final(a).wf(),
            same_arena_except(*old(a), *final(a), self.id as int),
            self.body(final(a)) == (InnerWidgetBody {
                subwidgets: self.body(final(a)).subwidgets,
                ..self.body(old(a))
            }),
            self.body(final(a)).subwidgets@ == self.body(old(a)).subwidgets@.push(sub.id),
    {
        let b = &mut a.bodies[self.id];
        b.subwidgets.push(sub.id);
        proof {
            assert forall|i: int| 0 <= i < a.bodies@.len() implies #[trigger] a.body_ok(i) by {
                assert(old(a).body_ok(i));
                if i == self.id {
                    let subs = a.bodies@[i].subwidgets@;
                    assert forall|j: int| 0 <= j < subs.len() implies i < #[trigger] subs[j]
                        < a.bodies@.len() by {
                        if j < subs.len() - 1 {
                            assert(old(a).bodies@[i].subwidgets@[j] == subs[j]);
                        }
                    }
                }
            }
        }
    }

    /// Write one character into this widget's buffer; a write outside the
    /// widget's bounds is silently dropped.
    pub fn putc(&self, a: &mut WidgetArena, y: u32, x: u32, c: char)
        requires
            old(a).wf(),
            self.valid(old(a)),
        ensures
            final(a).wf(),
            same_arena_except(*old(a), *final(a), self.id as int),
            same_but_buffer(self.body(old(a)), self.body(final(a))),
            ({
                let b1 = self.body(old(a));
                let b2 = self.body(final(a));
                if y < b1.height && x < b1.width {
                    b2.grid() == grid_set(b1.grid(), y as int, x as int, c)
                } else {
                    b2.grid() == b1.grid()
                }
            }),
    {
        proof {
            assert(old(a).body_ok(self.id as int));
        }
        let oob: bool = {
            let bb = &a.bodies[self.id];
            (x as usize) >= bb.width || (y as usize) >= bb.height
        };
        if oob {
            return ;
        }
        let b = &mut a.bodies[self.id];
        grid_put(&mut b.buffer, y as usize, x as usize, c);
        proof {
            lemma_wf_same_but_buffer(*old(a), *a, self.id as int);
        }
    }

    /// Print a line of text starting at `(y, x)`; the text never wraps and is
    /// truncated at the widget's right edge, counting by character. A start
    /// position outside the widget is silently dropped.
    pub fn print(&self, a: &mut WidgetArena, y: u32, x: u32, line: &str)
        requires
            old(a).wf(),
            self.valid(old(a)),
        ensures
            final(a).wf(),
            same_arena_except(*old(a), *final(a), self.id as int),
            same_but_buffer(self.body(old(a)), self.body(final(a))),
            ({
                let b1 = self.body(old(a));
                let b2 = self.body(final(a));
                if y < b1.height && x < b1.width {
                    printed_row(b1.grid(), b2.grid(), y as int, x as int, line@)
                } else {
                    b2.grid() == b1.grid()
                }
            }),
    {
        proof {
            assert(old(a).body_ok(self.id as int));
        }
        let (width, height): (usize, usize) = {
            let bb = &a.bodies[self.id];
            (bb.width, bb.height)
        };
        if (x as usize) >= width || (y as usize) >= height {
            return ;
        }
        let mut print_len: usize = line.unicode_len();
        if print_len > width - (x as usize) {
            print_len = width - (x as usize);
        }
        let b = &mut a.bodies[self.id];
        let yu: usize = y as usize;
        let xu: usize = x as usize;
        let ghost g1 = self.body(old(a)).grid();
        for i in 0..print_len
            invariant
                yu < height,
                xu + print_len <= width,
                print_len <= line@.len(),
                b.height == height,
                b.width == width,
                grid_dims(g1, height as int, width as int),
                grid_dims(b.grid(), height as int, width as int),
                g1 == self.body(old(a)).grid(),
                forall|r: int| 0 <= r < height && r != yu ==> #[trigger] b.grid()[r] == g1[r],
                forall|k: int|
                    0 <= k < width ==> #[trigger] b.grid()[yu as int][k] == (if xu <= k < xu + i {
                        line@[k - xu]
                    } else {
                        g1[yu as int][k]
                    }),
                *b == (InnerWidgetBody { buffer: b.buffer, ..self.body(old(a)) }),
        {
            let c: char = line.get_char(i);
            grid_put(&mut b.buffer, yu, xu + i, c);
        }
        proof {
            lemma_wf_same_but_buffer(*old(a), *a, self.id as int);
        }
    }

    /// Reset every cell of this widget's buffer to the transparent sentinel,
    /// letting content beneath show through on the next composite.
    pub fn clear(&self, a: &mut WidgetArena)
        requires
            old(a).wf(),
            self.valid(old(a)),
        ensures
            final(a).wf(),
            same_arena_except(*old(a), *final(a), self.id as int),
            same_but_buffer(self.body(old(a)), self.body(final(a))),
            grid_filled(self.body(final(a)).grid(), '\0'),
    {
        proof {
            assert(old(a).body_ok(self.id as int));
        }
        let b = &mut a.bodies[self.id];
        let height: usize = b.height;
        let width: usize = b.width;
        b.buffer = blank_grid(height, width, '\0');
        proof {
            lemma_wf_same_but_buffer(*old(a), *a, self.id as int);
        }
    }

    /// Make this widget's cursor rendered on composite.
    pub fn show_cursor(&self, a: &mut WidgetArena)
        requires
            old(a).wf(),
            self.valid(old(a)),
        ensures
            final(a).wf(),
            same_arena_except(*old(a), *final(a), self.id as int),
            self.body(final(a)) == (InnerWidgetBody {
                cursor: Cursor { hidden: false, ..self.body(old(a)).cursor },
                ..self.body(old(a))
            }),
    {
        let b = &mut a.bodies[self.id];
        b.cursor.hidden = false;
        proof {
            lemma_wf_same_scalars(*old(a), *a, self.id as int);
        }
    }

    /// Keep this widget's cursor from being rendered.
    pub fn hide_cursor(&self, a: &mut WidgetArena)
        requires
            old(a).wf(),
            self.valid(old(a)),
        ensures
            final(a).wf(),
            same_arena_except(*old(a), *final(a), self.id as int),
            self.body(final(a)) == (InnerWidgetBody {
                cursor: Cursor { hidden: true, ..self.body(old(a)).cursor },
                ..self.body(old(a))
            }),
    {
        let b = &mut a.bodies[self.id];
        b.cursor.hidden = true;
        proof {
            lemma_wf_same_scalars(*old(a), *a, self.id as int);
        }
    }

    /// Move this widget's cursor; a position outside the widget is silently
    /// dropped.
    pub fn move_cursor(&self, a: &mut WidgetArena, y: u32, x: u32)
        requires
            old(a).wf(),
            self.valid(old(a)),
        ensures
            final(a).wf(),
            same_arena_except(*old(a), *final(a), self.id as int),
            ({
                let b1 = self.body(old(a));
                if y < b1.height && x < b1.width {
                    self.body(final(a)) == (InnerWidgetBody {
                        cursor: Cursor { y, x, hidden: b1.cursor.hidden },
                        ..b1
                    })
                } else {
                    self.body(final(a)) == b1
                }
            }),
    {
        let oob: bool = {
            let bb = &a.bodies[self.id];
            (y as usize) >= bb.height || (x as usize) >= bb.width
        };
        if oob {
            return ;
        }
        let b = &mut a.bodies[self.id];
        b.cursor.y = y;
        b.cursor.x = x;
        proof {
            lemma_wf_same_scalars(*old(a), *a, self.id as int);
        }
    }

    /// Move this widget's cursor horizontally by `steps`; a move that would
    /// leave the widget is silently dropped.
    pub fn advance_cursor(&self, a: &mut WidgetArena, steps: i32)
        requires
            old(a).wf(),
            self.valid(old(a)),
            steps > i32::MIN,
        ensures
            final(a).wf(),
            same_arena_except(*old(a), *final(a), self.id as int),
            ({
                let b1 = self.body(old(a));
                let moved = if steps < 0 {
                    -steps <= b1.cursor.x
                } else {
                    b1.cursor.x + steps < b1.width
                };
                if moved {
                    self.body(final(a)) == (InnerWidgetBody {
                        cursor: Cursor {
                            x: (b1.cursor.x + steps) as u32,
                            ..b1.cursor
                        },
                        ..b1
                    })
                } else {
                    self.body(final(a)) == b1
                }
            }),
    {
        proof {
            assert(old(a).body_ok(self.id as int));
        }
        let (cx, width): (u32, usize) = {
            let bb = &a.bodies[self.id];
            (bb.cursor.x, bb.width)
        };
        if steps < 0 {
            let back: u32 = (-steps) as u32;
            if back > cx {
                return ;
            }
            let b = &mut a.bodies[self.id];
            b.cursor.x = cx - back;
        } else {
            if steps as u64 + cx as u64 >= width as u64 {
                return ;
            }
            let b = &mut a.bodies[self.id];
            b.cursor.x = cx + steps as u32;
        }
        proof {
            lemma_wf_same_scalars(*old(a), *a, self.id as int);
        }
    }

    /// This widget's full rectangle: origin and size.
    pub fn outer_rect(&self, a: &WidgetArena) -> (r: Rect)
        requires
            a.wf(),
            self.valid(a),
        ensures
            r.y == self.body(a).start_y,
            r.x == self.body(a).start_x,
            r.height == self.body(a).height,
            r.width == self.body(a).width,
    {
        let b = &a.bodies[self.id];
        Rect { y: b.start_y, x: b.start_x, height: b.height, width: b.width }
    }

    /// The centre cell of this widget.
    pub fn centre(&self, a: &WidgetArena) -> (c: (u32, u32))
        requires
            a.wf(),
            self.valid(a),
            self.body(a).start_y + self.body(a).height / 2 <= u32::MAX,
            self.body(a).start_x + self.body(a).width / 2 <= u32::MAX,
        ensures
            (c.0 as int, c.1 as int) == spec_centre(
                self.body(a).start_y as int,
                self.body(a).start_x as int,
                self.body(a).height as int,
                self.body(a).width as int,
            ),
    {
        let r = self.outer_rect(a);
        rect_centre(&r)
    }

    /// Move this widget so that its centre coincides with the centre of the
    /// anchor rectangle.
    pub fn align_centres(&self, a: &mut WidgetArena, anchor: &Rect)
        requires
            old(a).wf(),
            self.valid(old(a)),
            anchor.y + anchor.height / 2 <= u32::MAX,
            anchor.x + anchor.width / 2 <= u32::MAX,
            self.body(old(a)).start_y + self.body(old(a)).height / 2 <= u32::MAX,
            self.body(old(a)).start_x + self.body(old(a)).width / 2 <= u32::MAX,
            ({
                let b = self.body(old(a));
                let (acy, acx) = spec_centre(
                    anchor.y as int,
                    anchor.x as int,
                    anchor.height as int,
                    anchor.width as int,
                );
                let (scy, scx) = spec_centre(
                    b.start_y as int,
                    b.start_x as int,
                    b.height as int,
                    b.width as int,
                );
                &&& 0 <= b.start_y + (acy - scy) <= u32::MAX
                &&& 0 <= b.start_x + (acx - scx) <= u32::MAX
            }),
        ensures
            final(a).wf(),
            same_arena_except(*old(a), *final(a), self.id as int),
            ({
                let b = self.body(old(a));
                let (acy, acx) = spec_centre(
                    anchor.y as int,
                    anchor.x as int,
                    anchor.height as int,
                    anchor.width as int,
                );
                let (scy, scx) = spec_centre(
                    b.start_y as int,
                    b.start_x as int,
                    b.height as int,
                    b.width as int,
                );
                self.body(final(a)) == (InnerWidgetBody {
                    start_y: (b.start_y + (acy - scy)) as u32,
                    start_x: (b.start_x + (acx - scx)) as u32,
                    ..b
                })
            }),
    {
        proof {
            assert(old(a).body_ok(self.id as int));
        }
        let (acy, acx): (u32, u32) = rect_centre(anchor);
        let (scy, scx): (u32, u32) = self.centre(a);
        let b = &mut a.bodies[self.id];
        let ny: i64 = b.start_y as i64 + (acy as i64 - scy as i64);
        let nx: i64 = b.start_x as i64 + (acx as i64 - scx as i64);
        b.start_y = ny as u32;
        b.start_x = nx as u32;
        proof {
            lemma_wf_same_scalars(*old(a), *a, self.id as int);
        }
    }

    /// Move this widget so that it is aligned against the anchor rectangle
    /// under the given policy.
    pub fn align_to(&self, a: &mut WidgetArena, anchor: &Rect, al: Align)
        requires
            old(a).wf(),
            self.valid(old(a)),
            anchor.y + anchor.height <= u32::MAX,
            anchor.x + anchor.width <= u32::MAX,
        ensures
            final(a).wf(),
            same_arena_except(*old(a), *final(a), self.id as int),
            ({
                let b = self.body(old(a));
                let (ny, nx) = spec_align(
                    al,
                    b.height as int,
                    b.width as int,
                    anchor.y as int,
                    anchor.x as int,
                    anchor.height as int,
                    anchor.width as int,
                );
                self.body(final(a)) == (InnerWidgetBody {
                    start_y: ny as u32,
                    start_x: nx as u32,
                    ..b
                })
            }),
    {
        proof {
            assert(old(a).body_ok(self.id as int));
        }
        let (sheight, swidth): (usize, usize) = {
            let bb = &a.bodies[self.id];
            (bb.height, bb.width)
        };
        let (ny, nx): (u32, u32) = align(
            al,
            sheight,
            swidth,
            anchor.y,
            anchor.x,
            anchor.height,
            anchor.width,
        );
        let b = &mut a.bodies[self.id];
        b.start_y = ny;
        b.start_x = nx;
        proof {
            lemma_wf_same_scalars(*old(a), *a, self.id as int);
        }
    }

    /// Move this widget by the given deltas.
    pub fn adjust_pos(&self, a: &mut WidgetArena, dy: i32, dx: i32)
        requires
            old(a).wf(),
            self.valid(old(a)),
            0 <= self.body(old(a)).start_y + dy <= u32::MAX,
            0 <= self.body(old(a)).start_x + dx <= u32::MAX,
        ensures
            final(a).wf(),
            same_arena_except(*old(a), *final(a), self.id as int),
            self.body(final(a)) == (InnerWidgetBody {
                start_y: (self.body(old(a)).start_y + dy) as u32,
                start_x: (self.body(old(a)).start_x + dx) as u32,
                ..self.body(old(a))
            }),
    {
        let b = &mut a.bodies[self.id];
        let ny: i64 = b.start_y as i64 + dy as i64;
        let nx: i64 = b.start_x as i64 + dx as i64;
        b.start_y = ny as u32;
        b.start_x = nx as u32;
        proof {
            lemma_wf_same_scalars(*old(a), *a, self.id as int);
        }
    }

    /// Move this widget to the given origin.
    pub fn change_pos(&self, a: &mut WidgetArena, y: u32, x: u32)
        requires
            old(a).wf(),
            self.valid(old(a)),
        ensures
            final(a).wf(),
            same_arena_except(*old(a), *final(a), self.id as int),
            self.body(final(a)) == (InnerWidgetBody {
                start_y: y,
                start_x: x,
                ..self.body(old(a))
            }),
    {
        let b = &mut a.bodies[self.id];
        b.start_y = y;
        b.start_x = x;
        proof {
            lemma_wf_same_scalars(*old(a), *a, self.id as int);
        }
    }

    /// Set this widget's paint priority; higher paints over lower.
    pub fn set_zindex(&self, a: &mut WidgetArena, index: u32)
        requires
            old(a).wf(),
            self.valid(old(a)),
        ensures
            final(a).wf(),
            same_arena_except(*old(a), *final(a), self.id as int),
            self.body(final(a)) == (InnerWidgetBody { z_index: index, ..self.body(old(a)) }),
    {
        let b = &mut a.bodies[self.id];
        b.z_index = index;
        proof {
            lemma_wf_same_scalars(*old(a), *a, self.id as int);
        }
    }

    /// Skip this widget (and its children) on composite.
    pub fn conceal(&self, a: &mut WidgetArena)
        requires
            old(a).wf(),
            self.valid(old(a)),
        ensures
            final(a).wf(),
            same_arena_except(*old(a), *final(a), self.id as int),
            self.body(final(a)) == (InnerWidgetBody { hidden: true, ..self.body(old(a)) }),
    {
        let b = &mut a.bodies[self.id];
        b.hidden = true;
        proof {
            lemma_wf_same_scalars(*old(a), *a, self.id as int);
        }
    }

    /// Paint this widget on composite.
    pub fn show(&self, a: &mut WidgetArena)
        requires
            old(a).wf(),
            self.valid(old(a)),
        ensures
            final(a).wf(),
            same_arena_except(*old(a), *final(a), self.id as int),
            self.body(final(a)) == (InnerWidgetBody { hidden: false, ..self.body(old(a)) }),
    {
        let b = &mut a.bodies[self.id];
        b.hidden = false;
        proof {
            lemma_wf_same_scalars(*old(a), *a, self.id as int);
        }
    }
}

/// Grid `g2` is grid `g1` with the characters of `s` written into row `y`
/// from column `x` on, truncated at the row's right edge.
pub open spec fn printed_row(
    g1: Seq<Seq<char>>,
    g2: Seq<Seq<char>>,
    y: int,
    x: int,
    s: Seq<char>,
) -> bool {
    let w = g1[y].len() as int;
    let n = if x + s.len() > w {
        w - x
    } else {
        s.len() as int
    };
    &&& g2.len() == g1.len()
    &&& forall|r: int| 0 <= r < g1.len() && r != y ==> #[trigger] g2[r] == g1[r]
    &&& g2[y].len() == g1[y].len()
    &&& forall|k: int|
        0 <= k < w ==> #[trigger] g2[y][k] == (if x <= k < x + n {
            s[k - x]
        } else {
            g1[y][k]
        })
}

/// Widget kinds that expose their underlying record in the arena.
pub trait Widget {
    /// The arena index of this widget's primary record.
    spec fn inner_id(&self) -> int;

    /// A handle to this widget's primary record.
    fn share_inner(&self) -> (w: InnerWidget)
        ensures
            w.id as int == self.inner_id(),
    ;
}

impl Widget for InnerWidget {
    open spec fn inner_id(&self) -> int {
        self.id as int
    }

    fn share_inner(&self) -> (w: InnerWidget) {
        InnerWidget { id: self.id }
    }
}

} // verus!
