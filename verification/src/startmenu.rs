//! The start menu: a decorated window framing a scrollable menu. The sizes
//! default to just enough rows and columns for the items when not given.

use vstd::prelude::*;
use crate::events::Event;
use crate::inner::{InnerWidget, Widget, WidgetArena, same_arena_except};
use crate::layout::{rect_centre, spec_centre, Rect};
use crate::menu::{ListStyle, Menu};
use crate::misc::{widest_text, ConstructionError, PoisonError};
use crate::window::Window;

verus! {

/// A framed menu: the decoration window and the menu inside it.
pub struct StartMenu {
    pub win: Window,
    pub menu: Menu,
}

impl Widget for StartMenu {
    open spec fn inner_id(&self) -> int {
        self.win.spec_inner().id as int
    }

    fn share_inner(&self) -> (w: InnerWidget) {
        self.win.share_inner()
    }
}

impl StartMenu {
    /// The window and the menu point into the arena at distinct records.
    pub open spec fn wf(&self, a: &WidgetArena) -> bool {
        &&& self.win.wf(a)
        &&& self.menu.wf(a)
        &&& self.win.spec_inner().id != self.menu.win.spec_inner().id
    }

    /// Build a framed menu at `(y, x)`. A missing height defaults to the item
    /// count plus two rows of decoration; a missing width to the widest item
    /// plus six columns of margin. A frame of no rows or fewer than four
    /// columns cannot hold the menu and cannot be built.
    pub fn new(
        a: &mut WidgetArena,
        y: u32,
        x: u32,
        height: Option<usize>,
        width: Option<usize>,
        items: &[&str],
    ) -> (r: Result<StartMenu, ConstructionError>)
        requires
            old(a).wf(),
            y < u32::MAX,
            x < u32::MAX,
            items@.len() + 2 <= u32::MAX,
            forall|k: int| 0 <= k < items@.len() ==> (#[trigger] items@[k])@.len() + 6 <= u32::MAX,
            height matches Some(h) ==> h <= u32::MAX,
            width matches Some(w) ==> w <= u32::MAX,
        ensures
            final(a).wf(),
            r is Ok <==> ({
                let frame_h = match height {
                    Some(hh) => hh as int,
                    None => items@.len() as int + 2,
                };
                let frame_w = match width {
                    Some(ww) => ww as int,
                    None => widest_text(items@, items@.len() as int) + 6,
                };
                frame_h >= 1 && frame_w >= 4
            }),
            r matches Ok(sm) ==> {
                &&& sm.wf(final(a))
                &&& sm.menu.items@.len() == items@.len()
                &&& (forall|k: int|
                    0 <= k < items@.len() ==> #[trigger] sm.menu.items@[k]@ == items@[k]@)
                &&& sm.menu.output is None
                &&& sm.menu.active_item == 0
                &&& sm.menu.scroll == 0
                &&& sm.win.body(final(a)).start_y == y
                &&& sm.win.body(final(a)).start_x == x
                &&& sm.menu.win.body(final(a)).start_y == y + 1
                &&& sm.menu.win.body(final(a)).start_x == x + 1
            },
            r is Err ==> *final(a) == *old(a),
    {
        let h: usize = match height {
            Some(h) => h,
            None => items.len() + 2,
        };
        let w: usize = match width {
            Some(w) => w,
            None => {
                let mut max: usize = 0;
                let n: usize = items.len();
                for i in 0..n
                    invariant
                        n == items@.len(),
                        forall|k: int|
                            0 <= k < items@.len() ==> (#[trigger] items@[k])@.len() + 6
                                <= u32::MAX,
                        max + 6 <= u32::MAX,
                        max == widest_text(items@, i as int),
                {
                    let s: &&str = &items[i];
                    let l: usize = s.unicode_len();
                    if l > max {
                        max = l;
                    }
                }
                max + 6
            },
        };
        if h < 1 || w < 4 {
            return Err(ConstructionError);
        }
        let win = Window::new(a, y, x, h, w);
        let menu = Menu::new(a, y + 1, x + 1, h - 1, w - 4, items, ListStyle::Dummy);
        let ghost a1 = *a;
        menu.share_inner().show(a);
        let ghost a2 = *a;
        win.share_inner().add_subwidget(a, menu.share_inner());
        let ghost a3 = *a;
        let sm = StartMenu { win, menu };
        sm.draw_decoration(a);
        proof {
            assert(menu.win.body(&a2).buffer == menu.win.body(&a1).buffer);
            assert(menu.win.body(&a3) == menu.win.body(&a2));
            assert(menu.win.body(a).buffer == menu.win.body(&a1).buffer);
            assert(menu.indices_ok(a));
            assert forall|r: int, c: int|
                0 <= r < menu.win.body(a).height && 0 <= c < menu.win.body(a).width
                    implies #[trigger] menu.win.body(a).grid()[r][c] == menu.spec_cell(
                a,
                r,
                c,
            ) by {
                assert(menu.win.body(a).grid() == menu.win.body(&a1).grid());
                assert(menu.display_ok(&a1));
                assert(menu.win.body(&a1).grid()[r][c] == menu.spec_cell(
                    &a1,
                    r,
                    c,
                ));
                assert(menu.spec_cell(a, r, c) == menu.spec_cell(&a1, r, c));
            }
            assert(menu.display_ok(a));
        }
        Ok(sm)
    }

    /// Draw the frame's top rule.
    fn draw_decoration(&self, a: &mut WidgetArena)
        requires
            old(a).wf(),
            self.win.wf(old(a)),
        ensures
            final(a).wf(),
            self.win.wf(final(a)),
            same_arena_except(*old(a), *final(a), self.win.spec_inner().id as int),
            ({
                let b1 = self.win.body(old(a));
                let b2 = self.win.body(final(a));
                b2 == (crate::inner::InnerWidgetBody { buffer: b2.buffer, ..b1 })
                    && crate::grid::grid_dims(b2.grid(), b1.height as int, b1.width as int)
            }),
    {
        proof {
            assert(old(a).body_ok(self.win.spec_inner().id as int));
        }
        let cw: usize = self.win.content_width(a);
        let mut i: usize = 0;
        while i < cw
            invariant
                a.wf(),
                self.win.wf(a),
                i <= cw <= u32::MAX,
                same_arena_except(*old(a), *a, self.win.spec_inner().id as int),
                ({
                    let b1 = self.win.body(old(a));
                    let b2 = self.win.body(a);
                    b2 == (crate::inner::InnerWidgetBody { buffer: b2.buffer, ..b1 })
                        && crate::grid::grid_dims(b2.grid(), b1.height as int, b1.width as int)
                }),
            decreases cw - i,
        {
            self.win.putc(a, 0, i as u32, '=');
            i = i + 1;
        }
    }

    /// Move the whole framed menu by the given deltas: the frame and the
    /// menu move together, preserving their relative layout exactly.
    pub fn adjust_pos(&self, a: &mut WidgetArena, dy: i32, dx: i32)
        requires
            old(a).wf(),
            self.wf(old(a)),
            0 <= self.win.body(old(a)).start_y + dy <= u32::MAX,
            0 <= self.win.body(old(a)).start_x + dx <= u32::MAX,
            0 <= self.menu.win.body(old(a)).start_y + dy <= u32::MAX,
            0 <= self.menu.win.body(old(a)).start_x + dx <= u32::MAX,
        ensures
            final(a).wf(),
            self.wf(final(a)),
            final(a).bodies@.len() == old(a).bodies@.len(),
            forall|k: int|
                0 <= k < old(a).bodies@.len() && k != self.win.spec_inner().id && k
                    != self.menu.win.spec_inner().id ==> final(a).bodies@[k] == old(a).bodies@[k],
            self.win.body(final(a)) == (crate::inner::InnerWidgetBody {
                start_y: (self.win.body(old(a)).start_y + dy) as u32,
                start_x: (self.win.body(old(a)).start_x + dx) as u32,
                ..self.win.body(old(a))
            }),
            self.menu.win.body(final(a)) == (crate::inner::InnerWidgetBody {
                start_y: (self.menu.win.body(old(a)).start_y + dy) as u32,
                start_x: (self.menu.win.body(old(a)).start_x + dx) as u32,
                ..self.menu.win.body(old(a))
            }),
    {
        let ghost a0 = *a;
        self.win.share_inner().adjust_pos(a, dy, dx);
        let ghost a1 = *a;
        self.menu.win.share_inner().adjust_pos(a, dy, dx);
        proof {
            assert(self.menu.indices_ok(a));
            assert forall|r: int, c: int|
                0 <= r < self.menu.win.body(a).height && 0 <= c < self.menu.win.body(a).width
                    implies #[trigger] self.menu.win.body(a).grid()[r][c] == self.menu.spec_cell(
                a,
                r,
                c,
            ) by {
                assert(self.menu.win.body(a).grid() == self.menu.win.body(&a0).grid());
                assert(self.menu.display_ok(&a0));
                assert(self.menu.win.body(&a0).grid()[r][c] == self.menu.spec_cell(&a0, r, c));
                assert(self.menu.spec_cell(a, r, c) == self.menu.spec_cell(&a0, r, c));
            }
            assert(self.menu.display_ok(a));
        }
    }

    /// Move the whole framed menu so that the frame's centre coincides with
    /// the centre of the anchor rectangle; the menu inside moves by the same
    /// delta, preserving the relative layout exactly.
    pub fn align_centres(&self, a: &mut WidgetArena, anchor: &Rect)
        requires
            old(a).wf(),
            self.wf(old(a)),
            anchor.y + anchor.height / 2 <= u32::MAX,
            anchor.x + anchor.width / 2 <= u32::MAX,
            self.win.body(old(a)).start_y + self.win.body(old(a)).height / 2 <= u32::MAX,
            self.win.body(old(a)).start_x + self.win.body(old(a)).width / 2 <= u32::MAX,
            ({
                let (dy, dx) = self.spec_centre_delta(old(a), anchor);
                &&& 0 <= self.win.body(old(a)).start_y + dy <= u32::MAX
                &&& 0 <= self.win.body(old(a)).start_x + dx <= u32::MAX
                &&& 0 <= self.menu.win.body(old(a)).start_y + dy <= u32::MAX
                &&& 0 <= self.menu.win.body(old(a)).start_x + dx <= u32::MAX
            }),
        ensures
            final(a).wf(),
            self.wf(final(a)),
            final(a).bodies@.len() == old(a).bodies@.len(),
            ({
                let (dy, dx) = self.spec_centre_delta(old(a), anchor);
                &&& self.win.body(final(a)) == (crate::inner::InnerWidgetBody {
                    start_y: (self.win.body(old(a)).start_y + dy) as u32,
                    start_x: (self.win.body(old(a)).start_x + dx) as u32,
                    ..self.win.body(old(a))
                })
                &&& self.menu.win.body(final(a)) == (crate::inner::InnerWidgetBody {
                    start_y: (self.menu.win.body(old(a)).start_y + dy) as u32,
                    start_x: (self.menu.win.body(old(a)).start_x + dx) as u32,
                    ..self.menu.win.body(old(a))
                })
            }),
    {
        let (acy, acx): (u32, u32) = rect_centre(anchor);
        let (scy, scx): (u32, u32) = self.win.share_inner().centre(a);
        let dy: i64 = acy as i64 - scy as i64;
        let dx: i64 = acx as i64 - scx as i64;
        let ghost a0 = *a;
        let frame: InnerWidget = self.win.share_inner();
        let fb = &a.bodies[frame.id];
        let fy: u32 = (fb.start_y as i64 + dy) as u32;
        let fx: u32 = (fb.start_x as i64 + dx) as u32;
        frame.change_pos(a, fy, fx);
        let inner: InnerWidget = self.menu.win.share_inner();
        let my: u32 = {
            let mb = &a.bodies[inner.id];
            (mb.start_y as i64 + dy) as u32
        };
        let mx: u32 = {
            let mb = &a.bodies[inner.id];
            (mb.start_x as i64 + dx) as u32
        };
        inner.change_pos(a, my, mx);
        proof {
            assert(self.menu.indices_ok(a));
            assert forall|r: int, c: int|
                0 <= r < self.menu.win.body(a).height && 0 <= c < self.menu.win.body(a).width
                    implies #[trigger] self.menu.win.body(a).grid()[r][c] == self.menu.spec_cell(
                a,
                r,
                c,
            ) by {
                assert(self.menu.win.body(a).grid() == self.menu.win.body(&a0).grid());
                assert(self.menu.display_ok(&a0));
                assert(self.menu.win.body(&a0).grid()[r][c] == self.menu.spec_cell(&a0, r, c));
                assert(self.menu.spec_cell(a, r, c) == self.menu.spec_cell(&a0, r, c));
            }
            assert(self.menu.display_ok(a));
        }
    }

    /// The delta by which `align_centres` moves every part: the anchor's
    /// centre less the frame's centre.
    pub open spec fn spec_centre_delta(&self, a: &WidgetArena, anchor: &Rect) -> (int, int) {
        let b = self.win.body(a);
        let (acy, acx) = spec_centre(
            anchor.y as int,
            anchor.x as int,
            anchor.height as int,
            anchor.width as int,
        );
        let (scy, scx) = spec_centre(
            b.start_y as int,
            b.start_x as int,
            b.height as int,
            b.width as int,
        );
        (acy - scy, acx - scx)
    }

    /// Hand one input event to the framed menu.
    pub fn process_event(&mut self, a: &mut WidgetArena, e: Event)
        requires
            old(a).wf(),
            old(self).wf(old(a)),
        ensures
            final(a).wf(),
            final(self).wf(final(a)),
            final(self).win == old(self).win,
            final(self).menu.win == old(self).menu.win,
            final(self).menu.items == old(self).menu.items,
            same_arena_except(*old(a), *final(a), old(self).menu.win.spec_inner().id as int),
            ({
                let m1 = old(self).menu;
                let m2 = final(self).menu;
                crate::menu::menu_transition(
                    m1.items@.len() as int,
                    m1.active_item as int,
                    m1.scroll as int,
                    m1.output,
                    m1.spec_visible(old(a)),
                    e,
                    m2.active_item as int,
                    m2.scroll as int,
                    m2.output,
                )
            }),
    {
        let m = &mut self.menu;
        m.process_event(a, e);
    }

    /// Look at the menu's committed choice; reading before a commit changes
    /// no state.
    pub fn try_get_output(&self) -> (r: Option<usize>)
        ensures
            r == self.menu.output,
    {
        self.menu.try_get_output()
    }

    /// Take the framed menu by value and return its committed choice, or a
    /// poison error around the first index when nothing was committed yet.
    pub fn get_output(self) -> (r: Result<usize, PoisonError<usize>>)
        ensures
            self.menu.output matches Some(o) ==> (r matches Ok(v) && v == o),
            self.menu.output is None ==> (r matches Err(p) && p.spec_inner() == 0usize),
    {
        self.menu.get_output()
    }
}

} // verus!
