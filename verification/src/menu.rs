//! A scrollable selection menu: a list of items shown through a window of
//! fixed height, an active item, and a scroll offset that always keeps the
//! active item inside the visible window.

use vstd::prelude::*;
use vstd::string::StringExecFns;
use crate::events::{Event, Key};
use crate::grid::grid_dims;
use crate::inner::{
    InnerWidget, InnerWidgetBody, Widget, WidgetArena, same_arena_except, same_but_buffer,
};
use crate::misc::PoisonError;
use crate::window::Window;

verus! {

/// How the menu decorates its items; a single plain style for now.
pub enum ListStyle {
    Dummy,
}

/// How one input event changes a menu's indices and committed choice: Up and
/// Down move the active item one step and drag the scroll offset along just
/// enough; Enter and Space commit the active item; Escape commits the last
/// item as the cancel sentinel; everything else changes nothing. A degenerate
/// menu — no items, or a window with no rows — is inert: every event changes
/// nothing.
pub open spec fn menu_transition(
    n: int,
    act: int,
    scr: int,
    out: Option<usize>,
    visible: int,
    e: Event,
    act2: int,
    scr2: int,
    out2: Option<usize>,
) -> bool {
    if n == 0 || visible <= 0 {
        &&& act2 == act
        &&& scr2 == scr
        &&& out2 == out
    } else if e == (Event::Key(Key::Up)) {
        &&& act2 == (if act > 0 {
            act - 1
        } else {
            act
        })
        &&& scr2 == (if act > 0 && scr > act - 1 {
            scr - 1
        } else {
            scr
        })
        &&& out2 == out
    } else if e == (Event::Key(Key::Down)) {
        &&& act2 == (if act + 1 < n {
            act + 1
        } else {
            act
        })
        &&& scr2 == (if act + 1 < n && scr + visible < act + 2 {
            scr + 1
        } else {
            scr
        })
        &&& out2 == out
    } else if e == (Event::Key(Key::Char('\n'))) || e == (Event::Key(Key::Char(' '))) {
        &&& act2 == act
        &&& scr2 == scr
        &&& out2 matches Some(v) && v == act
    } else if e == (Event::Key(Key::Esc)) {
        &&& act2 == act
        &&& scr2 == scr
        &&& out2 matches Some(v) && v == n - 1
    } else {
        &&& act2 == act
        &&& scr2 == scr
        &&& out2 == out
    }
}

/// A scrollable menu over a borderless window: the items, the committed
/// choice, the active item and the scroll offset.
pub struct Menu {
    pub win: Window,
    pub items: Vec<String>,
    pub output: Option<usize>,
    pub active_item: usize,
    pub scroll: usize,
    pub style: ListStyle,
}

impl Widget for Menu {
    open spec fn inner_id(&self) -> int {
        self.win.spec_inner().id as int
    }

    fn share_inner(&self) -> (w: InnerWidget) {
        self.win.share_inner()
    }
}

impl Menu {
    /// The number of visible item rows.
    pub open spec fn spec_visible(&self, a: &WidgetArena) -> int {
        self.win.spec_content_height(a)
    }

    /// The menu's window points into the arena, and the indices satisfy the
    /// visibility law: with no items both indices are zero; otherwise the
    /// active item exists, the scroll offset never passes it, and whenever
    /// the window has at least one row the active item lies inside the
    /// window. A window of zero rows pins the scroll offset to the active
    /// item.
    pub open spec fn indices_ok(&self, a: &WidgetArena) -> bool {
        &&& self.win.wf(a)
        &&& if self.items@.len() == 0 {
            self.active_item == 0 && self.scroll == 0
        } else {
            &&& self.scroll <= self.active_item < self.items@.len()
            &&& self.spec_visible(a) >= 1 ==> (self.active_item - self.scroll)
                < self.spec_visible(a)
            &&& self.spec_visible(a) == 0 ==> self.scroll == self.active_item
        }
    }

    /// The index past the last visible item: the items from the scroll
    /// offset that fit the window.
    pub open spec fn spec_end(&self, a: &WidgetArena) -> int {
        let n = self.items@.len() as int;
        let h = self.win.body(a).height as int;
        if self.scroll >= n {
            self.scroll as int
        } else if n - self.scroll < h {
            n
        } else {
            self.scroll + h
        }
    }

    /// The character the menu's window shows at `(r, c)`: a marker in front
    /// of the active item when it is visible, the visible items from the
    /// scroll offset on, each two cells in and truncated at the window's
    /// right edge, and the transparent sentinel everywhere else.
    pub open spec fn spec_cell(&self, a: &WidgetArena, r: int, c: int) -> char {
        let end = self.spec_end(a);
        if c == 0 && self.scroll <= self.active_item < end && r == self.active_item
            - self.scroll {
            '*'
        } else if 0 <= r < end - self.scroll && c >= 2 && c - 2 < self.items@[self.scroll
            + r]@.len() {
            self.items@[self.scroll + r]@[c - 2]
        } else {
            '\0'
        }
    }

    /// Every cell of the menu's window shows exactly what the menu's state
    /// prescribes.
    pub open spec fn display_ok(&self, a: &WidgetArena) -> bool {
        forall|r: int, c: int|
            0 <= r < self.win.body(a).height && 0 <= c < self.win.body(a).width
                ==> #[trigger] self.win.body(a).grid()[r][c] == self.spec_cell(a, r, c)
    }

    /// The indices satisfy the visibility law, the window has no border, and
    /// the display matches the state.
    pub open spec fn wf(&self, a: &WidgetArena) -> bool {
        &&& self.indices_ok(a)
        &&& !self.win.spec_has_border()
        &&& self.display_ok(a)
    }

    /// Allocate a menu of the given geometry over the given items, with the
    /// first item active, no scroll, and no committed choice.
    pub fn new(
        a: &mut WidgetArena,
        y: u32,
        x: u32,
        height: usize,
        width: usize,
        items: &[&str],
        style: ListStyle,
    ) -> (menu: Menu)
        requires
            old(a).wf(),
            height <= u32::MAX,
            width <= u32::MAX,
        ensures
            final(a).wf(),
            menu.wf(final(a)),
            menu.win.spec_inner().id == old(a).bodies@.len(),
            final(a).bodies@.len() == old(a).bodies@.len() + 1,
            forall|k: int|
                0 <= k < old(a).bodies@.len() ==> final(a).bodies@[k] == old(a).bodies@[k],
            menu.items@.len() == items@.len(),
            forall|k: int| 0 <= k < items@.len() ==> #[trigger] menu.items@[k]@ == items@[k]@,
            menu.output is None,
            menu.active_item == 0,
            menu.scroll == 0,
            !menu.win.spec_has_border(),
            ({
                let b = menu.win.body(final(a));
                &&& b.start_y == y
                &&& b.start_x == x
                &&& b.height == height
                &&& b.width == width
                &&& b.hidden == true
                &&& b.subwidgets@ == Seq::<usize>::empty()
            }),
    {
        let win = Window::new(a, y, x, height, width);
        let mut new_items: Vec<String> = Vec::new();
        let item_count: usize = items.len();
        for i in 0..item_count
            invariant
                item_count == items@.len(),
                new_items@.len() == i,
                forall|k: int| 0 <= k < i ==> #[trigger] new_items@[k]@ == items@[k]@,
        {
            let s: &&str = &items[i];
            new_items.push(String::from_str(*s));
        }
        let menu = Menu { win, items: new_items, output: None, active_item: 0, scroll: 0, style };
        menu.redraw(a);
        menu
    }

    /// Repaint the visible window: the items from the scroll offset on, each
    /// two cells in, and a marker in front of the active item when it is
    /// visible.
    fn redraw(&self, a: &mut WidgetArena)
        requires
            old(a).wf(),
            self.indices_ok(old(a)),
            !self.win.spec_has_border(),
        ensures
            final(a).wf(),
            self.wf(final(a)),
            same_arena_except(*old(a), *final(a), self.win.spec_inner().id as int),
            same_but_buffer(self.win.body(old(a)), self.win.body(final(a))),
    {
        self.win.clear(a);
        proof {
            assert(a.body_ok(self.win.spec_inner().id as int));
        }
        let visible: usize = self.win.content_height(a);
        let n: usize = self.items.len();
        let start: usize = self.scroll;
        let end: usize = if start >= n {
            start
        } else if n - start < visible {
            n
        } else {
            start + visible
        };
        proof {
            assert(end == self.spec_end(a));
        }
        let ghost h = self.win.body(a).height as int;
        let ghost w = self.win.body(a).width as int;
        for i in 0..end - start
            invariant
                a.wf(),
                self.win.wf(a),
                !self.win.spec_has_border(),
                end == self.spec_end(a),
                end <= n || end == start,
                start == self.scroll,
                start <= end,
                end - start <= visible,
                visible == h,
                n == self.items@.len(),
                h == self.win.body(a).height,
                w == self.win.body(a).width,
                same_arena_except(*old(a), *a, self.win.spec_inner().id as int),
                same_but_buffer(self.win.body(old(a)), self.win.body(a)),
                end - start <= u32::MAX,
                forall|r: int, c: int|
                    0 <= r < h && 0 <= c < w ==> #[trigger] self.win.body(a).grid()[r][c] == (
                    if r < i && c >= 2 && c - 2 < self.items@[start + r]@.len() {
                        self.items@[start + r]@[c - 2]
                    } else {
                        '\0'
                    }),
        {
            let item: &String = &self.items[start + i];
            self.win.print(a, i as u32, 2, item.as_str());
            proof {
                let g = self.win.body(a).grid();
                let line = self.items@[start + i as int]@;
                let cw = w;
                let nn = if line.len() > cw - 2 {
                    cw - 2
                } else {
                    line.len() as int
                };
                assert forall|c: int| 0 <= c < w implies #[trigger] g[i as int][c] == (if c >= 2
                    && c - 2 < line.len() {
                    line[c - 2]
                } else {
                    '\0'
                }) by {
                    if 2 <= c < 2 + nn {
                        assert(g[i as int][c] == line.take(nn)[c - 2]);
                    }
                }
            }
        }
        if self.active_item >= start && self.active_item < end {
            self.win.putc(a, (self.active_item - self.scroll) as u32, 0, '*');
        }
        proof {
            assert(same_arena_except(*old(a), *a, self.win.spec_inner().id as int));
            assert forall|r: int, c: int|
                0 <= r < self.win.body(a).height && 0 <= c < self.win.body(a).width
                    implies #[trigger] self.win.body(a).grid()[r][c] == self.spec_cell(a, r, c) by {
            }
        }
    }

    /// The number of visible item rows.
    pub fn visible_count(&self, a: &WidgetArena) -> (r: usize)
        requires
            a.wf(),
            self.win.wf(a),
        ensures
            r == self.spec_visible(a),
    {
        self.win.content_height(a)
    }

    /// Consume one input event. Up and Down move the active item by one and
    /// adjust the scroll offset just enough to keep it visible; Enter and
    /// Space commit the active item; Escape commits the last item as the
    /// documented cancel shortcut, which callers must special-case. A
    /// degenerate menu — no items, or a window with no rows — ignores every
    /// event. The visibility law `scroll <= active < scroll + visible` is
    /// preserved by every event.
    pub fn process_event(&mut self, a: &mut WidgetArena, e: Event)
        requires
            old(a).wf(),
            old(self).wf(old(a)),
        ensures
            final(a).wf(),
            final(self).wf(final(a)),
            final(self).win == old(self).win,
            final(self).items == old(self).items,
            same_arena_except(*old(a), *final(a), old(self).win.spec_inner().id as int),
            same_but_buffer(old(self).win.body(old(a)), final(self).win.body(final(a))),
            menu_transition(
                old(self).items@.len() as int,
                old(self).active_item as int,
                old(self).scroll as int,
                old(self).output,
                old(self).spec_visible(old(a)),
                e,
                final(self).active_item as int,
                final(self).scroll as int,
                final(self).output,
            ),
            ({
                let is_menu_key = e == (Event::Key(Key::Up)) || e == (Event::Key(Key::Down)) || e
                    == (Event::Key(Key::Char('\n'))) || e == (Event::Key(Key::Char(' '))) || e
                    == (Event::Key(Key::Esc));
                !is_menu_key ==> *final(self) == *old(self)
            }),
    {
        proof {
            assert(old(a).body_ok(self.win.spec_inner().id as int));
        }
        let n: usize = self.items.len();
        let visible: usize = self.win.content_height(a);
        if n == 0 || visible == 0 {
            return ;
        }
        match e {
            Event::Key(Key::Up) => {
                if self.active_item > 0 {
                    self.active_item = self.active_item - 1;
                    if self.scroll > self.active_item {
                        self.scroll = self.scroll - 1;
                    }
                    self.redraw(a);
                }
            },
            Event::Key(Key::Down) => {
                if self.active_item < n - 1 {
                    self.active_item = self.active_item + 1;
                    if (self.scroll as u128 + visible as u128) < (self.active_item as u128 + 1) {
                        self.scroll = self.scroll + 1;
                    }
                    self.redraw(a);
                }
            },
            Event::Key(Key::Char(c)) => {
                if c == '\n' || c == ' ' {
                    self.output = Some(self.active_item);
                }
            },
            Event::Key(Key::Esc) => {
                self.output = Some(n - 1);
            },
            _ => {},
        }
    }

    /// Look at the committed choice: the index of the chosen item once one
    /// was committed, and nothing before. Reading before the commit changes
    /// no state, and the committed choice can be read again.
    pub fn try_get_output(&self) -> (r: Option<usize>)
        ensures
            r == self.output,
    {
        self.output
    }

    /// Take the menu by value and return its committed choice, or a poison
    /// error around the first index when nothing was committed yet.
    pub fn get_output(self) -> (r: Result<usize, PoisonError<usize>>)
        ensures
            self.output matches Some(o) ==> (r matches Ok(v) && v == o),
            self.output is None ==> (r matches Err(p) && p.spec_inner() == 0usize),
    {
        if let Some(o) = self.output {
            Ok(o)
        } else {
            Err(PoisonError::new(0))
        }
    }
}

} // verus!
