//! One-cell-thick bar widgets: a horizontal rule and a vertical rule, each
//! drawn from a three-glyph theme of first corner, bar, and last corner.

use vstd::prelude::*;
use crate::grid::{grid_dims, grid_put};
use crate::inner::{
    InnerWidget, InnerWidgetBody, Widget, WidgetArena, lemma_wf_same_but_buffer,
    same_arena_except, same_but_buffer,
};

verus! {

/// The glyph a themed bar of `n` cells shows at cell `k`: the first corner,
/// then the bar glyph, then the last corner, which wins on a one-cell bar.
pub open spec fn bar_cell(style: (char, char, char), n: int, k: int) -> char {
    if k == n - 1 {
        style.2
    } else if k == 0 {
        style.0
    } else {
        style.1
    }
}

/// A one-row horizontal bar.
pub struct HorizBar {
    pub inner: InnerWidget,
    pub style: (char, char, char),
}

impl Widget for HorizBar {
    open spec fn inner_id(&self) -> int {
        self.inner.id as int
    }

    fn share_inner(&self) -> (w: InnerWidget) {
        self.inner.share()
    }
}

impl HorizBar {
    /// The bar's record in the arena.
    pub open spec fn body(&self, a: &WidgetArena) -> InnerWidgetBody {
        self.inner.body(a)
    }

    /// The bar points at a one-row record.
    pub open spec fn wf(&self, a: &WidgetArena) -> bool {
        &&& self.inner.valid(a)
        &&& self.body(a).height == 1
    }

    /// Allocate a one-row bar of `width` cells at `(start_y, start_x)` with
    /// no theme drawn yet.
    pub fn new(a: &mut WidgetArena, start_y: u32, start_x: u32, width: usize) -> (bar: HorizBar)
        requires
            old(a).wf(),
            width <= u32::MAX,
        ensures
            final(a).wf(),
            bar.wf(final(a)),
            bar.inner.id == old(a).bodies@.len(),
            final(a).bodies@.len() == old(a).bodies@.len() + 1,
            forall|k: int|
                0 <= k < old(a).bodies@.len() ==> final(a).bodies@[k] == old(a).bodies@[k],
            bar.style == (('\0', '\0', '\0')),
            ({
                let b = bar.body(final(a));
                &&& b.start_y == start_y
                &&& b.start_x == start_x
                &&& b.height == 1
                &&& b.width == width
                &&& b.hidden == true
                &&& b.subwidgets@ == Seq::<usize>::empty()
            }),
    {
        let inner = InnerWidget::new(a, start_y, start_x, 1, width);
        HorizBar { inner, style: ('\0', '\0', '\0') }
    }

    /// Set the three-glyph theme (left corner, bar, right corner) and redraw
    /// the bar with it.
    pub fn set_style(&mut self, a: &mut WidgetArena, style: (char, char, char))
        requires
            old(a).wf(),
            old(self).wf(old(a)),
        ensures
            final(a).wf(),
            final(self).wf(final(a)),
            final(self).inner == old(self).inner,
            final(self).style == style,
            same_arena_except(*old(a), *final(a), old(self).inner.id as int),
            same_but_buffer(old(self).body(old(a)), final(self).body(final(a))),
            ({
                let b1 = old(self).body(old(a));
                let b2 = final(self).body(final(a));
                forall|k: int|
                    0 <= k < b1.width ==> #[trigger] b2.grid()[0][k] == bar_cell(
                        style,
                        b1.width as int,
                        k,
                    )
            }),
    {
        proof {
            assert(old(a).body_ok(self.inner.id as int));
        }
        self.style = style;
        let width: usize = {
            let bb = &a.bodies[self.inner.id];
            bb.width
        };
        if width == 0 {
            return ;
        }
        let b = &mut a.bodies[self.inner.id];
        let ghost g1 = b.grid();
        grid_put(&mut b.buffer, 0, 0, style.0);
        let last: usize = width - 1;
        grid_put(&mut b.buffer, 0, last, style.2);
        if last == 0 {
            proof {
                lemma_wf_same_but_buffer(*old(a), *a, self.inner.id as int);
            }
            return ;
        }
        for x in 1..last
            invariant
                grid_dims(b.grid(), 1, width as int),
                last == width - 1,
                width >= 1,
                *b == (InnerWidgetBody { buffer: b.buffer, ..old(self).body(old(a)) }),
                forall|k: int|
                    0 <= k < width ==> #[trigger] b.grid()[0][k] == (if k == last {
                        style.2
                    } else if 1 <= k < x {
                        style.1
                    } else if k == 0 {
                        style.0
                    } else {
                        g1[0][k]
                    }),
        {
            grid_put(&mut b.buffer, 0, x, style.1);
        }
        proof {
            lemma_wf_same_but_buffer(*old(a), *a, self.inner.id as int);
        }
    }
}

/// A one-column vertical bar.
pub struct VertBar {
    pub inner: InnerWidget,
    pub style: (char, char, char),
}

impl Widget for VertBar {
    open spec fn inner_id(&self) -> int {
        self.inner.id as int
    }

    fn share_inner(&self) -> (w: InnerWidget) {
        self.inner.share()
    }
}

impl VertBar {
    /// The bar's record in the arena.
    pub open spec fn body(&self, a: &WidgetArena) -> InnerWidgetBody {
        self.inner.body(a)
    }

    /// The bar points at a one-column record.
    pub open spec fn wf(&self, a: &WidgetArena) -> bool {
        &&& self.inner.valid(a)
        &&& self.body(a).width == 1
    }

    /// Allocate a one-column bar of `height` cells at `(start_y, start_x)`
    /// with no theme drawn yet.
    pub fn new(a: &mut WidgetArena, start_y: u32, start_x: u32, height: usize) -> (bar: VertBar)
        requires
            old(a).wf(),
            height <= u32::MAX,
        ensures
            final(a).wf(),
            bar.wf(final(a)),
            bar.inner.id == old(a).bodies@.len(),
            final(a).bodies@.len() == old(a).bodies@.len() + 1,
            forall|k: int|
                0 <= k < old(a).bodies@.len() ==> final(a).bodies@[k] == old(a).bodies@[k],
            bar.style == (('\0', '\0', '\0')),
            ({
                let b = bar.body(final(a));
                &&& b.start_y == start_y
                &&& b.start_x == start_x
                &&& b.height == height
                &&& b.width == 1
                &&& b.hidden == true
                &&& b.subwidgets@ == Seq::<usize>::empty()
            }),
    {
        let inner = InnerWidget::new(a, start_y, start_x, height, 1);
        VertBar { inner, style: ('\0', '\0', '\0') }
    }

    /// Set the three-glyph theme (top corner, bar, bottom corner) and redraw
    /// the bar with it.
    pub fn set_style(&mut self, a: &mut WidgetArena, style: (char, char, char))
        requires
            old(a).wf(),
            old(self).wf(old(a)),
        ensures
            final(a).wf(),
            final(self).wf(final(a)),
            final(self).inner == old(self).inner,
            final(self).style == style,
            same_arena_except(*old(a), *final(a), old(self).inner.id as int),
            same_but_buffer(old(self).body(old(a)), final(self).body(final(a))),
            ({
                let b1 = old(self).body(old(a));
                let b2 = final(self).body(final(a));
                forall|k: int|
                    0 <= k < b1.height ==> #[trigger] b2.grid()[k][0] == bar_cell(
                        style,
                        b1.height as int,
                        k,
                    )
            }),
    {
        proof {
            assert(old(a).body_ok(self.inner.id as int));
        }
        self.style = style;
        let height: usize = {
            let bb = &a.bodies[self.inner.id];
            bb.height
        };
        if height == 0 {
            return ;
        }
        let b = &mut a.bodies[self.inner.id];
        let ghost g1 = b.grid();
        grid_put(&mut b.buffer, 0, 0, style.0);
        let last: usize = height - 1;
        grid_put(&mut b.buffer, last, 0, style.2);
        if last == 0 {
            proof {
                lemma_wf_same_but_buffer(*old(a), *a, self.inner.id as int);
            }
            return ;
        }
        for y in 1..last
            invariant
                grid_dims(b.grid(), height as int, 1),
                last == height - 1,
                height >= 1,
                *b == (InnerWidgetBody { buffer: b.buffer, ..old(self).body(old(a)) }),
                forall|k: int|
                    0 <= k < height ==> #[trigger] b.grid()[k][0] == (if k == last {
                        style.2
                    } else if 1 <= k < y {
                        style.1
                    } else if k == 0 {
                        style.0
                    } else {
                        g1[k][0]
                    }),
        {
            grid_put(&mut b.buffer, y, 0, style.1);
        }
        proof {
            lemma_wf_same_but_buffer(*old(a), *a, self.inner.id as int);
        }
    }
}

} // verus!
