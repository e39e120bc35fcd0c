//! A standalone rectangular widget that owns its cell buffer directly: a
//! position, a size, a paint priority and an optional border flag, without
//! arena registration. Comparisons between widgets order them by z-index,
//! which lets a collection of widgets be sorted into paint order.

use vstd::prelude::*;
use crate::grid::{blank_grid, grid_dims, grid_filled, grid_put, grid_set};
use crate::inner::printed_row;
use crate::window::BorderStyle;

verus! {

/// A self-contained widget: its paint priority, geometry, border flag and
/// cell buffer.
// Field order matters: the derived comparisons order widgets by z-index
// first, so sorting a collection of widgets sorts it into paint order.
#[derive(PartialEq, Eq, PartialOrd, Ord)]
pub struct Widget {
    pub z_index: u32,
    pub start_y: u32,
    pub start_x: u32,
    pub width: usize,
    pub height: usize,
    pub has_border: bool,
    pub border_style: BorderStyle,
    pub buffer: Vec<Vec<char>>,
}

impl Widget {
    /// The buffer as a mathematical grid of characters.
    pub open spec fn grid(&self) -> Seq<Seq<char>> {
        self.buffer.deep_view()
    }

    /// The buffer matches the widget's size, which fits the coordinate
    /// space, and a border presupposes at least two cells on both axes.
    pub open spec fn wf(&self) -> bool {
        &&& grid_dims(self.grid(), self.height as int, self.width as int)
        &&& self.width <= u32::MAX
        &&& self.height <= u32::MAX
        &&& self.has_border ==> self.width >= 2 && self.height >= 2
    }

    /// The number of content columns: the full width, less the border.
    pub open spec fn spec_content_width(&self) -> int {
        if self.has_border {
            self.width - 2
        } else {
            self.width as int
        }
    }

    /// The number of content rows: the full height, less the border.
    pub open spec fn spec_content_height(&self) -> int {
        if self.has_border {
            self.height - 2
        } else {
            self.height as int
        }
    }

    /// The offset of the content area inside the widget.
    pub open spec fn spec_off(&self) -> int {
        if self.has_border {
            1
        } else {
            0
        }
    }

    /// Allocate a borderless widget of the given geometry with a fully
    /// transparent buffer and default paint priority.
    pub fn new(start_y: u32, start_x: u32, height: usize, width: usize) -> (w: Widget)
        requires
            height <= u32::MAX,
            width <= u32::MAX,
        ensures
            w.wf(),
            w.start_y == start_y,
            w.start_x == start_x,
            w.height == height,
            w.width == width,
            w.z_index == 1u32,
            !w.has_border,
            grid_filled(w.grid(), '\0'),
    {
        Widget {
            z_index: 1,
            start_y,
            start_x,
            width,
            height,
            has_border: false,
            border_style: (' ', ' ', ' ', ' ', ' ', ' '),
            buffer: blank_grid(height, width, '\0'),
        }
    }

    /// The number of content columns.
    pub fn content_width(&self) -> (w: usize)
        requires
            self.wf(),
        ensures
            w == self.spec_content_width(),
    {
        if self.has_border {
            self.width - 2
        } else {
            self.width
        }
    }

    /// The number of content rows.
    pub fn content_height(&self) -> (h: usize)
        requires
            self.wf(),
        ensures
            h == self.spec_content_height(),
    {
        if self.has_border {
            self.height - 2
        } else {
            self.height
        }
    }

    /// The absolute origin of the content area.
    pub fn content_yx(&self) -> (r: (u32, u32))
        requires
            self.wf(),
            self.start_y + self.spec_off() <= u32::MAX,
            self.start_x + self.spec_off() <= u32::MAX,
        ensures
            r.0 == self.start_y + self.spec_off(),
            r.1 == self.start_x + self.spec_off(),
    {
        if self.has_border {
            (self.start_y + 1, self.start_x + 1)
        } else {
            (self.start_y, self.start_x)
        }
    }

    /// Set the border glyphs. This widget does not render its own border;
    /// the glyphs are carried for whoever composites it.
    pub fn set_border(&mut self, border: BorderStyle)
        ensures
            *final(self) == (Widget { border_style: border, ..*old(self) }),
    {
        self.border_style = border;
    }

    /// Toggle the border flag, shrinking or growing the content area by one
    /// cell on each side. A widget smaller than two cells on either axis
    /// cannot take a border and is left unchanged.
    pub fn toggle_border(&mut self) -> (r: Result<(), ()>)
        requires
            old(self).wf(),
        ensures
            final(self).wf(),
            if old(self).width < 2 || old(self).height < 2 {
                r is Err && *final(self) == *old(self)
            } else {
                r is Ok && *final(self) == (Widget {
                    has_border: !old(self).has_border,
                    ..*old(self)
                })
            },
    {
        if self.width < 2 || self.height < 2 {
            return Err(());
        }
        self.has_border = !self.has_border;
        Ok(())
    }

    /// Set the widget's paint priority; higher paints over lower.
    pub fn set_zindex(&mut self, z_index: u32)
        ensures
            *final(self) == (Widget { z_index, ..*old(self) }),
    {
        self.z_index = z_index;
    }

    /// Write one character at content position `(y, x)`; a write outside the
    /// content area is silently dropped.
    pub fn putc(&mut self, y: u32, x: u32, c: char)
        requires
            old(self).wf(),
        ensures
            final(self).wf(),
            *final(self) == (Widget { buffer: final(self).buffer, ..*old(self) }),
            if y < old(self).spec_content_height() && x < old(self).spec_content_width() {
                final(self).grid() == grid_set(
                    old(self).grid(),
                    y + old(self).spec_off(),
                    x + old(self).spec_off(),
                    c,
                )
            } else {
                final(self).grid() == old(self).grid()
            },
    {
        let ch: usize = self.content_height();
        let cw: usize = self.content_width();
        if (y as usize) >= ch || (x as usize) >= cw {
            return ;
        }
        let off: usize = if self.has_border {
            1
        } else {
            0
        };
        grid_put(&mut self.buffer, y as usize + off, x as usize + off, c);
    }

    /// Print a line starting at content position `(y, x)`; the text is
    /// truncated at the content area's right edge, counting by character,
    /// and a start position outside the content area is silently dropped.
    pub fn print(&mut self, y: u32, x: u32, line: &str)
        requires
            old(self).wf(),
        ensures
            final(self).wf(),
            *final(self) == (Widget { buffer: final(self).buffer, ..*old(self) }),
            ({
                let cw = old(self).spec_content_width();
                let n = if line@.len() > cw - x {
                    cw - x
                } else {
                    line@.len() as int
                };
                if y < old(self).spec_content_height() && x < cw {
                    printed_row(
                        old(self).grid(),
                        final(self).grid(),
                        y + old(self).spec_off(),
                        x + old(self).spec_off(),
                        line@.take(n),
                    )
                } else {
                    final(self).grid() == old(self).grid()
                }
            }),
    {
        let ch: usize = self.content_height();
        let cw: usize = self.content_width();
        if (y as usize) >= ch || (x as usize) >= cw {
            return ;
        }
        let mut print_len: usize = line.unicode_len();
        if print_len > cw - (x as usize) {
            print_len = cw - (x as usize);
        }
        let off: usize = if self.has_border {
            1
        } else {
            0
        };
        let yu: usize = y as usize + off;
        let xu: usize = x as usize + off;
        let ghost g1 = self.grid();
        for i in 0..print_len
            invariant
                yu < self.height,
                xu + print_len <= self.width,
                print_len <= line@.len(),
                self.wf(),
                g1 == old(self).grid(),
                *self == (Widget { buffer: self.buffer, ..*old(self) }),
                grid_dims(g1, self.height as int, self.width as int),
                forall|r: int| 0 <= r < self.height && r != yu ==> #[trigger] self.grid()[r]
                    == g1[r],
                forall|k: int|
                    0 <= k < self.width ==> #[trigger] self.grid()[yu as int][k] == (if xu <= k < xu
                        + i {
                        line@[k - xu]
                    } else {
                        g1[yu as int][k]
                    }),
        {
            let c: char = line.get_char(i);
            grid_put(&mut self.buffer, yu, xu + i, c);
        }
    }

    /// Reset every cell of the buffer to the transparent sentinel.
    pub fn clear(&mut self)
        requires
            old(self).wf(),
        ensures
            final(self).wf(),
            *final(self) == (Widget { buffer: final(self).buffer, ..*old(self) }),
            grid_filled(final(self).grid(), '\0'),
    {
        let height: usize = self.height;
        let width: usize = self.width;
        self.buffer = blank_grid(height, width, '\0');
    }
}

} // verus!
