//! A labelled input line: a one-row window holding a text label followed by
//! an input field that fills the rest of the row.

use vstd::prelude::*;
use crate::events::Event;
use crate::grid::grid_dims;
use crate::inner::{
    InnerWidget, InnerWidgetBody, Widget, WidgetArena, same_arena_except,
};
use crate::inputline::{committed_text, InputLine};
use crate::misc::{ConstructionError, PoisonError};
use crate::window::Window;

verus! {

/// A one-row prompt: the framing window, the label text, and the input field
/// sitting right of the label.
pub struct Prompt {
    pub win: Window,
    pub label: String,
    pub inputline: InputLine,
}

impl Widget for Prompt {
    open spec fn inner_id(&self) -> int {
        self.win.spec_inner().id as int
    }

    fn share_inner(&self) -> (w: InnerWidget) {
        self.win.share_inner()
    }
}

impl Prompt {
    /// The window and the field both point into the arena, at distinct
    /// records.
    pub open spec fn wf(&self, a: &WidgetArena) -> bool {
        &&& self.win.wf(a)
        &&& self.inputline.wf(a)
        &&& self.win.spec_inner().id != self.inputline.inner.id
    }

    /// Build a prompt of `len` cells at `(y, x)`: the label, then an input
    /// field of the remaining cells, adopted as a child of the window. A
    /// prompt no longer than its label cannot be built.
    pub fn new(a: &mut WidgetArena, label: &str, y: u32, x: u32, len: usize) -> (r: Result<
        Prompt,
        ConstructionError,
    >)
        requires
            old(a).wf(),
            len <= u32::MAX,
            x + len <= u32::MAX,
        ensures
            final(a).wf(),
            label@.len() < len <==> r is Ok,
            r matches Ok(p) ==> {
                &&& p.wf(final(a))
                &&& p.label@ == label@
                &&& p.inputline.length == len - label@.len()
                &&& !p.inputline.output_ready
                &&& p.inputline.output@ == Seq::<char>::empty()
                &&& p.inputline.active
                &&& p.win.body(final(a)).start_y == y
                &&& p.win.body(final(a)).start_x == x
                &&& p.win.body(final(a)).height == 1
                &&& p.win.body(final(a)).width == len
                &&& p.inputline.body(final(a)).start_y == y
                &&& p.inputline.body(final(a)).start_x == x + label@.len()
                &&& forall|k: int|
                    0 <= k < len ==> #[trigger] p.win.body(final(a)).grid()[0][k] == (if k
                        < label@.len() {
                        label@[k]
                    } else {
                        '\0'
                    })
            },
            r is Err ==> *final(a) == *old(a),
    {
        let label_len: usize = label.unicode_len();
        if label_len >= len {
            return Err(ConstructionError);
        }
        let input_len: usize = len - label_len;
        let input_x: u32 = x + label_len as u32;
        let win = Window::new(a, y, x, 1, len);
        let ghost a1 = *a;
        let inputline = InputLine::new(a, y, input_x, input_len);
        let ghost a2 = *a;
        inputline.share_inner().show(a);
        let ghost a3 = *a;
        win.share_inner().add_subwidget(a, inputline.share_inner());
        let label_string: String = label.to_owned();
        let prompt = Prompt { win, label: label_string, inputline };
        let ghost a4 = *a;
        prompt.redraw(a);
        proof {
            assert(win.body(&a2).buffer == win.body(&a1).buffer);
            assert(win.body(&a3).buffer == win.body(&a2).buffer);
            assert(win.body(&a4).buffer == win.body(&a3).buffer);
            assert(crate::grid::grid_filled(win.body(&a4).grid(), '\0'));
            assert(a4.body_ok(win.spec_inner().id as int));
            assert(win.body(&a4).width == len);
            assert(win.body(&a4).height == 1);
            assert(grid_dims(win.body(&a4).grid(), 1, len as int));
            assert forall|k: int| 0 <= k < len implies #[trigger] prompt.win.body(a).grid()[0][k]
                == (if k < label@.len() {
                label@[k]
            } else {
                '\0'
            }) by {
                assert(win.body(&a4).grid()[0][k] == '\0');
            }
        }
        Ok(prompt)
    }

    /// Whether the prompt's field currently has focus.
    pub fn is_active(&self) -> (r: bool)
        ensures
            r == self.inputline.active,
    {
        self.inputline.is_active()
    }

    /// Give the prompt's field focus.
    pub fn set_active(&mut self, a: &mut WidgetArena)
        requires
            old(a).wf(),
            old(self).wf(old(a)),
        ensures
            final(a).wf(),
            final(self).wf(final(a)),
            final(self).win == old(self).win,
            final(self).label == old(self).label,
            *final(self) == (Prompt { inputline: final(self).inputline, ..*old(self) }),
            final(self).inputline == (InputLine { active: true, ..old(self).inputline }),
            same_arena_except(*old(a), *final(a), old(self).inputline.inner.id as int),
    {
        let field = &mut self.inputline;
        field.set_active(a);
    }

    /// Take focus away from the prompt's field.
    pub fn set_inactive(&mut self, a: &mut WidgetArena)
        requires
            old(a).wf(),
            old(self).wf(old(a)),
        ensures
            final(a).wf(),
            final(self).wf(final(a)),
            final(self).win == old(self).win,
            final(self).label == old(self).label,
            *final(self) == (Prompt { inputline: final(self).inputline, ..*old(self) }),
            final(self).inputline == (InputLine { active: false, ..old(self).inputline }),
            same_arena_except(*old(a), *final(a), old(self).inputline.inner.id as int),
    {
        let field = &mut self.inputline;
        field.set_inactive(a);
    }

    /// Print the label into the window's first row.
    fn redraw(&self, a: &mut WidgetArena)
        requires
            old(a).wf(),
            self.win.wf(old(a)),
            !self.win.spec_has_border(),
            self.win.body(old(a)).height >= 1,
            self.win.body(old(a)).width >= 1,
        ensures
            final(a).wf(),
            self.win.wf(final(a)),
            same_arena_except(*old(a), *final(a), self.win.spec_inner().id as int),
            ({
                let b1 = self.win.body(old(a));
                let b2 = self.win.body(final(a));
                &&& b2 == (InnerWidgetBody { buffer: b2.buffer, ..b1 })
                &&& grid_dims(b2.grid(), b1.height as int, b1.width as int)
                &&& forall|k: int|
                    0 <= k < b1.width ==> #[trigger] b2.grid()[0][k] == (if k < self.label@.len()
                        && k < b1.width {
                        self.label@[k]
                    } else {
                        b1.grid()[0][k]
                    })
            }),
    {
        proof {
            assert(old(a).body_ok(self.win.spec_inner().id as int));
        }
        self.win.print(a, 0, 0, self.label.as_str());
    }

    /// Move the whole prompt by the given deltas: the window and the field
    /// move together, preserving their relative layout exactly.
    pub fn adjust_pos(&self, a: &mut WidgetArena, dy: i32, dx: i32)
        requires
            old(a).wf(),
            self.wf(old(a)),
            0 <= self.win.body(old(a)).start_y + dy <= u32::MAX,
            0 <= self.win.body(old(a)).start_x + dx <= u32::MAX,
            0 <= self.inputline.body(old(a)).start_y + dy <= u32::MAX,
            0 <= self.inputline.body(old(a)).start_x + dx <= u32::MAX,
        ensures
            final(a).wf(),
            self.wf(final(a)),
            final(a).bodies@.len() == old(a).bodies@.len(),
            forall|k: int|
                0 <= k < old(a).bodies@.len() && k != self.win.spec_inner().id && k
                    != self.inputline.inner.id ==> final(a).bodies@[k] == old(a).bodies@[k],
            self.win.body(final(a)) == (InnerWidgetBody {
                start_y: (self.win.body(old(a)).start_y + dy) as u32,
                start_x: (self.win.body(old(a)).start_x + dx) as u32,
                ..self.win.body(old(a))
            }),
            self.inputline.body(final(a)) == (InnerWidgetBody {
                start_y: (self.inputline.body(old(a)).start_y + dy) as u32,
                start_x: (self.inputline.body(old(a)).start_x + dx) as u32,
                ..self.inputline.body(old(a))
            }),
    {
        self.win.share_inner().adjust_pos(a, dy, dx);
        self.inputline.share_inner().adjust_pos(a, dy, dx);
    }

    /// Hand one input event to the prompt's field.
    pub fn process_event(&mut self, a: &mut WidgetArena, e: Event)
        requires
            old(a).wf(),
            old(self).wf(old(a)),
        ensures
            final(a).wf(),
            final(self).wf(final(a)),
            final(self).win == old(self).win,
            final(self).label == old(self).label,
            same_arena_except(*old(a), *final(a), old(self).inputline.inner.id as int),
            final(self).inputline.length == old(self).inputline.length,
            final(self).inputline.active == old(self).inputline.active,
            ({
                let t1 = old(self).inputline;
                let t2 = final(self).inputline;
                crate::inputline::event_transition(
                    t1.output@,
                    t1.output_ready,
                    t1.length as int,
                    e,
                    t2.output@,
                    t2.output_ready,
                )
            }),
    {
        let field = &mut self.inputline;
        field.process_event(a, e);
    }

    /// Look at the field's committed value: its visible window's content once
    /// Enter has committed it, and nothing before. Reading before the commit
    /// changes no state.
    pub fn try_get_output(&self) -> (r: Option<String>)
        ensures
            if self.inputline.output_ready {
                r matches Some(v) && v@ == committed_text(
                    self.inputline.output@,
                    self.inputline.length as int,
                )
            } else {
                r is None
            },
    {
        self.inputline.try_get_output()
    }

    /// Take the prompt by value and return the field's committed value, or
    /// the not-yet-committed text wrapped as a poison error.
    pub fn get_output(self) -> (r: Result<String, PoisonError<String>>)
        ensures
            if self.inputline.output_ready {
                r matches Ok(v) && v@ == committed_text(
                    self.inputline.output@,
                    self.inputline.length as int,
                )
            } else {
                r matches Err(p) && p.spec_inner()@ == self.inputline.output@
            },
    {
        self.inputline.get_output()
    }
}

} // verus!
