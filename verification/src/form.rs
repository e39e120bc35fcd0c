//! A multi-field form: a column of labelled input fields with exactly one
//! focused field at a time. Tab or Down moves focus to the next field with no
//! wraparound; Shift-Tab or Up moves it back; Enter commits the whole form,
//! collecting every field's current text into a label-to-value mapping,
//! whichever field had focus.

use vstd::prelude::*;
use vstd::string::StringExecFns;
use crate::events::{Event, Key};
use crate::inner::{InnerWidget, Widget, WidgetArena, same_arena_except};
use crate::inputline::{event_transition, InputLine};
use crate::layout::{rect_centre, spec_centre, Rect};
use crate::misc::{widest_text, ConstructionError, PoisonError};
use crate::window::Window;

verus! {

/// The character-creation form: the framing window, the label, spacer and
/// input columns, the labels, the input fields, the focused field's index,
/// and the commit flag.
pub struct CharacterCreationForm {
    pub win: Window,
    pub label_win: Window,
    pub spacer_win: Window,
    pub input_win: Window,
    pub labels: Vec<String>,
    pub inputs: Vec<InputLine>,
    pub selected: usize,
    pub output_ready: bool,
}

impl Widget for CharacterCreationForm {
    open spec fn inner_id(&self) -> int {
        self.win.spec_inner().id as int
    }

    fn share_inner(&self) -> (w: InnerWidget) {
        self.win.share_inner()
    }
}

impl CharacterCreationForm {
    /// All four windows and every field point into the arena at consecutive,
    /// distinct records; there is one field per label and at least one; the
    /// focused index names an existing field.
    pub open spec fn wf(&self, a: &WidgetArena) -> bool {
        &&& self.win.wf(a)
        &&& self.label_win.wf(a)
        &&& self.spacer_win.wf(a)
        &&& self.input_win.wf(a)
        &&& self.label_win.spec_inner().id == self.win.spec_inner().id + 1
        &&& self.spacer_win.spec_inner().id == self.win.spec_inner().id + 2
        &&& self.input_win.spec_inner().id == self.win.spec_inner().id + 3
        &&& self.labels@.len() == self.inputs@.len()
        &&& self.inputs@.len() >= 1
        &&& self.selected < self.inputs@.len()
        &&& forall|i: int| 0 <= i < self.inputs@.len() ==> (#[trigger] self.inputs@[i]).wf(a)
        &&& forall|i: int|
            0 <= i < self.inputs@.len() ==> (#[trigger] self.inputs@[i]).inner.id
                == self.win.spec_inner().id + 4 + i
    }

    /// Build a form of the given geometry over the given field labels. The
    /// labels sit right-aligned in their own column, a spacer column holds
    /// the separators, and one input field per label fills the input column.
    /// A form with no labels, no rows, or a width too small for the widest
    /// label and the fixed margins cannot be built.
    pub fn new(
        a: &mut WidgetArena,
        y: u32,
        x: u32,
        height: usize,
        width: usize,
        entries: &[&str],
    ) -> (r: Result<CharacterCreationForm, ConstructionError>)
        requires
            old(a).wf(),
            height <= u32::MAX,
            width <= u32::MAX,
            x + width <= u32::MAX,
            y + 1 + entries@.len() <= u32::MAX,
        ensures
            final(a).wf(),
            r is Ok <==> entries@.len() >= 1 && height >= 1 && width >= 8 && width - 8
                >= widest_text(entries@, entries@.len() as int),
            r matches Ok(form) ==> {
                &&& form.wf(final(a))
                &&& form.selected == 0
                &&& !form.output_ready
                &&& form.labels@.len() == entries@.len()
                &&& forall|k: int|
                    0 <= k < entries@.len() ==> #[trigger] form.labels@[k]@ == entries@[k]@
                &&& forall|k: int|
                    0 <= k < entries@.len() ==> (#[trigger] form.inputs@[k]).output@
                        == Seq::<char>::empty() && !form.inputs@[k].output_ready
                &&& forall|k: int|
                    0 <= k < entries@.len() ==> (#[trigger] form.inputs@[k]).active == (k == 0)
                &&& form.win.body(final(a)).start_y == y
                &&& form.win.body(final(a)).start_x == x
                &&& form.win.body(final(a)).height == height
                &&& form.win.body(final(a)).width == width
            },
            r is Err ==> *final(a) == *old(a),
    {
        let entry_count: usize = entries.len();
        if entry_count == 0 || height < 1 {
            return Err(ConstructionError);
        }
        let mut label_win_width: usize = 0;
        for e in 0..entry_count
            invariant
                entry_count == entries@.len(),
                label_win_width == widest_text(entries@, e as int),
        {
            let s: &&str = &entries[e];
            let l: usize = s.unicode_len();
            if l > label_win_width {
                label_win_width = l;
            }
        }
        if width < 8 || width - 8 < label_win_width {
            return Err(ConstructionError);
        }
        let label_win_x: u32 = x + 3;
        let spacer_win_x: u32 = label_win_x + label_win_width as u32;
        let input_win_x: u32 = spacer_win_x + 2;
        let input_win_width: usize = width - 8 - label_win_width;
        let ghost base = a.bodies@.len();
        let win = Window::new(a, y, x, height, width);
        let label_win = Window::new(a, y + 1, label_win_x, height - 1, label_win_width);
        let spacer_win = Window::new(a, y + 1, spacer_win_x, height - 1, 2);
        let input_win = Window::new(a, y + 1, input_win_x, height - 1, input_win_width);
        win.share_inner().add_subwidget(a, label_win.share_inner());
        win.share_inner().add_subwidget(a, spacer_win.share_inner());
        win.share_inner().add_subwidget(a, input_win.share_inner());
        label_win.share_inner().show(a);
        spacer_win.share_inner().show(a);
        input_win.share_inner().show(a);
        let mut labels: Vec<String> = Vec::new();
        for e in 0..entry_count
            invariant
                entry_count == entries@.len(),
                labels@.len() == e,
                forall|k: int| 0 <= k < e ==> #[trigger] labels@[k]@ == entries@[k]@,
        {
            let s: &&str = &entries[e];
            labels.push(String::from_str(*s));
        }
        let mut inputs: Vec<InputLine> = Vec::new();
        for line in 0..entry_count
            invariant
                a.wf(),
                entry_count == entries@.len(),
                y + 1 + entry_count <= u32::MAX,
                input_win_width <= u32::MAX,
                win.wf(a),
                label_win.wf(a),
                spacer_win.wf(a),
                input_win.wf(a),
                win.spec_inner().id == base,
                label_win.spec_inner().id == base + 1,
                spacer_win.spec_inner().id == base + 2,
                input_win.spec_inner().id == base + 3,
                a.bodies@.len() == base + 4 + line,
                inputs@.len() == line,
                win.body(a).start_y == y,
                win.body(a).start_x == x,
                win.body(a).height == height,
                win.body(a).width == width,
                forall|i: int|
                    0 <= i < line ==> (#[trigger] inputs@[i]).inner.id == base + 4 + i,
                forall|i: int| 0 <= i < line ==> (#[trigger] inputs@[i]).wf(a),
                forall|i: int|
                    0 <= i < line ==> (#[trigger] inputs@[i]).output@ == Seq::<char>::empty()
                        && !inputs@[i].output_ready && !inputs@[i].active,
        {
            let mut inl = InputLine::new(a, y + 1 + line as u32, input_win_x, input_win_width);
            inl.share_inner().show(a);
            inl.set_inactive(a);
            input_win.share_inner().add_subwidget(a, inl.share_inner());
            inputs.push(inl);
        }
        let first = &mut inputs[0];
        first.set_active(a);
        let mut form = CharacterCreationForm {
            win,
            label_win,
            spacer_win,
            input_win,
            labels,
            inputs,
            selected: 0,
            output_ready: false,
        };
        form.draw(a);
        Ok(form)
    }

    /// Repaint the form's static decoration: the top rule, the right-aligned
    /// labels and the spacer column.
    fn draw(&self, a: &mut WidgetArena)
        requires
            old(a).wf(),
            self.win.wf(old(a)),
            self.label_win.wf(old(a)),
            self.spacer_win.wf(old(a)),
            self.label_win.spec_inner().id == self.win.spec_inner().id + 1,
            self.spacer_win.spec_inner().id == self.win.spec_inner().id + 2,
        ensures
            final(a).wf(),
            final(a).bodies@.len() == old(a).bodies@.len(),
            forall|k: int|
                0 <= k < old(a).bodies@.len() && k != self.win.spec_inner().id && k
                    != self.label_win.spec_inner().id && k != self.spacer_win.spec_inner().id
                    ==> final(a).bodies@[k] == old(a).bodies@[k],
            ({
                let b1 = self.win.body(old(a));
                let b2 = self.win.body(final(a));
                b2 == (crate::inner::InnerWidgetBody { buffer: b2.buffer, ..b1 })
                    && crate::grid::grid_dims(b2.grid(), b1.height as int, b1.width as int)
            }),
            ({
                let b1 = self.label_win.body(old(a));
                let b2 = self.label_win.body(final(a));
                b2 == (crate::inner::InnerWidgetBody { buffer: b2.buffer, ..b1 })
                    && crate::grid::grid_dims(b2.grid(), b1.height as int, b1.width as int)
            }),
            ({
                let b1 = self.spacer_win.body(old(a));
                let b2 = self.spacer_win.body(final(a));
                b2 == (crate::inner::InnerWidgetBody { buffer: b2.buffer, ..b1 })
                    && crate::grid::grid_dims(b2.grid(), b1.height as int, b1.width as int)
            }),
    {
        proof {
            assert(old(a).body_ok(self.win.spec_inner().id as int));
            assert(old(a).body_ok(self.label_win.spec_inner().id as int));
            assert(old(a).body_ok(self.spacer_win.spec_inner().id as int));
        }
        let cw: usize = self.win.content_width(a);
        let mut i: usize = 0;
        while i < cw
            invariant
                a.wf(),
                self.win.wf(a),
                self.label_win.wf(a),
                self.spacer_win.wf(a),
                i <= cw <= u32::MAX,
                same_arena_except(*old(a), *a, self.win.spec_inner().id as int),
                ({
                    let b1 = self.win.body(old(a));
                    let b2 = self.win.body(a);
                    b2 == (crate::inner::InnerWidgetBody { buffer: b2.buffer, ..b1 })
                        && crate::grid::grid_dims(b2.grid(), b1.height as int, b1.width as int)
                }),
            decreases cw - i,
        {
            self.win.putc(a, 0, i as u32, '=');
            i = i + 1;
        }
        let ghost mid1 = *a;
        let label_count: usize = self.labels.len();
        let mut j: usize = 0;
        while j < label_count
            invariant
                a.wf(),
                self.win.wf(a),
                self.label_win.wf(a),
                self.spacer_win.wf(a),
                j <= label_count == self.labels@.len(),
                same_arena_except(mid1, *a, self.label_win.spec_inner().id as int),
                ({
                    let b1 = self.label_win.body(&mid1);
                    let b2 = self.label_win.body(a);
                    b2 == (crate::inner::InnerWidgetBody { buffer: b2.buffer, ..b1 })
                        && crate::grid::grid_dims(b2.grid(), b1.height as int, b1.width as int)
                }),
            decreases label_count - j,
        {
            if j <= u32::MAX as usize {
                let lab: &String = &self.labels[j];
                self.label_win.printj(a, crate::layout::Justify::Right(j as u32), lab.as_str());
            }
            j = j + 1;
        }
        let ghost mid2 = *a;
        let mut k: usize = 0;
        while k < label_count
            invariant
                a.wf(),
                self.win.wf(a),
                self.label_win.wf(a),
                self.spacer_win.wf(a),
                k <= label_count,
                same_arena_except(mid2, *a, self.spacer_win.spec_inner().id as int),
                ({
                    let b1 = self.spacer_win.body(&mid2);
                    let b2 = self.spacer_win.body(a);
                    b2 == (crate::inner::InnerWidgetBody { buffer: b2.buffer, ..b1 })
                        && crate::grid::grid_dims(b2.grid(), b1.height as int, b1.width as int)
                }),
            decreases label_count - k,
        {
            if k <= u32::MAX as usize {
                self.spacer_win.putc(a, k as u32, 0, ':');
            }
            k = k + 1;
        }
    }

    /// Move the whole form by the given deltas: the four windows and every
    /// field move together, preserving their relative layout exactly.
    pub fn adjust_pos(&self, a: &mut WidgetArena, dy: i32, dx: i32)
        requires
            old(a).wf(),
            self.wf(old(a)),
            0 <= self.win.body(old(a)).start_y + dy <= u32::MAX,
            0 <= self.win.body(old(a)).start_x + dx <= u32::MAX,
            0 <= self.label_win.body(old(a)).start_y + dy <= u32::MAX,
            0 <= self.label_win.body(old(a)).start_x + dx <= u32::MAX,
            0 <= self.spacer_win.body(old(a)).start_y + dy <= u32::MAX,
            0 <= self.spacer_win.body(old(a)).start_x + dx <= u32::MAX,
            0 <= self.input_win.body(old(a)).start_y + dy <= u32::MAX,
            0 <= self.input_win.body(old(a)).start_x + dx <= u32::MAX,
            forall|i: int|
                0 <= i < self.inputs@.len() ==> 0 <= (#[trigger] self.inputs@[i]).body(
                    old(a),
                ).start_y + dy <= u32::MAX && 0 <= self.inputs@[i].body(old(a)).start_x + dx
                    <= u32::MAX,
        ensures
            final(a).wf(),
            self.wf(final(a)),
            final(a).bodies@.len() == old(a).bodies@.len(),
            self.win.body(final(a)) == (crate::inner::InnerWidgetBody {
                start_y: (self.win.body(old(a)).start_y + dy) as u32,
                start_x: (self.win.body(old(a)).start_x + dx) as u32,
                ..self.win.body(old(a))
            }),
            self.label_win.body(final(a)) == (crate::inner::InnerWidgetBody {
                start_y: (self.label_win.body(old(a)).start_y + dy) as u32,
                start_x: (self.label_win.body(old(a)).start_x + dx) as u32,
                ..self.label_win.body(old(a))
            }),
            self.spacer_win.body(final(a)) == (crate::inner::InnerWidgetBody {
                start_y: (self.spacer_win.body(old(a)).start_y + dy) as u32,
                start_x: (self.spacer_win.body(old(a)).start_x + dx) as u32,
                ..self.spacer_win.body(old(a))
            }),
            self.input_win.body(final(a)) == (crate::inner::InnerWidgetBody {
                start_y: (self.input_win.body(old(a)).start_y + dy) as u32,
                start_x: (self.input_win.body(old(a)).start_x + dx) as u32,
                ..self.input_win.body(old(a))
            }),
            forall|i: int|
                0 <= i < self.inputs@.len() ==> (#[trigger] self.inputs@[i]).body(final(a))
                    == (crate::inner::InnerWidgetBody {
                    start_y: (self.inputs@[i].body(old(a)).start_y + dy) as u32,
                    start_x: (self.inputs@[i].body(old(a)).start_x + dx) as u32,
                    ..self.inputs@[i].body(old(a))
                }),
    {
        self.win.share_inner().adjust_pos(a, dy, dx);
        self.label_win.share_inner().adjust_pos(a, dy, dx);
        self.spacer_win.share_inner().adjust_pos(a, dy, dx);
        self.input_win.share_inner().adjust_pos(a, dy, dx);
        let ghost a4 = *a;
        let n: usize = self.inputs.len();
        let base_id: usize = self.input_win.share_inner().id;
        for i in 0..n
            invariant
                a.wf(),
                self.wf(&a4),
                n == self.inputs@.len(),
                base_id == self.input_win.spec_inner().id,
                a.bodies@.len() == a4.bodies@.len(),
                forall|i2: int|
                    0 <= i2 < self.inputs@.len() ==> 0 <= (#[trigger] self.inputs@[i2]).body(
                        &a4,
                    ).start_y + dy <= u32::MAX && 0 <= self.inputs@[i2].body(&a4).start_x + dx
                        <= u32::MAX,
                forall|k: int|
                    0 <= k < a4.bodies@.len() && !(base_id + 1 <= k < base_id + 1 + i)
                        ==> a.bodies@[k] == a4.bodies@[k],
                forall|i2: int|
                    0 <= i2 < i ==> (#[trigger] self.inputs@[i2]).body(a)
                        == (crate::inner::InnerWidgetBody {
                        start_y: (self.inputs@[i2].body(&a4).start_y + dy) as u32,
                        start_x: (self.inputs@[i2].body(&a4).start_x + dx) as u32,
                        ..self.inputs@[i2].body(&a4)
                    }),
        {
            let field: &InputLine = &self.inputs[i];
            field.share_inner().adjust_pos(a, dy, dx);
        }
        proof {
            assert forall|i: int| 0 <= i < self.inputs@.len() implies (
            #[trigger] self.inputs@[i]).wf(a) by {
                assert(self.inputs@[i].wf(&a4));
            }
        }
    }

    /// The delta by which `align_centres` moves every part: the anchor's
    /// centre less the framing window's centre.
    pub open spec fn spec_centre_delta(&self, a: &WidgetArena, anchor: &Rect) -> (int, int) {
        let b = self.win.body(a);
        let (acy, acx) = spec_centre(
            anchor.y as int,
            anchor.x as int,
            anchor.height as int,
            anchor.width as int,
        );
        let (scy, scx) = spec_centre(
            b.start_y as int,
            b.start_x as int,
            b.height as int,
            b.width as int,
        );
        (acy - scy, acx - scx)
    }

    /// Move the whole form so that the framing window's centre coincides
    /// with the centre of the anchor rectangle; every part moves by the same
    /// delta, preserving the relative layout exactly.
    pub fn align_centres(&self, a: &mut WidgetArena, anchor: &Rect)
        requires
            old(a).wf(),
            self.wf(old(a)),
            anchor.y + anchor.height / 2 <= u32::MAX,
            anchor.x + anchor.width / 2 <= u32::MAX,
            self.win.body(old(a)).start_y + self.win.body(old(a)).height / 2 <= u32::MAX,
            self.win.body(old(a)).start_x + self.win.body(old(a)).width / 2 <= u32::MAX,
            ({
                let (dy, dx) = self.spec_centre_delta(old(a), anchor);
                &&& 0 <= self.win.body(old(a)).start_y + dy <= u32::MAX
                &&& 0 <= self.win.body(old(a)).start_x + dx <= u32::MAX
                &&& 0 <= self.label_win.body(old(a)).start_y + dy <= u32::MAX
                &&& 0 <= self.label_win.body(old(a)).start_x + dx <= u32::MAX
                &&& 0 <= self.spacer_win.body(old(a)).start_y + dy <= u32::MAX
                &&& 0 <= self.spacer_win.body(old(a)).start_x + dx <= u32::MAX
                &&& 0 <= self.input_win.body(old(a)).start_y + dy <= u32::MAX
                &&& 0 <= self.input_win.body(old(a)).start_x + dx <= u32::MAX
                &&& forall|i: int|
                    0 <= i < self.inputs@.len() ==> 0 <= (#[trigger] self.inputs@[i]).body(
                        old(a),
                    ).start_y + dy <= u32::MAX && 0 <= self.inputs@[i].body(old(a)).start_x + dx
                        <= u32::MAX
            }),
        ensures
            final(a).wf(),
            self.wf(final(a)),
            final(a).bodies@.len() == old(a).bodies@.len(),
            ({
                let (dy, dx) = self.spec_centre_delta(old(a), anchor);
                &&& self.win.body(final(a)) == (crate::inner::InnerWidgetBody {
                    start_y: (self.win.body(old(a)).start_y + dy) as u32,
                    start_x: (self.win.body(old(a)).start_x + dx) as u32,
                    ..self.win.body(old(a))
                })
                &&& self.label_win.body(final(a)) == (crate::inner::InnerWidgetBody {
                    start_y: (self.label_win.body(old(a)).start_y + dy) as u32,
                    start_x: (self.label_win.body(old(a)).start_x + dx) as u32,
                    ..self.label_win.body(old(a))
                })
                &&& self.spacer_win.body(final(a)) == (crate::inner::InnerWidgetBody {
                    start_y: (self.spacer_win.body(old(a)).start_y + dy) as u32,
                    start_x: (self.spacer_win.body(old(a)).start_x + dx) as u32,
                    ..self.spacer_win.body(old(a))
                })
                &&& self.input_win.body(final(a)) == (crate::inner::InnerWidgetBody {
                    start_y: (self.input_win.body(old(a)).start_y + dy) as u32,
                    start_x: (self.input_win.body(old(a)).start_x + dx) as u32,
                    ..self.input_win.body(old(a))
                })
                &&& forall|i: int|
                    0 <= i < self.inputs@.len() ==> (#[trigger] self.inputs@[i]).body(final(a))
                        == (crate::inner::InnerWidgetBody {
                        start_y: (self.inputs@[i].body(old(a)).start_y + dy) as u32,
                        start_x: (self.inputs@[i].body(old(a)).start_x + dx) as u32,
                        ..self.inputs@[i].body(old(a))
                    })
            }),
    {
        let (acy, acx): (u32, u32) = rect_centre(anchor);
        let (scy, scx): (u32, u32) = self.win.share_inner().centre(a);
        let dy: i64 = acy as i64 - scy as i64;
        let dx: i64 = acx as i64 - scx as i64;
        let parts: [InnerWidget; 4] = [
            self.win.share_inner(),
            self.label_win.share_inner(),
            self.spacer_win.share_inner(),
            self.input_win.share_inner(),
        ];
        let ghost a0 = *a;
        let mut p: usize = 0;
        while p < 4
            invariant
                a.wf(),
                a.bodies@.len() == a0.bodies@.len(),
                p <= 4,
                parts@.len() == 4,
                parts@[0] == self.win.spec_inner(),
                parts@[1] == self.label_win.spec_inner(),
                parts@[2] == self.spacer_win.spec_inner(),
                parts@[3] == self.input_win.spec_inner(),
                self.wf(&a0),
                ({
                    let (sdy, sdx) = self.spec_centre_delta(&a0, anchor);
                    &&& sdy == dy
                    &&& sdx == dx
                    &&& 0 <= self.label_win.body(&a0).start_y + sdy <= u32::MAX
                    &&& 0 <= self.label_win.body(&a0).start_x + sdx <= u32::MAX
                    &&& 0 <= self.spacer_win.body(&a0).start_y + sdy <= u32::MAX
                    &&& 0 <= self.spacer_win.body(&a0).start_x + sdx <= u32::MAX
                    &&& 0 <= self.input_win.body(&a0).start_y + sdy <= u32::MAX
                    &&& 0 <= self.input_win.body(&a0).start_x + sdx <= u32::MAX
                    &&& 0 <= self.win.body(&a0).start_y + sdy <= u32::MAX
                    &&& 0 <= self.win.body(&a0).start_x + sdx <= u32::MAX
                }),
                forall|k: int|
                    0 <= k < 4 && k < p ==> a.bodies@[parts@[k].id as int]
                        == (crate::inner::InnerWidgetBody {
                        start_y: (a0.bodies@[parts@[k].id as int].start_y + dy) as u32,
                        start_x: (a0.bodies@[parts@[k].id as int].start_x + dx) as u32,
                        ..a0.bodies@[parts@[k].id as int]
                    }),
                forall|k: int|
                    0 <= k < a0.bodies@.len() && (forall|j: int|
                        0 <= j < 4 && j < p ==> k != parts@[j].id) ==> a.bodies@[k]
                        == a0.bodies@[k],
            decreases 4 - p,
        {
            let part: InnerWidget = parts[p];
            let (ny, nx): (u32, u32) = {
                let b = &a.bodies[part.id];
                ((b.start_y as i64 + dy) as u32, (b.start_x as i64 + dx) as u32)
            };
            part.change_pos(a, ny, nx);
            p = p + 1;
        }
        let ghost a4 = *a;
        let n: usize = self.inputs.len();
        let base_id: usize = self.input_win.share_inner().id;
        for i in 0..n
            invariant
                a.wf(),
                self.wf(&a0),
                n == self.inputs@.len(),
                base_id == self.input_win.spec_inner().id,
                a.bodies@.len() == a0.bodies@.len(),
                a4.bodies@.len() == a0.bodies@.len(),
                ({
                    let (sdy, sdx) = self.spec_centre_delta(&a0, anchor);
                    &&& sdy == dy
                    &&& sdx == dx
                    &&& forall|i2: int|
                        0 <= i2 < self.inputs@.len() ==> 0 <= (#[trigger] self.inputs@[i2]).body(
                            &a0,
                        ).start_y + sdy <= u32::MAX && 0 <= self.inputs@[i2].body(&a0).start_x
                            + sdx <= u32::MAX
                }),
                forall|k: int|
                    0 <= k < a4.bodies@.len() && !(base_id + 1 <= k < base_id + 1 + i)
                        ==> a.bodies@[k] == a4.bodies@[k],
                forall|i2: int|
                    0 <= i2 < i ==> (#[trigger] self.inputs@[i2]).body(a)
                        == (crate::inner::InnerWidgetBody {
                        start_y: (self.inputs@[i2].body(&a0).start_y + dy) as u32,
                        start_x: (self.inputs@[i2].body(&a0).start_x + dx) as u32,
                        ..self.inputs@[i2].body(&a0)
                    }),
                forall|i2: int|
                    i <= i2 < self.inputs@.len() ==> (#[trigger] self.inputs@[i2]).body(a)
                        == self.inputs@[i2].body(&a0),
        {
            let field: &InputLine = &self.inputs[i];
            proof {
                assert(self.inputs@[i as int].inner.id == base_id + 1 + i);
            }
            let ghost aprev = *a;
            let (ny, nx): (u32, u32) = {
                let b = &a.bodies[field.inner.id];
                ((b.start_y as i64 + dy) as u32, (b.start_x as i64 + dx) as u32)
            };
            field.share_inner().change_pos(a, ny, nx);
            proof {
                assert(same_arena_except(aprev, *a, self.inputs@[i as int].inner.id as int));
                assert forall|k: int|
                    0 <= k < a4.bodies@.len() && !(base_id + 1 <= k < base_id + 1 + i + 1)
                        implies a.bodies@[k] == a4.bodies@[k] by {
                    assert(k != self.inputs@[i as int].inner.id);
                    assert(a.bodies@[k] == aprev.bodies@[k]);
                }
            }
        }
        proof {
            assert forall|i: int| 0 <= i < self.inputs@.len() implies (
            #[trigger] self.inputs@[i]).wf(a) by {
                assert(self.inputs@[i].wf(&a0));
            }
        }
    }

    /// Consume one input event. Tab or Down moves focus to the next field,
    /// stopping at the last; Shift-Tab or Up moves it back, stopping at the
    /// first; Enter commits the whole form; every other event goes to the
    /// focused field.
    pub fn process_event(&mut self, a: &mut WidgetArena, e: Event)
        requires
            old(a).wf(),
            old(self).wf(old(a)),
        ensures
            final(a).wf(),
            final(self).wf(final(a)),
            final(self).labels == old(self).labels,
            final(self).win == old(self).win,
            final(self).label_win == old(self).label_win,
            final(self).spacer_win == old(self).spacer_win,
            final(self).input_win == old(self).input_win,
            final(self).inputs@.len() == old(self).inputs@.len(),
            ({
                let sel = old(self).selected as int;
                let n = old(self).inputs@.len() as int;
                if e == (Event::Key(Key::Char('\t'))) || e == (Event::Key(Key::Down)) {
                    &&& final(self).selected as int == (if sel + 1 < n {
                        sel + 1
                    } else {
                        sel
                    })
                    &&& final(self).output_ready == old(self).output_ready
                    &&& forall|i: int|
                        0 <= i < n ==> (#[trigger] final(self).inputs@[i]).output@
                            == old(self).inputs@[i].output@ && final(self).inputs@[i].output_ready
                            == old(self).inputs@[i].output_ready
                    &&& forall|i: int|
                        0 <= i < n ==> (#[trigger] final(self).inputs@[i]).active == (
                        if sel + 1 < n {
                            i == sel + 1 || (old(self).inputs@[i].active && i != sel)
                        } else {
                            old(self).inputs@[i].active
                        })
                } else if e == (Event::Key(Key::BackTab)) || e == (Event::Key(Key::Up)) {
                    &&& final(self).selected as int == (if sel > 0 {
                        sel - 1
                    } else {
                        sel
                    })
                    &&& final(self).output_ready == old(self).output_ready
                    &&& forall|i: int|
                        0 <= i < n ==> (#[trigger] final(self).inputs@[i]).output@
                            == old(self).inputs@[i].output@ && final(self).inputs@[i].output_ready
                            == old(self).inputs@[i].output_ready
                    &&& forall|i: int|
                        0 <= i < n ==> (#[trigger] final(self).inputs@[i]).active == (if sel > 0 {
                            i == sel - 1 || (old(self).inputs@[i].active && i != sel)
                        } else {
                            old(self).inputs@[i].active
                        })
                } else if e == (Event::Key(Key::Char('\n'))) {
                    &&& final(self).output_ready == true
                    &&& final(self).selected == old(self).selected
                    &&& final(self).inputs == old(self).inputs
                } else {
                    &&& final(self).output_ready == old(self).output_ready
                    &&& final(self).selected == old(self).selected
                    &&& forall|i: int|
                        0 <= i < n && i != sel ==> #[trigger] final(self).inputs@[i]
                            == old(self).inputs@[i]
                    &&& event_transition(
                        old(self).inputs@[sel].output@,
                        old(self).inputs@[sel].output_ready,
                        old(self).inputs@[sel].length as int,
                        e,
                        final(self).inputs@[sel].output@,
                        final(self).inputs@[sel].output_ready,
                    )
                    &&& final(self).inputs@[sel].active == old(self).inputs@[sel].active
                }
            }),
    {
        let is_next: bool = match e {
            Event::Key(Key::Char(c)) => c == '\t',
            Event::Key(Key::Down) => true,
            _ => false,
        };
        let is_prev: bool = match e {
            Event::Key(Key::BackTab) => true,
            Event::Key(Key::Up) => true,
            _ => false,
        };
        let is_enter: bool = match e {
            Event::Key(Key::Char(c)) => c == '\n',
            _ => false,
        };
        if is_next {
            if self.selected != self.inputs.len() - 1 {
                let cur = &mut self.inputs[self.selected];
                cur.set_inactive(a);
                self.selected = self.selected + 1;
                let next = &mut self.inputs[self.selected];
                next.set_active(a);
            }
        } else if is_prev {
            if self.selected != 0 {
                let cur = &mut self.inputs[self.selected];
                cur.set_inactive(a);
                self.selected = self.selected - 1;
                let prev = &mut self.inputs[self.selected];
                prev.set_active(a);
            }
        } else if is_enter {
            self.output_ready = true;
        } else {
            let cur = &mut self.inputs[self.selected];
            cur.process_event(a, e);
        }
    }

    /// Look at the committed form output: one (label, value) pair per field,
    /// in field order, each value the field's current full text, once Enter
    /// has committed the form, and nothing before. Reading before the commit
    /// changes no state, and the committed output can be read again.
    pub fn try_get_output(&self) -> (r: Option<Vec<(String, String)>>)
        requires
            self.labels@.len() == self.inputs@.len(),
        ensures
            if self.output_ready {
                r matches Some(pairs) && pairs@.len() == self.labels@.len() && (forall|i: int|
                    0 <= i < pairs@.len() ==> (#[trigger] pairs@[i]).0@ == self.labels@[i]@
                        && pairs@[i].1@ == self.inputs@[i].output@)
            } else {
                r is None
            },
    {
        if !self.output_ready {
            return None;
        }
        Some(self.collect_pairs())
    }

    /// Take the form's output: the (label, value) pairs once Enter has
    /// committed the form, or the same pairs wrapped as a poison error when
    /// read before the commit.
    pub fn get_output(&self) -> (r: Result<Vec<(String, String)>, PoisonError<Vec<(String, String)>>>)
        requires
            self.labels@.len() == self.inputs@.len(),
        ensures
            ({
                let ok_pairs = if self.output_ready {
                    r->Ok_0
                } else {
                    r->Err_0.spec_inner()
                };
                &&& self.output_ready <==> r is Ok
                &&& ok_pairs@.len() == self.labels@.len()
                &&& forall|i: int|
                    0 <= i < ok_pairs@.len() ==> (#[trigger] ok_pairs@[i]).0@ == self.labels@[i]@
                        && ok_pairs@[i].1@ == self.inputs@[i].output@
            }),
    {
        let pairs = self.collect_pairs();
        if self.output_ready {
            Ok(pairs)
        } else {
            Err(PoisonError::new(pairs))
        }
    }

    /// Collect one (label, current text) pair per field, in field order.
    fn collect_pairs(&self) -> (pairs: Vec<(String, String)>)
        requires
            self.labels@.len() == self.inputs@.len(),
        ensures
            pairs@.len() == self.labels@.len(),
            forall|i: int|
                0 <= i < pairs@.len() ==> (#[trigger] pairs@[i]).0@ == self.labels@[i]@
                    && pairs@[i].1@ == self.inputs@[i].output@,
    {
        let mut pairs: Vec<(String, String)> = Vec::new();
        let n: usize = self.labels.len();
        for i in 0..n
            invariant
                n == self.labels@.len(),
                self.labels@.len() == self.inputs@.len(),
                pairs@.len() == i,
                forall|k: int|
                    0 <= k < i ==> (#[trigger] pairs@[k]).0@ == self.labels@[k]@ && pairs@[k].1@
                        == self.inputs@[k].output@,
        {
            let key: String = self.labels[i].clone();
            let val: String = self.inputs[i].output.clone();
            pairs.push((key, val));
        }
        pairs
    }
}

} // verus!
