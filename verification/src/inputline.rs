//! A single-line text input field of a fixed display width.
//!
//! The field keeps the full typed text. The display window is fixed: while
//! the text is shorter than the field, it is shown as typed, followed by
//! blank markers; once the text reaches the field length, the display scrolls
//! to show the trailing `length - 1` characters. Enter commits the field.
//! The committed value is the visible window's content: the whole text while
//! it is shorter than the field length, and its trailing `length - 1`
//! characters otherwise.

use vstd::prelude::*;
use crate::events::{Event, Key};
use crate::grid::grid_dims;
use crate::inner::{
    InnerWidget, InnerWidgetBody, Widget, WidgetArena, same_arena_except, same_but_buffer,
};
use crate::misc::PoisonError;

verus! {

/// Relies on `String::push`: appends the given character to the end of the
/// string.
pub assume_specification[ String::push ](s: &mut String, ch: char)
    ensures
        final(s)@ == old(s)@.push(ch),
;

/// Relies on `String::pop`: removes the last character from the string and
/// returns it, or returns nothing when the string is empty.
pub assume_specification[ String::pop ](s: &mut String) -> (r: Option<char>)
    ensures
        old(s)@.len() == 0 ==> r is None && final(s)@ == old(s)@,
        old(s)@.len() > 0 ==> r == Some(old(s)@.last()) && final(s)@ == old(s)@.drop_last(),
;

/// The character marking an empty input cell while the field is focused.
pub const BLANK_CHAR: char = '_';

/// The character marking an empty input cell while the field is not focused.
pub const INACTIVE_BLANK_CHAR: char = ' ';

/// Whether the Unicode general categories make `c` alphanumeric. The class
/// tables live in std; the result depends on the character alone.
pub uninterp spec fn is_unicode_alphanumeric(c: char) -> bool;

/// Relies on `char::is_alphanumeric`: true exactly when the character's
/// Unicode general category is alphabetic or numeric.
pub assume_specification[ char::is_alphanumeric ](c: char) -> (r: bool)
    ensures
        r == is_unicode_alphanumeric(c),
;

/// A printable key: alphanumeric (by Unicode class), ASCII punctuation, or
/// space. Only these are appended to the field's text.
pub open spec fn is_printable(c: char) -> bool {
    ||| is_unicode_alphanumeric(c)
    ||| '!' <= c <= '/'
    ||| ':' <= c <= '@'
    ||| '[' <= c <= '`'
    ||| '{' <= c <= '~'
    ||| c == ' '
}

/// Whether `c` is a printable key.
pub fn printable(c: char) -> (r: bool)
    ensures
        r == is_printable(c),
{
    c.is_alphanumeric() || ('!' <= c && c <= '/') || (':' <= c && c <= '@') || ('[' <= c && c
        <= '`') || ('{' <= c && c <= '~') || c == ' '
}

/// The value a field of display width `len` commits for the text `t`: the
/// whole text while it is shorter than the field length, else its trailing
/// `len - 1` characters — exactly the fixed scrolling window's content.
pub open spec fn committed_text(t: Seq<char>, len: int) -> Seq<char> {
    if len >= 1 && t.len() + 1 > len {
        t.subrange(t.len() - (len - 1), t.len() as int)
    } else {
        t
    }
}

/// How one input event changes a field's text and commit flag: Enter sets
/// the commit flag, a printable key appends, Backspace removes the last
/// character, everything else changes nothing, and a field of zero cells
/// ignores every event.
pub open spec fn event_transition(
    t: Seq<char>,
    ready: bool,
    len: int,
    e: Event,
    t2: Seq<char>,
    ready2: bool,
) -> bool {
    if len == 0 {
        t2 == t && ready2 == ready
    } else if e == (Event::Key(Key::Char('\n'))) {
        ready2 == true && t2 == t
    } else if (e matches Event::Key(Key::Char(c)) && is_printable(c)) {
        t2 == t.push(e->Key_0->Char_0) && ready2 == ready
    } else if e == (Event::Key(Key::Backspace)) {
        t2 == (if t.len() > 0 {
            t.drop_last()
        } else {
            t
        }) && ready2 == ready
    } else {
        t2 == t && ready2 == ready
    }
}

/// The first display cell that holds a blank marker rather than text: the
/// text length, capped at the field's last cell.
pub open spec fn blank_from(t: Seq<char>, len: int) -> int {
    if t.len() < len - 1 {
        t.len() as int
    } else {
        len - 1
    }
}

/// The display row a field of `len` cells shows for the text `t` in its text
/// cells: the text as typed while it is shorter than the field, else its
/// trailing `len - 1` characters.
pub open spec fn display_text_ok(t: Seq<char>, len: int, row: Seq<char>) -> bool {
    &&& (t.len() >= len ==> forall|k: int|
        0 <= k < len - 1 ==> #[trigger] row[k] == t[t.len() - (len - 1) + k])
    &&& (t.len() < len ==> forall|k: int| 0 <= k < t.len() && k < len ==> #[trigger] row[k] == t[k])
}

/// A single-line input field: a one-row widget of `length` cells, the typed
/// text, the commit flag and the display cursor column.
pub struct InputLine {
    pub inner: InnerWidget,
    pub length: usize,
    pub output_ready: bool,
    pub output: String,
    pub cursor_pos: u32,
    pub active: bool,
}

impl Widget for InputLine {
    open spec fn inner_id(&self) -> int {
        self.inner.id as int
    }

    fn share_inner(&self) -> (w: InnerWidget) {
        self.inner.share()
    }
}

impl InputLine {
    /// The field's record in the arena.
    pub open spec fn body(&self, a: &WidgetArena) -> InnerWidgetBody {
        self.inner.body(a)
    }

    /// The field points at a one-row record of `length` cells, and the
    /// display cursor column tracks the text length, capped at the last
    /// cell.
    pub open spec fn wf(&self, a: &WidgetArena) -> bool {
        &&& self.inner.valid(a)
        &&& self.body(a).height == 1
        &&& self.body(a).width == self.length
        &&& self.length <= u32::MAX
        &&& self.length >= 1 ==> self.cursor_pos as int == (if self.output@.len() < self.length - 1 {
            self.output@.len() as int
        } else {
            self.length - 1
        })
        &&& self.length == 0 ==> self.output@.len() == 0 && self.cursor_pos == 0
        &&& self.body(a).cursor.y == 0
        &&& self.body(a).cursor.x == self.cursor_pos
        &&& self.length >= 1 ==> display_text_ok(
            self.output@,
            self.length as int,
            self.body(a).grid()[0],
        )
        &&& self.active && self.length >= 1 ==> forall|k: int|
            blank_from(self.output@, self.length as int) <= k < self.length
                ==> #[trigger] self.body(a).grid()[0][k] == BLANK_CHAR
    }

    /// Allocate a focused input field of `length` cells at `(y, x)`, its
    /// display filled with blank markers and its cursor shown at the first
    /// cell. A field of zero cells is inert.
    pub fn new(a: &mut WidgetArena, y: u32, x: u32, length: usize) -> (field: InputLine)
        requires
            old(a).wf(),
            length <= u32::MAX,
        ensures
            final(a).wf(),
            field.wf(final(a)),
            field.inner.id == old(a).bodies@.len(),
            final(a).bodies@.len() == old(a).bodies@.len() + 1,
            forall|k: int|
                0 <= k < old(a).bodies@.len() ==> final(a).bodies@[k] == old(a).bodies@[k],
            field.length == length,
            !field.output_ready,
            field.output@ == Seq::<char>::empty(),
            field.cursor_pos == 0,
            field.active,
            ({
                let b = field.body(final(a));
                &&& b.start_y == y
                &&& b.start_x == x
                &&& b.height == 1
                &&& b.width == length
                &&& b.hidden == true
                &&& b.cursor.hidden == false
                &&& b.cursor.y == 0
                &&& b.cursor.x == 0
                &&& b.subwidgets@ == Seq::<usize>::empty()
                &&& forall|k: int| 0 <= k < length ==> b.grid()[0][k] == BLANK_CHAR
            }),
    {
        let inner = InnerWidget::new(a, y, x, 1, length);
        inner.show_cursor(a);
        let ghost afresh = *a;
        for i in 0..length
            invariant
                a.wf(),
                inner.id < a.bodies@.len(),
                length <= u32::MAX,
                same_arena_except(afresh, *a, inner.id as int),
                same_but_buffer(inner.body(&afresh), inner.body(a)),
                inner.body(a).height == 1,
                inner.body(a).width == length,
                grid_dims(inner.body(a).grid(), 1, length as int),
                forall|k: int|
                    0 <= k < length ==> #[trigger] inner.body(a).grid()[0][k] == (if k < i {
                        BLANK_CHAR
                    } else {
                        inner.body(&afresh).grid()[0][k]
                    }),
        {
            inner.putc(a, 0, i as u32, BLANK_CHAR);
        }
        InputLine {
            inner,
            length,
            output_ready: false,
            output: String::new(),
            cursor_pos: 0,
            active: true,
        }
    }

    /// Whether the field currently has focus.
    pub fn is_active(&self) -> (r: bool)
        ensures
            r == self.active,
    {
        self.active
    }

    /// Redraw the empty display cells after the text with the given blank
    /// marker.
    fn set_blanks(&self, a: &mut WidgetArena, c: char)
        requires
            old(a).wf(),
            old(a).body_ok(self.inner.id as int),
            self.inner.valid(old(a)),
            self.body(old(a)).height == 1,
            self.body(old(a)).width == self.length,
            self.length <= u32::MAX,
        ensures
            final(a).wf(),
            same_arena_except(*old(a), *final(a), self.inner.id as int),
            same_but_buffer(self.body(old(a)), self.body(final(a))),
            ({
                let g1 = self.body(old(a)).grid();
                let g2 = self.body(final(a)).grid();
                self.length >= 1 ==> forall|k: int|
                    0 <= k < self.length ==> #[trigger] g2[0][k] == (if blank_from(
                        self.output@,
                        self.length as int,
                    ) <= k {
                        c
                    } else {
                        g1[0][k]
                    })
            }),
    {
        proof {
            assert(old(a).body_ok(self.inner.id as int));
        }
        if self.length == 0 {
            return ;
        }
        let olen: usize = self.output.as_str().unicode_len();
        let last: usize = self.length - 1;
        let from: usize = if olen < last {
            olen
        } else {
            last
        };
        let ghost g1 = self.body(old(a)).grid();
        for i in from..last
            invariant
                a.wf(),
                self.inner.id < a.bodies@.len(),
                same_arena_except(*old(a), *a, self.inner.id as int),
                same_but_buffer(self.body(old(a)), self.body(a)),
                self.body(a).height == 1,
                self.body(a).width == self.length,
                g1 == self.body(old(a)).grid(),
                from == blank_from(self.output@, self.length as int),
                from <= last < self.length <= u32::MAX,
                forall|k: int|
                    0 <= k < self.length ==> #[trigger] self.body(a).grid()[0][k] == (if from <= k
                        < i {
                        c
                    } else {
                        g1[0][k]
                    }),
        {
            self.inner.putc(a, 0, i as u32, c);
        }
        self.inner.putc(a, 0, last as u32, c);
    }

    /// Give the field focus: show its cursor and draw the focused blank
    /// markers.
    pub fn set_active(&mut self, a: &mut WidgetArena)
        requires
            old(a).wf(),
            old(self).wf(old(a)),
        ensures
            final(a).wf(),
            final(self).wf(final(a)),
            *final(self) == (InputLine { active: true, ..*old(self) }),
            same_arena_except(*old(a), *final(a), old(self).inner.id as int),
            ({
                let b1 = old(self).body(old(a));
                let b2 = final(self).body(final(a));
                &&& b2 == (InnerWidgetBody { buffer: b2.buffer, cursor: b2.cursor, ..b1 })
                &&& grid_dims(b2.grid(), b1.height as int, b1.width as int)
                &&& b2.cursor.hidden == false
                &&& b2.cursor.y == b1.cursor.y
                &&& b2.cursor.x == b1.cursor.x
            }),
    {
        self.active = true;
        self.inner.show_cursor(a);
        self.set_blanks(a, BLANK_CHAR);
    }

    /// Take focus away from the field: hide its cursor and draw the
    /// unfocused blank markers.
    pub fn set_inactive(&mut self, a: &mut WidgetArena)
        requires
            old(a).wf(),
            old(self).wf(old(a)),
        ensures
            final(a).wf(),
            final(self).wf(final(a)),
            *final(self) == (InputLine { active: false, ..*old(self) }),
            same_arena_except(*old(a), *final(a), old(self).inner.id as int),
            ({
                let b1 = old(self).body(old(a));
                let b2 = final(self).body(final(a));
                &&& b2 == (InnerWidgetBody { buffer: b2.buffer, cursor: b2.cursor, ..b1 })
                &&& grid_dims(b2.grid(), b1.height as int, b1.width as int)
                &&& b2.cursor.hidden == true
                &&& b2.cursor.y == b1.cursor.y
                &&& b2.cursor.x == b1.cursor.x
            }),
            old(self).length >= 1 ==> forall|k: int|
                blank_from(old(self).output@, old(self).length as int) <= k < old(self).length
                    ==> #[trigger] final(self).body(final(a)).grid()[0][k] == INACTIVE_BLANK_CHAR,
    {
        self.active = false;
        self.inner.hide_cursor(a);
        self.set_blanks(a, INACTIVE_BLANK_CHAR);
    }

    /// Consume one input event. Enter commits the field; a printable key
    /// appends to the text; Backspace removes the last character; every
    /// other key is ignored. A field of zero cells ignores every event. The
    /// display window is redrawn to show the trailing characters once the
    /// text reaches the field length.
    pub fn process_event(&mut self, a: &mut WidgetArena, e: Event)
        requires
            old(a).wf(),
            old(self).wf(old(a)),
        ensures
            final(a).wf(),
            final(self).wf(final(a)),
            same_arena_except(*old(a), *final(a), old(self).inner.id as int),
            ({
                let b1 = old(self).body(old(a));
                let b2 = final(self).body(final(a));
                &&& b2 == (InnerWidgetBody { buffer: b2.buffer, cursor: b2.cursor, ..b1 })
                &&& grid_dims(b2.grid(), b1.height as int, b1.width as int)
            }),
            final(self).inner == old(self).inner,
            final(self).length == old(self).length,
            final(self).active == old(self).active,
            event_transition(
                old(self).output@,
                old(self).output_ready,
                old(self).length as int,
                e,
                final(self).output@,
                final(self).output_ready,
            ),
            old(self).length == 0 ==> *final(self) == *old(self),
    {
        proof {
            assert(old(a).body_ok(self.inner.id as int));
        }
        if self.length == 0 {
            return ;
        }
        match e {
            Event::Key(Key::Char(c)) => {
                if c == '\n' {
                    self.output_ready = true;
                } else if printable(c) {
                    let output_len: usize = self.output.as_str().unicode_len();
                    self.output.push(c);
                    if output_len < self.length - 1 {
                        self.inner.putc(a, 0, self.cursor_pos, c);
                        self.inner.advance_cursor(a, 1);
                        self.cursor_pos = self.cursor_pos + 1;
                    } else {
                        let new_len: usize = self.output.as_str().unicode_len();
                        let start: usize = new_len - (self.length - 1);
                        let window: &str = self.output.as_str().substring_char(start, new_len);
                        self.inner.print(a, 0, 0, window);
                    }
                }
            },
            Event::Key(Key::Backspace) => {
                let output_len: usize = self.output.as_str().unicode_len();
                if output_len > 0 {
                    if output_len < self.length {
                        self.output.pop();
                        self.inner.putc(a, 0, self.cursor_pos - 1, BLANK_CHAR);
                        self.inner.advance_cursor(a, -1);
                        self.cursor_pos = self.cursor_pos - 1;
                    } else {
                        self.output.pop();
                        let new_len: usize = output_len - 1;
                        let start: usize = output_len - self.length;
                        let window: &str = self.output.as_str().substring_char(start, new_len);
                        self.inner.print(a, 0, 0, window);
                    }
                }
            },
            _ => {},
        }
    }

    /// Look at the committed value: the visible window's content once Enter
    /// has committed the field, and nothing before. Reading before the
    /// commit changes no state, and the committed value can be read again.
    pub fn try_get_output(&self) -> (r: Option<String>)
        ensures
            if self.output_ready {
                r matches Some(v) && v@ == committed_text(self.output@, self.length as int)
            } else {
                r is None
            },
    {
        if !self.output_ready {
            return None;
        }
        Some(self.committed_value())
    }

    /// Take the field by value and return its committed value, or the
    /// not-yet-committed text wrapped as a poison error when Enter has not
    /// yet committed the field.
    pub fn get_output(self) -> (r: Result<String, PoisonError<String>>)
        ensures
            if self.output_ready {
                r matches Ok(v) && v@ == committed_text(self.output@, self.length as int)
            } else {
                r matches Err(p) && p.spec_inner()@ == self.output@
            },
    {
        if self.output_ready {
            Ok(self.committed_value())
        } else {
            Err(PoisonError::new(self.output))
        }
    }

    /// The visible window's content: the whole text while it is shorter than
    /// the field length, else its trailing `length - 1` characters.
    fn committed_value(&self) -> (v: String)
        ensures
            v@ == committed_text(self.output@, self.length as int),
    {
        let olen: usize = self.output.as_str().unicode_len();
        if self.length >= 1 && olen >= self.length {
            let start: usize = olen - (self.length - 1);
            self.output.as_str().substring_char(start, olen).to_owned()
        } else {
            self.output.clone()
        }
    }
}

} // verus!
