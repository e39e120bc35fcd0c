use cwinui::events::{Event, Key};
use cwinui::inner::WidgetArena;
use cwinui::inputline::InputLine;
use cwinui::prompt::Prompt;

fn key(c: char) -> Event {
    Event::Key(Key::Char(c))
}

#[test]
fn inputline_commits_trailing_window() {
    // A field of length 5 receiving "abcdef" then Enter commits exactly the
    // four visible trailing characters of the fixed scrolling window.
    let mut a = WidgetArena::new();
    let mut field = InputLine::new(&mut a, 0, 0, 5);
    for c in ['a', 'b', 'c', 'd', 'e', 'f'] {
        field.process_event(&mut a, key(c));
    }
    field.process_event(&mut a, key('\n'));
    assert_eq!(field.try_get_output(), Some(String::from("cdef")));
}

#[test]
fn inputline_commits_short_text_whole() {
    let mut a = WidgetArena::new();
    let mut field = InputLine::new(&mut a, 0, 0, 5);
    for c in ['h', 'i'] {
        field.process_event(&mut a, key(c));
    }
    field.process_event(&mut a, key('\n'));
    assert_eq!(field.try_get_output(), Some(String::from("hi")));
}

#[test]
fn inputline_not_ready_is_idempotent() {
    let mut a = WidgetArena::new();
    let mut field = InputLine::new(&mut a, 0, 0, 8);
    field.process_event(&mut a, key('a'));
    // Reading the output before Enter never yields a value and never
    // disturbs the state, however often it is repeated.
    assert_eq!(field.try_get_output(), None);
    assert_eq!(field.try_get_output(), None);
    assert_eq!(field.try_get_output(), None);
    field.process_event(&mut a, key('b'));
    field.process_event(&mut a, key('\n'));
    assert_eq!(field.try_get_output(), Some(String::from("ab")));
    // The committed value stays readable.
    assert_eq!(field.try_get_output(), Some(String::from("ab")));
}

#[test]
fn inputline_backspace_removes_last() {
    let mut a = WidgetArena::new();
    let mut field = InputLine::new(&mut a, 0, 0, 8);
    for c in ['a', 'b', 'c'] {
        field.process_event(&mut a, key(c));
    }
    field.process_event(&mut a, Event::Key(Key::Backspace));
    field.process_event(&mut a, key('\n'));
    assert_eq!(field.try_get_output(), Some(String::from("ab")));
}

#[test]
fn inputline_ignores_unprintable_keys() {
    let mut a = WidgetArena::new();
    let mut field = InputLine::new(&mut a, 0, 0, 8);
    field.process_event(&mut a, Event::Key(Key::Up));
    field.process_event(&mut a, Event::Key(Key::Esc));
    field.process_event(&mut a, Event::Other);
    field.process_event(&mut a, key('\n'));
    assert_eq!(field.try_get_output(), Some(String::new()));
}

#[test]
fn inputline_get_output_poisons_before_commit() {
    let mut a = WidgetArena::new();
    let mut field = InputLine::new(&mut a, 0, 0, 8);
    field.process_event(&mut a, key('w'));
    let err = field.get_output().unwrap_err();
    assert_eq!(err.into_inner(), String::from("w"));
}

#[test]
fn inputline_zero_length_is_inert() {
    let mut a = WidgetArena::new();
    let mut field = InputLine::new(&mut a, 0, 0, 0);
    field.process_event(&mut a, key('a'));
    field.process_event(&mut a, key('\n'));
    assert_eq!(field.try_get_output(), None);
}

#[test]
fn prompt_splits_label_and_field() {
    let mut a = WidgetArena::new();
    let mut p = Prompt::new(&mut a, "Name", 0, 0, 12).unwrap();
    assert!(p.is_active());
    for c in ['B', 'o', 'b'] {
        p.process_event(&mut a, key(c));
    }
    p.process_event(&mut a, key('\n'));
    assert_eq!(p.try_get_output(), Some(String::from("Bob")));
    p.set_inactive(&mut a);
    assert!(!p.is_active());
}

#[test]
fn prompt_refused_when_label_fills_it() {
    let mut a = WidgetArena::new();
    assert!(Prompt::new(&mut a, "Name", 0, 0, 4).is_err());
    assert!(Prompt::new(&mut a, "Name", 0, 0, 3).is_err());
}

#[test]
fn inputline_display_shows_text_then_blanks() {
    let mut a = WidgetArena::new();
    let mut field = InputLine::new(&mut a, 0, 0, 5);
    // A fresh focused field shows only blank markers.
    assert_eq!(a.bodies[field.inner.id].buffer[0], vec!['_', '_', '_', '_', '_']);
    for c in ['a', 'b'] {
        field.process_event(&mut a, key(c));
    }
    assert_eq!(a.bodies[field.inner.id].buffer[0], vec!['a', 'b', '_', '_', '_']);
}

#[test]
fn inputline_display_scrolls_to_trailing_window() {
    // Once the text reaches the field length, the display shows the trailing
    // length - 1 characters; the last cell keeps the blank marker.
    let mut a = WidgetArena::new();
    let mut field = InputLine::new(&mut a, 0, 0, 5);
    for c in ['a', 'b', 'c', 'd', 'e', 'f'] {
        field.process_event(&mut a, key(c));
    }
    assert_eq!(a.bodies[field.inner.id].buffer[0], vec!['c', 'd', 'e', 'f', '_']);
    // Backspace while overflowing re-renders the shorter trailing window.
    field.process_event(&mut a, Event::Key(Key::Backspace));
    assert_eq!(a.bodies[field.inner.id].buffer[0], vec!['b', 'c', 'd', 'e', '_']);
}

#[test]
fn inputline_inactive_blanks_are_spaces() {
    let mut a = WidgetArena::new();
    let mut field = InputLine::new(&mut a, 0, 0, 4);
    field.process_event(&mut a, key('a'));
    field.set_inactive(&mut a);
    assert!(!field.is_active());
    assert_eq!(a.bodies[field.inner.id].buffer[0], vec!['a', ' ', ' ', ' ']);
    field.set_active(&mut a);
    assert_eq!(a.bodies[field.inner.id].buffer[0], vec!['a', '_', '_', '_']);
}

#[test]
fn inputline_accepts_unicode_alphanumerics() {
    let mut a = WidgetArena::new();
    let mut field = InputLine::new(&mut a, 0, 0, 8);
    // Alphanumerics outside ASCII append like any letter.
    field.process_event(&mut a, key('é'));
    field.process_event(&mut a, key('ß'));
    // A symbol that is neither alphanumeric nor ASCII punctuation is ignored.
    field.process_event(&mut a, key('€'));
    field.process_event(&mut a, key('\n'));
    assert_eq!(field.try_get_output(), Some(String::from("éß")));
}
