use cwinui::events::{Event, Key};
use cwinui::form::CharacterCreationForm;
use cwinui::inner::WidgetArena;

fn key(c: char) -> Event {
    Event::Key(Key::Char(c))
}

#[test]
fn form_routes_keys_to_focused_field() {
    let mut a = WidgetArena::new();
    let mut form = CharacterCreationForm::new(&mut a, 0, 0, 4, 30, &["Name", "Class"]).unwrap();
    for c in ['Z', 'o', 'e'] {
        form.process_event(&mut a, key(c));
    }
    form.process_event(&mut a, key('\t'));
    for c in ['m', 'a', 'g', 'e'] {
        form.process_event(&mut a, key(c));
    }
    form.process_event(&mut a, key('\n'));
    let pairs = form.try_get_output().unwrap();
    assert_eq!(pairs.len(), 2);
    assert_eq!(pairs[0], (String::from("Name"), String::from("Zoe")));
    assert_eq!(pairs[1], (String::from("Class"), String::from("mage")));
}

#[test]
fn form_focus_does_not_wrap() {
    let mut a = WidgetArena::new();
    let mut form = CharacterCreationForm::new(&mut a, 0, 0, 5, 30, &["A", "B"]).unwrap();
    assert_eq!(form.selected, 0);
    // Retreating past the first field stays put.
    form.process_event(&mut a, Event::Key(Key::BackTab));
    assert_eq!(form.selected, 0);
    form.process_event(&mut a, Event::Key(Key::Down));
    assert_eq!(form.selected, 1);
    // Advancing past the last field stays put.
    form.process_event(&mut a, key('\t'));
    assert_eq!(form.selected, 1);
    form.process_event(&mut a, Event::Key(Key::Up));
    assert_eq!(form.selected, 0);
}

#[test]
fn form_enter_commits_whole_form() {
    let mut a = WidgetArena::new();
    let mut form = CharacterCreationForm::new(&mut a, 0, 0, 4, 30, &["Name"]).unwrap();
    assert!(form.try_get_output().is_none());
    assert!(form.try_get_output().is_none());
    form.process_event(&mut a, key('x'));
    form.process_event(&mut a, key('\n'));
    let pairs = form.try_get_output().unwrap();
    assert_eq!(pairs[0], (String::from("Name"), String::from("x")));
}

#[test]
fn form_not_ready_poisons_get_output() {
    let mut a = WidgetArena::new();
    let mut form = CharacterCreationForm::new(&mut a, 0, 0, 4, 30, &["Name"]).unwrap();
    form.process_event(&mut a, key('q'));
    let err = form.get_output().unwrap_err();
    let pairs = err.into_inner();
    assert_eq!(pairs[0], (String::from("Name"), String::from("q")));
}

#[test]
fn form_refused_when_too_small() {
    let mut a = WidgetArena::new();
    assert!(CharacterCreationForm::new(&mut a, 0, 0, 4, 30, &[]).is_err());
    assert!(CharacterCreationForm::new(&mut a, 0, 0, 0, 30, &["Name"]).is_err());
    // Eight margin columns plus the four-column label leave no input cells.
    assert!(CharacterCreationForm::new(&mut a, 0, 0, 4, 11, &["Name"]).is_err());
}

#[test]
fn form_translation_preserves_relative_layout() {
    let mut a = WidgetArena::new();
    let form = CharacterCreationForm::new(&mut a, 2, 3, 4, 30, &["Name"]).unwrap();
    let before: Vec<(u32, u32)> = [
        form.win.inner.id,
        form.label_win.inner.id,
        form.spacer_win.inner.id,
        form.input_win.inner.id,
        form.inputs[0].inner.id,
    ]
    .iter()
    .map(|&id| (a.bodies[id].start_y, a.bodies[id].start_x))
    .collect();
    form.adjust_pos(&mut a, 5, -2);
    let after: Vec<(u32, u32)> = [
        form.win.inner.id,
        form.label_win.inner.id,
        form.spacer_win.inner.id,
        form.input_win.inner.id,
        form.inputs[0].inner.id,
    ]
    .iter()
    .map(|&id| (a.bodies[id].start_y, a.bodies[id].start_x))
    .collect();
    for (b, f) in before.iter().zip(after.iter()) {
        assert_eq!(f.0, b.0 + 5);
        assert_eq!(f.1, b.1 - 2);
    }
}

#[test]
fn form_centres_on_anchor() {
    let mut a = WidgetArena::new();
    let form = CharacterCreationForm::new(&mut a, 0, 0, 4, 24, &["Name"]).unwrap();
    let anchor = cwinui::layout::Rect { y: 2, x: 2, height: 20, width: 76 };
    form.align_centres(&mut a, &anchor);
    let b = &a.bodies[form.win.inner.id];
    let own = cwinui::layout::Rect { y: b.start_y, x: b.start_x, height: b.height, width: b.width };
    assert_eq!(cwinui::layout::rect_centre(&anchor), cwinui::layout::rect_centre(&own));
    // The input field kept its offset relative to the frame.
    let f = &a.bodies[form.inputs[0].inner.id];
    assert_eq!(f.start_y, b.start_y + 1);
}
