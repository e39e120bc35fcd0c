use cwinui::events::{Event, Key};
use cwinui::inner::WidgetArena;
use cwinui::menu::{ListStyle, Menu};
use cwinui::startmenu::StartMenu;

fn down() -> Event {
    Event::Key(Key::Down)
}

fn up() -> Event {
    Event::Key(Key::Up)
}

#[test]
fn menu_down_scrolls_minimally() {
    // Three items through a two-row window: two Down events move the active
    // index 0 -> 1 -> 2 while the scroll offset moves 0 -> 0 -> 1.
    let mut a = WidgetArena::new();
    let mut menu = Menu::new(&mut a, 0, 0, 2, 10, &["A", "B", "C"], ListStyle::Dummy);
    assert_eq!((menu.active_item, menu.scroll), (0, 0));
    menu.process_event(&mut a, down());
    assert_eq!((menu.active_item, menu.scroll), (1, 0));
    menu.process_event(&mut a, down());
    assert_eq!((menu.active_item, menu.scroll), (2, 1));
    // A Down on the last item changes nothing.
    menu.process_event(&mut a, down());
    assert_eq!((menu.active_item, menu.scroll), (2, 1));
}

#[test]
fn menu_active_stays_inside_window() {
    let mut a = WidgetArena::new();
    let items = ["a", "b", "c", "d", "e", "f"];
    let mut menu = Menu::new(&mut a, 0, 0, 3, 10, &items, ListStyle::Dummy);
    let moves = [
        down(),
        down(),
        down(),
        down(),
        up(),
        up(),
        down(),
        up(),
        up(),
        up(),
        up(),
        down(),
    ];
    for e in moves {
        menu.process_event(&mut a, e);
        let visible = menu.visible_count(&a);
        assert!(menu.scroll <= menu.active_item);
        assert!(menu.active_item < menu.scroll + visible);
        assert!(menu.active_item < items.len());
    }
}

#[test]
fn menu_enter_and_space_commit_active() {
    let mut a = WidgetArena::new();
    let mut menu = Menu::new(&mut a, 0, 0, 3, 10, &["A", "B", "C"], ListStyle::Dummy);
    menu.process_event(&mut a, down());
    assert_eq!(menu.try_get_output(), None);
    menu.process_event(&mut a, Event::Key(Key::Char(' ')));
    assert_eq!(menu.try_get_output(), Some(1));
    assert_eq!(menu.get_output().unwrap(), 1);
}

#[test]
fn menu_escape_commits_last_item() {
    let mut a = WidgetArena::new();
    let mut menu = Menu::new(&mut a, 0, 0, 3, 10, &["A", "B", "C"], ListStyle::Dummy);
    menu.process_event(&mut a, Event::Key(Key::Esc));
    assert_eq!(menu.try_get_output(), Some(2));
}

#[test]
fn menu_not_ready_poisons_get_output() {
    let mut a = WidgetArena::new();
    let menu = Menu::new(&mut a, 0, 0, 3, 10, &["A"], ListStyle::Dummy);
    let err = menu.get_output().unwrap_err();
    assert_eq!(err.into_inner(), 0);
}

#[test]
fn menu_empty_is_inert() {
    let mut a = WidgetArena::new();
    let mut menu = Menu::new(&mut a, 0, 0, 3, 10, &[], ListStyle::Dummy);
    menu.process_event(&mut a, down());
    menu.process_event(&mut a, up());
    menu.process_event(&mut a, Event::Key(Key::Esc));
    // Enter and Space commit nothing either: an empty menu has no choice to
    // make.
    menu.process_event(&mut a, Event::Key(Key::Char('\n')));
    menu.process_event(&mut a, Event::Key(Key::Char(' ')));
    assert_eq!((menu.active_item, menu.scroll), (0, 0));
    assert_eq!(menu.try_get_output(), None);
}

#[test]
fn menu_zero_rows_is_inert() {
    let mut a = WidgetArena::new();
    let mut menu = Menu::new(&mut a, 0, 0, 0, 10, &["A", "B"], ListStyle::Dummy);
    menu.process_event(&mut a, down());
    menu.process_event(&mut a, Event::Key(Key::Char('\n')));
    menu.process_event(&mut a, Event::Key(Key::Esc));
    assert_eq!((menu.active_item, menu.scroll), (0, 0));
    assert_eq!(menu.try_get_output(), None);
}

#[test]
fn startmenu_delegates_to_menu() {
    let mut a = WidgetArena::new();
    let mut sm = StartMenu::new(&mut a, 0, 0, None, None, &["New", "Load", "Exit"]).unwrap();
    sm.process_event(&mut a, down());
    sm.process_event(&mut a, Event::Key(Key::Char('\n')));
    assert_eq!(sm.try_get_output(), Some(1));
}

#[test]
fn startmenu_refused_when_frame_too_small() {
    let mut a = WidgetArena::new();
    assert!(StartMenu::new(&mut a, 0, 0, Some(0), None, &["A"]).is_err());
    assert!(StartMenu::new(&mut a, 0, 0, None, Some(3), &["A"]).is_err());
}

#[test]
fn startmenu_translation_preserves_relative_layout() {
    let mut a = WidgetArena::new();
    let sm = StartMenu::new(&mut a, 1, 1, None, None, &["A", "B"]).unwrap();
    let frame_before = (a.bodies[sm.win.inner.id].start_y, a.bodies[sm.win.inner.id].start_x);
    let inner_before = (
        a.bodies[sm.menu.win.inner.id].start_y,
        a.bodies[sm.menu.win.inner.id].start_x,
    );
    sm.adjust_pos(&mut a, 3, 4);
    assert_eq!(
        (a.bodies[sm.win.inner.id].start_y, a.bodies[sm.win.inner.id].start_x),
        (frame_before.0 + 3, frame_before.1 + 4)
    );
    assert_eq!(
        (
            a.bodies[sm.menu.win.inner.id].start_y,
            a.bodies[sm.menu.win.inner.id].start_x
        ),
        (inner_before.0 + 3, inner_before.1 + 4)
    );
}
