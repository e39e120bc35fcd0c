use cwinui::inner::WidgetArena;
use cwinui::layout::Justify;
use cwinui::window::Window;

fn cell(a: &WidgetArena, win: &Window, y: usize, x: usize) -> char {
    a.bodies[win.inner.id].buffer[y][x]
}

#[test]
fn toggle_border_round_trip_restores_content() {
    let mut a = WidgetArena::new();
    let mut win = Window::new(&mut a, 0, 0, 6, 10);
    win.set_border(&mut a, ('#', '#', '#', '#', '#', '#'));
    // Content confined to the area the border round trip preserves.
    win.putc(&mut a, 0, 0, 'H');
    win.putc(&mut a, 1, 2, 'i');
    win.putc(&mut a, 3, 7, '!');
    let before: Vec<Vec<char>> = a.bodies[win.inner.id].buffer.clone();
    assert!(win.toggle_border(&mut a).is_ok());
    assert!(win.toggle_border(&mut a).is_ok());
    assert_eq!(a.bodies[win.inner.id].buffer, before);
}

#[test]
fn toggle_border_shifts_content_in() {
    let mut a = WidgetArena::new();
    let mut win = Window::new(&mut a, 0, 0, 5, 8);
    win.set_border(&mut a, ('-', '|', '+', '+', '+', '+'));
    win.putc(&mut a, 0, 0, 'X');
    assert!(win.toggle_border(&mut a).is_ok());
    // The old (0,0) content moved one cell in; the border landed on the edge.
    assert_eq!(cell(&a, &win, 1, 1), 'X');
    assert_eq!(cell(&a, &win, 0, 0), '+');
    assert_eq!(cell(&a, &win, 0, 3), '-');
    assert_eq!(cell(&a, &win, 2, 0), '|');
}

#[test]
fn toggle_border_refused_when_too_small() {
    let mut a = WidgetArena::new();
    let mut win = Window::new(&mut a, 0, 0, 1, 10);
    assert!(win.toggle_border(&mut a).is_err());
    assert!(!win.has_border);
}

#[test]
fn printj_places_text() {
    let mut a = WidgetArena::new();
    let win = Window::new(&mut a, 0, 0, 3, 11);
    win.printj(&mut a, Justify::HCentre(0), "abc");
    assert_eq!(cell(&a, &win, 0, 4), 'a');
    assert_eq!(cell(&a, &win, 0, 5), 'b');
    assert_eq!(cell(&a, &win, 0, 6), 'c');
    win.printj(&mut a, Justify::Right(1), "xy");
    assert_eq!(cell(&a, &win, 1, 9), 'x');
    assert_eq!(cell(&a, &win, 1, 10), 'y');
    win.printj(&mut a, Justify::BottomLeft, "z");
    assert_eq!(cell(&a, &win, 2, 0), 'z');
}

#[test]
fn print_clips_and_ignores_out_of_range() {
    let mut a = WidgetArena::new();
    let win = Window::new(&mut a, 0, 0, 2, 4);
    win.print(&mut a, 0, 2, "long text");
    assert_eq!(cell(&a, &win, 0, 2), 'l');
    assert_eq!(cell(&a, &win, 0, 3), 'o');
    win.print(&mut a, 9, 0, "dropped");
    win.putc(&mut a, 0, 9, 'd');
    for y in 0..2 {
        for x in 0..4 {
            assert_ne!(cell(&a, &win, y, x), 'd');
        }
    }
}

#[test]
fn clear_redraws_border() {
    let mut a = WidgetArena::new();
    let mut win = Window::new(&mut a, 0, 0, 4, 4);
    win.set_border(&mut a, ('=', '!', '1', '2', '3', '4'));
    assert!(win.toggle_border(&mut a).is_ok());
    win.putc(&mut a, 0, 0, 'c');
    win.clear(&mut a);
    assert_eq!(cell(&a, &win, 1, 1), '\0');
    assert_eq!(cell(&a, &win, 0, 0), '1');
    assert_eq!(cell(&a, &win, 0, 3), '2');
    assert_eq!(cell(&a, &win, 3, 3), '3');
    assert_eq!(cell(&a, &win, 3, 0), '4');
    assert_eq!(cell(&a, &win, 0, 1), '=');
    assert_eq!(cell(&a, &win, 1, 0), '!');
}

#[test]
fn clearln_blanks_one_row() {
    let mut a = WidgetArena::new();
    let win = Window::new(&mut a, 0, 0, 3, 5);
    win.print(&mut a, 0, 0, "aaaaa");
    win.print(&mut a, 1, 0, "bbbbb");
    win.clearln(&mut a, 0);
    for x in 0..5 {
        assert_eq!(cell(&a, &win, 0, x), '\0');
        assert_eq!(cell(&a, &win, 1, x), 'b');
    }
}
