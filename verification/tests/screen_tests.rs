use cwinui::inner::Widget;
use cwinui::inner::WidgetArena;
use cwinui::screen::Screen;
use cwinui::window::Window;

#[test]
fn higher_z_widget_wins_every_shared_cell() {
    // Two windows fully overlapping the same rect: after draw every shared
    // cell shows the z=2 widget's content, never the z=1 widget's.
    let mut a = WidgetArena::new();
    let wa = Window::new(&mut a, 1, 1, 3, 4);
    let wb = Window::new(&mut a, 1, 1, 3, 4);
    for y in 0..3 {
        for x in 0..4 {
            wa.putc(&mut a, y, x, 'A');
            wb.putc(&mut a, y, x, 'B');
        }
    }
    wa.share_inner().set_zindex(&mut a, 1);
    wb.share_inner().set_zindex(&mut a, 2);
    wa.share_inner().show(&mut a);
    wb.share_inner().show(&mut a);
    let mut screen = Screen::init(6, 8);
    // Registration order deliberately puts the higher-z widget first: the
    // stable z-sort must still paint it last.
    screen.add_widget(&wb);
    screen.add_widget(&wa);
    screen.draw(&mut a);
    for y in 1..4 {
        for x in 1..5 {
            assert_eq!(screen.cell(y, x), 'B');
        }
    }
    // Cells nobody covers stay blank.
    assert_eq!(screen.cell(0, 0), ' ');
    assert_eq!(screen.cell(5, 7), ' ');
}

#[test]
fn toggled_border_window_frames_the_screen() {
    // A full-screen window with an all-'#' border: after the toggle and a
    // draw, row 0 is all '#' and the cell at (1,1) holds what sat at (0,0)
    // before the toggle.
    let mut a = WidgetArena::new();
    let mut win = Window::new(&mut a, 0, 0, 24, 80);
    win.set_border(&mut a, ('#', '#', '#', '#', '#', '#'));
    win.putc(&mut a, 0, 0, '@');
    assert!(win.toggle_border(&mut a).is_ok());
    win.share_inner().show(&mut a);
    let mut screen = Screen::init(24, 80);
    screen.add_widget(&win);
    screen.draw(&mut a);
    for x in 0..80 {
        assert_eq!(screen.cell(0, x), '#');
        assert_eq!(screen.cell(23, x), '#');
    }
    for y in 0..24 {
        assert_eq!(screen.cell(y, 0), '#');
        assert_eq!(screen.cell(y, 79), '#');
    }
    assert_eq!(screen.cell(1, 1), '@');
}

#[test]
fn hidden_widgets_are_skipped() {
    let mut a = WidgetArena::new();
    let win = Window::new(&mut a, 0, 0, 2, 2);
    win.putc(&mut a, 0, 0, 'X');
    // Widgets start hidden; an unrevealed widget paints nothing.
    let mut screen = Screen::init(2, 2);
    screen.add_widget(&win);
    screen.draw(&mut a);
    assert_eq!(screen.cell(0, 0), ' ');
    win.share_inner().show(&mut a);
    screen.draw(&mut a);
    assert_eq!(screen.cell(0, 0), 'X');
}

#[test]
fn transparent_cells_let_lower_content_through() {
    let mut a = WidgetArena::new();
    let low = Window::new(&mut a, 0, 0, 1, 2);
    let high = Window::new(&mut a, 0, 0, 1, 2);
    low.putc(&mut a, 0, 0, 'l');
    low.putc(&mut a, 0, 1, 'l');
    high.putc(&mut a, 0, 1, 'h');
    low.share_inner().set_zindex(&mut a, 1);
    high.share_inner().set_zindex(&mut a, 2);
    low.share_inner().show(&mut a);
    high.share_inner().show(&mut a);
    let mut screen = Screen::init(1, 2);
    screen.add_widget(&low);
    screen.add_widget(&high);
    screen.draw(&mut a);
    // The higher widget's transparent cell shows the lower one's content.
    assert_eq!(screen.cell(0, 0), 'l');
    assert_eq!(screen.cell(0, 1), 'h');
}

#[test]
fn off_screen_widgets_are_clipped() {
    let mut a = WidgetArena::new();
    let partial = Window::new(&mut a, 1, 2, 2, 2);
    for y in 0..2 {
        for x in 0..2 {
            partial.putc(&mut a, y, x, 'p');
        }
    }
    partial.share_inner().show(&mut a);
    let fully_out = Window::new(&mut a, 9, 9, 2, 2);
    fully_out.putc(&mut a, 0, 0, 'q');
    fully_out.share_inner().show(&mut a);
    let mut screen = Screen::init(2, 3);
    screen.add_widget(&partial);
    screen.add_widget(&fully_out);
    screen.draw(&mut a);
    assert_eq!(screen.cell(1, 2), 'p');
    assert_eq!(screen.cell(0, 2), ' ');
    for y in 0..2 {
        for x in 0..3 {
            assert_ne!(screen.cell(y, x), 'q');
        }
    }
}

#[test]
fn subwidgets_paint_over_their_parent() {
    let mut a = WidgetArena::new();
    let parent = Window::new(&mut a, 0, 0, 2, 2);
    let child = Window::new(&mut a, 0, 0, 1, 1);
    parent.share_inner().add_subwidget(&mut a, child.share_inner());
    for y in 0..2 {
        for x in 0..2 {
            parent.putc(&mut a, y, x, 'P');
        }
    }
    child.putc(&mut a, 0, 0, 'C');
    parent.share_inner().show(&mut a);
    child.share_inner().show(&mut a);
    let mut screen = Screen::init(2, 2);
    screen.add_widget(&parent);
    screen.draw(&mut a);
    assert_eq!(screen.cell(0, 0), 'C');
    assert_eq!(screen.cell(0, 1), 'P');
}

#[test]
fn cursor_tracks_last_visible_widget() {
    let mut a = WidgetArena::new();
    let win = Window::new(&mut a, 1, 1, 2, 3);
    win.share_inner().show(&mut a);
    win.share_inner().move_cursor(&mut a, 1, 2);
    win.share_inner().show_cursor(&mut a);
    let mut screen = Screen::init(5, 6);
    screen.add_widget(&win);
    screen.draw(&mut a);
    assert!(!screen.cursor.hidden);
    assert_eq!((screen.cursor.y, screen.cursor.x), (2, 3));
}

#[test]
fn rm_widget_unregisters_by_identity() {
    let mut a = WidgetArena::new();
    let w1 = Window::new(&mut a, 0, 0, 1, 1);
    let w2 = Window::new(&mut a, 0, 0, 1, 1);
    w1.putc(&mut a, 0, 0, '1');
    w2.putc(&mut a, 0, 0, '2');
    w1.share_inner().set_zindex(&mut a, 2);
    w2.share_inner().set_zindex(&mut a, 1);
    w1.share_inner().show(&mut a);
    w2.share_inner().show(&mut a);
    let mut screen = Screen::init(1, 1);
    screen.add_widget(&w1);
    screen.add_widget(&w2);
    screen.draw(&mut a);
    assert_eq!(screen.cell(0, 0), '1');
    screen.rm_widget(&w1);
    screen.draw(&mut a);
    assert_eq!(screen.cell(0, 0), '2');
}

#[test]
fn hidden_subwidgets_are_skipped_with_their_children() {
    let mut a = WidgetArena::new();
    let parent = Window::new(&mut a, 0, 0, 1, 1);
    let child = Window::new(&mut a, 0, 0, 1, 1);
    parent.share_inner().add_subwidget(&mut a, child.share_inner());
    parent.putc(&mut a, 0, 0, 'P');
    child.putc(&mut a, 0, 0, 'C');
    parent.share_inner().show(&mut a);
    // The child stays hidden: only the parent's content shows.
    let mut screen = Screen::init(1, 1);
    screen.add_widget(&parent);
    screen.draw(&mut a);
    assert_eq!(screen.cell(0, 0), 'P');
}
