use cwinui::widget::Widget;

#[test]
fn widget_handles_equal() {
    let mut a = Widget::new(0, 0, 0, 0);
    let mut b = Widget::new(0, 0, 0, 0);
    a.set_zindex(1);
    b.set_zindex(1);

    assert!(a == b);
}

#[test]
fn widget_handles_not_equal() {
    let mut a = Widget::new(0, 0, 0, 0);
    let mut b = Widget::new(0, 0, 0, 0);
    a.set_zindex(1);
    b.set_zindex(2);

    assert!(a != b);
}

#[test]
fn widget_handles_greater() {
    let mut a = Widget::new(0, 0, 0, 0);
    let mut b = Widget::new(0, 0, 0, 0);
    a.set_zindex(2);
    b.set_zindex(1);

    assert!(a > b);
}

#[test]
fn widget_handles_smaller_or_eq() {
    let mut a = Widget::new(0, 0, 0, 0);
    let mut b = Widget::new(0, 0, 0, 0);
    a.set_zindex(0);
    b.set_zindex(1);

    assert!(a <= b);
}

#[test]
fn widget_handles_sort() {
    let mut a = Widget::new(0, 0, 0, 0);
    let mut b = Widget::new(0, 0, 0, 0);
    let mut c = Widget::new(0, 0, 0, 0);
    let mut d = Widget::new(0, 0, 0, 0);
    let mut e = Widget::new(0, 0, 0, 0);
    let mut f = Widget::new(0, 0, 0, 0);
    let mut g = Widget::new(0, 0, 0, 0);
    a.set_zindex(0);
    b.set_zindex(1);
    c.set_zindex(7);
    d.set_zindex(3);
    e.set_zindex(9);
    f.set_zindex(4);
    g.set_zindex(2);

    let mut vector = vec![a, b, c, d, e, f, g];
    vector.sort();

    let mut last_z = 0;

    for w in vector {
        assert!(last_z <= w.z_index);
        last_z = w.z_index;
    }
}

#[test]
fn widget_putc_and_border_offset() {
    let mut w = Widget::new(0, 0, 4, 6);
    w.putc(0, 0, 'x');
    assert_eq!(w.buffer[0][0], 'x');
    assert!(w.toggle_border().is_ok());
    assert!(w.has_border);
    // Content writes now land one cell in.
    w.putc(0, 0, 'y');
    assert_eq!(w.buffer[1][1], 'y');
    // Writes outside the content area are dropped.
    w.putc(2, 4, 'z');
    for row in &w.buffer {
        for c in row {
            assert_ne!(*c, 'z');
        }
    }
}

#[test]
fn widget_toggle_border_too_small() {
    let mut w = Widget::new(0, 0, 1, 1);
    assert!(w.toggle_border().is_err());
    assert!(!w.has_border);
}

#[test]
fn widget_print_truncates_at_edge() {
    let mut w = Widget::new(0, 0, 1, 4);
    w.print(0, 2, "abcdef");
    assert_eq!(w.buffer[0][2], 'a');
    assert_eq!(w.buffer[0][3], 'b');
    assert_eq!(w.buffer[0][0], '\0');
    assert_eq!(w.buffer[0][1], '\0');
}

#[test]
fn widget_clear_resets_cells() {
    let mut w = Widget::new(0, 0, 2, 2);
    w.putc(1, 1, 'q');
    w.clear();
    for row in &w.buffer {
        for c in row {
            assert_eq!(*c, '\0');
        }
    }
}
