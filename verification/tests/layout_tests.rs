use cwinui::layout::{align, rect_centre, Align, Rect};

#[test]
fn align_corners_and_centre() {
    // Anchor at (10, 20), 8 rows by 12 columns; follower 2 by 4.
    assert_eq!(align(Align::TopLeft, 2, 4, 10, 20, 8, 12), (10, 20));
    assert_eq!(align(Align::TopCentre, 2, 4, 10, 20, 8, 12), (10, 24));
    assert_eq!(align(Align::TopRight, 2, 4, 10, 20, 8, 12), (10, 28));
    assert_eq!(align(Align::CentreLeft, 2, 4, 10, 20, 8, 12), (13, 20));
    assert_eq!(align(Align::Centre, 2, 4, 10, 20, 8, 12), (13, 24));
    assert_eq!(align(Align::CentreRight, 2, 4, 10, 20, 8, 12), (13, 28));
    assert_eq!(align(Align::BottomLeft, 2, 4, 10, 20, 8, 12), (16, 20));
    assert_eq!(align(Align::BottomCentre, 2, 4, 10, 20, 8, 12), (16, 24));
    assert_eq!(align(Align::BottomRight, 2, 4, 10, 20, 8, 12), (16, 28));
}

#[test]
fn align_oversized_follower_sits_flush() {
    // A follower at least as large as the anchor sits at the anchor's start
    // on that axis, never at a negative offset.
    for policy in [
        Align::TopLeft,
        Align::TopCentre,
        Align::TopRight,
        Align::CentreLeft,
        Align::Centre,
        Align::CentreRight,
        Align::BottomLeft,
        Align::BottomCentre,
        Align::BottomRight,
    ] {
        let (y, x) = align(policy, 9, 30, 5, 7, 4, 6);
        assert_eq!((y, x), (5, 7));
    }
}

#[test]
fn align_follower_stays_within_anchor() {
    for policy in [
        Align::TopLeft,
        Align::TopCentre,
        Align::TopRight,
        Align::CentreLeft,
        Align::Centre,
        Align::CentreRight,
        Align::BottomLeft,
        Align::BottomCentre,
        Align::BottomRight,
    ] {
        let (y, x) = align(policy, 3, 5, 2, 4, 10, 9);
        assert!(y >= 2 && x >= 4);
        assert!(y as usize + 3 <= 2 + 10);
        assert!(x as usize + 5 <= 4 + 9);
    }
}

#[test]
fn centre_of_rect() {
    let r = Rect { y: 0, x: 0, height: 24, width: 80 };
    assert_eq!(rect_centre(&r), (11, 39));
    let tiny = Rect { y: 0, x: 0, height: 1, width: 1 };
    assert_eq!(rect_centre(&tiny), (0, 0));
}
