//! Pure alignment algebra: placing a follower rectangle against an anchor
//! rectangle under one of nine corner / edge / centre policies.

use vstd::prelude::*;

verus! {

/// The nine standard alignment policies.
pub enum Align {
    TopLeft,
    TopCentre,
    TopRight,
    CentreLeft,
    Centre,
    CentreRight,
    BottomLeft,
    BottomCentre,
    BottomRight,
}

/// Named text placement policies inside a widget's content area: a fixed-row
/// horizontal rule, a fixed-column vertical rule, and nine combined shortcuts.
pub enum Justify {
    HCentre(u32),
    VCentre(u32),
    Left(u32),
    Right(u32),
    Top(u32),
    Bottom(u32),
    TopLeft,
    TopCentre,
    TopRight,
    CentreLeft,
    Centre,
    CentreRight,
    BottomLeft,
    BottomCentre,
    BottomRight,
}

/// A rectangle in the screen's coordinate space: origin and size.
pub struct Rect {
    pub y: u32,
    pub x: u32,
    pub height: usize,
    pub width: usize,
}

/// The centre cell of a rectangle: origin plus half the size, pulled back by
/// one where that is possible.
pub open spec fn spec_centre(y: int, x: int, h: int, w: int) -> (int, int) {
    let cy = y + h / 2;
    let cx = x + w / 2;
    ((if cy > 0 {
        cy - 1
    } else {
        cy
    }), (if cx > 0 {
        cx - 1
    } else {
        cx
    }))
}

/// The centre cell of a rectangle.
pub fn rect_centre(r: &Rect) -> (c: (u32, u32))
    requires
        r.y + r.height / 2 <= u32::MAX,
        r.x + r.width / 2 <= u32::MAX,
    ensures
        (c.0 as int, c.1 as int) == spec_centre(r.y as int, r.x as int, r.height as int, r.width as int),
{
    let mut cy: u32 = r.y + (r.height / 2) as u32;
    let mut cx: u32 = r.x + (r.width / 2) as u32;
    if cy > 0 {
        cy = cy - 1;
    }
    if cx > 0 {
        cx = cx - 1;
    }
    (cy, cx)
}

/// Start coordinate on one axis when the follower is centred on the anchor.
/// A follower at least as large as the anchor sits flush at the anchor's start.
pub open spec fn axis_centre(anchor_start: int, anchor_len: int, follower_len: int) -> int {
    if follower_len >= anchor_len {
        anchor_start
    } else {
        anchor_start + (anchor_len - follower_len) / 2
    }
}

/// Start coordinate on one axis when the follower is aligned to the anchor's
/// far edge. A follower at least as large as the anchor sits flush at the
/// anchor's start.
pub open spec fn axis_end(anchor_start: int, anchor_len: int, follower_len: int) -> int {
    if follower_len >= anchor_len {
        anchor_start
    } else {
        anchor_start + (anchor_len - follower_len)
    }
}

/// The origin `(y, x)` that `align` computes for the given policy.
pub open spec fn spec_align(
    a: Align,
    follower_height: int,
    follower_width: int,
    anchor_y: int,
    anchor_x: int,
    anchor_height: int,
    anchor_width: int,
) -> (int, int) {
    let top = anchor_y;
    let left = anchor_x;
    let vcentre = axis_centre(anchor_y, anchor_height, follower_height);
    let hcentre = axis_centre(anchor_x, anchor_width, follower_width);
    let bottom = axis_end(anchor_y, anchor_height, follower_height);
    let right = axis_end(anchor_x, anchor_width, follower_width);
    match a {
        Align::TopLeft => (top, left),
        Align::TopCentre => (top, hcentre),
        Align::TopRight => (top, right),
        Align::CentreLeft => (vcentre, left),
        Align::Centre => (vcentre, hcentre),
        Align::CentreRight => (vcentre, right),
        Align::BottomLeft => (bottom, left),
        Align::BottomCentre => (bottom, hcentre),
        Align::BottomRight => (bottom, right),
    }
}

/// Place a follower rectangle of size `follower_height` x `follower_width`
/// against the anchor rectangle under policy `a`, returning the follower's
/// origin `(y, x)`.
pub fn align(
    a: Align,
    follower_height: usize,
    follower_width: usize,
    anchor_y: u32,
    anchor_x: u32,
    anchor_height: usize,
    anchor_width: usize,
) -> (r: (u32, u32))
    requires
        anchor_y + anchor_height <= u32::MAX,
        anchor_x + anchor_width <= u32::MAX,
    ensures
        (r.0 as int, r.1 as int) == spec_align(
            a,
            follower_height as int,
            follower_width as int,
            anchor_y as int,
            anchor_x as int,
            anchor_height as int,
            anchor_width as int,
        ),
{
    let y: u32;
    let x: u32;
    match a {
        Align::TopLeft => {
            y = anchor_y;
            x = anchor_x;
        },
        Align::TopCentre => {
            y = anchor_y;
            x = centre_coord(anchor_x, anchor_width, follower_width);
        },
        Align::TopRight => {
            y = anchor_y;
            x = end_coord(anchor_x, anchor_width, follower_width);
        },
        Align::CentreLeft => {
            y = centre_coord(anchor_y, anchor_height, follower_height);
            x = anchor_x;
        },
        Align::Centre => {
            y = centre_coord(anchor_y, anchor_height, follower_height);
            x = centre_coord(anchor_x, anchor_width, follower_width);
        },
        Align::CentreRight => {
            y = centre_coord(anchor_y, anchor_height, follower_height);
            x = end_coord(anchor_x, anchor_width, follower_width);
        },
        Align::BottomLeft => {
            y = end_coord(anchor_y, anchor_height, follower_height);
            x = anchor_x;
        },
        Align::BottomCentre => {
            y = end_coord(anchor_y, anchor_height, follower_height);
            x = centre_coord(anchor_x, anchor_width, follower_width);
        },
        Align::BottomRight => {
            y = end_coord(anchor_y, anchor_height, follower_height);
            x = end_coord(anchor_x, anchor_width, follower_width);
        },
    }
    (y, x)
}

/// One axis of `align`, centring rule.
fn centre_coord(anchor_start: u32, anchor_len: usize, follower_len: usize) -> (r: u32)
    requires
        anchor_start + anchor_len <= u32::MAX,
    ensures
        r as int == axis_centre(anchor_start as int, anchor_len as int, follower_len as int),
{
    if follower_len >= anchor_len {
        anchor_start
    } else {
        anchor_start + ((anchor_len - follower_len) as u32) / 2
    }
}

/// One axis of `align`, far-edge rule.
fn end_coord(anchor_start: u32, anchor_len: usize, follower_len: usize) -> (r: u32)
    requires
        anchor_start + anchor_len <= u32::MAX,
    ensures
        r as int == axis_end(anchor_start as int, anchor_len as int, follower_len as int),
{
    if follower_len >= anchor_len {
        anchor_start
    } else {
        anchor_start + (anchor_len - follower_len) as u32
    }
}

/// For every anchor of positive size and every policy, the computed origin is
/// never before the anchor's origin, and a follower that fits on an axis ends
/// on or before the anchor's far edge on that axis; one that does not fit sits
/// flush at the anchor's start.
pub proof fn lemma_align_within_anchor(
    a: Align,
    follower_height: int,
    follower_width: int,
    anchor_y: int,
    anchor_x: int,
    anchor_height: int,
    anchor_width: int,
)
    requires
        anchor_height >= 1,
        anchor_width >= 1,
        anchor_y >= 0,
        anchor_x >= 0,
        follower_height >= 0,
        follower_width >= 0,
    ensures
        ({
            let (y, x) = spec_align(
                a,
                follower_height,
                follower_width,
                anchor_y,
                anchor_x,
                anchor_height,
                anchor_width,
            );
            &&& y >= anchor_y
            &&& x >= anchor_x
            &&& follower_height <= anchor_height ==> y + follower_height <= anchor_y
                + anchor_height
            &&& follower_width <= anchor_width ==> x + follower_width <= anchor_x + anchor_width
            &&& follower_height > anchor_height ==> y == anchor_y
            &&& follower_width > anchor_width ==> x == anchor_x
        }),
{
    assert(follower_height < anchor_height ==> 0 <= (anchor_height - follower_height) / 2
        <= anchor_height - follower_height);
    assert(follower_width < anchor_width ==> 0 <= (anchor_width - follower_width) / 2
        <= anchor_width - follower_width);
}

} // verus!
