//! How big the window opens: what it asks for, unless the desktop is smaller.

use vstd::prelude::*;

verus! {

/// The smallest size of the window. Below this the layout breaks, so a small
/// desktop gets a window it can scroll rather than one it cannot use.
pub const MIN_W: u32 = 860;

pub const MIN_H: u32 = 560;

/// One side of the window: what it asked for, capped to the desktop's, floored
/// at what the layout needs.
pub open spec fn side(want: u32, area: u32, min: u32) -> u32 {
    let capped = if want < area {
        want
    } else {
        area
    };
    if capped > min {
        capped
    } else {
        min
    }
}

fn fit(want: u32, area: u32, min: u32) -> (r: u32)
    ensures
        r == side(want, area, min),
{
    let capped: u32 = if want < area {
        want
    } else {
        area
    };
    if capped > min {
        capped
    } else {
        min
    }
}

/// What the window should open at: what it asked for, capped to the desktop's
/// usable area, floored at the size the layout needs.
pub fn opening_size(want_w: u32, want_h: u32, area_w: u32, area_h: u32) -> (r: (u32, u32))
    ensures
        r == (side(want_w, area_w, MIN_W), side(want_h, area_h, MIN_H)),
{
    (fit(want_w, area_w, MIN_W), fit(want_h, area_h, MIN_H))
}

/// A window never hangs off a desktop that has room for its layout, is never
/// smaller than its layout, and is never grown to fill the desktop.
pub proof fn a_window_fits(want: u32, area: u32, min: u32)
    ensures
        side(want, area, min) >= min,
        area >= min ==> side(want, area, min) <= area,
        want >= min ==> side(want, area, min) <= want,
{
}

/// The window opens at the size it asks for. Where the desktop is smaller it opens at
/// the desktop's, and never below 860 by 560.
pub proof fn the_window_opens_as_asked_for(
    want_w: u32,
    want_h: u32,
    area_w: u32,
    area_h: u32,
    r: (u32, u32),
)
    requires
        call_ensures(opening_size, (want_w, want_h, area_w, area_h), r),
    ensures
        860 <= want_w <= area_w ==> r.0 == want_w,
        560 <= want_h <= area_h ==> r.1 == want_h,
        860 <= area_w < want_w ==> r.0 == area_w,
        560 <= area_h < want_h ==> r.1 == area_h,
        want_w < 860 || area_w < 860 ==> r.0 == 860,
        want_h < 560 || area_h < 560 ==> r.1 == 560,
{
}

} // verus!
