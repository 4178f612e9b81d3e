//! Files dropped onto the window, and where on its frame the mouse is.

use crate::order::models;
use crate::paths::{FilePath, PathModel};
use crate::playback::VIDEO_MODE;
use vstd::prelude::*;

verus! {

/// Width of the invisible edge zone (in physical px) used for resize
/// hit-testing.
pub const RESIZE_BORDER: i32 = 6;

/// Paths dropped onto the window, awaiting drain by the UI thread.
pub struct Inbox {
    pub paths: Vec<FilePath>,
}

impl View for Inbox {
    type V = Seq<PathModel>;

    open spec fn view(&self) -> Seq<PathModel> {
        models(self.paths@)
    }
}

impl Inbox {
    pub fn new() -> (r: Inbox)
        ensures
            r@ == Seq::<PathModel>::empty(),
    {
        let r = Inbox { paths: Vec::new() };
        assert(r@ =~= Seq::<PathModel>::empty());
        r
    }

    /// Files were dropped.
    pub fn dropped(&mut self, paths: Vec<FilePath>)
        ensures
            final(self)@ == old(self)@ + models(paths@),
    {
        let ghost before = self@;
        let ghost more = models(paths@);
        let mut paths = paths;
        self.paths.append(&mut paths);
        assert(self@ =~= before + more);
    }

    /// Drain all queued dropped paths. Called by the UI-thread timer.
    pub fn take_dropped(&mut self) -> (r: Vec<FilePath>)
        ensures
            models(r@) == old(self)@,
            final(self)@ == Seq::<PathModel>::empty(),
    {
        let mut r: Vec<FilePath> = Vec::new();
        std::mem::swap(&mut r, &mut self.paths);
        assert(self@ =~= Seq::<PathModel>::empty());
        r
    }
}

/// A point of the screen.
#[derive(Clone, Copy, PartialEq, Eq, Structural, Debug)]
pub struct Point {
    pub x: i32,
    pub y: i32,
}

/// The window on the screen.
#[derive(Clone, Copy, PartialEq, Eq, Structural, Debug)]
pub struct Frame {
    pub left: i32,
    pub top: i32,
    pub right: i32,
    pub bottom: i32,
}

/// Where on the window the mouse is.
#[derive(Clone, Copy, PartialEq, Eq, Structural, Debug)]
pub enum Hit {
    TopLeft,
    TopRight,
    BottomLeft,
    BottomRight,
    Left,
    Right,
    Top,
    Bottom,
    /// The title bar, less the window buttons: Windows drags the window.
    Caption,
    /// Anything else: the default handler classifies it.
    Inside,
}

/// Where on the window a point is. Edges come before the title bar, corners
/// before edges.
pub open spec fn hit_of(p: Point, f: Frame, titlebar: i32, buttons: i32) -> Hit {
    let left = p.x < f.left + RESIZE_BORDER;
    let right = p.x >= f.right - RESIZE_BORDER;
    let top = p.y < f.top + RESIZE_BORDER;
    let bottom = p.y >= f.bottom - RESIZE_BORDER;
    if top && left {
        Hit::TopLeft
    } else if top && right {
        Hit::TopRight
    } else if bottom && left {
        Hit::BottomLeft
    } else if bottom && right {
        Hit::BottomRight
    } else if left {
        Hit::Left
    } else if right {
        Hit::Right
    } else if top {
        Hit::Top
    } else if bottom {
        Hit::Bottom
    } else if p.y < f.top + titlebar && p.x < f.right - buttons {
        Hit::Caption
    } else {
        Hit::Inside
    }
}

/// Where on the window the mouse is. The frameless window has no native border,
/// so the resize grips are made up: a point within [`RESIZE_BORDER`] of an edge
/// hits it. The title bar is `titlebar` high, and the window buttons at its right
/// are `buttons` wide.
pub fn hit_test(p: Point, f: Frame, titlebar: i32, buttons: i32) -> (r: Hit)
    ensures
        r == hit_of(p, f, titlebar, buttons),
{
    let border: i64 = RESIZE_BORDER as i64;
    let left = (p.x as i64) < f.left as i64 + border;
    let right = p.x as i64 >= f.right as i64 - border;
    let top = (p.y as i64) < f.top as i64 + border;
    let bottom = p.y as i64 >= f.bottom as i64 - border;
    if top && left {
        Hit::TopLeft
    } else if top && right {
        Hit::TopRight
    } else if bottom && left {
        Hit::BottomLeft
    } else if bottom && right {
        Hit::BottomRight
    } else if left {
        Hit::Left
    } else if right {
        Hit::Right
    } else if top {
        Hit::Top
    } else if bottom {
        Hit::Bottom
    } else if (p.y as i64) < f.top as i64 + titlebar as i64 && (p.x as i64) < f.right as i64
        - buttons as i64 {
        Hit::Caption
    } else {
        Hit::Inside
    }
}

/// A 16-bit word as the signed number it stands for.
pub open spec fn signed(word: int) -> int {
    if word < 0x8000 {
        word
    } else {
        word - 0x10000
    }
}

/// The point that a message carries: x in its low word, y in the next.
pub fn unpack_point(packed: u32) -> (r: Point)
    ensures
        r.x == signed(packed as int % 0x10000),
        r.y == signed(packed as int / 0x10000),
{
    let x: u32 = packed % 0x10000;
    let y: u32 = packed / 0x10000;
    Point {
        x: if x < 0x8000 {
            x as i32
        } else {
            x as i32 - 0x10000
        },
        y: if y < 0x8000 {
            y as i32
        } else {
            y as i32 - 0x10000
        },
    }
}

/// Where dropped paths go.
#[derive(Clone, Copy, PartialEq, Eq, Structural, Debug)]
pub enum Route {
    /// To the media import.
    Import,
    /// To the file list.
    Images,
    /// Nowhere: adding rows would leave a running batch with the wrong ones.
    Ignore,
}

/// Where paths dropped in a mode go: media in the Videos mode, images in the
/// other, but not while a batch is running.
pub fn route_drop(mode: i32, running: bool) -> (r: Route)
    ensures
        r == if mode == VIDEO_MODE {
            Route::Import
        } else if running {
            Route::Ignore
        } else {
            Route::Images
        },
{
    if mode == VIDEO_MODE {
        Route::Import
    } else if running {
        Route::Ignore
    } else {
        Route::Images
    }
}

/// A point within six pixels of an edge hits that edge, and at two edges their
/// corner: the left one before the right, the top one before the bottom. A point at
/// no edge hits the caption where it is in the title bar and left of the buttons.
pub proof fn a_point_hits_the_edges_it_is_at(p: Point, f: Frame, titlebar: i32, buttons: i32, r: Hit)
    requires
        call_ensures(hit_test, (p, f, titlebar, buttons), r),
    ensures
        r is TopLeft || r is Left || r is BottomLeft <==> p.x < f.left + 6,
        r is TopRight || r is Right || r is BottomRight <==> p.x >= f.right - 6 && p.x >= f.left
            + 6,
        r is TopLeft || r is Top || r is TopRight <==> p.y < f.top + 6,
        r is BottomLeft || r is Bottom || r is BottomRight <==> p.y >= f.bottom - 6 && p.y >= f.top
            + 6,
        r is Caption <==> {
            &&& f.left + 6 <= p.x < f.right - 6
            &&& f.top + 6 <= p.y < f.bottom - 6
            &&& p.y < f.top + titlebar
            &&& p.x < f.right - buttons
        },
{
}

/// A point is packed as two words, each a signed number: x in the low one, y in the
/// next.
pub proof fn a_point_is_packed_as_two_words(packed: u32, r: Point)
    requires
        call_ensures(unpack_point, (packed,), r),
    ensures
        -32768 <= r.x < 32768,
        -32768 <= r.y < 32768,
        packed == (r.x as int) % 65536 + 65536 * ((r.y as int) % 65536),
{
}

/// Drops go to the media import in the Videos mode, whether a batch runs or not; in
/// any other mode to the file list, but nowhere while a batch runs.
pub proof fn drops_go_to_the_mode_they_fall_in(mode: i32, running: bool, r: Route)
    requires
        call_ensures(route_drop, (mode, running), r),
    ensures
        r is Import <==> mode == 1,
        r is Images <==> mode != 1 && !running,
        r is Ignore <==> mode != 1 && running,
{
}

/// What was dropped is drained once, all of it, in the order in which it was
/// dropped.
pub proof fn what_was_dropped_is_drained_once(
    inbox: &mut Inbox,
    paths: Vec<FilePath>,
    full: &mut Inbox,
    r: Vec<FilePath>,
)
    requires
        call_ensures(Inbox::dropped, (inbox, paths), ()),
        call_ensures(Inbox::take_dropped, (full,), r),
        old(full).paths@ == final(inbox).paths@,
    ensures
        r.len() == old(inbox).paths.len() + paths.len(),
        forall|i: int|
            0 <= i < old(inbox).paths.len() ==> (#[trigger] r[i])@ == old(inbox).paths[i]@,
        forall|i: int|
            old(inbox).paths.len() <= i < r.len() ==> (#[trigger] r[i])@ == paths[i - old(inbox).paths.len()]@,
        final(full).paths.len() == 0,
{
    let all = models(r@);
    assert(all == models(old(inbox).paths@) + models(paths@));
    assert(all.len() == r.len());
    assert(models(final(full).paths@).len() == final(full).paths.len());
    assert forall|i: int| 0 <= i < r.len() implies (#[trigger] r[i])@ == all[i] by {}
}

} // verus!
