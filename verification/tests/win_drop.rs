use kuvatin::paths::{FilePath, Part};
use kuvatin::win_drop::{hit_test, route_drop, unpack_point, Frame, Hit, Inbox, Point, Route};

fn p(name: &str) -> FilePath {
    FilePath {
        parts: vec![Part::Name(name.chars().map(|c| c as u32).collect())],
    }
}

#[test]
fn dropped_paths_are_handed_out_once() {
    let mut inbox = Inbox::new();
    assert!(inbox.take_dropped().is_empty());
    inbox.dropped(vec![p("a.png")]);
    inbox.dropped(vec![p("b.png"), p("c.png")]);
    assert_eq!(
        inbox.take_dropped(),
        vec![p("a.png"), p("b.png"), p("c.png")]
    );
    assert!(inbox.take_dropped().is_empty());
}

#[test]
fn the_edges_resize_and_the_title_bar_moves() {
    let f = Frame {
        left: 100,
        top: 100,
        right: 500,
        bottom: 400,
    };
    let at = |x, y| hit_test(Point { x, y }, f, 40, 120);
    assert_eq!(at(100, 100), Hit::TopLeft);
    assert_eq!(at(499, 100), Hit::TopRight);
    assert_eq!(at(100, 399), Hit::BottomLeft);
    assert_eq!(at(499, 399), Hit::BottomRight);
    assert_eq!(at(100, 250), Hit::Left);
    assert_eq!(at(499, 250), Hit::Right);
    assert_eq!(at(300, 100), Hit::Top);
    assert_eq!(at(300, 399), Hit::Bottom);
    assert_eq!(at(300, 120), Hit::Caption);
    assert_eq!(at(450, 120), Hit::Inside, "the window buttons");
    assert_eq!(at(300, 250), Hit::Inside);
}

#[test]
fn a_message_carries_a_signed_point() {
    assert_eq!(unpack_point(0x0002_0001), Point { x: 1, y: 2 });
    assert_eq!(unpack_point(0xffff_fffe), Point { x: -2, y: -1 });
    assert_eq!(
        unpack_point(0x7fff_8000),
        Point {
            x: -32768,
            y: 32767
        }
    );
}

#[test]
fn a_drop_goes_where_the_mode_says() {
    assert_eq!(route_drop(1, true), Route::Import);
    assert_eq!(route_drop(0, false), Route::Images);
    assert_eq!(route_drop(0, true), Route::Ignore);
}
