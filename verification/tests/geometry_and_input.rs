use orbirus::geometry::{
    band_rect, centered_on, dialog_origin, displace_rolled_under, fence_at_point, hit_test,
    monitor_index, scale, snap_best, snap_moving_rect, snap_sizing_rect, titlebar_height_px,
    try_snap_moving_rect, try_snap_sizing_rect, Hit, Neighbor, Point, Rect,
};
use orbirus::input::{
    command_code, command_id, control_held, pinned_flags, point_of, size_of_client,
    tooltip_position, tray_opens_menu, wheel_delta,
};

fn rect(left: i32, top: i32, right: i32, bottom: i32) -> Rect {
    Rect { left, top, right, bottom }
}

#[test]
fn the_nearest_candidate_within_reach_wins() {
    assert_eq!(snap_best(&vec![100, 92, 108], 99, 8), Some(100));
    assert_eq!(snap_best(&vec![95, 103], 99, 8), Some(95));
    assert_eq!(snap_best(&vec![90, 108], 99, 8), None);
    assert_eq!(snap_best(&vec![91], 99, 8), Some(91));
    assert_eq!(snap_best(&vec![], 99, 8), None);
}

#[test]
fn a_moving_fence_snaps_to_its_neighbors() {
    let others = vec![rect(500, 100, 800, 300)];
    let mut rc = rect(821, 105, 1021, 205);
    snap_moving_rect(&mut rc, &others, 96);
    assert_eq!(rc, rect(824, 100, 1024, 200));
    let mut far = rect(900, 500, 1000, 600);
    snap_moving_rect(&mut far, &others, 96);
    assert_eq!(far, rect(900, 500, 1000, 600));
    let mut wide_reach = rect(810, 500, 910, 600);
    snap_moving_rect(&mut wide_reach, &others, 192);
    assert_eq!(wide_reach.left, 824);
}

#[test]
fn a_sized_fence_snaps_the_edges_that_are_dragged() {
    let others = vec![rect(500, 100, 800, 300)];
    let mut rc = rect(200, 98, 478, 310);
    snap_sizing_rect(&mut rc, 2, &others, 96);
    assert_eq!(rc, rect(200, 98, 476, 310));
    let mut rc = rect(200, 98, 478, 305);
    snap_sizing_rect(&mut rc, 8, &others, 96);
    assert_eq!(rc, rect(200, 98, 476, 300));
    let mut rc = rect(200, 98, 478, 305);
    snap_sizing_rect(&mut rc, 4, &others, 96);
    assert_eq!(rc, rect(200, 100, 478, 305));
}

#[test]
fn no_fence_snaps_beyond_the_coordinates_of_the_screen() {
    let max = i32::MAX;
    let others = vec![rect(max - 400, 0, max - 120, 50)];
    let mut rc = rect(max - 100, 500, max, 600);
    assert!(!try_snap_moving_rect(&mut rc, &others, 96));
    assert_eq!(rc, rect(max - 100, 500, max, 600));
    let mut rc = rect(max - 100, 500, max - 50, 600);
    assert!(try_snap_moving_rect(&mut rc, &others, 96));
    assert_eq!(rc, rect(max - 96, 500, max - 46, 600));
    let others = vec![rect(max - 400, 0, max - 20, 50)];
    let mut rc = rect(max - 600, 500, max - 1, 600);
    assert!(!try_snap_sizing_rect(&mut rc, 2, &others, 96));
    assert_eq!(rc, rect(max - 600, 500, max - 1, 600));
    assert!(try_snap_sizing_rect(&mut rc, 6, &others, 96));
    assert_eq!(rc, rect(max - 600, 500, max - 1, 600));
}

#[test]
fn covered_rolled_up_fences_are_stacked_below() {
    let rolled = |top: i32| Neighbor {
        rect: rect(10, top, 200, top + 28),
        rolled_up: true,
        peeking: false,
        displaced: false,
    };
    let all = vec![
        rolled(150),
        rolled(100),
        Neighbor { rolled_up: false, ..rolled(120) },
        Neighbor { peeking: true, ..rolled(120) },
        Neighbor { displaced: true, ..rolled(120) },
        rolled(300),
    ];
    let pushes = displace_rolled_under(rect(0, 0, 300, 300), &all);
    let got: Vec<(usize, i128)> = pushes.iter().map(|p| (p.index, p.top)).collect();
    assert_eq!(got, vec![(1, 324), (0, 376)]);
}

#[test]
fn the_fence_under_a_point() {
    let windows = vec![rect(0, 0, 10, 10), rect(5, 5, 20, 20)];
    assert_eq!(fence_at_point(&windows, Point { x: 7, y: 7 }), Some(0));
    assert_eq!(fence_at_point(&windows, Point { x: 10, y: 10 }), Some(1));
    assert_eq!(fence_at_point(&windows, Point { x: 20, y: 10 }), None);
}

#[test]
fn the_place_of_a_monitor() {
    assert_eq!(monitor_index(&vec![7, 9], 9), 1);
    assert_eq!(monitor_index(&vec![7, 9], 5), 0);
}

#[test]
fn the_border_resizes() {
    let rc = rect(100, 100, 400, 300);
    let at = |x: i32, y: i32| hit_test(rc, Point { x, y });
    assert_eq!(at(100, 100), Hit::TopLeft);
    assert_eq!(at(399, 107), Hit::TopRight);
    assert_eq!(at(107, 299), Hit::BottomLeft);
    assert_eq!(at(392, 292), Hit::BottomRight);
    assert_eq!(at(107, 200), Hit::Left);
    assert_eq!(at(392, 200), Hit::Right);
    assert_eq!(at(250, 107), Hit::Top);
    assert_eq!(at(250, 292), Hit::Bottom);
    assert_eq!(at(108, 108), Hit::Client);
    assert_eq!(at(391, 291), Hit::Client);
}

#[test]
fn sizes_scale_with_the_resolution() {
    assert_eq!(scale(48, 144), 72);
    assert_eq!(scale(15, 120), 18);
    assert_eq!(titlebar_height_px(96), 28);
    assert_eq!(titlebar_height_px(120), 35);
    assert_eq!(titlebar_height_px(144), 42);
    assert_eq!(titlebar_height_px(168), 49);
}

#[test]
fn dialogs_are_centered_and_kept_inside() {
    assert_eq!(centered_on(rect(0, 0, 1920, 1080), 300, 200), Point { x: 810, y: 440 });
    assert_eq!(centered_on(rect(-1921, 0, 0, 1080), 300, 200), Point { x: -1110, y: 440 });
    let work = rect(0, 0, 1000, 800);
    assert_eq!(dialog_origin(rect(400, 300, 600, 500), work, 280, 130), Point { x: 360, y: 335 });
    assert_eq!(dialog_origin(rect(950, 750, 1150, 950), work, 280, 130), Point { x: 720, y: 670 });
    assert_eq!(dialog_origin(rect(-300, -300, 0, 0), work, 280, 130), Point { x: 0, y: 0 });
    assert_eq!(dialog_origin(rect(0, 0, 10, 10), rect(5, 5, 100, 60), 280, 130), Point { x: 5, y: 5 });
}

#[test]
fn the_rectangle_of_a_rubber_band() {
    assert_eq!(band_rect(Point { x: 5, y: 9 }, Point { x: 3, y: 20 }), rect(3, 9, 5, 20));
}

#[test]
fn message_parameters() {
    assert_eq!(point_of(0xFFFE_0005), Point { x: 5, y: -2 });
    assert_eq!(wheel_delta(0xFF88_0008), -120);
    assert_eq!(wheel_delta(0x0078_0000), 120);
    assert!(control_held(0x0009));
    assert!(!control_held(0x0005));
    assert_eq!(command_id(0x0001_0014), 20);
    assert_eq!(command_code(0x0001_0014), 1);
    assert_eq!(size_of_client(0x0064_012C), (300, 100));
    assert_eq!(tooltip_position(Point { x: 100, y: 200 }), 224 << 16 | 112);
    assert_eq!(tooltip_position(Point { x: -20, y: 0 }), 24 << 16 | 0xFFF8);
    assert_eq!(pinned_flags(0x0004 | 0x0001), 0x0010 | 0x0001);
    assert!(tray_opens_menu(0x0205));
    assert!(tray_opens_menu(0x007B));
    assert!(!tray_opens_menu(0x0202));
}
