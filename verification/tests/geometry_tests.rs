use vinland::layer::{hit_test_order, layer_fits_check, layer_surface_geometry, Anchor, HitCandidate, Layer, Margins};
use vinland::popup::{constraint_fits_check, popup_constraint_target};
use vinland::render::{border_fits_check, border_segments, paint_order, PaintItem};
use vinland::screencopy::{capture_region, shm_buffer_info};
use vinland::window::{Rect, Window};
use vinland::xwm::configure_request_geometry;

fn anchor(top: bool, bottom: bool, left: bool, right: bool) -> Anchor {
    Anchor { top, bottom, left, right }
}

fn margins(top: i32, right: i32, bottom: i32, left: i32) -> Margins {
    Margins { top, right, bottom, left }
}

fn win(handle: u64, minimized: bool, w: i32, h: i32) -> Window {
    Window {
        handle,
        id: handle as u32,
        rect: Rect { x: 0, y: 0, w, h },
        minimized,
        floating: false,
        tile_order: 0,
        rules_evaluated: false,
        has_parent: false,
        app_id: None,
        title: None,
    }
}

#[test]
fn bar_anchored_to_top_spans_the_width() {
    let r = layer_surface_geometry(0, 30, anchor(true, false, true, true), margins(0, 0, 0, 0), 1920, 1080);
    assert_eq!(r, Some(Rect { x: 0, y: 0, w: 1920, h: 30 }));
}

#[test]
fn layer_margins_shrink_and_shift() {
    let r = layer_surface_geometry(0, 30, anchor(false, true, true, true), margins(0, 10, 5, 20), 1920, 1080);
    assert_eq!(r, Some(Rect { x: 20, y: 1080 - 30 - 5, w: 1920 - 20 - 10, h: 30 }));
}

#[test]
fn layer_unanchored_is_centered() {
    let r = layer_surface_geometry(200, 100, anchor(false, false, false, false), margins(7, 0, 0, 3), 1000, 800);
    assert_eq!(r, Some(Rect { x: 400, y: 350, w: 200, h: 100 }));
    let r = layer_surface_geometry(100, 50, anchor(true, false, false, false), margins(5, 0, 0, 0), 1000, 800);
    assert_eq!(r, Some(Rect { x: 450, y: 5, w: 100, h: 50 }));
    let r = layer_surface_geometry(1003, 10, anchor(false, false, false, false), margins(0, 0, 0, 0), 1000, 800);
    assert_eq!(r, Some(Rect { x: -1, y: 395, w: 1003, h: 10 }));
    assert_eq!(layer_surface_geometry(0, 0, anchor(true, true, true, true), margins(0, 0, 0, 0), 1000, 800), None);
    assert!(layer_fits_check(200, 100, anchor(false, false, false, false), margins(0, 0, 0, 0), 1000, 800));
}

#[test]
fn hit_order_goes_overlay_top_windows_bottom_background() {
    let layers = vec![
        (Layer::Background, true),
        (Layer::Top, true),
        (Layer::Overlay, false),
        (Layer::Overlay, true),
        (Layer::Bottom, true),
        (Layer::Top, true),
    ];
    let windows = vec![win(1, false, 10, 10), win(2, true, 10, 10), win(3, false, 10, 10)];
    assert_eq!(
        hit_test_order(&layers, &windows),
        vec![
            HitCandidate::LayerSurface(3),
            HitCandidate::LayerSurface(5),
            HitCandidate::LayerSurface(1),
            HitCandidate::Window(2),
            HitCandidate::Window(0),
            HitCandidate::LayerSurface(4),
            HitCandidate::LayerSurface(0),
        ]
    );
}

#[test]
fn paint_order_front_to_back() {
    let layers = vec![(Layer::Background, true), (Layer::Top, true), (Layer::Overlay, true), (Layer::Bottom, false)];
    let windows = vec![win(1, false, 10, 10), win(2, false, 0, 10), win(3, false, 5, 5), win(4, true, 5, 5)];
    assert_eq!(
        paint_order(&layers, &windows, true),
        vec![
            PaintItem::Cursor,
            PaintItem::LayerSurface(2),
            PaintItem::Popups(2),
            PaintItem::Popups(0),
            PaintItem::LayerSurface(1),
            PaintItem::Window(2),
            PaintItem::Window(0),
            PaintItem::LayerSurface(0),
        ]
    );
    assert_eq!(paint_order(&vec![], &vec![], false), vec![]);
}

#[test]
fn border_segments_frame_the_window() {
    let r = Rect { x: 10, y: 20, w: 100, h: 50 };
    assert!(border_fits_check(r, 2));
    let b = border_segments(r, 2);
    assert_eq!(b.top, Rect { x: 8, y: 18, w: 104, h: 2 });
    assert_eq!(b.bottom, Rect { x: 8, y: 70, w: 104, h: 2 });
    assert_eq!(b.left, Rect { x: 8, y: 20, w: 2, h: 50 });
    assert_eq!(b.right, Rect { x: 110, y: 20, w: 2, h: 50 });
    let inside = |r: Rect, px: i32, py: i32| r.x <= px && px < r.x + r.w && r.y <= py && py < r.y + r.h;
    let mut covered = 0;
    for px in 6..114 {
        for py in 16..74 {
            let hits = [b.top, b.bottom, b.left, b.right].iter().filter(|s| inside(**s, px, py)).count();
            assert!(hits <= 1);
            let in_frame = (8..112).contains(&px) && (18..72).contains(&py) && !inside(r, px, py);
            assert_eq!(hits == 1, in_frame);
            covered += hits;
        }
    }
    assert_eq!(covered, 104 * 54 - 100 * 50);
    assert!(!border_fits_check(Rect { x: i32::MIN, y: 0, w: 1, h: 1 }, 1));
}

#[test]
fn capture_region_is_clamped_to_output() {
    assert_eq!(capture_region(10, 20, 300, 200, 1920, 1080), Rect { x: 10, y: 20, w: 300, h: 200 });
    assert_eq!(capture_region(-5, -5, 5000, 0, 1920, 1080), Rect { x: 0, y: 0, w: 1920, h: 1 });
    assert_eq!(capture_region(1900, 1070, 100, 100, 1920, 1080), Rect { x: 1900, y: 1070, w: 20, h: 10 });
    assert_eq!(capture_region(5000, 5000, 100, 100, 1920, 1080), Rect { x: 1920, y: 1080, w: 1, h: 1 });
}

#[test]
fn shm_buffer_stride_is_four_bytes_per_pixel() {
    assert_eq!(shm_buffer_info(1920, 1080), (1920, 1080, 7680));
}

#[test]
fn x11_configure_request_keeps_unset_fields() {
    let geo = Rect { x: 5, y: 6, w: 100, h: 200 };
    assert_eq!(configure_request_geometry(geo, Some(50), None, None, Some(30)), Rect { x: 50, y: 6, w: 100, h: 30 });
    assert_eq!(configure_request_geometry(geo, None, None, None, None), geo);
}

#[test]
fn popup_target_is_output_seen_from_parent() {
    assert!(constraint_fits_check(10, 20, 100, 200));
    assert_eq!(popup_constraint_target(1920, 1080, 10, 20, 100, 200), Rect { x: -110, y: -220, w: 1920, h: 1080 });
    assert!(!constraint_fits_check(i32::MIN, 0, 0, 0));
}
