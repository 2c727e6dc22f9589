use graphview::config::Config;
use graphview::geom::V2;
use graphview::viewport::{pan, screen_to_world, world_to_screen, zoom_at, Viewport};

fn view(cam: (i64, i64), zoom: i64, width: i64, height: i64) -> Viewport {
    Viewport { cam: V2 { x: cam.0, y: cam.1 }, zoom, width, height }
}

#[test]
fn world_to_screen_formula() {
    let cfg = Config::default();
    let vp = view((10, 20), 3, 200, 100);
    let s = world_to_screen(&vp, &cfg, V2 { x: 50, y: 40 });
    assert_eq!((s.x, s.y), ((50 - 10) * 3 + 100, (40 - 20) * 3 + 50));
}

#[test]
fn screen_to_world_inverts_exactly() {
    let cfg = Config::default();
    let cases = [
        (view((0, 0), 1, 640, 480), V2 { x: 0, y: 0 }),
        (view((123, -45), 4, 800, 600), V2 { x: -999, y: 777 }),
        (view((-5_000, 9_000), 64, 1_920, 1_080), V2 { x: 1_000_000, y: -1_000_000 }),
        (view((7, 7), 2, 3, 3), V2 { x: -3, y: 5 }),
    ];
    for (vp, p) in cases {
        let s = world_to_screen(&vp, &cfg, p);
        let back = screen_to_world(&vp, &cfg, s);
        assert_eq!((back.x, back.y), (p.x, p.y));
    }
}

#[test]
fn zoom_keeps_world_point_under_cursor() {
    let cfg = Config::default();
    let mut vp = view((2_000, -3_000), 2, 800, 600);
    let cursor = V2 { x: 150, y: 100 };
    let before = screen_to_world(&vp, &cfg, cursor);
    let applied = zoom_at(&mut vp, &cfg, cursor, 8);
    assert!(applied);
    assert_eq!(vp.zoom, 8);
    let after = screen_to_world(&vp, &cfg, cursor);
    assert_eq!((after.x, after.y), (before.x, before.y));
}

#[test]
fn zoom_is_clamped_to_configured_bounds() {
    let cfg = Config::default();
    let mut vp = view((0, 0), 2, 800, 600);
    let cursor = V2 { x: 400, y: 300 };
    assert!(zoom_at(&mut vp, &cfg, cursor, 1_000_000));
    assert_eq!(vp.zoom, cfg.zoom_max);
    assert!(zoom_at(&mut vp, &cfg, cursor, 0));
    assert_eq!(vp.zoom, cfg.zoom_min);
}

#[test]
fn pan_moves_camera_against_the_drag() {
    let cfg = Config::default();
    let mut vp = view((100, 100), 2, 800, 600);
    let applied = pan(&mut vp, &cfg, V2 { x: 30, y: -20 });
    assert!(applied);
    assert_eq!(vp.cam.x, 100 - 30 / 2);
    assert_eq!(vp.cam.y, 100 + 20 / 2);
    assert_eq!(vp.zoom, 2);
}

#[test]
fn fresh_viewport_starts_at_origin_and_min_zoom() {
    let cfg = Config::default();
    let vp = Viewport::new(&cfg, 1_024, 768);
    assert_eq!((vp.cam.x, vp.cam.y), (0, 0));
    assert_eq!(vp.zoom, cfg.zoom_min);
    assert_eq!((vp.width, vp.height), (1_024, 768));
}
