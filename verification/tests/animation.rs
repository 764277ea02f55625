use voronoi_ink::color::Color;
use voronoi_ink::render::RenderError;
use voronoi_ink::render::int_sqrt;
use voronoi_ink::render::render_animation;
use voronoi_ink::render::render_static;
use voronoi_ink::site::Site;

const HALF: i64 = 32768;

fn rgba(c: Color) -> (u8, u8, u8, u8) {
    (c.r, c.g, c.b, c.a)
}

const WHITE: (u8, u8, u8, u8) = (255, 255, 255, 255);
const BLACK: (u8, u8, u8, u8) = (0, 0, 0, 255);

fn test_sites() -> Vec<Site> {
    vec![
        Site { x: 13107, y: 13107 },
        Site { x: 52428, y: 19660 },
        Site { x: 26214, y: 52428 },
    ]
}

#[test]
fn int_sqrt_exact_values() {
    assert_eq!(int_sqrt(0), 0);
    assert_eq!(int_sqrt(1), 1);
    assert_eq!(int_sqrt(24), 4);
    assert_eq!(int_sqrt(25), 5);
    assert_eq!(int_sqrt(512), 22);
    assert_eq!(int_sqrt(320000), 565);
}

#[test]
fn animation_frame_count() {
    // 16 by 16: the diagonal bound is isqrt(512) / 2 == 11, so the radius
    // counter takes the even values 0, 2, 4, 6, 8, 10: six frames.
    let frames = render_animation(&test_sites(), 16, 16).unwrap();
    assert_eq!(frames.len(), 6);
    // 1 by 1: the bound is isqrt(2) / 2 == 0, so no frame is emitted.
    let tiny = render_animation(&test_sites(), 1, 1).unwrap();
    assert_eq!(tiny.len(), 0);
}

#[test]
fn animation_rejects_bad_input() {
    let empty: Vec<Site> = Vec::new();
    assert!(matches!(render_animation(&empty, 8, 8), Err(RenderError::EmptySites)));
    assert!(matches!(
        render_animation(&test_sites(), 8, 0),
        Err(RenderError::ZeroDimension)
    ));
}

#[test]
fn animation_converges_to_static() {
    // Markers aside, every pixel of the final frame that full growth
    // reached (non-sentinel) is classified exactly as the static render
    // classifies it; marker pixels agree too, as both overlays use the
    // same sites.
    let sites = test_sites();
    let frames = render_animation(&sites, 16, 16).unwrap();
    let last = frames.last().unwrap();
    let fixed = render_static(&sites, 16, 16).unwrap();
    for y in 0..16 {
        for x in 0..16 {
            let a = rgba(last.pixel(x, y));
            if a != WHITE {
                assert_eq!(a, rgba(fixed.pixel(x, y)));
            }
        }
    }
}

#[test]
fn animation_monotone_coverage() {
    // Once painted, markers aside, a pixel keeps its color in every later
    // frame.
    let sites = test_sites();
    let frames = render_animation(&sites, 16, 16).unwrap();
    for k in 1..frames.len() {
        for y in 0..16 {
            for x in 0..16 {
                let prev = rgba(frames[k - 1].pixel(x, y));
                let cur = rgba(frames[k].pixel(x, y));
                if prev != WHITE && prev != BLACK {
                    assert_eq!(cur, prev);
                }
                // Coverage only grows: a painted pixel never reverts to
                // the sentinel.
                if prev != WHITE {
                    assert_ne!(cur, WHITE);
                }
            }
        }
    }
}

#[test]
fn animation_markers_on_every_frame() {
    // Each frame carries the marker overlay: the center pixel of each
    // in-bounds site marker is black in every frame.
    let sites = test_sites();
    let frames = render_animation(&sites, 16, 16).unwrap();
    assert!(!frames.is_empty());
    for frame in &frames {
        for s in &sites {
            let px = (s.x * 16) / 65536;
            let py = (s.y * 16) / 65536;
            assert!(px >= 0 && px < 16 && py >= 0 && py < 16);
            assert_eq!(rgba(frame.pixel(px as usize, py as usize)), BLACK);
        }
    }
}

#[test]
fn animation_first_frame_mostly_unpainted() {
    // At radius 0 only pixels exactly on a site are painted; with sites
    // off the pixel lattice, the first frame is the sentinel everywhere
    // but the markers.
    let sites = test_sites();
    let frames = render_animation(&sites, 16, 16).unwrap();
    for y in 0..16 {
        for x in 0..16 {
            let c = rgba(frames[0].pixel(x, y));
            assert!(c == WHITE || c == BLACK);
        }
    }
}

#[test]
fn animation_deterministic() {
    let sites = test_sites();
    let a = render_animation(&sites, 12, 12).unwrap();
    let b = render_animation(&sites, 12, 12).unwrap();
    assert_eq!(a.len(), b.len());
    for k in 0..a.len() {
        assert_eq!(a[k].to_rgba_bytes(), b[k].to_rgba_bytes());
    }
}

#[test]
fn quadrant_sites_fill_grid() {
    // Four sites at the quadrant centers: every pixel lies within 0.36 of
    // a site, and the last pass reaches radius 4 of 8 (0.5 normalized),
    // so the final frame has no sentinel pixels left.
    let q = HALF / 2;
    let sites = vec![
        Site { x: q, y: q },
        Site { x: 3 * q, y: q },
        Site { x: q, y: 3 * q },
        Site { x: 3 * q, y: 3 * q },
    ];
    let frames = render_animation(&sites, 8, 8).unwrap();
    let last = frames.last().unwrap();
    for y in 0..8 {
        for x in 0..8 {
            assert_ne!(rgba(last.pixel(x, y)), WHITE);
        }
    }
}

#[test]
fn centered_site_leaves_boundary_slack() {
    // One site in the center of an 8 by 8 grid: the growth bound stops at
    // radius 4 (0.5 normalized), just short of the corners at distance
    // 0.707, so the final frame keeps sentinel pixels in the corners.
    let sites = vec![Site { x: HALF, y: HALF }];
    let frames = render_animation(&sites, 8, 8).unwrap();
    let last = frames.last().unwrap();
    assert_eq!(rgba(last.pixel(0, 0)), WHITE);
    // The pixel at the site itself is painted from the first pass on.
    assert_eq!(rgba(frames[0].pixel(4, 4)), BLACK);
    assert_eq!(rgba(last.pixel(4, 2)), (255, 128, 128, 255));
}
