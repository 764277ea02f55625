use voronoi_ink::color::Color;
use voronoi_ink::color::color_for;
use voronoi_ink::color::marker_color;
use voronoi_ink::color::unpainted_color;
use voronoi_ink::render::RenderError;
use voronoi_ink::render::render_static;
use voronoi_ink::site::Site;

const HALF: i64 = 32768;
const ONE: i64 = 65536;

fn rgba(c: Color) -> (u8, u8, u8, u8) {
    (c.r, c.g, c.b, c.a)
}

#[test]
fn single_site_four_by_four() {
    let sites = vec![Site { x: HALF, y: HALF }];
    let grid = render_static(&sites, 4, 4).unwrap();
    assert_eq!(grid.width(), 4);
    assert_eq!(grid.height(), 4);
    // The site rasterizes to pixel (2, 2); the plus shape is black, every
    // other pixel holds palette entry 0.
    let marker = [(2, 2), (1, 2), (3, 2), (2, 1), (2, 3)];
    for y in 0..4 {
        for x in 0..4 {
            let c = rgba(grid.pixel(x, y));
            if marker.contains(&(x, y)) {
                assert_eq!(c, (0, 0, 0, 255));
            } else {
                assert_eq!(c, (255, 128, 128, 255));
            }
        }
    }
}

#[test]
fn two_corner_sites_two_by_two() {
    let sites = vec![Site { x: 0, y: 0 }, Site { x: ONE, y: ONE }];
    let grid = render_static(&sites, 2, 2).unwrap();
    // Site 0 rasterizes to pixel (0, 0): it and its in-bounds neighbors
    // (1, 0) and (0, 1) are black. Site 1 rasterizes to column 2, which
    // fails the edge test, so it leaves no marker.
    assert_eq!(rgba(grid.pixel(0, 0)), (0, 0, 0, 255));
    assert_eq!(rgba(grid.pixel(1, 0)), (0, 0, 0, 255));
    assert_eq!(rgba(grid.pixel(0, 1)), (0, 0, 0, 255));
    // Pixel (1, 1) maps to (0.5, 0.5), exactly equidistant from both
    // sites: the strict-improvement scan keeps the lower index, site 0.
    assert_eq!(rgba(grid.pixel(1, 1)), (255, 128, 128, 255));
}

#[test]
fn empty_sites_rejected() {
    let sites: Vec<Site> = Vec::new();
    let r = render_static(&sites, 4, 4);
    assert!(matches!(r, Err(RenderError::EmptySites)));
}

#[test]
fn zero_dimension_rejected() {
    let sites = vec![Site { x: HALF, y: HALF }];
    assert!(matches!(render_static(&sites, 0, 4), Err(RenderError::ZeroDimension)));
    assert!(matches!(render_static(&sites, 4, 0), Err(RenderError::ZeroDimension)));
}

#[test]
fn render_static_deterministic() {
    let sites = vec![
        Site { x: 9830, y: 13107 },
        Site { x: 58982, y: 19660 },
        Site { x: 32768, y: 55705 },
    ];
    let a = render_static(&sites, 16, 16).unwrap();
    let b = render_static(&sites, 16, 16).unwrap();
    for y in 0..16 {
        for x in 0..16 {
            assert_eq!(rgba(a.pixel(x, y)), rgba(b.pixel(x, y)));
        }
    }
    assert_eq!(a.to_rgba_bytes(), b.to_rgba_bytes());
}

#[test]
fn nearest_site_wins_each_half() {
    // Two sites, left and right: columns split between them, ties to the
    // lower index on the midline.
    let sites = vec![Site { x: 0, y: HALF }, Site { x: ONE, y: HALF }];
    let grid = render_static(&sites, 8, 8).unwrap();
    // Row 0 carries no markers (sites rasterize to rows 4): columns 0..=4
    // are nearer to site 0 (column 4 maps to 0.5, an exact tie), 5..8 to
    // site 1.
    for x in 0..8 {
        let expect = if x <= 4 {
            (255, 128, 128, 255)
        } else {
            (128, 255, 128, 255)
        };
        assert_eq!(rgba(grid.pixel(x, 0)), expect);
    }
}

#[test]
fn off_grid_site_clamped_marker() {
    // A site just left of the grid: its column floors to -1, which passes
    // the edge test, and only the right neighbor (0, 2) of the plus shape
    // lands in bounds.
    let sites = vec![Site { x: -1, y: HALF }];
    let grid = render_static(&sites, 4, 4).unwrap();
    for y in 0..4 {
        for x in 0..4 {
            let c = rgba(grid.pixel(x, y));
            if (x, y) == (0, 2) {
                assert_eq!(c, (0, 0, 0, 255));
            } else {
                assert_eq!(c, (255, 128, 128, 255));
            }
        }
    }
}

#[test]
fn palette_cycles_every_six() {
    for i in 0..12 {
        assert_eq!(rgba(color_for(i)), rgba(color_for(i + 6)));
    }
}

#[test]
fn palette_exact_entries() {
    assert_eq!(rgba(color_for(0)), (255, 128, 128, 255));
    assert_eq!(rgba(color_for(1)), (128, 255, 128, 255));
    assert_eq!(rgba(color_for(2)), (128, 128, 255, 255));
    assert_eq!(rgba(color_for(3)), (255, 255, 128, 255));
    assert_eq!(rgba(color_for(4)), (255, 128, 255, 255));
    assert_eq!(rgba(color_for(5)), (128, 255, 255, 255));
}

#[test]
fn reserved_colors() {
    assert_eq!(rgba(unpainted_color()), (255, 255, 255, 255));
    assert_eq!(rgba(marker_color()), (0, 0, 0, 255));
    // No palette entry collides with either reserved color.
    for i in 0..6 {
        let c = rgba(color_for(i));
        assert_ne!(c, (255, 255, 255, 255));
        assert_ne!(c, (0, 0, 0, 255));
    }
}

#[test]
fn seven_sites_wrap_palette() {
    // More sites than palette entries: index 6 wraps to entry 0.
    let mut sites = Vec::new();
    for i in 0..7 {
        sites.push(Site { x: (i as i64) * 9362, y: 3000 + (i as i64) * 8000 });
    }
    let grid = render_static(&sites, 16, 16).unwrap();
    // Pixel (15, 13) is nearest to site 6, away from every marker: it
    // receives palette entry 6 % 6 == 0.
    assert_eq!(rgba(grid.pixel(15, 13)), (255, 128, 128, 255));
    assert_eq!(rgba(color_for(6)), rgba(color_for(0)));
}
