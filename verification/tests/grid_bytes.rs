use voronoi_ink::color::Color;
use voronoi_ink::grid::PixelGrid;

#[test]
fn bytes_are_row_major_rgba() {
    let mut g = PixelGrid::new_filled(2, 2, Color { r: 10, g: 20, b: 30, a: 40 });
    g.set_pixel(1, 0, Color { r: 1, g: 2, b: 3, a: 4 });
    g.set_pixel(0, 1, Color { r: 5, g: 6, b: 7, a: 8 });
    let bytes = g.to_rgba_bytes();
    assert_eq!(bytes.len(), 16);
    // Row-major from the top-left: (0,0), (1,0), (0,1), (1,1).
    assert_eq!(&bytes[0..4], &[10, 20, 30, 40]);
    assert_eq!(&bytes[4..8], &[1, 2, 3, 4]);
    assert_eq!(&bytes[8..12], &[5, 6, 7, 8]);
    assert_eq!(&bytes[12..16], &[10, 20, 30, 40]);
}

#[test]
fn set_pixel_reads_back() {
    let mut g = PixelGrid::new_filled(3, 2, Color { r: 0, g: 0, b: 0, a: 0 });
    assert_eq!(g.width(), 3);
    assert_eq!(g.height(), 2);
    g.set_pixel(2, 1, Color { r: 9, g: 8, b: 7, a: 6 });
    let c = g.pixel(2, 1);
    assert_eq!((c.r, c.g, c.b, c.a), (9, 8, 7, 6));
    let d = g.pixel(0, 0);
    assert_eq!((d.r, d.g, d.b, d.a), (0, 0, 0, 0));
}

#[test]
fn clone_grid_is_independent() {
    let mut g = PixelGrid::new_filled(2, 2, Color { r: 1, g: 1, b: 1, a: 1 });
    let h = g.clone_grid();
    g.set_pixel(0, 0, Color { r: 200, g: 0, b: 0, a: 255 });
    let kept = h.pixel(0, 0);
    assert_eq!((kept.r, kept.g, kept.b, kept.a), (1, 1, 1, 1));
    let changed = g.pixel(0, 0);
    assert_eq!((changed.r, changed.g, changed.b, changed.a), (200, 0, 0, 255));
}
