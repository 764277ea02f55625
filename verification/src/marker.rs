//! The marker overlay: a five-pixel plus shape in opaque black at each
//! site's rasterized position.
//!
//! A site maps to pixel column `floor(x * width / SCALE)` and row
//! `floor(y * height / SCALE)`. As in the rasterizers' own edge policy, a
//! site is marked only when that position is left of the right edge and
//! above the bottom edge, and each of the five points of the plus shape is
//! drawn only where it falls inside the grid.

use vstd::prelude::*;

use crate::color::marker_color;
use crate::color::spec_marker;
use crate::grid::PixelGrid;
use crate::grid::lemma_wf_dims;
use crate::site::COORD_LIMIT;
use crate::site::MAX_DIM;
use crate::site::SCALE;
use crate::site::Site;
use crate::site::lemma_mul_range;
use crate::site::sites_ok;
use vstd::arithmetic::div_mod::lemma_fundamental_div_mod;
use vstd::arithmetic::div_mod::lemma_fundamental_div_mod_converse;

verus! {

/// The pixel column (for `dim` = width) or row (for `dim` = height) that a
/// fixed-point coordinate rasterizes to: the floor of `coord * dim / SCALE`.
pub open spec fn pixel_pos(coord: i64, dim: int) -> int {
    (coord * dim) / (SCALE as int)
}

/// Compute `pixel_pos`: floor division, also for negative coordinates.
pub fn site_pixel_pos(coord: i64, dim: usize) -> (p: i64)
    requires
        -COORD_LIMIT <= coord <= COORD_LIMIT,
        1 <= dim <= MAX_DIM,
    ensures
        p == pixel_pos(coord, dim as int),
{
    proof {
        lemma_mul_range(coord as int, COORD_LIMIT as int, dim as int, MAX_DIM as int);
    }
    let prod: i64 = coord * (dim as i64);
    if prod >= 0 {
        let q: u64 = (prod as u64) / (SCALE as u64);
        proof {
            lemma_fundamental_div_mod(prod as int, SCALE as int);
            lemma_fundamental_div_mod_converse(
                prod as int,
                SCALE as int,
                (prod as u64 / SCALE as u64) as int,
                (prod as u64 % SCALE as u64) as int,
            );
        }
        q as i64
    } else {
        let m: u64 = (-prod) as u64;
        let q: u64 = m / (SCALE as u64);
        let r: u64 = m % (SCALE as u64);
        if r == 0 {
            proof {
                lemma_fundamental_div_mod_converse(prod as int, SCALE as int, -(q as int), 0);
            }
            -(q as i64)
        } else {
            proof {
                lemma_fundamental_div_mod_converse(
                    prod as int,
                    SCALE as int,
                    -(q as int) - 1,
                    (SCALE as int) - (r as int),
                );
            }
            -(q as i64) - 1
        }
    }
}

/// Site `s` puts a marker pixel at `(x, y)`: its rasterized position passes
/// the edge test (`px < w` and `py < h`), and `(x, y)` is the center of the
/// plus shape or one of its four neighbors.
pub open spec fn site_marks(s: Site, w: int, h: int, x: int, y: int) -> bool {
    let px = pixel_pos(s.x, w);
    let py = pixel_pos(s.y, h);
    &&& px < w
    &&& py < h
    &&& ((x == px && y == py) || (x == px - 1 && y == py) || (x == px + 1 && y == py) || (x == px
        && y == py - 1) || (x == px && y == py + 1))
}

/// Some site among the first `n` puts a marker pixel at `(x, y)`.
pub open spec fn marker_in_prefix(sites: Seq<Site>, n: int, w: int, h: int, x: int, y: int) -> bool {
    exists|i: int| 0 <= i < n && site_marks(#[trigger] sites[i], w, h, x, y)
}

/// Some site puts a marker pixel at `(x, y)`.
pub open spec fn marker_at(sites: Seq<Site>, w: int, h: int, x: int, y: int) -> bool {
    marker_in_prefix(sites, sites.len() as int, w, h, x, y)
}

proof fn lemma_prefix_extend(sites: Seq<Site>, n: int, w: int, h: int, x: int, y: int)
    requires
        0 <= n < sites.len(),
    ensures
        marker_in_prefix(sites, n + 1, w, h, x, y) <==> (marker_in_prefix(sites, n, w, h, x, y)
            || site_marks(sites[n], w, h, x, y)),
{
    if marker_in_prefix(sites, n + 1, w, h, x, y) {
        let j = choose|j: int| 0 <= j < n + 1 && site_marks(#[trigger] sites[j], w, h, x, y);
        if j < n {
            assert(site_marks(sites[j], w, h, x, y));
        }
    }
    if marker_in_prefix(sites, n, w, h, x, y) {
        let j = choose|j: int| 0 <= j < n && site_marks(#[trigger] sites[j], w, h, x, y);
        assert(site_marks(sites[j], w, h, x, y));
    }
}

/// Overlay markers in place: afterwards, `(x, y)` holds the marker color
/// where some site marks it, and its previous color everywhere else.
pub fn draw_markers(grid: &mut PixelGrid, sites: &Vec<Site>)
    requires
        old(grid).wf(),
        sites_ok(sites@),
    ensures
        final(grid).wf(),
        final(grid).spec_width() == old(grid).spec_width(),
        final(grid).spec_height() == old(grid).spec_height(),
        forall|x: int, y: int|
            0 <= x < old(grid).spec_width() && 0 <= y < old(grid).spec_height()
                ==> #[trigger] final(grid).color_at(x, y) == (if marker_at(
                sites@,
                old(grid).spec_width(),
                old(grid).spec_height(),
                x,
                y,
            ) {
                spec_marker()
            } else {
                old(grid).color_at(x, y)
            }),
{
    proof {
        lemma_wf_dims(*grid);
    }
    let w = grid.width();
    let h = grid.height();
    let black = marker_color();
    let mut i: usize = 0;
    while i < sites.len()
        invariant
            i <= sites@.len(),
            sites_ok(sites@),
            grid.wf(),
            1 <= w <= 4096,
            1 <= h <= 4096,
            w == grid.spec_width(),
            h == grid.spec_height(),
            grid.spec_width() == old(grid).spec_width(),
            grid.spec_height() == old(grid).spec_height(),
            black == spec_marker(),
            forall|x: int, y: int|
                0 <= x < w && 0 <= y < h ==> #[trigger] grid.color_at(x, y) == (if marker_in_prefix(
                    sites@,
                    i as int,
                    w as int,
                    h as int,
                    x,
                    y,
                ) {
                    spec_marker()
                } else {
                    old(grid).color_at(x, y)
                }),
        decreases sites@.len() - i,
    {
        let ghost prev_grid = *grid;
        let s = sites[i];
        let px = site_pixel_pos(s.x, w);
        let py = site_pixel_pos(s.y, h);
        if px < w as i64 && py < h as i64 {
            if px >= 0 && py >= 0 {
                grid.set_pixel(px as usize, py as usize, black);
            }
            if px >= 1 && py >= 0 {
                grid.set_pixel((px - 1) as usize, py as usize, black);
            }
            if px + 1 >= 0 && px + 1 < w as i64 && py >= 0 {
                grid.set_pixel((px + 1) as usize, py as usize, black);
            }
            if px >= 0 && py >= 1 {
                grid.set_pixel(px as usize, (py - 1) as usize, black);
            }
            if px >= 0 && py + 1 >= 0 && py + 1 < h as i64 {
                grid.set_pixel(px as usize, (py + 1) as usize, black);
            }
        }
        proof {
            assert forall|x: int, y: int| 0 <= x < w && 0 <= y < h implies #[trigger] grid.color_at(
                x,
                y,
            ) == (if marker_in_prefix(sites@, i + 1, w as int, h as int, x, y) {
                spec_marker()
            } else {
                old(grid).color_at(x, y)
            }) by {
                lemma_prefix_extend(sites@, i as int, w as int, h as int, x, y);
                if site_marks(sites@[i as int], w as int, h as int, x, y) {
                    assert(grid.color_at(x, y) == spec_marker());
                } else {
                    assert(grid.color_at(x, y) == prev_grid.color_at(x, y));
                }
            }
        }
        i = i + 1;
    }
}

} // verus!
