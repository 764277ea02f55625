//! Sites and nearest-site classification.
//!
//! A site is a 2D point in the normalized unit square, held in fixed-point
//! form: the stored integer is the coordinate times `SCALE`. Pixel `(x, y)`
//! of a `w` by `h` grid maps to the normalized point `(x / w, y / h)`, so the
//! horizontal offset from a site `s` to that pixel is
//! `(s.x * w - x * SCALE) / (SCALE * w)`, an exact rational. Distances are
//! compared through the integer numerator of the squared distance over the
//! common positive denominator `(SCALE * w * h)^2`, which makes every
//! comparison exact: no rounding can disturb the classification.

use vstd::prelude::*;

verus! {

/// Fixed-point scale: a stored coordinate of `SCALE` means `1.0`.
pub const SCALE: i64 = 65536;

/// Largest accepted magnitude of a stored coordinate (256 in normalized
/// units, far outside the unit square). This machine limit keeps every
/// distance numerator within `i128`.
pub const COORD_LIMIT: i64 = 16777216;

/// Largest accepted grid dimension; with `COORD_LIMIT` it keeps every
/// distance numerator within `i128`.
pub const MAX_DIM: usize = 4096;

/// A 2D point in fixed-point coordinates: `(x / SCALE, y / SCALE)` in
/// normalized units. Coordinates may lie outside the unit square.
#[derive(Clone, Copy, PartialEq, Eq, Structural, Debug)]
pub struct Site {
    pub x: i64,
    pub y: i64,
}

/// A site whose coordinates are within the accepted magnitude.
pub open spec fn site_ok(s: Site) -> bool {
    &&& -COORD_LIMIT <= s.x <= COORD_LIMIT
    &&& -COORD_LIMIT <= s.y <= COORD_LIMIT
}

/// Every site of the sequence is within the accepted magnitude.
pub open spec fn sites_ok(sites: Seq<Site>) -> bool {
    forall|i: int| 0 <= i < sites.len() ==> site_ok(#[trigger] sites[i])
}

/// Numerator of the squared Euclidean distance from pixel `(x, y)` of a
/// `w` by `h` grid to site `s`, over the common positive denominator
/// `(SCALE * w * h)^2`. For one pixel, comparing numerators across sites
/// compares the true distances.
pub open spec fn dist2_num(s: Site, x: int, y: int, w: int, h: int) -> int {
    let a = s.x * w - x * (SCALE as int);
    let b = s.y * h - y * (SCALE as int);
    (a * a) * (h * h) + (b * b) * (w * w)
}

/// The site index chosen among the first `n` sites by a scan in ascending
/// index order where only a strictly smaller distance replaces the running
/// best: on an exact tie the lower index wins.
pub open spec fn nearest_in_prefix(sites: Seq<Site>, x: int, y: int, w: int, h: int, n: int) -> int
    decreases n,
{
    if n <= 1 {
        0
    } else {
        let prev = nearest_in_prefix(sites, x, y, w, h, n - 1);
        if dist2_num(sites[n - 1], x, y, w, h) < dist2_num(sites[prev], x, y, w, h) {
            n - 1
        } else {
            prev
        }
    }
}

/// The site index assigned to pixel `(x, y)`: nearest site, ties to the
/// lowest index.
pub open spec fn nearest_site(sites: Seq<Site>, x: int, y: int, w: int, h: int) -> int {
    nearest_in_prefix(sites, x, y, w, h, sites.len() as int)
}

pub proof fn lemma_mul_range(x: int, b: int, y: int, c: int)
    by (nonlinear_arith)
    requires
        -b <= x <= b,
        0 <= y <= c,
        0 <= b,
    ensures
        -(b * c) <= x * y <= b * c,
{
}

proof fn lemma_square_range(x: int, b: int)
    by (nonlinear_arith)
    requires
        -b <= x <= b,
    ensures
        0 <= x * x <= b * b,
{
}

proof fn lemma_mul_le(a: int, b: int, c: int, d: int)
    by (nonlinear_arith)
    requires
        0 <= a <= b,
        0 <= c <= d,
    ensures
        0 <= a * c <= b * d,
{
}

/// The distance numerator of an accepted site and pixel is non-negative and
/// below `2^100`.
pub proof fn lemma_dist2_num_range(s: Site, x: int, y: int, w: int, h: int)
    requires
        site_ok(s),
        1 <= w <= MAX_DIM,
        1 <= h <= MAX_DIM,
        0 <= x < w,
        0 <= y < h,
    ensures
        0 <= dist2_num(s, x, y, w, h) < 0x10000000000000000000000000,
{
    let a = s.x * w - x * (SCALE as int);
    let b = s.y * h - y * (SCALE as int);
    lemma_mul_range(s.x as int, COORD_LIMIT as int, w, MAX_DIM as int);
    lemma_mul_range(s.y as int, COORD_LIMIT as int, h, MAX_DIM as int);
    assert(-0x2000000000 <= a <= 0x2000000000);
    assert(-0x2000000000 <= b <= 0x2000000000);
    lemma_square_range(a, 0x2000000000);
    lemma_square_range(b, 0x2000000000);
    lemma_square_range(w, MAX_DIM as int);
    lemma_square_range(h, MAX_DIM as int);
    lemma_mul_le(a * a, 0x4000000000000000000, h * h, 0x1000000);
    lemma_mul_le(b * b, 0x4000000000000000000, w * w, 0x1000000);
}

/// Compute the distance numerator of `dist2_num` for one site and pixel.
pub fn site_dist2(s: &Site, x: usize, y: usize, width: usize, height: usize) -> (d: i128)
    requires
        site_ok(*s),
        1 <= width <= MAX_DIM,
        1 <= height <= MAX_DIM,
        x < width,
        y < height,
    ensures
        d == dist2_num(*s, x as int, y as int, width as int, height as int),
        d >= 0,
{
    proof {
        lemma_mul_range(s.x as int, COORD_LIMIT as int, width as int, MAX_DIM as int);
        lemma_mul_range(s.y as int, COORD_LIMIT as int, height as int, MAX_DIM as int);
    }
    let a: i64 = s.x * (width as i64) - (x as i64) * SCALE;
    let b: i64 = s.y * (height as i64) - (y as i64) * SCALE;
    proof {
        lemma_square_range(a as int, 0x2000000000);
        lemma_square_range(b as int, 0x2000000000);
        lemma_square_range(width as int, MAX_DIM as int);
        lemma_square_range(height as int, MAX_DIM as int);
    }
    let aa: i128 = (a as i128) * (a as i128);
    let bb: i128 = (b as i128) * (b as i128);
    let ww: i128 = (width as i128) * (width as i128);
    let hh: i128 = (height as i128) * (height as i128);
    proof {
        lemma_mul_le(aa as int, 0x4000000000000000000, hh as int, 0x1000000);
        lemma_mul_le(bb as int, 0x4000000000000000000, ww as int, 0x1000000);
    }
    aa * hh + bb * ww
}

/// Find the site nearest to pixel `(x, y)`: the scan in ascending index
/// order keeps the running best and replaces it only on a strictly smaller
/// distance, so an exact tie keeps the lower index. Returns the winning
/// index and its distance numerator.
pub fn nearest_site_index(sites: &Vec<Site>, x: usize, y: usize, width: usize, height: usize) -> (r: (
    usize,
    i128,
))
    requires
        sites@.len() > 0,
        sites_ok(sites@),
        1 <= width <= MAX_DIM,
        1 <= height <= MAX_DIM,
        x < width,
        y < height,
    ensures
        r.0 < sites@.len(),
        r.0 == nearest_site(sites@, x as int, y as int, width as int, height as int),
        r.1 == dist2_num(
            sites@[r.0 as int],
            x as int,
            y as int,
            width as int,
            height as int,
        ),
{
    let mut best: usize = 0;
    let mut best_d: i128 = site_dist2(&sites[0], x, y, width, height);
    let mut i: usize = 1;
    while i < sites.len()
        invariant
            1 <= i <= sites@.len(),
            sites_ok(sites@),
            1 <= width <= MAX_DIM,
            1 <= height <= MAX_DIM,
            x < width,
            y < height,
            best < i,
            best == nearest_in_prefix(sites@, x as int, y as int, width as int, height as int, i as int),
            best_d == dist2_num(sites@[best as int], x as int, y as int, width as int, height as int),
        decreases sites@.len() - i,
    {
        let d = site_dist2(&sites[i], x, y, width, height);
        if d < best_d {
            best = i;
            best_d = d;
        }
        i = i + 1;
    }
    (best, best_d)
}

/// The scanned prefix minimum is a true minimum with ties to the lowest
/// index: no site of the prefix is strictly closer, and every earlier site
/// is strictly farther.
pub proof fn lemma_nearest_prefix_min(sites: Seq<Site>, x: int, y: int, w: int, h: int, n: int)
    requires
        1 <= n <= sites.len(),
    ensures
        0 <= nearest_in_prefix(sites, x, y, w, h, n) < n,
        forall|j: int|
            0 <= j < n ==> dist2_num(sites[nearest_in_prefix(sites, x, y, w, h, n)], x, y, w, h)
                <= #[trigger] dist2_num(sites[j], x, y, w, h),
        forall|j: int|
            0 <= j < nearest_in_prefix(sites, x, y, w, h, n) ==> #[trigger] dist2_num(
                sites[j],
                x,
                y,
                w,
                h,
            ) > dist2_num(sites[nearest_in_prefix(sites, x, y, w, h, n)], x, y, w, h),
    decreases n,
{
    if n > 1 {
        lemma_nearest_prefix_min(sites, x, y, w, h, n - 1);
    }
}

/// Nearest-site correctness: the assigned index minimizes the distance to
/// the pixel over all sites, and on exact ties the lowest index wins.
pub proof fn lemma_nearest_site_min(sites: Seq<Site>, x: int, y: int, w: int, h: int)
    requires
        sites.len() > 0,
    ensures
        0 <= nearest_site(sites, x, y, w, h) < sites.len(),
        forall|j: int|
            0 <= j < sites.len() ==> dist2_num(sites[nearest_site(sites, x, y, w, h)], x, y, w, h)
                <= #[trigger] dist2_num(sites[j], x, y, w, h),
        forall|j: int|
            0 <= j < nearest_site(sites, x, y, w, h) ==> #[trigger] dist2_num(sites[j], x, y, w, h)
                > dist2_num(sites[nearest_site(sites, x, y, w, h)], x, y, w, h),
{
    lemma_nearest_prefix_min(sites, x, y, w, h, sites.len() as int);
}

} // verus!
