//! The two rasterizers: a single fully classified grid, and the
//! radius-stepped progressive reveal of the same classification.
//!
//! Both assign each pixel the palette color of its nearest site under the
//! identical first-strict-improvement scan, so a pixel's color, once
//! painted by the progressive rasterizer, is exactly the static
//! rasterizer's color for it. The progressive growth test compares the
//! pixel's distance to its nearest site against the radius `r / max(w, h)`
//! in normalized units; squaring both sides turns this into the exact
//! integer comparison `d2 * max(w, h)^2 <= r^2 * (SCALE * w * h)^2` over
//! the distance numerator `d2` of `dist2_num`.

use vstd::prelude::*;

use crate::color::Color;
use crate::color::color_for;
use crate::color::spec_color_for;
use crate::color::lemma_palette_never_unpainted;
use crate::color::spec_marker;
use crate::color::spec_unpainted;
use crate::color::unpainted_color;
use crate::grid::PixelGrid;
use crate::marker::draw_markers;
use crate::marker::marker_at;
use crate::site::MAX_DIM;
use crate::site::SCALE;
use crate::site::Site;
use crate::site::dist2_num;
use crate::site::lemma_dist2_num_range;
use crate::site::lemma_nearest_site_min;
use crate::site::nearest_site;
use crate::site::nearest_site_index;
use crate::site::sites_ok;

verus! {

/// Why a render request was rejected.
#[derive(Clone, Copy, PartialEq, Eq, Structural, Debug)]
pub enum RenderError {
    /// The site sequence was empty: nearest-site search has no candidate.
    EmptySites,
    /// A grid dimension was zero.
    ZeroDimension,
}

/// The larger grid dimension, used to normalize the growth radius.
pub open spec fn max_dim(w: int, h: int) -> int {
    if w >= h {
        w
    } else {
        h
    }
}

/// A squared distance with numerator `d2` (over the denominator
/// `(SCALE * w * h)^2`) lies within the growth radius `r / max(w, h)`:
/// the exact cross-multiplied comparison of the squares.
pub open spec fn reach_within(d2: int, r: int, w: int, h: int) -> bool {
    d2 * (max_dim(w, h) * max_dim(w, h)) <= (r * r) * (((SCALE as int) * w * h) * ((SCALE as int)
        * w * h))
}

/// Pixel `(x, y)`'s distance to its nearest site lies within the growth
/// radius `r` (in pixel units).
pub open spec fn covered(sites: Seq<Site>, w: int, h: int, x: int, y: int, r: int) -> bool {
    reach_within(dist2_num(sites[nearest_site(sites, x, y, w, h)], x, y, w, h), r, w, h)
}

/// Growing the radius never uncovers a pixel.
pub proof fn lemma_reach_monotone(d2: int, r1: int, r2: int, w: int, h: int)
    by (nonlinear_arith)
    requires
        0 <= d2,
        0 <= r1 <= r2,
        reach_within(d2, r1, w, h),
    ensures
        reach_within(d2, r2, w, h),
{
}

/// The integer square root: the largest integer whose square is at most `n`.
pub closed spec fn spec_isqrt(n: nat) -> nat
    decreases n,
{
    if n == 0 {
        0
    } else {
        let p = spec_isqrt((n - 1) as nat);
        if (p + 1) * (p + 1) <= n {
            p + 1
        } else {
            p
        }
    }
}

/// `s` is the integer square root of `n`: it squares to at most `n` and
/// its successor squares above `n`.
pub open spec fn is_isqrt(s: int, n: int) -> bool {
    &&& 0 <= s
    &&& s * s <= n
    &&& n < (s + 1) * (s + 1)
}

/// `spec_isqrt(n)` is the integer square root of `n`.
pub proof fn lemma_isqrt_bounds(n: nat)
    ensures
        is_isqrt(spec_isqrt(n) as int, n as int),
    decreases n,
{
    reveal_with_fuel(spec_isqrt, 2);
    if n > 0 {
        lemma_isqrt_bounds((n - 1) as nat);
        let p = spec_isqrt((n - 1) as nat);
        let q = p as int;
        if (p + 1) * (p + 1) <= n {
            assert(spec_isqrt(n) == p + 1);
            assert((q + 1) * (q + 1) < (q + 2) * (q + 2)) by (nonlinear_arith)
                requires
                    q >= 0,
            ;
        } else {
            assert(spec_isqrt(n) == p);
        }
    }
}

proof fn lemma_isqrt_unique(a: int, b: int, n: int)
    by (nonlinear_arith)
    requires
        is_isqrt(a, n),
        is_isqrt(b, n),
    ensures
        a == b,
{
}

fn square_at_most(a: usize, n: usize) -> (b: bool)
    requires
        a <= 6000,
    ensures
        b == (a * a <= n),
{
    proof {
        assert(a * a <= 36000000) by (nonlinear_arith)
            requires
                a <= 6000,
        ;
    }
    a * a <= n
}

/// Compute the integer square root of `n`.
pub fn int_sqrt(n: usize) -> (s: usize)
    requires
        n <= 0x2000000,
    ensures
        s == spec_isqrt(n as nat),
        is_isqrt(s as int, n as int),
{
    let mut s: usize = 0;
    while square_at_most(s + 1, n)
        invariant
            n <= 0x2000000,
            s * s <= n,
            s <= n,
            s <= 5800,
        decreases n - s,
    {
        proof {
            assert(s + 1 <= (s + 1) * (s + 1) && ((s + 1) * (s + 1) <= n ==> s + 1 <= 5800))
                by (nonlinear_arith)
                requires
                    n <= 0x2000000,
                    (s + 1) * (s + 1) <= n,
            ;
        }
        s = s + 1;
    }
    proof {
        lemma_isqrt_bounds(n as nat);
        lemma_isqrt_unique(s as int, spec_isqrt(n as nat) as int, n as int);
    }
    s
}

/// The growth bound in pixel units: half the grid diagonal, rounded down.
pub open spec fn spec_max_radius(w: int, h: int) -> int {
    (spec_isqrt((w * w + h * h) as nat) as int) / 2
}

/// How many frames the progressive rasterizer emits: one per radius step of
/// two pixel units below `spec_max_radius`.
pub open spec fn spec_num_frames(w: int, h: int) -> int {
    (spec_max_radius(w, h) + 1) / 2
}

/// The region color of pixel `(x, y)`: the palette color of its nearest
/// site.
pub open spec fn static_color(sites: Seq<Site>, w: int, h: int, x: int, y: int) -> Color {
    spec_color_for(nearest_site(sites, x, y, w, h))
}

/// The finished static image: the marker color where a site marks the
/// pixel, the region color everywhere else.
pub open spec fn rendered_color(sites: Seq<Site>, w: int, h: int, x: int, y: int) -> Color {
    if marker_at(sites, w, h, x, y) {
        spec_marker()
    } else {
        static_color(sites, w, h, x, y)
    }
}

/// `g` is the static render of `sites` on a `w` by `h` grid: every pixel
/// holds exactly `rendered_color`.
pub open spec fn is_static_render(g: PixelGrid, sites: Seq<Site>, w: int, h: int) -> bool {
    &&& g.wf()
    &&& g.spec_width() == w
    &&& g.spec_height() == h
    &&& forall|x: int, y: int|
        0 <= x < w && 0 <= y < h ==> #[trigger] g.color_at(x, y) == rendered_color(sites, w, h, x, y)
}

/// Render the fully classified image: classify every pixel to its nearest
/// site in row-major order, then overlay the site markers. Rejects an empty
/// site sequence and zero dimensions; otherwise the result is pinned
/// pointwise by `is_static_render`.
pub fn render_static(sites: &Vec<Site>, width: usize, height: usize) -> (r: Result<
    PixelGrid,
    RenderError,
>)
    requires
        sites_ok(sites@),
        width <= MAX_DIM,
        height <= MAX_DIM,
    ensures
        r matches Ok(g) ==> is_static_render(g, sites@, width as int, height as int),
        r is Ok <==> (sites@.len() > 0 && width > 0 && height > 0),
        r matches Err(e) ==> ((e == RenderError::EmptySites) <==> sites@.len() == 0),
        r matches Err(e) ==> ((e == RenderError::ZeroDimension) <==> (sites@.len() > 0 && (width
            == 0 || height == 0))),
{
    if sites.len() == 0 {
        return Err(RenderError::EmptySites);
    }
    if width == 0 || height == 0 {
        return Err(RenderError::ZeroDimension);
    }
    let mut grid = PixelGrid::new_filled(width, height, unpainted_color());
    let mut y: usize = 0;
    while y < height
        invariant
            sites_ok(sites@),
            sites@.len() > 0,
            1 <= width <= MAX_DIM,
            1 <= height <= MAX_DIM,
            y <= height,
            grid.wf(),
            grid.spec_width() == width,
            grid.spec_height() == height,
            forall|i: int, j: int|
                0 <= i < width && 0 <= j < y ==> #[trigger] grid.color_at(i, j) == static_color(
                    sites@,
                    width as int,
                    height as int,
                    i,
                    j,
                ),
        decreases height - y,
    {
        let mut x: usize = 0;
        while x < width
            invariant
                sites_ok(sites@),
                sites@.len() > 0,
                1 <= width <= MAX_DIM,
                1 <= height <= MAX_DIM,
                y < height,
                x <= width,
                grid.wf(),
                grid.spec_width() == width,
                grid.spec_height() == height,
                forall|i: int, j: int|
                    0 <= i < width && 0 <= j < y ==> #[trigger] grid.color_at(i, j) == static_color(
                        sites@,
                        width as int,
                        height as int,
                        i,
                        j,
                    ),
                forall|i: int|
                    0 <= i < x ==> #[trigger] grid.color_at(i, y as int) == static_color(
                        sites@,
                        width as int,
                        height as int,
                        i,
                        y as int,
                    ),
            decreases width - x,
        {
            let (idx, _d2) = nearest_site_index(sites, x, y, width, height);
            let c = color_for(idx);
            grid.set_pixel(x, y, c);
            x = x + 1;
        }
        y = y + 1;
    }
    draw_markers(&mut grid, sites);
    Ok(grid)
}

/// The working grid of the progressive rasterizer after the pass with
/// radius `r`: the region color once the growth from the nearest site has
/// reached the pixel, the "unpainted" sentinel before (and before the first
/// pass, where `r` is negative).
pub open spec fn work_color(sites: Seq<Site>, w: int, h: int, x: int, y: int, r: int) -> Color {
    if r >= 0 && covered(sites, w, h, x, y, r) {
        static_color(sites, w, h, x, y)
    } else {
        spec_unpainted()
    }
}

/// An emitted frame at radius `r`: markers over the working grid.
pub open spec fn frame_color(sites: Seq<Site>, w: int, h: int, x: int, y: int, r: int) -> Color {
    if marker_at(sites, w, h, x, y) {
        spec_marker()
    } else {
        work_color(sites, w, h, x, y, r)
    }
}

/// `frames` is the progressive render of `sites` on a `w` by `h` grid:
/// one frame per radius step of two pixel units, each pinned pointwise by
/// `frame_color` at its radius.
pub open spec fn is_animation_render(frames: Seq<PixelGrid>, sites: Seq<Site>, w: int, h: int) -> bool {
    &&& frames.len() == spec_num_frames(w, h)
    &&& forall|k: int|
        0 <= k < frames.len() ==> (#[trigger] frames[k]).wf() && frames[k].spec_width() == w
            && frames[k].spec_height() == h
    &&& forall|k: int, x: int, y: int|
        0 <= k < frames.len() && 0 <= x < w && 0 <= y < h ==> #[trigger] frames[k].color_at(x, y)
            == frame_color(sites, w, h, x, y, 2 * k)
}

/// Decide `reach_within` for one pixel's nearest-site distance numerator.
fn covered_check(d2: i128, radius: usize, width: usize, height: usize) -> (b: bool)
    requires
        0 <= d2 < 0x10000000000000000000000000,
        radius <= 4096,
        1 <= width <= MAX_DIM,
        1 <= height <= MAX_DIM,
    ensures
        b == reach_within(d2 as int, radius as int, width as int, height as int),
{
    let m: i128 = if width >= height {
        width as i128
    } else {
        height as i128
    };
    proof {
        assert(0 <= m * m <= 0x1000000) by (nonlinear_arith)
            requires
                0 <= m <= 4096,
        ;
        assert(0 <= d2 * (m * m) <= 0x10000000000000000000000000000000) by (nonlinear_arith)
            requires
                0 <= d2 < 0x10000000000000000000000000,
                0 <= m * m <= 0x1000000,
        ;
    }
    let lhs: i128 = d2 * (m * m);
    proof {
        assert(0 <= ((SCALE as int) * (width as int)) * (height as int) <= 0x10000000000)
            by (nonlinear_arith)
            requires
                0 <= (SCALE as int) * (width as int) <= 0x10000000,
                0 <= height <= 4096,
        ;
        assert(0 <= (radius as int) * (radius as int) <= 0x1000000) by (nonlinear_arith)
            requires
                0 <= radius <= 4096,
        ;
    }
    let swh: i128 = (SCALE as i128) * (width as i128) * (height as i128);
    let rr: i128 = (radius as i128) * (radius as i128);
    proof {
        assert(0 <= swh * swh <= 0x100000000000000000000) by (nonlinear_arith)
            requires
                0 <= swh <= 0x10000000000,
        ;
        assert(0 <= rr * (swh * swh) <= 0x1000000000000000000000000000) by (nonlinear_arith)
            requires
                0 <= rr <= 0x1000000,
                0 <= swh * swh <= 0x100000000000000000000,
        ;
    }
    lhs <= rr * (swh * swh)
}

/// Render the progressive reveal: from an all-sentinel grid, step an even
/// radius counter upward by two pixel units; at each step paint every still
/// unpainted pixel whose nearest-site distance lies within the normalized
/// radius, then snapshot the grid with markers overlaid on the snapshot
/// only. The working grid and every frame are pinned pointwise; the final
/// frame may leave far corner pixels unpainted, as the growth bound stops
/// at half the diagonal.
#[verifier::loop_isolation(false)]
pub fn render_animation(sites: &Vec<Site>, width: usize, height: usize) -> (r: Result<
    Vec<PixelGrid>,
    RenderError,
>)
    requires
        sites_ok(sites@),
        width <= MAX_DIM,
        height <= MAX_DIM,
    ensures
        r matches Ok(frames) ==> is_animation_render(
            frames@,
            sites@,
            width as int,
            height as int,
        ),
        r is Ok <==> (sites@.len() > 0 && width > 0 && height > 0),
        r matches Err(e) ==> ((e == RenderError::EmptySites) <==> sites@.len() == 0),
        r matches Err(e) ==> ((e == RenderError::ZeroDimension) <==> (sites@.len() > 0 && (width
            == 0 || height == 0))),
{
    if sites.len() == 0 {
        return Err(RenderError::EmptySites);
    }
    if width == 0 || height == 0 {
        return Err(RenderError::ZeroDimension);
    }
    let ghost w_i = width as int;
    let ghost h_i = height as int;
    proof {
        assert(width * width <= 0x1000000 && height * height <= 0x1000000) by (nonlinear_arith)
            requires
                width <= 4096,
                height <= 4096,
        ;
    }
    let diag2: usize = width * width + height * height;
    let root = int_sqrt(diag2);
    proof {
        assert(root <= 5792) by (nonlinear_arith)
            requires
                root * root <= 0x2000000,
                0 <= root,
        ;
    }
    let max_radius = root / 2;
    assert(max_radius == spec_max_radius(w_i, h_i));
    let mut grid = PixelGrid::new_filled(width, height, unpainted_color());
    let mut frames: Vec<PixelGrid> = Vec::new();
    let mut rad: usize = 0;
    while rad < max_radius
        invariant
            rad % 2 == 0,
            rad <= max_radius + 1,
            grid.wf(),
            grid.spec_width() == w_i,
            grid.spec_height() == h_i,
            forall|i: int, j: int|
                0 <= i < w_i && 0 <= j < h_i ==> #[trigger] grid.color_at(i, j) == work_color(
                    sites@,
                    w_i,
                    h_i,
                    i,
                    j,
                    rad as int - 2,
                ),
            frames@.len() == rad / 2,
            forall|k: int|
                0 <= k < frames@.len() ==> (#[trigger] frames@[k]).wf() && frames@[k].spec_width()
                    == w_i && frames@[k].spec_height() == h_i,
            forall|k: int, i: int, j: int|
                0 <= k < frames@.len() && 0 <= i < w_i && 0 <= j < h_i
                    ==> #[trigger] frames@[k].color_at(i, j) == frame_color(
                    sites@,
                    w_i,
                    h_i,
                    i,
                    j,
                    2 * k,
                ),
        decreases max_radius + 1 - rad,
    {
        let mut py: usize = 0;
        while py < height
            invariant
                py <= height,
                grid.wf(),
                grid.spec_width() == w_i,
                grid.spec_height() == h_i,
                forall|i: int, j: int|
                    0 <= i < w_i && 0 <= j < h_i ==> #[trigger] grid.color_at(i, j) == (if j < py {
                        work_color(sites@, w_i, h_i, i, j, rad as int)
                    } else {
                        work_color(sites@, w_i, h_i, i, j, rad as int - 2)
                    }),
            decreases height - py,
        {
            let mut px: usize = 0;
            while px < width
                invariant
                    px <= width,
                    py < height,
                    grid.wf(),
                    grid.spec_width() == w_i,
                    grid.spec_height() == h_i,
                    forall|i: int, j: int|
                        0 <= i < w_i && 0 <= j < h_i ==> #[trigger] grid.color_at(i, j) == (if j
                            < py || (j == py && i < px) {
                            work_color(sites@, w_i, h_i, i, j, rad as int)
                        } else {
                            work_color(sites@, w_i, h_i, i, j, rad as int - 2)
                        }),
                decreases width - px,
            {
                let cur = grid.pixel(px, py);
                let is_unpainted = cur.r == 255 && cur.g == 255 && cur.b == 255 && cur.a == 255;
                proof {
                    lemma_nearest_site_min(sites@, px as int, py as int, w_i, h_i);
                    lemma_dist2_num_range(
                        sites@[nearest_site(sites@, px as int, py as int, w_i, h_i)],
                        px as int,
                        py as int,
                        w_i,
                        h_i,
                    );
                    lemma_palette_never_unpainted(
                        nearest_site(sites@, px as int, py as int, w_i, h_i),
                    );
                }
                if is_unpainted {
                    let (idx, d2) = nearest_site_index(sites, px, py, width, height);
                    if covered_check(d2, rad, width, height) {
                        let c = color_for(idx);
                        grid.set_pixel(px, py, c);
                    }
                } else {
                    proof {
                        lemma_reach_monotone(
                            dist2_num(
                                sites@[nearest_site(sites@, px as int, py as int, w_i, h_i)],
                                px as int,
                                py as int,
                                w_i,
                                h_i,
                            ),
                            rad as int - 2,
                            rad as int,
                            w_i,
                            h_i,
                        );
                    }
                }
                px = px + 1;
            }
            py = py + 1;
        }
        if rad % 2 == 0 {
            let mut snap = grid.clone_grid();
            draw_markers(&mut snap, sites);
            frames.push(snap);
            proof {
                assert(2 * ((rad / 2) as int) == rad as int);
            }
        }
        rad = rad + 2;
    }
    proof {
        let mr = spec_max_radius(w_i, h_i);
        if rad == mr {
            assert(frames@.len() == spec_num_frames(w_i, h_i));
        } else {
            assert(rad == mr + 1);
            assert(frames@.len() == spec_num_frames(w_i, h_i));
        }
    }
    Ok(frames)
}

/// Determinism: two static renders of the same sites and dimensions agree
/// on every pixel.
pub proof fn lemma_static_render_deterministic(
    g1: PixelGrid,
    g2: PixelGrid,
    sites: Seq<Site>,
    w: int,
    h: int,
)
    requires
        is_static_render(g1, sites, w, h),
        is_static_render(g2, sites, w, h),
    ensures
        g1.spec_width() == g2.spec_width(),
        g1.spec_height() == g2.spec_height(),
        forall|x: int, y: int|
            0 <= x < w && 0 <= y < h ==> #[trigger] g1.color_at(x, y) == g2.color_at(x, y),
{
}

/// Determinism: two progressive renders of the same sites and dimensions
/// agree frame by frame on every pixel.
pub proof fn lemma_animation_render_deterministic(
    f1: Seq<PixelGrid>,
    f2: Seq<PixelGrid>,
    sites: Seq<Site>,
    w: int,
    h: int,
)
    requires
        is_animation_render(f1, sites, w, h),
        is_animation_render(f2, sites, w, h),
    ensures
        f1.len() == f2.len(),
        forall|k: int, x: int, y: int|
            0 <= k < f1.len() && 0 <= x < w && 0 <= y < h ==> #[trigger] f1[k].color_at(x, y)
                == f2[k].color_at(x, y),
{
    assert forall|k: int, x: int, y: int|
        0 <= k < f1.len() && 0 <= x < w && 0 <= y < h implies #[trigger] f1[k].color_at(x, y)
        == f2[k].color_at(x, y) by {
        assert(f1[k].color_at(x, y) == frame_color(sites, w, h, x, y, 2 * k));
        assert(f2[k].color_at(x, y) == frame_color(sites, w, h, x, y, 2 * k));
    }
}

/// Marker precedence: wherever a site marks a pixel, the finished static
/// image and every frame show the marker color, whatever the region color.
pub proof fn lemma_marker_precedence(sites: Seq<Site>, w: int, h: int, x: int, y: int, r: int)
    requires
        marker_at(sites, w, h, x, y),
    ensures
        rendered_color(sites, w, h, x, y) == spec_marker(),
        frame_color(sites, w, h, x, y, r) == spec_marker(),
{
}

/// Monotonic coverage: a pixel painted (non-sentinel) in a frame, markers
/// aside, keeps exactly that color in the next frame.
pub proof fn lemma_monotone_coverage(sites: Seq<Site>, w: int, h: int, x: int, y: int, k: int)
    requires
        sites.len() > 0,
        sites_ok(sites),
        1 <= w <= MAX_DIM,
        1 <= h <= MAX_DIM,
        0 <= x < w,
        0 <= y < h,
        0 <= k,
        !marker_at(sites, w, h, x, y),
        frame_color(sites, w, h, x, y, 2 * k) != spec_unpainted(),
    ensures
        frame_color(sites, w, h, x, y, 2 * (k + 1)) == frame_color(sites, w, h, x, y, 2 * k),
{
    lemma_nearest_site_min(sites, x, y, w, h);
    lemma_dist2_num_range(sites[nearest_site(sites, x, y, w, h)], x, y, w, h);
    lemma_reach_monotone(
        dist2_num(sites[nearest_site(sites, x, y, w, h)], x, y, w, h),
        2 * k,
        2 * (k + 1),
        w,
        h,
    );
}

/// Convergence to the static image: a pixel that full growth has reached by
/// the last frame is classified there, markers aside, exactly as the static
/// render classifies it.
pub proof fn lemma_animation_converges(sites: Seq<Site>, w: int, h: int, x: int, y: int)
    requires
        spec_num_frames(w, h) >= 1,
        !marker_at(sites, w, h, x, y),
        covered(sites, w, h, x, y, 2 * (spec_num_frames(w, h) - 1)),
    ensures
        frame_color(sites, w, h, x, y, 2 * (spec_num_frames(w, h) - 1)) == static_color(
            sites,
            w,
            h,
            x,
            y,
        ),
        rendered_color(sites, w, h, x, y) == static_color(sites, w, h, x, y),
{
}

} // verus!

