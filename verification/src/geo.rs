//! Geographic model and projection into the map's local planar space.
//!
//! Coordinates are held as fixed-point integers: latitudes and longitudes in
//! units of 1e-7 degree (the native precision of the source data), local
//! planar positions in thousandths of a local unit. The projection is a
//! plain linear rescale of the bounding box onto a square of `SPAN_UNITS`
//! local units per edge — a deliberate, documented approximation that is
//! acceptable because spans are small relative to Earth's curvature.

use vstd::prelude::*;

verus! {

/// Edge length of the target square in local units.
pub const SPAN_UNITS: i64 = 2048;

/// Edge length of the target square in thousandths of a local unit.
pub const SPAN_MILLI: i64 = 2048 * 1000;

/// Largest representable latitude: 90 degrees in 1e-7 degree units.
pub const LAT_LIMIT: i64 = 900000000;

/// Largest representable longitude: 180 degrees in 1e-7 degree units.
pub const LON_LIMIT: i64 = 1800000000;

/// A geographic rectangle in 1e-7 degree units.
#[derive(Clone, Copy, Debug, PartialEq, Eq, Structural)]
pub struct BoundingBox {
    pub min_lat: i64,
    pub min_lon: i64,
    pub max_lat: i64,
    pub max_lon: i64,
}

/// `v` is a well-formed latitude in 1e-7 degree units.
pub open spec fn valid_lat(v: int) -> bool {
    -LAT_LIMIT <= v <= LAT_LIMIT
}

/// `v` is a well-formed longitude in 1e-7 degree units.
pub open spec fn valid_lon(v: int) -> bool {
    -LON_LIMIT <= v <= LON_LIMIT
}

impl BoundingBox {
    /// A non-degenerate box over well-formed coordinates. Every stage takes
    /// this for granted; the caller validates the box before the run starts.
    pub open spec fn wf(self) -> bool {
        &&& valid_lat(self.min_lat as int)
        &&& valid_lat(self.max_lat as int)
        &&& valid_lon(self.min_lon as int)
        &&& valid_lon(self.max_lon as int)
        &&& self.min_lat < self.max_lat
        &&& self.min_lon < self.max_lon
    }

    /// Executable form of [`BoundingBox::wf`].
    pub fn check(&self) -> (r: bool)
        ensures
            r == self.wf(),
    {
        -LAT_LIMIT <= self.min_lat && self.min_lat <= LAT_LIMIT && -LAT_LIMIT <= self.max_lat
            && self.max_lat <= LAT_LIMIT && -LON_LIMIT <= self.min_lon && self.min_lon <= LON_LIMIT
            && -LON_LIMIT <= self.max_lon && self.max_lon <= LON_LIMIT && self.min_lat
            < self.max_lat && self.min_lon < self.max_lon
    }
}

/// One projected axis: the offset of `v` inside `[lo, hi]`, rescaled onto
/// `[0, SPAN_MILLI]`, rounded toward negative infinity.
pub open spec fn spec_project(v: int, lo: int, hi: int) -> int {
    (v - lo) * (SPAN_MILLI as int) / (hi - lo)
}

/// Floor division for a numerator of either sign and a positive divisor.
fn div_floor(num: i64, d: i64) -> (q: i64)
    requires
        0 < d <= 4000000000,
        -8000000000000000 <= num <= 8000000000000000,
    ensures
        q == num as int / d as int,
{
    if num >= 0 {
        num / d
    } else {
        let a = -num;
        let q2 = (a + d - 1) / d;
        proof {
            let x = num as int;
            let di = d as int;
            let q0 = x / di;
            let r0 = x % di;
            vstd::arithmetic::div_mod::lemma_fundamental_div_mod(x, di);
            assert(q0 <= 0) by (nonlinear_arith)
                requires
                    x == di * q0 + r0,
                    0 <= r0 < di,
                    0 < di,
                    x < 0,
            ;
            assert(di * q0 <= q0) by (nonlinear_arith)
                requires
                    q0 <= 0,
                    di >= 1,
            ;
            if r0 == 0 {
                assert(-x + di - 1 == (-q0) * di + (di - 1)) by (nonlinear_arith)
                    requires
                        x == di * q0 + r0,
                        r0 == 0,
                ;
                vstd::arithmetic::div_mod::lemma_fundamental_div_mod_converse(
                    -x + di - 1,
                    di,
                    -q0,
                    di - 1,
                );
            } else {
                assert(-x + di - 1 == (-q0) * di + (di - r0 - 1)) by (nonlinear_arith)
                    requires
                        x == di * q0 + r0,
                ;
                vstd::arithmetic::div_mod::lemma_fundamental_div_mod_converse(
                    -x + di - 1,
                    di,
                    -q0,
                    di - r0 - 1,
                );
            }
            assert(q2 == -q0);
        }
        -q2
    }
}

/// Projects one coordinate axis; see [`spec_project`].
fn project_axis(v: i64, lo: i64, hi: i64) -> (r: i64)
    requires
        -LON_LIMIT <= v <= LON_LIMIT,
        -LON_LIMIT <= lo <= LON_LIMIT,
        -LON_LIMIT <= hi <= LON_LIMIT,
        lo < hi,
    ensures
        r == spec_project(v as int, lo as int, hi as int),
{
    let off = v - lo;
    proof {
        assert(-8000000000000000 <= off as int * 2048000 <= 8000000000000000) by (nonlinear_arith)
            requires
                -3700000000 <= off as int <= 3700000000,
        ;
    }
    let num = off * SPAN_MILLI;
    div_floor(num, hi - lo)
}

/// Projects a geographic position into local planar space: `x` from the
/// longitude, `z` from the latitude, both rescaled onto `[0, SPAN_MILLI]`;
/// `y` is always zero — elevation is attached separately, not embedded in
/// this projection. Values are thousandths of a local unit.
pub fn latlon_to_beamng(lat: i64, lon: i64, bbox: &BoundingBox) -> (p: (i64, i64, i64))
    requires
        bbox.wf(),
        valid_lat(lat as int),
        valid_lon(lon as int),
    ensures
        p.0 == spec_project(lon as int, bbox.min_lon as int, bbox.max_lon as int),
        p.1 == 0,
        p.2 == spec_project(lat as int, bbox.min_lat as int, bbox.max_lat as int),
{
    let x = project_axis(lon, bbox.min_lon, bbox.max_lon);
    let z = project_axis(lat, bbox.min_lat, bbox.max_lat);
    (x, 0, z)
}

/// The projection pins the box to the target square: for any bounding box,
/// the south-west corner `(min_lat, min_lon)` lands on the origin, the
/// north-east corner `(max_lat, max_lon)` on `(SPAN_MILLI, SPAN_MILLI)`,
/// and the box midpoint on the centre of the square. The midpoint clauses
/// hold whenever the midpoint lies on the 1e-7 degree coordinate grid (the
/// coordinate sums are even); a box such as `min_lon = 0, max_lon = 3` has
/// no grid point at its midpoint, so no projected coordinate can represent
/// it and the clause says nothing of it.
pub proof fn lemma_projection_anchors(bbox: BoundingBox)
    requires
        bbox.wf(),
    ensures
        spec_project(bbox.min_lon as int, bbox.min_lon as int, bbox.max_lon as int) == 0,
        spec_project(bbox.min_lat as int, bbox.min_lat as int, bbox.max_lat as int) == 0,
        spec_project(bbox.max_lon as int, bbox.min_lon as int, bbox.max_lon as int)
            == SPAN_MILLI as int,
        spec_project(bbox.max_lat as int, bbox.min_lat as int, bbox.max_lat as int)
            == SPAN_MILLI as int,
        (bbox.min_lon + bbox.max_lon) % 2 == 0 ==> spec_project(
            (bbox.min_lon + bbox.max_lon) as int / 2,
            bbox.min_lon as int,
            bbox.max_lon as int,
        ) == SPAN_MILLI as int / 2,
        (bbox.min_lat + bbox.max_lat) % 2 == 0 ==> spec_project(
            (bbox.min_lat + bbox.max_lat) as int / 2,
            bbox.min_lat as int,
            bbox.max_lat as int,
        ) == SPAN_MILLI as int / 2,
{
    lemma_projection_anchors_axis(bbox.min_lon as int, bbox.max_lon as int);
    lemma_projection_anchors_axis(bbox.min_lat as int, bbox.max_lat as int);
}

proof fn lemma_projection_anchors_axis(lo: int, hi: int)
    requires
        lo < hi,
    ensures
        spec_project(lo, lo, hi) == 0,
        spec_project(hi, lo, hi) == SPAN_MILLI as int,
        (lo + hi) % 2 == 0 ==> spec_project((lo + hi) / 2, lo, hi) == SPAN_MILLI as int / 2,
{
    let s = hi - lo;
    let k = SPAN_MILLI as int;
    vstd::arithmetic::div_mod::lemma_div_of0(s);
    assert((lo - lo) * k == 0);
    vstd::arithmetic::div_mod::lemma_div_multiples_vanish(k, s);
    assert((hi - lo) * k == s * k);
    if (lo + hi) % 2 == 0 {
        let m = (lo + hi) / 2;
        vstd::arithmetic::div_mod::lemma_fundamental_div_mod(lo + hi, 2);
        assert(2 * m == lo + hi);
        let h = k / 2;
        assert(h == 1024000);
        assert((m - lo) * k == s * h) by (nonlinear_arith)
            requires
                2 * m == lo + hi,
                s == hi - lo,
                k == 2048000,
                h == 1024000,
        ;
        vstd::arithmetic::div_mod::lemma_div_multiples_vanish(h, s);
    }
}

/// The tile rectangle that covers a tile-coordinate range: all pairs from
/// `(min_x, min_y)` to `(max_x, max_y)` inclusive, x-major, as the tile
/// fetcher walks them.
pub open spec fn spec_tile_grid(min_x: int, min_y: int, max_x: int, max_y: int) -> Seq<
    (u32, u32),
> {
    let ny = max_y + 1 - min_y;
    Seq::new(
        ((max_x + 1 - min_x) * ny) as nat,
        |k: int| (((min_x + k / ny) as u32, (min_y + k % ny) as u32)),
    )
}

/// Enumerates the tile coordinates that cover the inclusive range from
/// `(min_x, min_y)` to `(max_x, max_y)`, x-major. The tile count must fit
/// the machine's indexing, or no such vector can exist.
pub fn tile_grid(min_x: u32, min_y: u32, max_x: u32, max_y: u32) -> (r: Vec<(u32, u32)>)
    requires
        min_x <= max_x,
        min_y <= max_y,
        max_x < 0xffffffff,
        max_y < 0xffffffff,
        (max_x + 1 - min_x) * (max_y + 1 - min_y) <= usize::MAX,
    ensures
        r@ == spec_tile_grid(min_x as int, min_y as int, max_x as int, max_y as int),
{
    let ghost ny = max_y + 1 - min_y as int;
    let mut r: Vec<(u32, u32)> = Vec::new();
    let mut x = min_x;
    while x <= max_x
        invariant
            min_x <= x <= max_x + 1,
            min_y <= max_y,
            max_x < 0xffffffff,
            max_y < 0xffffffff,
            ny == max_y + 1 - min_y,
            (max_x + 1 - min_x) * ny <= usize::MAX,
            r@.len() == (x - min_x) * ny,
            forall|k: int|
                0 <= k < r@.len() ==> r@[k] == (
                ((min_x + k / ny) as u32, (min_y + k % ny) as u32)),
        decreases max_x + 1 - x,
    {
        let mut y = min_y;
        proof {
            vstd::arithmetic::mul::lemma_mul_inequality(
                x - min_x + 1,
                max_x + 1 - min_x,
                ny,
            );
        }
        while y <= max_y
            invariant
                min_x <= x <= max_x,
                min_y <= y <= max_y + 1,
                max_x < 0xffffffff,
                max_y < 0xffffffff,
                ny == max_y + 1 - min_y,
                (x - min_x + 1) * ny <= usize::MAX,
                r@.len() == (x - min_x) * ny + (y - min_y),
                forall|k: int|
                    0 <= k < r@.len() ==> r@[k] == (
                    ((min_x + k / ny) as u32, (min_y + k % ny) as u32)),
            decreases max_y + 1 - y,
        {
            proof {
                assert((x - min_x) * ny + ny == (x - min_x + 1) * ny) by (nonlinear_arith);
                vstd::arithmetic::div_mod::lemma_fundamental_div_mod_converse(
                    r@.len() as int,
                    ny,
                    x - min_x,
                    y - min_y,
                );
            }
            r.push((x, y));
            y = y + 1;
        }
        proof {
            assert((x - min_x) * ny + ny == (x - min_x + 1) * ny) by (nonlinear_arith);
        }
        x = x + 1;
    }
    proof {
        assert(r@ =~= spec_tile_grid(min_x as int, min_y as int, max_x as int, max_y as int));
    }
    r
}

} // verus!
