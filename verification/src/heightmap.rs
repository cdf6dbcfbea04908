//! Elevation rasters: decoding the three-channel elevation packing into a
//! heightmap, re-encoding it, and normalizing elevations to 8-bit grayscale.
//!
//! Elevations are held in fixed-point units of 1/256 meter, so the packing
//! `height = R*256 + G + B/256 - 32768` (meters) becomes the exact integer
//! `R*65536 + G*256 + B - 8388608`.

use vstd::prelude::*;

verus! {

/// Lowest representable elevation, in 1/256 m units.
pub const ELEV_MIN: i32 = -8388608;

/// One past the highest representable elevation, in 1/256 m units.
pub const ELEV_END: i32 = 8388608;

/// A row-major two-dimensional array of elevation values in 1/256 m units.
/// Invariant: all rows have equal length.
pub struct Heightmap {
    pub rows: Vec<Vec<i32>>,
}

impl Heightmap {
    /// Number of rows.
    pub open spec fn spec_height(self) -> nat {
        self.rows@.len()
    }

    /// Number of columns (length of every row).
    pub open spec fn spec_width(self) -> nat {
        if self.rows@.len() == 0 {
            0
        } else {
            self.rows@[0]@.len()
        }
    }

    /// All rows have equal length.
    pub open spec fn wf(self) -> bool {
        forall|y: int|
            0 <= y < self.rows@.len() ==> (#[trigger] self.rows@[y])@.len() == self.spec_width()
    }

    /// The elevation grid as a mathematical sequence of rows.
    pub open spec fn view_rows(self) -> Seq<Seq<int>> {
        self.rows@.map_values(|row: Vec<i32>| row@.map_values(|e: i32| e as int))
    }

    /// Every cell lies in the representable elevation range.
    pub open spec fn in_range(self) -> bool {
        forall|y: int, x: int|
            0 <= y < self.spec_height() && 0 <= x < self.spec_width() ==> ELEV_MIN as int
                <= #[trigger] self.view_rows()[y][x] < ELEV_END as int
    }

    /// `v` occurs somewhere in the grid.
    pub open spec fn has_cell(self, v: int) -> bool {
        exists|y: int, x: int|
            0 <= y < self.spec_height() && 0 <= x < self.spec_width()
                && #[trigger] self.view_rows()[y][x] == v
    }

    /// `m` is the least cell value.
    pub open spec fn is_min_of(self, m: int) -> bool {
        &&& self.has_cell(m)
        &&& forall|y: int, x: int|
            0 <= y < self.spec_height() && 0 <= x < self.spec_width() ==> m
                <= #[trigger] self.view_rows()[y][x]
    }

    /// `m` is the greatest cell value.
    pub open spec fn is_max_of(self, m: int) -> bool {
        &&& self.has_cell(m)
        &&& forall|y: int, x: int|
            0 <= y < self.spec_height() && 0 <= x < self.spec_width()
                ==> #[trigger] self.view_rows()[y][x] <= m
    }
}

/// Elevation encoded by one pixel's three channel values, in 1/256 m units.
pub open spec fn terrarium_decode(r: int, g: int, b: int) -> int {
    r * 65536 + g * 256 + b - 8388608
}

/// The heightmap that a `w` by `h` raw RGB8 buffer decodes to.
pub open spec fn spec_terrarium_rows(w: nat, h: nat, bytes: Seq<u8>) -> Seq<Seq<int>> {
    Seq::new(
        h,
        |y: int|
            Seq::new(
                w as nat,
                |x: int|
                    terrarium_decode(
                        bytes[3 * (y * w + x)] as int,
                        bytes[3 * (y * w + x) + 1] as int,
                        bytes[3 * (y * w + x) + 2] as int,
                    ),
            ),
    )
}

/// The raw RGB8 buffer that encodes an elevation grid, three bytes per cell,
/// row-major.
pub open spec fn spec_terrarium_bytes(w: nat, h: nat, rows: Seq<Seq<int>>) -> Seq<u8> {
    Seq::new(
        3 * w * h,
        |k: int|
            {
                let p = k / 3;
                let v = rows[p / (w as int)][p % (w as int)] + 8388608;
                if k % 3 == 0 {
                    (v / 65536) as u8
                } else if k % 3 == 1 {
                    ((v / 256) % 256) as u8
                } else {
                    (v % 256) as u8
                }
            },
    )
}

/// Decodes one pixel's channels.
pub fn decode_pixel(r: u8, g: u8, b: u8) -> (e: i32)
    ensures
        e == terrarium_decode(r as int, g as int, b as int),
        ELEV_MIN as int <= e < ELEV_END as int,
{
    (r as i32) * 65536 + (g as i32) * 256 + (b as i32) - 8388608
}

/// Encodes one elevation value as its three channel values.
pub fn encode_pixel(e: i32) -> (rgb: (u8, u8, u8))
    requires
        ELEV_MIN as int <= e < ELEV_END as int,
    ensures
        terrarium_decode(rgb.0 as int, rgb.1 as int, rgb.2 as int) == e,
        rgb.0 as int == (e + 8388608) / 65536,
        rgb.1 as int == ((e + 8388608) / 256) % 256,
        rgb.2 as int == (e + 8388608) % 256,
{
    let v: u32 = (e + 8388608) as u32;
    let r = (v >> 16) as u8;
    let g = ((v >> 8) & 0xff) as u8;
    let b = (v & 0xff) as u8;
    proof {
        assert((v >> 16) < 256 && ((v >> 8) & 0xff) < 256 && (v & 0xff) < 256 && (v >> 16) * 65536
            + ((v >> 8) & 0xff) * 256 + (v & 0xff) == v && (v >> 16) == v / 65536 && ((v >> 8)
            & 0xff) == (v / 256) % 256 && (v & 0xff) == v % 256) by (bit_vector)
            requires
                v < 16777216,
        ;
    }
    (r, g, b)
}

/// Builds the heightmap that a decoded `w` by `h` RGB8 sample buffer
/// represents, one cell per pixel.
pub fn heightmap_from_rgb(w: u32, h: u32, bytes: &Vec<u8>) -> (hm: Heightmap)
    requires
        bytes@.len() == 3 * w * h,
    ensures
        hm.wf(),
        hm.spec_height() == h,
        hm.spec_width() == if h == 0 {
            0
        } else {
            w as int
        },
        hm.view_rows() == spec_terrarium_rows(w as nat, h as nat, bytes@),
        hm.in_range(),
{
    let n = bytes.len();
    let mut rows: Vec<Vec<i32>> = Vec::new();
    let mut y: u32 = 0;
    while y < h
        invariant
            y <= h,
            n == bytes@.len(),
            bytes@.len() == 3 * w * h,
            rows@.len() == y,
            forall|yy: int|
                0 <= yy < y ==> (#[trigger] rows@[yy])@.map_values(|e: i32| e as int)
                    == spec_terrarium_rows(w as nat, h as nat, bytes@)[yy],
            forall|yy: int| 0 <= yy < y ==> (#[trigger] rows@[yy])@.len() == w,
        decreases h - y,
    {
        let mut row: Vec<i32> = Vec::new();
        let mut x: u32 = 0;
        while x < w
            invariant
                y < h,
                x <= w,
                n == bytes@.len(),
                bytes@.len() == 3 * w * h,
                row@.len() == x,
                forall|xx: int|
                    0 <= xx < x ==> (#[trigger] row@[xx]) as int == spec_terrarium_rows(
                        w as nat,
                        h as nat,
                        bytes@,
                    )[y as int][xx],
            decreases w - x,
        {
            proof {
                assert(3 * ((y as int) * (w as int) + (x as int)) + 2 < 3 * (w as int) * (h as int))
                    by (nonlinear_arith)
                    requires
                        0 <= (y as int) < (h as int),
                        0 <= (x as int) < (w as int),
                ;
            }
            let p: usize = (y as usize) * (w as usize) + (x as usize);
            let e = decode_pixel(bytes[3 * p], bytes[3 * p + 1], bytes[3 * p + 2]);
            row.push(e);
            x = x + 1;
        }
        proof {
            assert(row@.map_values(|e: i32| e as int) =~= spec_terrarium_rows(
                w as nat,
                h as nat,
                bytes@,
            )[y as int]);
        }
        rows.push(row);
        y = y + 1;
    }
    let hm = Heightmap { rows };
    proof {
        assert(hm.view_rows() =~= spec_terrarium_rows(w as nat, h as nat, bytes@));
    }
    hm
}

/// Encodes an elevation grid back into a raw RGB8 buffer, the inverse of
/// [`heightmap_from_rgb`] on well-formed grids.
pub fn terrarium_bytes(hm: &Heightmap) -> (bytes: Vec<u8>)
    requires
        hm.wf(),
        hm.in_range(),
        3 * hm.spec_width() * hm.spec_height() <= usize::MAX,
    ensures
        bytes@ == spec_terrarium_bytes(hm.spec_width(), hm.spec_height(), hm.view_rows()),
{
    let ghost w = hm.spec_width();
    let ghost h = hm.spec_height();
    let mut bytes: Vec<u8> = Vec::new();
    let mut y: usize = 0;
    while y < hm.rows.len()
        invariant
            hm.wf(),
            hm.in_range(),
            w == hm.spec_width(),
            h == hm.spec_height(),
            3 * w * h <= usize::MAX,
            y <= h,
            bytes@.len() == 3 * (y * w),
            forall|k: int|
                0 <= k < bytes@.len() ==> bytes@[k] == spec_terrarium_bytes(w, h, hm.view_rows())[k],
        decreases h - y,
    {
        let row = &hm.rows[y];
        let mut x: usize = 0;
        proof {
            assert((y + 1) * w as int == y * w as int + w) by (nonlinear_arith);
            assert(y * w as int + w <= h * w as int) by (nonlinear_arith)
                requires
                    y < h,
            ;
            assert(3 * (w * h) == 3 * (h * w as int)) by (nonlinear_arith);
        }
        while x < row.len()
            invariant
                hm.wf(),
                hm.in_range(),
                w == hm.spec_width(),
                h == hm.spec_height(),
                3 * w * h <= usize::MAX,
                y < h,
                row == hm.rows@[y as int],
                x <= w,
                row@.len() == w,
                y * w + w <= h * w,
                3 * (w * h) == 3 * (h * w as int),
                bytes@.len() == 3 * (y * w + x),
                forall|k: int|
                    0 <= k < bytes@.len() ==> bytes@[k] == spec_terrarium_bytes(
                        w,
                        h,
                        hm.view_rows(),
                    )[k],
        decreases w - x,
        {
            let e = row[x];
            assert(hm.view_rows()[y as int][x as int] == e as int);
            let (r, g, b) = encode_pixel(e);
            let ghost p: int = y * (w as int) + x;
            let ghost rowsv = hm.view_rows();
            proof {
                assert(0 <= p && 3 * p + 2 < 3 * w * h) by (nonlinear_arith)
                    requires
                        p == y * (w as int) + x,
                        0 <= (y as int) < (h as int),
                        0 <= (x as int) < (w as int),
                        w == hm.spec_width(),
                        h == hm.spec_height(),
                ;
                vstd::arithmetic::div_mod::lemma_fundamental_div_mod_converse(3 * p, 3, p, 0);
                vstd::arithmetic::div_mod::lemma_fundamental_div_mod_converse(3 * p + 1, 3, p, 1);
                vstd::arithmetic::div_mod::lemma_fundamental_div_mod_converse(3 * p + 2, 3, p, 2);
                vstd::arithmetic::div_mod::lemma_fundamental_div_mod_converse(
                    p,
                    w as int,
                    y as int,
                    x as int,
                );
                lemma_digits_recompose(rowsv[y as int][x as int] + 8388608);
                assert(bytes@.len() == 3 * p);
                assert(spec_terrarium_bytes(w, h, rowsv)[3 * p] == r);
                assert(spec_terrarium_bytes(w, h, rowsv)[3 * p + 1] == g);
                assert(spec_terrarium_bytes(w, h, rowsv)[3 * p + 2] == b);
                assert(3 * (p + 1) == 3 * p + 3);
            }
            bytes.push(r);
            bytes.push(g);
            bytes.push(b);
            x = x + 1;
        }
        y = y + 1;
    }
    proof {
        assert(3 * ((h as int) * (w as int)) == 3 * w * h) by (nonlinear_arith);
        assert(bytes@ =~= spec_terrarium_bytes(w, h, hm.view_rows()));
    }
    bytes
}

/// Round trip: decoding the buffer that encodes a well-formed, in-range
/// elevation grid gives back exactly the original grid.
pub proof fn lemma_terrarium_round_trip(hm: Heightmap)
    requires
        hm.wf(),
        hm.in_range(),
    ensures
        spec_terrarium_rows(
            hm.spec_width(),
            hm.spec_height(),
            spec_terrarium_bytes(hm.spec_width(), hm.spec_height(), hm.view_rows()),
        ) == hm.view_rows(),
{
    let w = hm.spec_width();
    let h = hm.spec_height();
    let rows = hm.view_rows();
    let bytes = spec_terrarium_bytes(w, h, rows);
    let back = spec_terrarium_rows(w, h, bytes);
    assert forall|y: int| 0 <= y < h implies back[y] =~= rows[y] by {
        assert forall|x: int| 0 <= x < w implies back[y][x] == rows[y][x] by {
            let p = y * (w as int) + x;
            assert(0 <= p && 3 * p + 2 < 3 * w * h) by (nonlinear_arith)
                requires
                    p == y * (w as int) + x,
                    0 <= y < (h as int),
                    0 <= x < (w as int),
            ;
            vstd::arithmetic::div_mod::lemma_fundamental_div_mod_converse(3 * p, 3, p, 0);
            vstd::arithmetic::div_mod::lemma_fundamental_div_mod_converse(3 * p + 1, 3, p, 1);
            vstd::arithmetic::div_mod::lemma_fundamental_div_mod_converse(3 * p + 2, 3, p, 2);
            vstd::arithmetic::div_mod::lemma_fundamental_div_mod_converse(p, w as int, y, x);
            let e = rows[y][x];
            let v = e + 8388608;
            assert(0 <= v < 16777216);
            lemma_digits_recompose(v);
        }
    }
    assert(back =~= rows);
}

/// Grayscale value of one elevation after linear normalization onto the full
/// 8-bit range: the offset above the observed minimum, rescaled by the
/// observed spread. A flat grid (zero spread) renders as black.
pub open spec fn spec_norm_pixel(hval: int, mn: int, range: int) -> int {
    if range > 0 {
        (hval - mn) * 255 / range
    } else {
        0
    }
}

/// The whole normalized grid as a flat row-major sample buffer.
pub open spec fn spec_norm_pixels(hm: Heightmap, mn: int, mx: int) -> Seq<u8> {
    let w = hm.spec_width() as int;
    Seq::new(
        hm.spec_width() * hm.spec_height(),
        |k: int| spec_norm_pixel(hm.view_rows()[k / w][k % w], mn, mx - mn) as u8,
    )
}

/// Least and greatest cell value of a non-empty heightmap.
pub fn heightmap_min_max(hm: &Heightmap) -> (mm: (i32, i32))
    requires
        hm.wf(),
        hm.spec_height() > 0,
        hm.spec_width() > 0,
    ensures
        hm.is_min_of(mm.0 as int),
        hm.is_max_of(mm.1 as int),
{
    let mut mn = hm.rows[0][0];
    let mut mx = hm.rows[0][0];
    assert(hm.view_rows()[0][0] == mn as int);
    let mut y: usize = 0;
    while y < hm.rows.len()
        invariant
            hm.wf(),
            hm.spec_height() > 0,
            hm.spec_width() > 0,
            y <= hm.spec_height(),
            hm.has_cell(mn as int),
            hm.has_cell(mx as int),
            mn <= mx,
            forall|yy: int, xx: int|
                0 <= yy < y && 0 <= xx < hm.spec_width() ==> mn as int
                    <= #[trigger] hm.view_rows()[yy][xx] <= mx as int,
        decreases hm.spec_height() - y,
    {
        let row = &hm.rows[y];
        let mut x: usize = 0;
        while x < row.len()
            invariant
                hm.wf(),
                hm.spec_height() > 0,
                hm.spec_width() > 0,
                y < hm.spec_height(),
                row == hm.rows@[y as int],
                row@.len() == hm.spec_width(),
                x <= hm.spec_width(),
                hm.has_cell(mn as int),
                hm.has_cell(mx as int),
                mn <= mx,
                forall|yy: int, xx: int|
                    0 <= yy < y && 0 <= xx < hm.spec_width() ==> mn as int
                        <= #[trigger] hm.view_rows()[yy][xx] <= mx as int,
                forall|xx: int|
                    0 <= xx < x ==> mn as int <= #[trigger] hm.view_rows()[y as int][xx]
                        <= mx as int,
            decreases hm.spec_width() - x,
        {
            let e = row[x];
            assert(hm.view_rows()[y as int][x as int] == e as int);
            if e < mn {
                mn = e;
            }
            if e > mx {
                mx = e;
            }
            x = x + 1;
        }
        y = y + 1;
    }
    (mn, mx)
}

/// Normalizes every cell onto `[0, 255]` against the given least and
/// greatest cell values; see [`spec_norm_pixels`].
pub fn normalize_heightmap(hm: &Heightmap, mn: i32, mx: i32) -> (pix: Vec<u8>)
    requires
        hm.wf(),
        hm.spec_height() > 0,
        hm.spec_width() > 0,
        hm.is_min_of(mn as int),
        hm.is_max_of(mx as int),
        hm.spec_width() * hm.spec_height() <= usize::MAX,
    ensures
        pix@ == spec_norm_pixels(*hm, mn as int, mx as int),
        pix@.len() == hm.spec_width() * hm.spec_height(),
{
    let ghost w = hm.spec_width();
    let ghost h = hm.spec_height();
    let range: i64 = (mx as i64) - (mn as i64);
    let mut pix: Vec<u8> = Vec::new();
    let mut y: usize = 0;
    while y < hm.rows.len()
        invariant
            hm.wf(),
            w == hm.spec_width(),
            h == hm.spec_height(),
            w > 0,
            h > 0,
            w * h <= usize::MAX,
            hm.is_min_of(mn as int),
            hm.is_max_of(mx as int),
            range == mx - mn,
            y <= h,
            pix@.len() == y * w,
            forall|k: int|
                0 <= k < pix@.len() ==> pix@[k] == spec_norm_pixels(*hm, mn as int, mx as int)[k],
        decreases h - y,
    {
        let row = &hm.rows[y];
        let mut x: usize = 0;
        proof {
            assert((y + 1) * w as int == y * w as int + w) by (nonlinear_arith);
            assert(y * w as int + w <= h * w as int) by (nonlinear_arith)
                requires
                    y < h,
            ;
            assert(h * w as int == w * h) by (nonlinear_arith);
        }
        while x < row.len()
            invariant
                hm.wf(),
                w == hm.spec_width(),
                h == hm.spec_height(),
                w > 0,
                h > 0,
                w * h <= usize::MAX,
                hm.is_min_of(mn as int),
                hm.is_max_of(mx as int),
                range == mx - mn,
                y < h,
                row == hm.rows@[y as int],
                row@.len() == w,
                x <= w,
                y * w + w <= h * w,
                h * w as int == w * h,
                pix@.len() == y * w + x,
                forall|k: int|
                    0 <= k < pix@.len() ==> pix@[k] == spec_norm_pixels(
                        *hm,
                        mn as int,
                        mx as int,
                    )[k],
            decreases w - x,
        {
            let e = row[x];
            assert(hm.view_rows()[y as int][x as int] == e as int);
            let v: u8 = if range > 0 {
                proof {
                    lemma_norm_pixel_bounds(e as int, mn as int, mx as int);
                }
                (((e as i64 - mn as i64) * 255) / range) as u8
            } else {
                0
            };
            let ghost p: int = y * (w as int) + x;
            proof {
                vstd::arithmetic::div_mod::lemma_fundamental_div_mod_converse(
                    p,
                    w as int,
                    y as int,
                    x as int,
                );
                assert(spec_norm_pixels(*hm, mn as int, mx as int)[p] == v);
            }
            pix.push(v);
            x = x + 1;
        }
        y = y + 1;
    }
    proof {
        assert(h * w as int == w * h) by (nonlinear_arith);
        assert(pix@ =~= spec_norm_pixels(*hm, mn as int, mx as int));
    }
    pix
}

/// Bounds of one normalized value: always within the 8-bit range, with the
/// least cell landing on 0 and the greatest on 255.
proof fn lemma_norm_pixel_bounds(hval: int, mn: int, mx: int)
    requires
        mn <= hval <= mx,
        mn < mx,
    ensures
        0 <= spec_norm_pixel(hval, mn, mx - mn) <= 255,
        hval == mn ==> spec_norm_pixel(hval, mn, mx - mn) == 0,
        hval == mx ==> spec_norm_pixel(hval, mn, mx - mn) == 255,
{
    let range = mx - mn;
    let num = (hval - mn) * 255;
    vstd::arithmetic::mul::lemma_mul_inequality(hval - mn, range, 255);
    vstd::arithmetic::mul::lemma_mul_inequality(0, hval - mn, 255);
    vstd::arithmetic::div_mod::lemma_div_of0(range);
    vstd::arithmetic::div_mod::lemma_div_is_ordered(0, num, range);
    vstd::arithmetic::div_mod::lemma_div_is_ordered(num, range * 255, range);
    vstd::arithmetic::div_mod::lemma_div_multiples_vanish(255, range);
}

/// Normalization spans the full 8-bit range: over any non-flat heightmap,
/// every cell renders within `[0, 255]`, cells holding the least value
/// render as exactly 0, and cells holding the greatest value as exactly 255.
pub proof fn lemma_normalize_full_range(hm: Heightmap, mn: int, mx: int)
    requires
        hm.wf(),
        hm.is_min_of(mn),
        hm.is_max_of(mx),
        mn < mx,
    ensures
        forall|y: int, x: int|
            0 <= y < hm.spec_height() && 0 <= x < hm.spec_width() ==> 0 <= spec_norm_pixel(
                #[trigger] hm.view_rows()[y][x],
                mn,
                mx - mn,
            ) <= 255,
        forall|y: int, x: int|
            0 <= y < hm.spec_height() && 0 <= x < hm.spec_width() && #[trigger] hm.view_rows()[y][x]
                == mn ==> spec_norm_pixel(hm.view_rows()[y][x], mn, mx - mn) == 0,
        forall|y: int, x: int|
            0 <= y < hm.spec_height() && 0 <= x < hm.spec_width() && #[trigger] hm.view_rows()[y][x]
                == mx ==> spec_norm_pixel(hm.view_rows()[y][x], mn, mx - mn) == 255,
{
    assert forall|y: int, x: int|
        0 <= y < hm.spec_height() && 0 <= x < hm.spec_width() implies 0 <= spec_norm_pixel(
        #[trigger] hm.view_rows()[y][x],
        mn,
        mx - mn,
    ) <= 255 && (hm.view_rows()[y][x] == mn ==> spec_norm_pixel(hm.view_rows()[y][x], mn, mx - mn)
        == 0) && (hm.view_rows()[y][x] == mx ==> spec_norm_pixel(hm.view_rows()[y][x], mn, mx - mn)
        == 255) by {
        lemma_norm_pixel_bounds(hm.view_rows()[y][x], mn, mx);
    }
}

/// A zero-elevation placeholder tile: the raw RGB8 samples of one raster
/// tile at its fixed 256 by 256 pixel dimensions, every channel zero.
/// Substituted for a tile whose fetch failed, when the run's policy allows.
pub fn create_empty_tile() -> (r: Vec<u8>)
    ensures
        r@.len() == 196608,
        forall|i: int| 0 <= i < r@.len() ==> r@[i] == 0u8,
{
    let mut r: Vec<u8> = Vec::new();
    let mut i: usize = 0;
    while i < 196608
        invariant
            i <= 196608,
            r@.len() == i,
            forall|j: int| 0 <= j < r@.len() ==> r@[j] == 0u8,
        decreases 196608 - i,
    {
        r.push(0u8);
        i = i + 1;
    }
    r
}

/// Recomposition of a 24-bit value from its three 8-bit digits.
proof fn lemma_digits_recompose(v: int)
    requires
        0 <= v < 16777216,
    ensures
        (v / 65536) * 65536 + ((v / 256) % 256) * 256 + v % 256 == v,
        0 <= v / 65536 < 256,
        0 <= (v / 256) % 256 < 256,
        0 <= v % 256 < 256,
{
    vstd::arithmetic::div_mod::lemma_fundamental_div_mod(v, 256);
    vstd::arithmetic::div_mod::lemma_fundamental_div_mod(v / 256, 256);
    vstd::arithmetic::div_mod::lemma_mod_bound(v, 256);
    vstd::arithmetic::div_mod::lemma_mod_bound(v / 256, 256);
    vstd::arithmetic::div_mod::lemma_div_denominator(v, 256, 256);
    assert(v / 256 / 256 == v / 65536);
    assert(0 <= v / 65536 < 256) by (nonlinear_arith)
        requires
            0 <= v < 16777216,
            v / 65536 == v / 256 / 256,
            v == 256 * (v / 256) + v % 256,
            v / 256 == 256 * (v / 256 / 256) + (v / 256) % 256,
            0 <= v % 256 < 256,
            0 <= (v / 256) % 256 < 256,
    ;
    assert((v / 65536) * 65536 + ((v / 256) % 256) * 256 + v % 256 == v) by (nonlinear_arith)
        requires
            v == 256 * (v / 256) + v % 256,
            v / 256 == 256 * (v / 65536) + (v / 256) % 256,
    ;
}

} // verus!
