use vstd::prelude::*;
use crate::grid::{Grid, RasterError, in_magnitude};
use crate::stats::{has_valid, is_valid_range, valid_range, lemma_valid_range_unique};

verus! {

/// A colour with 8-bit channels.
#[derive(Clone, Copy, Debug, PartialEq, Eq, Structural)]
pub struct Rgb {
    pub r: u8,
    pub g: u8,
    pub b: u8,
}

/// Channel `k` of `c`: 0 red, 1 green, 2 blue.
pub open spec fn channel(c: Rgb, k: int) -> u8 {
    if k == 0 {
        c.r
    } else if k == 1 {
        c.g
    } else {
        c.b
    }
}

/// Entry of an `n`-colour ramp nearest to the position of `v` between `lo`
/// (entry 0) and `hi` (entry `n - 1`); a flat range (`hi <= lo`) gives 0.
pub open spec fn ramp_index(v: int, lo: int, hi: int, n: int) -> int {
    if hi <= lo || v <= lo {
        0
    } else if v >= hi {
        n - 1
    } else {
        (2 * (v - lo) * (n - 1) + (hi - lo)) / (2 * (hi - lo))
    }
}

/// Colour of a sample: black for no-data, else its place on the ramp.
pub open spec fn cell_color(v: int, nodata: int, lo: int, hi: int, ramp: Seq<Rgb>) -> Rgb {
    if v == nodata {
        Rgb { r: 0, g: 0, b: 0 }
    } else {
        ramp[ramp_index(v, lo, hi, ramp.len() as int)]
    }
}

/// Three bytes per cell, red, green, blue, row-major.
pub open spec fn color_image(g: &Grid, lo: int, hi: int, ramp: Seq<Rgb>) -> Seq<u8> {
    Seq::new(
        3 * g.samples@.len(),
        |k: int| channel(cell_color(g.samples@[k / 3] as int, g.nodata as int, lo, hi, ramp), k % 3),
    )
}

fn ramp_position(v: i64, lo: i64, hi: i64, n: usize) -> (r: usize)
    requires
        in_magnitude(v as int),
        in_magnitude(lo as int),
        in_magnitude(hi as int),
        n > 0,
    ensures
        r == ramp_index(v as int, lo as int, hi as int, n as int),
        r < n,
{
    if hi <= lo || v <= lo {
        0
    } else if v >= hi {
        n - 1
    } else {
        let d = (v - lo) as i128;
        let span = (hi - lo) as i128;
        let m = (n - 1) as i128;
        let twice = 2 * d;
        assert(0 <= twice * m <= 4_000_000_000_000_000 * 0xffff_ffff_ffff_ffff) by (nonlinear_arith)
            requires
                0 < twice <= 4_000_000_000_000_000,
                0 <= m <= 0xffff_ffff_ffff_ffff,
        ;
        let scaled = twice * m;
        let q = (scaled + span) / (2 * span);
        assert(0 <= q <= m) by (nonlinear_arith)
            requires
                0 < d < span,
                0 <= m,
                q == (2 * d * m + span) / (2 * span),
        ;
        q as usize
    }
}

/// Colour rendering through `ramp`: black for no-data cells, otherwise
/// the ramp entry nearest to the cell's place between `lo` and `hi`.
pub fn color_levels(g: &Grid, lo: i64, hi: i64, ramp: &[Rgb]) -> (r: Vec<u8>)
    requires
        g.wf(),
        in_magnitude(lo as int),
        in_magnitude(hi as int),
        ramp@.len() > 0,
        3 * g.samples@.len() <= usize::MAX,
    ensures
        r@ == color_image(g, lo as int, hi as int, ramp@),
{
    let total = 3 * g.samples.len();
    let mut out: Vec<u8> = Vec::new();
    let mut k: usize = 0;
    while k < total
        invariant
            g.wf(),
            in_magnitude(lo as int),
            in_magnitude(hi as int),
            ramp@.len() > 0,
            total == 3 * g.samples@.len(),
            k <= total,
            out@.len() == k,
            forall|j: int| 0 <= j < k ==> out@[j] == color_image(g, lo as int, hi as int, ramp@)[j],
        decreases total - k,
    {
        let v = g.samples[k / 3];
        assert(in_magnitude(v as int));
        let c = if v == g.nodata {
            Rgb { r: 0, g: 0, b: 0 }
        } else {
            ramp[ramp_position(v, lo, hi, ramp.len())]
        };
        let byte = if k % 3 == 0 {
            c.r
        } else if k % 3 == 1 {
            c.g
        } else {
            c.b
        };
        out.push(byte);
        k += 1;
    }
    assert(out@ =~= color_image(g, lo as int, hi as int, ramp@));
    out
}

/// Colour rendering between the least and greatest valid values of the
/// grid. `EmptyData` where no cell is valid.
pub fn dem_to_color_image(g: &Grid, ramp: &[Rgb]) -> (r: Result<Vec<u8>, RasterError>)
    requires
        g.wf(),
        ramp@.len() > 0,
        3 * g.samples@.len() <= usize::MAX,
    ensures
        r is Ok <==> has_valid(g),
        r matches Ok(img) ==> forall|lo: int, hi: int| #[trigger] is_valid_range(g, lo, hi) ==> img@ == color_image(g, lo, hi, ramp@),
        r matches Ok(img) ==> exists|lo: int, hi: int| #[trigger] is_valid_range(g, lo, hi),
        r matches Err(e) ==> e == RasterError::EmptyData,
{
    let (lo, hi) = match valid_range(g) {
        Ok(p) => p,
        Err(e) => return Err(e),
    };
    let img = color_levels(g, lo, hi, ramp);
    assert forall|lo2: int, hi2: int| #[trigger] is_valid_range(g, lo2, hi2) implies img@ == color_image(g, lo2, hi2, ramp@) by {
        lemma_valid_range_unique(g, lo as int, hi as int, lo2, hi2);
    }
    assert(is_valid_range(g, lo as int, hi as int));
    Ok(img)
}

/// No-data cells are black; with a range that is not flat, a cell holding
/// the least valid value takes the first colour of the ramp and one holding
/// the greatest takes the last.
pub proof fn lemma_color_extremes(g: &Grid, lo: int, hi: int, ramp: Seq<Rgb>, i: int)
    requires
        g.wf(),
        is_valid_range(g, lo, hi),
        lo < hi,
        ramp.len() > 0,
        0 <= i < g.samples@.len(),
    ensures
        g.samples@[i] == g.nodata ==> cell_color(g.samples@[i] as int, g.nodata as int, lo, hi, ramp) == (Rgb { r: 0, g: 0, b: 0 }),
        g.samples@[i] != g.nodata && g.samples@[i] == lo ==> cell_color(g.samples@[i] as int, g.nodata as int, lo, hi, ramp) == ramp[0],
        g.samples@[i] != g.nodata && g.samples@[i] == hi ==> cell_color(g.samples@[i] as int, g.nodata as int, lo, hi, ramp) == ramp[ramp.len() - 1],
        forall|c: int| 0 <= c < 3 ==> #[trigger] color_image(g, lo, hi, ramp)[3 * i + c] == channel(
            cell_color(g.samples@[i] as int, g.nodata as int, lo, hi, ramp),
            c,
        ),
{
    assert forall|c: int| 0 <= c < 3 implies #[trigger] color_image(g, lo, hi, ramp)[3 * i + c] == channel(
        cell_color(g.samples@[i] as int, g.nodata as int, lo, hi, ramp),
        c,
    ) by {
        assert((3 * i + c) / 3 == i);
        assert((3 * i + c) % 3 == c);
    }
}

/// A flat range (least and greatest valid value equal) gives every valid
/// cell the first colour of the ramp.
pub proof fn lemma_color_flat(g: &Grid, v: int, ramp: Seq<Rgb>)
    requires
        g.wf(),
        is_valid_range(g, v, v),
        ramp.len() > 0,
    ensures
        forall|i: int| 0 <= i < g.samples@.len() && g.samples@[i] != g.nodata ==> #[trigger] cell_color(g.samples@[i] as int, g.nodata as int, v, v, ramp) == ramp[0],
{
}

} // verus!
