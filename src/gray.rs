use vstd::prelude::*;
use crate::grid::{Grid, RasterError, in_magnitude};
use crate::stats::{has_valid, is_valid_range, valid_range, lemma_valid_range_unique};

verus! {

/// Intensity of a sample on a 0..=255 scale between `lo` and `hi`, rounded
/// down; no-data cells and every cell of a flat range (`hi <= lo`) give 0.
pub open spec fn gray_level(v: int, nodata: int, lo: int, hi: int) -> int {
    if v == nodata || hi <= lo || v <= lo {
        0
    } else if v >= hi {
        255
    } else {
        (v - lo) * 255 / (hi - lo)
    }
}

pub open spec fn gray_image(g: &Grid, lo: int, hi: int) -> Seq<u8> {
    Seq::new(g.samples@.len(), |i: int| gray_level(g.samples@[i] as int, g.nodata as int, lo, hi) as u8)
}

/// One intensity byte per cell, scaled between `lo` and `hi`.
pub fn gray_levels(g: &Grid, lo: i64, hi: i64) -> (r: Vec<u8>)
    requires
        g.wf(),
        in_magnitude(lo as int),
        in_magnitude(hi as int),
    ensures
        r@ == gray_image(g, lo as int, hi as int),
{
    let mut out: Vec<u8> = Vec::new();
    let mut i: usize = 0;
    while i < g.samples.len()
        invariant
            g.wf(),
            in_magnitude(lo as int),
            in_magnitude(hi as int),
            i <= g.samples@.len(),
            out@.len() == i,
            forall|j: int| 0 <= j < i ==> out@[j] == gray_image(g, lo as int, hi as int)[j],
        decreases g.samples@.len() - i,
    {
        let v = g.samples[i];
        assert(in_magnitude(v as int));
        let level: u8 = if v == g.nodata || hi <= lo || v <= lo {
            0
        } else if v >= hi {
            255
        } else {
            let d = v - lo;
            let span = hi - lo;
            assert(0 <= (d as int) * 255 / (span as int) < 255) by (nonlinear_arith)
                requires
                    0 < d < span,
            ;
            (d * 255 / span) as u8
        };
        out.push(level);
        i += 1;
    }
    assert(out@ =~= gray_image(g, lo as int, hi as int));
    out
}

/// Grayscale rendering: each cell scaled between the least and greatest
/// valid values of the grid. `EmptyData` where no cell is valid.
pub fn dem_to_grayscale(g: &Grid) -> (r: Result<Vec<u8>, RasterError>)
    requires
        g.wf(),
    ensures
        r is Ok <==> has_valid(g),
        r matches Ok(img) ==> forall|lo: int, hi: int| #[trigger] is_valid_range(g, lo, hi) ==> img@ == gray_image(g, lo, hi),
        r matches Ok(img) ==> exists|lo: int, hi: int| #[trigger] is_valid_range(g, lo, hi),
        r matches Err(e) ==> e == RasterError::EmptyData,
{
    let (lo, hi) = match valid_range(g) {
        Ok(p) => p,
        Err(e) => return Err(e),
    };
    let img = gray_levels(g, lo, hi);
    assert forall|lo2: int, hi2: int| #[trigger] is_valid_range(g, lo2, hi2) implies img@ == gray_image(g, lo2, hi2) by {
        lemma_valid_range_unique(g, lo as int, hi as int, lo2, hi2);
    }
    assert(is_valid_range(g, lo as int, hi as int));
    Ok(img)
}

/// No-data cells are black; with a range that is not flat, a cell holding
/// the least valid value is 0 and one holding the greatest is 255.
pub proof fn lemma_gray_extremes(g: &Grid, lo: int, hi: int)
    requires
        g.wf(),
        is_valid_range(g, lo, hi),
        lo < hi,
    ensures
        forall|i: int| 0 <= i < g.samples@.len() && g.samples@[i] == g.nodata ==> #[trigger] gray_image(g, lo, hi)[i] == 0,
        forall|i: int| 0 <= i < g.samples@.len() && g.samples@[i] != g.nodata && g.samples@[i] == lo ==> #[trigger] gray_image(g, lo, hi)[i] == 0,
        forall|i: int| 0 <= i < g.samples@.len() && g.samples@[i] != g.nodata && g.samples@[i] == hi ==> #[trigger] gray_image(g, lo, hi)[i] == 255,
{
}

/// A flat range (least and greatest valid value equal) gives 0 in every cell.
pub proof fn lemma_gray_flat(g: &Grid, v: int)
    requires
        g.wf(),
        is_valid_range(g, v, v),
    ensures
        forall|i: int| 0 <= i < g.samples@.len() ==> #[trigger] gray_image(g, v, v)[i] == 0,
{
}

} // verus!
