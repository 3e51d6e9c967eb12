use vstd::prelude::*;
use crate::grid::{Grid, RasterError, in_magnitude};

verus! {

/// Some cell of `g` holds a value other than the no-data value.
pub open spec fn has_valid(g: &Grid) -> bool {
    exists|i: int| 0 <= i < g.samples@.len() && #[trigger] g.samples@[i] != g.nodata
}

/// `lo` and `hi` are the least and greatest values over the cells of `g`
/// that differ from the no-data value.
pub open spec fn is_valid_range(g: &Grid, lo: int, hi: int) -> bool {
    &&& exists|i: int| 0 <= i < g.samples@.len() && #[trigger] g.samples@[i] != g.nodata && g.samples@[i] == lo
    &&& exists|i: int| 0 <= i < g.samples@.len() && #[trigger] g.samples@[i] != g.nodata && g.samples@[i] == hi
    &&& forall|i: int| 0 <= i < g.samples@.len() && #[trigger] g.samples@[i] != g.nodata
        ==> lo <= g.samples@[i] <= hi
}

/// The least and greatest valid values are unique where they exist.
pub proof fn lemma_valid_range_unique(g: &Grid, lo1: int, hi1: int, lo2: int, hi2: int)
    requires
        is_valid_range(g, lo1, hi1),
        is_valid_range(g, lo2, hi2),
    ensures
        lo1 == lo2,
        hi1 == hi2,
{
    let i1 = choose|i: int| 0 <= i < g.samples@.len() && #[trigger] g.samples@[i] != g.nodata && g.samples@[i] == lo1;
    let i2 = choose|i: int| 0 <= i < g.samples@.len() && #[trigger] g.samples@[i] != g.nodata && g.samples@[i] == lo2;
    let j1 = choose|i: int| 0 <= i < g.samples@.len() && #[trigger] g.samples@[i] != g.nodata && g.samples@[i] == hi1;
    let j2 = choose|i: int| 0 <= i < g.samples@.len() && #[trigger] g.samples@[i] != g.nodata && g.samples@[i] == hi2;
    assert(g.samples@[i1] != g.nodata);
    assert(g.samples@[i2] != g.nodata);
    assert(g.samples@[j1] != g.nodata);
    assert(g.samples@[j2] != g.nodata);
}

/// The least and greatest values over the cells that differ from the
/// no-data value, compared exactly; `EmptyData` where there is none.
pub fn valid_range(g: &Grid) -> (r: Result<(i64, i64), RasterError>)
    requires
        g.wf(),
    ensures
        r is Ok <==> has_valid(g),
        r matches Ok(p) ==> is_valid_range(g, p.0 as int, p.1 as int) && p.0 <= p.1 && in_magnitude(
            p.0 as int,
        ) && in_magnitude(p.1 as int),
        r matches Err(e) ==> e == RasterError::EmptyData,
{
    let mut found = false;
    let mut lo: i64 = 0;
    let mut hi: i64 = 0;
    let mut lo_at: Ghost<int> = Ghost(0);
    let mut hi_at: Ghost<int> = Ghost(0);
    let mut i: usize = 0;
    while i < g.samples.len()
        invariant
            g.wf(),
            i <= g.samples@.len(),
            !found ==> forall|j: int| 0 <= j < i ==> #[trigger] g.samples@[j] == g.nodata,
            found ==> {
                &&& 0 <= lo_at@ < i && g.samples@[lo_at@] != g.nodata && g.samples@[lo_at@] == lo
                &&& 0 <= hi_at@ < i && g.samples@[hi_at@] != g.nodata && g.samples@[hi_at@] == hi
                &&& forall|j: int| 0 <= j < i && #[trigger] g.samples@[j] != g.nodata ==> lo <= g.samples@[j] <= hi
            },
        decreases g.samples@.len() - i,
    {
        let v = g.samples[i];
        if v != g.nodata {
            if !found || v < lo {
                lo = v;
                lo_at = Ghost(i as int);
            }
            if !found || v > hi {
                hi = v;
                hi_at = Ghost(i as int);
            }
            found = true;
        }
        i += 1;
    }
    if !found {
        return Err(RasterError::EmptyData);
    }
    assert(g.samples@[lo_at@] != g.nodata);
    assert(g.samples@[hi_at@] != g.nodata);
    assert(in_magnitude(g.samples@[lo_at@] as int));
    assert(in_magnitude(g.samples@[hi_at@] as int));
    Ok((lo, hi))
}

} // verus!
