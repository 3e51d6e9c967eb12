use vstd::prelude::*;

verus! {

/// Fixed-point steps per unit of elevation: samples are held in millionths.
pub const SCALE: i64 = 1_000_000;

/// Largest magnitude, in steps, of a sample or of the no-data value.
pub const MAX_MAGNITUDE: i64 = 1_000_000_000_000_000;

/// Why a raster operation could not produce its result.
#[derive(Debug, Clone, Copy, PartialEq, Eq, Structural)]
pub enum RasterError {
    /// The header is missing a line or a field, a header value does not
    /// parse, or the number of samples differs from `ncols * nrows`.
    Format,
    /// No sample differs from the no-data value.
    EmptyData,
    /// A colour buffer and an intensity buffer do not describe the same cells.
    DimensionMismatch,
    /// The requested rendering mode is not one of the known names.
    UnknownMode,
}

/// An elevation raster: `nrows` rows of `ncols` samples, row-major, top row
/// first. A sample equal to `nodata` marks an absent value.
pub struct Grid {
    pub ncols: usize,
    pub nrows: usize,
    pub nodata: i64,
    pub samples: Vec<i64>,
}

pub open spec fn in_magnitude(v: int) -> bool {
    -MAX_MAGNITUDE <= v <= MAX_MAGNITUDE
}

impl Grid {
    /// Dimensions are positive, there is one sample per cell, and every
    /// value stays within `MAX_MAGNITUDE`.
    pub open spec fn wf(&self) -> bool {
        &&& self.ncols > 0
        &&& self.nrows > 0
        &&& self.samples@.len() == self.ncols * self.nrows
        &&& in_magnitude(self.nodata as int)
        &&& forall|i: int| 0 <= i < self.samples@.len() ==> in_magnitude(#[trigger] self.samples@[i] as int)
    }

    pub open spec fn cells(&self) -> int {
        self.ncols * self.nrows
    }

    pub open spec fn is_valid_cell(&self, i: int) -> bool {
        self.samples@[i] != self.nodata
    }

    /// Builds a grid from its parts, or `Format` where they do not make a
    /// well-formed grid.
    pub fn new(ncols: usize, nrows: usize, nodata: i64, samples: Vec<i64>) -> (r: Result<Grid, RasterError>)
        ensures
            r is Ok <==> (ncols > 0 && nrows > 0 && samples@.len() == ncols * nrows
                && in_magnitude(nodata as int)
                && forall|i: int| 0 <= i < samples@.len() ==> in_magnitude(#[trigger] samples@[i] as int)),
            r matches Ok(g) ==> g.wf() && g.ncols == ncols && g.nrows == nrows && g.nodata == nodata
                && g.samples@ == samples@,
            r matches Err(e) ==> e == RasterError::Format,
    {
        if ncols == 0 || nrows == 0 || nodata < -MAX_MAGNITUDE || nodata > MAX_MAGNITUDE {
            return Err(RasterError::Format);
        }
        let len = samples.len();
        let cells = match ncols.checked_mul(nrows) {
            Some(c) => c,
            None => return Err(RasterError::Format),
        };
        if len != cells {
            return Err(RasterError::Format);
        }
        let mut i: usize = 0;
        while i < samples.len()
            invariant
                i <= samples@.len(),
                forall|j: int| 0 <= j < i ==> in_magnitude(#[trigger] samples@[j] as int),
            decreases samples@.len() - i,
        {
            if samples[i] < -MAX_MAGNITUDE || samples[i] > MAX_MAGNITUDE {
                return Err(RasterError::Format);
            }
            i += 1;
        }
        Ok(Grid { ncols, nrows, nodata, samples })
    }
}

} // verus!
