use vstd::prelude::*;
use vstd::arithmetic::div_mod::lemma_fundamental_div_mod_converse;
use crate::grid::{Grid, in_magnitude};

verus! {

/// What the shading of one cell depends on.
#[derive(Clone, Copy, Debug, PartialEq, Eq, Structural)]
pub enum Relief {
    /// A border cell or a no-data cell: rendered as 0.
    Blank,
    /// Horn's 3x3 weighted differences, in fixed-point steps: `gx` is eight
    /// times the eastward rise per cell, `gy` eight times the southward rise.
    Slope { gx: i64, gy: i64 },
}

/// Cell `i` lies in the first or last row or column.
pub open spec fn is_border(g: &Grid, i: int) -> bool {
    let w = g.ncols as int;
    i % w == 0 || i % w == w - 1 || i / w == 0 || i / w == g.nrows - 1
}

pub open spec fn elev(g: &Grid, i: int) -> int {
    g.samples@[i] as int
}

/// East column minus west column, the middle row weighted twice.
pub open spec fn horn_x(g: &Grid, i: int) -> int {
    let w = g.ncols as int;
    (elev(g, i - w + 1) + 2 * elev(g, i + 1) + elev(g, i + w + 1)) - (elev(g, i - w - 1) + 2 * elev(
        g,
        i - 1,
    ) + elev(g, i + w - 1))
}

/// South row minus north row, the middle column weighted twice.
pub open spec fn horn_y(g: &Grid, i: int) -> int {
    let w = g.ncols as int;
    (elev(g, i + w - 1) + 2 * elev(g, i + w) + elev(g, i + w + 1)) - (elev(g, i - w - 1) + 2 * elev(
        g,
        i - w,
    ) + elev(g, i - w + 1))
}

pub open spec fn relief_at(g: &Grid, i: int) -> Relief {
    if is_border(g, i) || g.samples@[i] == g.nodata {
        Relief::Blank
    } else {
        Relief::Slope { gx: horn_x(g, i) as i64, gy: horn_y(g, i) as i64 }
    }
}

/// The eight neighbours of a cell off the border lie inside the grid.
proof fn lemma_interior_neighbors(g: &Grid, i: int)
    requires
        g.wf(),
        !is_border(g, i),
        0 <= i < g.samples@.len(),
    ensures
        g.ncols + 1 <= i,
        i + g.ncols + 1 < g.samples@.len(),
{
    let w = g.ncols as int;
    let x = i % w;
    let y = i / w;
    vstd::arithmetic::div_mod::lemma_fundamental_div_mod(i, w);
    assert(g.samples@.len() == w * g.nrows) by (nonlinear_arith)
        requires
            g.samples@.len() == g.ncols * g.nrows,
            w == g.ncols,
    ;
    assert(w * (g.nrows - 2) == w * g.nrows - 2 * w) by (nonlinear_arith);
    assert(y < g.nrows) by (nonlinear_arith)
        requires
            i == w * y + x,
            i < w * g.nrows,
            0 <= x,
            w > 0,
    ;
    assert(w * y <= w * (g.nrows - 2)) by (nonlinear_arith)
        requires
            y <= g.nrows - 2,
            w > 0,
    ;
    assert(w <= w * y) by (nonlinear_arith)
        requires
            1 <= y,
            w > 0,
    ;
}

fn interior_relief(g: &Grid, i: usize) -> (r: Relief)
    requires
        g.wf(),
        !is_border(g, i as int),
        0 <= i < g.samples@.len(),
    ensures
        r == relief_at(g, i as int),
{
    let w = g.ncols;
    let len = g.samples.len();
    proof {
        lemma_interior_neighbors(g, i as int);
    }
    assert(i + w + 1 < len);
    if g.samples[i] == g.nodata {
        return Relief::Blank;
    }
    let nw = g.samples[i - w - 1];
    let n = g.samples[i - w];
    let ne = g.samples[i - w + 1];
    let west = g.samples[i - 1];
    let east = g.samples[i + 1];
    let sw = g.samples[i + w - 1];
    let s = g.samples[i + w];
    let se = g.samples[i + w + 1];
    assert(in_magnitude(nw as int) && in_magnitude(n as int) && in_magnitude(ne as int));
    assert(in_magnitude(west as int) && in_magnitude(east as int));
    assert(in_magnitude(sw as int) && in_magnitude(s as int) && in_magnitude(se as int));
    let gx = (ne + 2 * east + se) - (nw + 2 * west + sw);
    let gy = (sw + 2 * s + se) - (nw + 2 * n + ne);
    Relief::Slope { gx, gy }
}

/// Relief of every cell, row-major.
pub fn hillshade_relief(g: &Grid) -> (r: Vec<Relief>)
    requires
        g.wf(),
    ensures
        r@ == Seq::new(g.samples@.len(), |i: int| relief_at(g, i)),
{
    let w = g.ncols;
    let h = g.nrows;
    let mut out: Vec<Relief> = Vec::new();
    let mut i: usize = 0;
    let mut x: usize = 0;
    let mut y: usize = 0;
    while i < g.samples.len()
        invariant
            g.wf(),
            w == g.ncols,
            h == g.nrows,
            i <= g.samples@.len(),
            i == y * w + x,
            x < w,
            out@.len() == i,
            forall|j: int| 0 <= j < i ==> out@[j] == relief_at(g, j),
        decreases g.samples@.len() - i,
    {
        proof {
            lemma_fundamental_div_mod_converse(i as int, w as int, y as int, x as int);
            assert(y < h) by (nonlinear_arith)
                requires
                    i == y * w + x,
                    i < h * w,
                    0 <= x,
                    w > 0,
            ;
        }
        let rel = if x == 0 || x == w - 1 || y == 0 || y == h - 1 {
            Relief::Blank
        } else {
            interior_relief(g, i)
        };
        out.push(rel);
        i += 1;
        assert((y + 1) * w == y * w + w) by (nonlinear_arith);
        if x + 1 == w {
            x = 0;
            y += 1;
        } else {
            x += 1;
        }
    }
    assert(out@ =~= Seq::new(g.samples@.len(), |i: int| relief_at(g, i)));
    out
}

/// `img` holds one byte per cell of `g`: 0 for border and no-data cells,
/// and for every other cell a result of `shade` on the cell's relief.
pub open spec fn is_hillshade<F: Fn(i64, i64) -> u8>(g: &Grid, shade: F, img: Seq<u8>) -> bool {
    &&& img.len() == g.samples@.len()
    &&& forall|i: int|
        0 <= i < img.len() ==> match relief_at(g, i) {
            Relief::Blank => img[i] == 0,
            Relief::Slope { gx, gy } => shade.ensures((gx, gy), #[trigger] img[i]),
        }
}

/// Hillshade rendering: 0 for border and no-data cells, and for every
/// other cell what `shade` gives for its relief.
pub fn generate_hillshade<F: Fn(i64, i64) -> u8>(g: &Grid, shade: F) -> (r: Vec<u8>)
    requires
        g.wf(),
        forall|gx: i64, gy: i64| shade.requires((gx, gy)),
    ensures
        is_hillshade(g, shade, r@),
{
    let relief = hillshade_relief(g);
    let mut out: Vec<u8> = Vec::new();
    let mut i: usize = 0;
    while i < relief.len()
        invariant
            relief@ == Seq::new(g.samples@.len(), |j: int| relief_at(g, j)),
            forall|gx: i64, gy: i64| shade.requires((gx, gy)),
            i <= relief@.len(),
            out@.len() == i,
            forall|j: int|
                0 <= j < i ==> match relief_at(g, j) {
                    Relief::Blank => out@[j] == 0,
                    Relief::Slope { gx, gy } => shade.ensures((gx, gy), #[trigger] out@[j]),
                },
        decreases relief@.len() - i,
    {
        let b = match relief[i] {
            Relief::Blank => 0,
            Relief::Slope { gx, gy } => shade(gx, gy),
        };
        out.push(b);
        i += 1;
    }
    out
}

/// Border cells of a hillshade are 0.
pub proof fn lemma_hillshade_border<F: Fn(i64, i64) -> u8>(g: &Grid, shade: F, img: Seq<u8>, i: int)
    requires
        g.wf(),
        is_hillshade(g, shade, img),
        0 <= i < g.samples@.len(),
        is_border(g, i),
    ensures
        img[i] == 0,
{
    assert(relief_at(g, i) == Relief::Blank);
}

/// On a grid whose cells all hold one value other than no-data, every
/// interior cell has a level relief.
pub proof fn lemma_flat_relief(g: &Grid, i: int)
    requires
        g.wf(),
        forall|j: int| 0 <= j < g.samples@.len() ==> #[trigger] g.samples@[j] == g.samples@[0],
        g.samples@[0] != g.nodata,
        0 <= i < g.samples@.len(),
        !is_border(g, i),
    ensures
        relief_at(g, i) == (Relief::Slope { gx: 0, gy: 0 }),
{
    let w = g.ncols as int;
    lemma_interior_neighbors(g, i);
    let c = g.samples@[0];
    assert(g.samples@[i - w - 1] == c && g.samples@[i - w] == c && g.samples@[i - w + 1] == c);
    assert(g.samples@[i - 1] == c && g.samples@[i] == c && g.samples@[i + 1] == c);
    assert(g.samples@[i + w - 1] == c && g.samples@[i + w] == c && g.samples@[i + w + 1] == c);
}

/// On a grid whose cells all hold one value other than no-data, a shading
/// that gives one intensity for a level slope gives that intensity to every
/// interior cell.
pub proof fn lemma_flat_shade_constant<F: Fn(i64, i64) -> u8>(g: &Grid, shade: F, img: Seq<u8>, i: int, j: int)
    requires
        g.wf(),
        forall|k: int| 0 <= k < g.samples@.len() ==> #[trigger] g.samples@[k] == g.samples@[0],
        g.samples@[0] != g.nodata,
        is_hillshade(g, shade, img),
        forall|a: u8, b: u8| shade.ensures((0i64, 0i64), a) && shade.ensures((0i64, 0i64), b) ==> a == b,
        0 <= i < g.samples@.len(),
        0 <= j < g.samples@.len(),
        !is_border(g, i),
        !is_border(g, j),
    ensures
        img[i] == img[j],
{
    lemma_flat_relief(g, i);
    lemma_flat_relief(g, j);
    assert(shade.ensures((0i64, 0i64), img[i]));
    assert(shade.ensures((0i64, 0i64), img[j]));
}

} // verus!
