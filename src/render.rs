use vstd::prelude::*;
use vstd::string::StringSliceAdditionalSpecFns;
use crate::grid::{Grid, RasterError};
use crate::stats::{has_valid, is_valid_range, valid_range, lemma_valid_range_unique};
use crate::gray::{gray_image, gray_levels};
use crate::color::{Rgb, color_image, color_levels};
use crate::hillshade::{is_hillshade, generate_hillshade};
use crate::composite::{blend_image, blend_with_hillshade};

verus! {

/// Which picture to make of a grid.
#[derive(Clone, Copy, Debug, PartialEq, Eq, Structural)]
pub enum Mode {
    Grayscale,
    Color,
    Hillshade,
    ColorWithHillshade,
}

/// The mode a selector names: `grayscale`, `color`, `hillshade` or
/// `color+hillshade`.
pub open spec fn mode_named(name: Seq<u8>) -> Option<Mode> {
    if name == "grayscale".spec_bytes() {
        Some(Mode::Grayscale)
    } else if name == "color".spec_bytes() {
        Some(Mode::Color)
    } else if name == "hillshade".spec_bytes() {
        Some(Mode::Hillshade)
    } else if name == "color+hillshade".spec_bytes() {
        Some(Mode::ColorWithHillshade)
    } else {
        None
    }
}

fn same_bytes(a: &[u8], b: &[u8]) -> (r: bool)
    ensures
        r == (a@ == b@),
{
    if a.len() != b.len() {
        return false;
    }
    let mut i: usize = 0;
    while i < a.len()
        invariant
            a@.len() == b@.len(),
            i <= a@.len(),
            forall|j: int| 0 <= j < i ==> a@[j] == b@[j],
        decreases a@.len() - i,
    {
        if a[i] != b[i] {
            return false;
        }
        i += 1;
    }
    assert(a@ =~= b@);
    true
}

impl Mode {
    /// The mode named by `name`; `UnknownMode` for any other name.
    pub fn from_name(name: &str) -> (r: Result<Mode, RasterError>)
        ensures
            match mode_named(name.spec_bytes()) {
                Some(m) => r == Ok::<Mode, RasterError>(m),
                None => r == Err::<Mode, RasterError>(RasterError::UnknownMode),
            },
    {
        let b = name.as_bytes();
        if same_bytes(b, "grayscale".as_bytes()) {
            Ok(Mode::Grayscale)
        } else if same_bytes(b, "color".as_bytes()) {
            Ok(Mode::Color)
        } else if same_bytes(b, "hillshade".as_bytes()) {
            Ok(Mode::Hillshade)
        } else if same_bytes(b, "color+hillshade".as_bytes()) {
            Ok(Mode::ColorWithHillshade)
        } else {
            Err(RasterError::UnknownMode)
        }
    }

    /// Bytes per cell in a picture of this mode.
    pub fn channels(&self) -> (r: usize)
        ensures
            r == (if *self == Mode::Grayscale || *self == Mode::Hillshade { 1usize } else { 3usize }),
    {
        match self {
            Mode::Grayscale | Mode::Hillshade => 1,
            Mode::Color | Mode::ColorWithHillshade => 3,
        }
    }
}

/// What `render` owes for `mode`, given the range `lo..hi` of valid values.
pub open spec fn rendered<F: Fn(i64, i64) -> u8>(
    g: &Grid,
    mode: Mode,
    ramp: Seq<Rgb>,
    shade: F,
    lo: int,
    hi: int,
    img: Seq<u8>,
) -> bool {
    match mode {
        Mode::Grayscale => img == gray_image(g, lo, hi),
        Mode::Color => img == color_image(g, lo, hi, ramp),
        Mode::Hillshade => is_hillshade(g, shade, img),
        Mode::ColorWithHillshade => exists|hs: Seq<u8>|
            #[trigger] is_hillshade(g, shade, hs) && img == blend_image(color_image(g, lo, hi, ramp), hs),
    }
}

/// Makes the picture that `mode` selects. The colour modes look colours up
/// in `ramp`; hillshading asks `shade` for the intensity of each slope.
/// `EmptyData` where no cell is valid, except in `Hillshade` mode, which
/// needs no range and always succeeds.
pub fn render<F: Fn(i64, i64) -> u8>(g: &Grid, mode: Mode, ramp: &[Rgb], shade: F) -> (r: Result<
    Vec<u8>,
    RasterError,
>)
    requires
        g.wf(),
        ramp@.len() > 0,
        3 * g.samples@.len() <= usize::MAX,
        forall|gx: i64, gy: i64| shade.requires((gx, gy)),
    ensures
        r is Ok <==> (mode == Mode::Hillshade || has_valid(g)),
        r matches Ok(img) ==> forall|lo: int, hi: int| #[trigger] is_valid_range(g, lo, hi) ==> rendered(
            g,
            mode,
            ramp@,
            shade,
            lo,
            hi,
            img@,
        ),
        r matches Ok(img) ==> mode == Mode::Hillshade ==> is_hillshade(g, shade, img@),
        r matches Ok(img) ==> mode != Mode::Hillshade ==> exists|lo: int, hi: int| #[trigger] is_valid_range(g, lo, hi),
        r matches Err(e) ==> e == RasterError::EmptyData,
{
    if let Mode::Hillshade = mode {
        return Ok(generate_hillshade(g, shade));
    }
    let (lo, hi) = match valid_range(g) {
        Ok(p) => p,
        Err(e) => return Err(e),
    };
    let img = match mode {
        Mode::Grayscale => gray_levels(g, lo, hi),
        Mode::Color => color_levels(g, lo, hi, ramp),
        _ => {
            let color = color_levels(g, lo, hi, ramp);
            let hs = generate_hillshade(g, shade);
            match blend_with_hillshade(color.as_slice(), hs.as_slice()) {
                Ok(b) => {
                    assert(is_hillshade(g, shade, hs@));
                    b
                },
                Err(e) => return Err(e),
            }
        },
    };
    assert forall|lo2: int, hi2: int| #[trigger] is_valid_range(g, lo2, hi2) implies rendered(
        g,
        mode,
        ramp@,
        shade,
        lo2,
        hi2,
        img@,
    ) by {
        lemma_valid_range_unique(g, lo as int, hi as int, lo2, hi2);
    }
    assert(is_valid_range(g, lo as int, hi as int));
    Ok(img)
}

} // verus!
