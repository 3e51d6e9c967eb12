use vstd::prelude::*;
use crate::grid::RasterError;

verus! {

/// A colour channel darkened by an intensity: `c * s / 255`, rounded down.
pub open spec fn shaded(c: int, s: int) -> int {
    c * s / 255
}

/// Each byte of the three-channel `rgb` darkened by the intensity of its cell.
pub open spec fn blend_image(rgb: Seq<u8>, shade: Seq<u8>) -> Seq<u8> {
    Seq::new(rgb.len(), |k: int| shaded(rgb[k] as int, shade[k / 3] as int) as u8)
}

/// Multiplies a three-channel colour buffer by a one-channel intensity
/// buffer, cell by cell. `DimensionMismatch` unless `rgb` holds three bytes
/// for each byte of `shade`.
pub fn blend_with_hillshade(rgb: &[u8], shade: &[u8]) -> (r: Result<Vec<u8>, RasterError>)
    ensures
        r is Ok <==> rgb@.len() == 3 * shade@.len(),
        r matches Ok(out) ==> out@ == blend_image(rgb@, shade@),
        r matches Err(e) ==> e == RasterError::DimensionMismatch,
{
    if rgb.len() / 3 != shade.len() || rgb.len() % 3 != 0 {
        return Err(RasterError::DimensionMismatch);
    }
    let mut out: Vec<u8> = Vec::new();
    let mut k: usize = 0;
    while k < rgb.len()
        invariant
            rgb@.len() == 3 * shade@.len(),
            k <= rgb@.len(),
            out@.len() == k,
            forall|j: int| 0 <= j < k ==> out@[j] == blend_image(rgb@, shade@)[j],
        decreases rgb@.len() - k,
    {
        let c = rgb[k] as u32;
        let s = shade[k / 3] as u32;
        assert(c * s / 255 <= 255) by (nonlinear_arith)
            requires
                c <= 255,
                s <= 255,
        ;
        out.push((c * s / 255) as u8);
        k += 1;
    }
    assert(out@ =~= blend_image(rgb@, shade@));
    Ok(out)
}

/// Full intensity leaves a colour buffer unchanged.
pub proof fn lemma_blend_full_intensity(rgb: Seq<u8>, shade: Seq<u8>)
    requires
        rgb.len() == 3 * shade.len(),
        forall|i: int| 0 <= i < shade.len() ==> #[trigger] shade[i] == 255,
    ensures
        blend_image(rgb, shade) == rgb,
{
    assert forall|k: int| 0 <= k < rgb.len() implies #[trigger] blend_image(rgb, shade)[k] == rgb[k] by {
        assert(shade[k / 3] == 255);
        assert((rgb[k] as int) * 255 / 255 == rgb[k] as int) by (nonlinear_arith);
    }
    assert(blend_image(rgb, shade) =~= rgb);
}

/// Zero intensity turns every byte of a colour buffer to 0.
pub proof fn lemma_blend_zero_intensity(rgb: Seq<u8>, shade: Seq<u8>)
    requires
        rgb.len() == 3 * shade.len(),
        forall|i: int| 0 <= i < shade.len() ==> #[trigger] shade[i] == 0,
    ensures
        blend_image(rgb, shade) == Seq::new(rgb.len(), |k: int| 0u8),
{
    assert forall|k: int| 0 <= k < rgb.len() implies #[trigger] blend_image(rgb, shade)[k] == 0u8 by {
        assert(shade[k / 3] == 0);
    }
    assert(blend_image(rgb, shade) =~= Seq::new(rgb.len(), |k: int| 0u8));
}

} // verus!
