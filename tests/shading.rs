use dem_viewer::composite::blend_with_hillshade;
use dem_viewer::grid::{Grid, RasterError, SCALE};
use dem_viewer::hillshade::{generate_hillshade, hillshade_relief, Relief};
use dem_viewer::parse::parse_asc;

const SMALL: &str = "ncols 3\nnrows 3\nxllcorner 0.0\nyllcorner 0.0\ncellsize 1.0\nNODATA_value -99999\n1 2 3\n4 5 6\n7 8 9\n";

fn grid(ncols: usize, nrows: usize, nodata: i64, values: &[i64]) -> Grid {
    Grid::new(ncols, nrows, nodata * SCALE, values.iter().map(|v| v * SCALE).collect()).unwrap()
}

#[test]
fn three_by_three_hillshade_corners_are_zero() {
    let g = parse_asc(SMALL.as_bytes()).unwrap();
    let img = generate_hillshade(&g, |_, _| 200);
    assert_eq!(img, vec![0, 0, 0, 0, 200, 0, 0, 0, 0]);
    let relief = hillshade_relief(&g);
    assert_eq!(relief[4], Relief::Slope { gx: 8 * SCALE, gy: 24 * SCALE });
}

#[test]
fn border_cells_are_zero() {
    let g = grid(4, 4, -99999, &[3, 1, 4, 1, 5, 9, 2, 6, 5, 3, 5, 8, 9, 7, 9, 3]);
    let img = generate_hillshade(&g, |_, _| 77);
    for i in 0..16 {
        let (x, y) = (i % 4, i / 4);
        let border = x == 0 || y == 0 || x == 3 || y == 3;
        assert_eq!(img[i], if border { 0 } else { 77 });
    }
}

#[test]
fn flat_interior_has_constant_shade() {
    let g = grid(5, 4, -99999, &[42; 20]);
    let img = generate_hillshade(&g, |gx, gy| if gx == 0 && gy == 0 { 180 } else { 1 });
    for i in 0..20 {
        let (x, y) = (i % 5, i / 5);
        let border = x == 0 || y == 0 || x == 4 || y == 3;
        assert_eq!(img[i], if border { 0 } else { 180 });
    }
    for r in hillshade_relief(&g).iter().enumerate().filter(|(i, _)| {
        let (x, y) = (i % 5, i / 5);
        !(x == 0 || y == 0 || x == 4 || y == 3)
    }) {
        assert_eq!(*r.1, Relief::Slope { gx: 0, gy: 0 });
    }
}

#[test]
fn nodata_centre_is_zero() {
    let g = grid(3, 3, -99999, &[1, 2, 3, 4, -99999, 6, 7, 8, 9]);
    let img = generate_hillshade(&g, |_, _| 99);
    assert_eq!(img[4], 0);
    assert_eq!(hillshade_relief(&g)[4], Relief::Blank);
}

#[test]
fn shade_receives_horn_differences() {
    let g = grid(3, 3, -99999, &[0, 0, 10, 0, 0, 10, 0, 0, 10]);
    let relief = hillshade_relief(&g);
    assert_eq!(relief[4], Relief::Slope { gx: 40 * SCALE, gy: 0 });
}

#[test]
fn full_intensity_keeps_colour() {
    let rgb = vec![1u8, 2, 3, 250, 128, 0];
    assert_eq!(blend_with_hillshade(&rgb, &[255, 255]).unwrap(), rgb);
}

#[test]
fn zero_intensity_gives_black() {
    let rgb = vec![1u8, 2, 3, 250, 128, 0];
    assert_eq!(blend_with_hillshade(&rgb, &[0, 0]).unwrap(), vec![0; 6]);
}

#[test]
fn partial_intensity_rounds_down() {
    assert_eq!(blend_with_hillshade(&[200, 100, 255], &[128]).unwrap(), vec![100, 50, 128]);
}

#[test]
fn blend_size_mismatch() {
    assert_eq!(blend_with_hillshade(&[1, 2, 3, 4], &[1]), Err(RasterError::DimensionMismatch));
    assert_eq!(blend_with_hillshade(&[1, 2, 3], &[1, 2]), Err(RasterError::DimensionMismatch));
}
