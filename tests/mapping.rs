use dem_viewer::color::{color_levels, dem_to_color_image, Rgb};
use dem_viewer::grid::{Grid, RasterError, SCALE};
use dem_viewer::gray::{dem_to_grayscale, gray_levels};
use dem_viewer::parse::parse_asc;
use dem_viewer::stats::valid_range;

const SMALL: &str = "ncols 3\nnrows 3\nxllcorner 0.0\nyllcorner 0.0\ncellsize 1.0\nNODATA_value -99999\n1 2 3\n4 5 6\n7 8 9\n";

fn grid(ncols: usize, nrows: usize, nodata: i64, values: &[i64]) -> Grid {
    Grid::new(ncols, nrows, nodata * SCALE, values.iter().map(|v| v * SCALE).collect()).unwrap()
}

fn ramp() -> Vec<Rgb> {
    vec![
        Rgb { r: 10, g: 20, b: 30 },
        Rgb { r: 100, g: 110, b: 120 },
        Rgb { r: 200, g: 210, b: 220 },
    ]
}

#[test]
fn three_by_three_scenario() {
    let g = parse_asc(SMALL.as_bytes()).unwrap();
    assert_eq!(valid_range(&g), Ok((SCALE, 9 * SCALE)));
    let img = dem_to_grayscale(&g).unwrap();
    assert_eq!(img[4], 127);
    assert_eq!(img, vec![0, 31, 63, 95, 127, 159, 191, 223, 255]);
}

#[test]
fn range_skips_nodata() {
    let g = grid(4, 1, -99999, &[-99999, 7, -3, 12]);
    assert_eq!(valid_range(&g), Ok((-3 * SCALE, 12 * SCALE)));
}

#[test]
fn all_nodata_is_empty_data() {
    let g = grid(2, 1, -99999, &[-99999, -99999]);
    assert_eq!(valid_range(&g), Err(RasterError::EmptyData));
    assert_eq!(dem_to_grayscale(&g), Err(RasterError::EmptyData));
    assert_eq!(dem_to_color_image(&g, &ramp()), Err(RasterError::EmptyData));
}

#[test]
fn gray_nodata_min_max() {
    let g = grid(4, 1, -1, &[-1, 10, 20, 30]);
    let img = dem_to_grayscale(&g).unwrap();
    assert_eq!(img[0], 0);
    assert_eq!(img[1], 0);
    assert_eq!(img[3], 255);
    assert_eq!(img[2], 127);
}

#[test]
fn gray_flat_grid_is_defined() {
    let g = grid(3, 1, -1, &[5, 5, -1]);
    assert_eq!(dem_to_grayscale(&g).unwrap(), vec![0, 0, 0]);
}

#[test]
fn gray_clamps_outside_range() {
    let g = grid(3, 1, -1, &[0, 5, 20]);
    assert_eq!(gray_levels(&g, 2 * SCALE, 10 * SCALE), vec![0, 95, 255]);
}

#[test]
fn color_nodata_and_endpoints() {
    let g = grid(4, 1, -99999, &[-99999, 0, 50, 100]);
    let img = dem_to_color_image(&g, &ramp()).unwrap();
    assert_eq!(img.len(), 12);
    assert_eq!(&img[0..3], &[0, 0, 0]);
    assert_eq!(&img[3..6], &[10, 20, 30]);
    assert_eq!(&img[6..9], &[100, 110, 120]);
    assert_eq!(&img[9..12], &[200, 210, 220]);
}

#[test]
fn color_picks_nearest_ramp_entry() {
    let g = grid(3, 1, -99999, &[24, 26, 74]);
    let img = color_levels(&g, 0, 100 * SCALE, &ramp());
    assert_eq!(img, vec![10, 20, 30, 100, 110, 120, 100, 110, 120]);
}

#[test]
fn color_flat_grid_is_defined() {
    let g = grid(2, 1, -99999, &[3, 3]);
    let img = dem_to_color_image(&g, &ramp()).unwrap();
    assert_eq!(img, vec![10, 20, 30, 10, 20, 30]);
}
