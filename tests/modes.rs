use dem_viewer::color::Rgb;
use dem_viewer::grid::{Grid, RasterError, SCALE};
use dem_viewer::render::{render, Mode};

fn grid(ncols: usize, nrows: usize, nodata: i64, values: &[i64]) -> Grid {
    Grid::new(ncols, nrows, nodata * SCALE, values.iter().map(|v| v * SCALE).collect()).unwrap()
}

fn ramp() -> Vec<Rgb> {
    vec![Rgb { r: 0, g: 0, b: 255 }, Rgb { r: 255, g: 0, b: 0 }]
}

#[test]
fn mode_names() {
    assert_eq!(Mode::from_name("grayscale"), Ok(Mode::Grayscale));
    assert_eq!(Mode::from_name("color"), Ok(Mode::Color));
    assert_eq!(Mode::from_name("hillshade"), Ok(Mode::Hillshade));
    assert_eq!(Mode::from_name("color+hillshade"), Ok(Mode::ColorWithHillshade));
    assert_eq!(Mode::from_name("colour"), Err(RasterError::UnknownMode));
    assert_eq!(Mode::from_name(""), Err(RasterError::UnknownMode));
}

#[test]
fn mode_channels() {
    assert_eq!(Mode::Grayscale.channels(), 1);
    assert_eq!(Mode::Hillshade.channels(), 1);
    assert_eq!(Mode::Color.channels(), 3);
    assert_eq!(Mode::ColorWithHillshade.channels(), 3);
}

#[test]
fn render_each_mode() {
    let g = grid(3, 3, -99999, &[1, 2, 3, 4, 5, 6, 7, 8, 9]);
    let shade = |_: i64, _: i64| 255u8;
    assert_eq!(render(&g, Mode::Grayscale, &ramp(), shade).unwrap()[4], 127);
    let color = render(&g, Mode::Color, &ramp(), shade).unwrap();
    assert_eq!(&color[0..3], &[0, 0, 255]);
    assert_eq!(&color[24..27], &[255, 0, 0]);
    assert_eq!(render(&g, Mode::Hillshade, &ramp(), shade).unwrap(), vec![0, 0, 0, 0, 255, 0, 0, 0, 0]);
    let both = render(&g, Mode::ColorWithHillshade, &ramp(), shade).unwrap();
    assert_eq!(both.len(), 27);
    assert_eq!(&both[0..3], &[0, 0, 0]);
    assert_eq!(&both[12..15], &color[12..15]);
}

#[test]
fn render_empty_grid() {
    let g = grid(3, 3, -1, &[-1; 9]);
    let shade = |_: i64, _: i64| 9u8;
    assert_eq!(render(&g, Mode::Grayscale, &ramp(), shade), Err(RasterError::EmptyData));
    assert_eq!(render(&g, Mode::ColorWithHillshade, &ramp(), shade), Err(RasterError::EmptyData));
    assert_eq!(render(&g, Mode::Hillshade, &ramp(), shade).unwrap(), vec![0; 9]);
}
