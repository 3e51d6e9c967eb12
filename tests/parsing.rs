use dem_viewer::grid::{Grid, RasterError, SCALE};
use dem_viewer::parse::parse_asc;

const SMALL: &str = "ncols 3\nnrows 3\nxllcorner 0.0\nyllcorner 0.0\ncellsize 1.0\nNODATA_value -99999\n1 2 3\n4 5 6\n7 8 9\n";

#[test]
fn parses_three_by_three_grid() {
    let g = parse_asc(SMALL.as_bytes()).unwrap();
    assert_eq!(g.ncols, 3);
    assert_eq!(g.nrows, 3);
    assert_eq!(g.nodata, -99999 * SCALE);
    let expected: Vec<i64> = (1..=9).map(|v| v * SCALE).collect();
    assert_eq!(g.samples, expected);
}

#[test]
fn sample_count_matches_dimensions() {
    let text = "ncols 4\nnrows 2\nxllcorner 0\nyllcorner 0\ncellsize 1\nNODATA_value -1\n1 2 3 4 5 6 7 8\n";
    let g = parse_asc(text.as_bytes()).unwrap();
    assert_eq!(g.samples.len(), g.ncols * g.nrows);
    assert_eq!(g.samples.len(), 8);
}

#[test]
fn samples_may_span_line_breaks() {
    let text = "ncols 3\nnrows 2\nx 0\ny 0\nc 1\nnd -9\n1 2\n3 4 5\n\n   6";
    let g = parse_asc(text.as_bytes()).unwrap();
    let expected: Vec<i64> = (1..=6).map(|v| v * SCALE).collect();
    assert_eq!(g.samples, expected);
}

#[test]
fn windows_line_endings() {
    let text = "ncols 2\r\nnrows 1\r\nx 0\r\ny 0\r\nc 1\r\nnd -9\r\n10 20\r\n";
    let g = parse_asc(text.as_bytes()).unwrap();
    assert_eq!(g.samples, vec![10 * SCALE, 20 * SCALE]);
    assert_eq!(g.nodata, -9 * SCALE);
}

#[test]
fn decimal_values_in_fixed_point() {
    let text = "ncols 5\nnrows 1\nx 0\ny 0\nc 1\nnd -99999.5\n12.5 -0.25 +7 .5 3.1234567\n";
    let g = parse_asc(text.as_bytes()).unwrap();
    assert_eq!(g.nodata, -99_999_500_000);
    assert_eq!(g.samples, vec![12_500_000, -250_000, 7_000_000, 500_000, 3_123_456]);
}

#[test]
fn unreadable_sample_becomes_nodata() {
    let text = "ncols 3\nnrows 1\nx 0\ny 0\nc 1\nnd -5\n1 abc 3\n";
    let g = parse_asc(text.as_bytes()).unwrap();
    assert_eq!(g.samples, vec![SCALE, -5 * SCALE, 3 * SCALE]);
}

#[test]
fn missing_header_line_is_format_error() {
    let text = "ncols 3\nnrows 3\nxllcorner 0.0\nyllcorner 0.0\nNODATA_value -99999\n1 2 3\n4 5 6\n7 8 9\n";
    assert_eq!(parse_asc(text.as_bytes()).err(), Some(RasterError::Format));
}

#[test]
fn missing_column_count_is_format_error() {
    let text = "nrows 3\nxllcorner 0.0\nyllcorner 0.0\ncellsize 1\nNODATA_value -99999\n1 2 3\n4 5 6\n7 8 9\n";
    assert_eq!(parse_asc(text.as_bytes()).err(), Some(RasterError::Format));
}

#[test]
fn truncated_header_is_format_error() {
    assert_eq!(parse_asc(b"ncols 3\nnrows 3\n").err(), Some(RasterError::Format));
    assert_eq!(parse_asc(b"").err(), Some(RasterError::Format));
}

#[test]
fn bad_header_number_is_format_error() {
    let text = "ncols three\nnrows 1\nx 0\ny 0\nc 1\nnd -9\n1 2 3\n";
    assert_eq!(parse_asc(text.as_bytes()).err(), Some(RasterError::Format));
    let text = "ncols 3\nnrows 1\nx 0\ny 0\nc 1\nnd none\n1 2 3\n";
    assert_eq!(parse_asc(text.as_bytes()).err(), Some(RasterError::Format));
    let text = "ncols 3\nnrows\nx 0\ny 0\nc 1\nnd -9\n1 2 3\n";
    assert_eq!(parse_asc(text.as_bytes()).err(), Some(RasterError::Format));
}

#[test]
fn zero_dimension_is_format_error() {
    let text = "ncols 0\nnrows 1\nx 0\ny 0\nc 1\nnd -9\n";
    assert_eq!(parse_asc(text.as_bytes()).err(), Some(RasterError::Format));
}

#[test]
fn sample_count_mismatch_is_format_error() {
    let short = "ncols 3\nnrows 2\nx 0\ny 0\nc 1\nnd -9\n1 2 3\n4 5\n";
    assert_eq!(parse_asc(short.as_bytes()).err(), Some(RasterError::Format));
    let long = "ncols 2\nnrows 1\nx 0\ny 0\nc 1\nnd -9\n1 2 3\n";
    assert_eq!(parse_asc(long.as_bytes()).err(), Some(RasterError::Format));
}

#[test]
fn huge_column_count_is_format_error() {
    let text = "ncols 99999999999999999999999\nnrows 1\nx 0\ny 0\nc 1\nnd -9\n1\n";
    assert_eq!(parse_asc(text.as_bytes()).err(), Some(RasterError::Format));
}

#[test]
fn grid_new_checks_shape() {
    assert!(Grid::new(2, 2, -1, vec![1, 2, 3, 4]).is_ok());
    assert_eq!(Grid::new(2, 2, -1, vec![1, 2, 3]).err(), Some(RasterError::Format));
    assert_eq!(Grid::new(0, 2, -1, vec![]).err(), Some(RasterError::Format));
    assert_eq!(Grid::new(1, 1, -1, vec![i64::MAX]).err(), Some(RasterError::Format));
}

#[test]
fn exponent_notation() {
    let text = "ncols 8\nnrows 1\nx 0\ny 0\nc 1\nnd -9e0\n1.5e2 15E-1 -3.25e1 1e-9 0e999 2e 1e20 1e2000000\n";
    let g = parse_asc(text.as_bytes()).unwrap();
    assert_eq!(g.nodata, -9 * SCALE);
    assert_eq!(
        g.samples,
        vec![150 * SCALE, 1_500_000, -32_500_000, 0, 0, -9 * SCALE, -9 * SCALE, -9 * SCALE]
    );
}

#[test]
fn non_finite_words_become_nodata() {
    let text = "ncols 3\nnrows 1\nx 0\ny 0\nc 1\nnd -1\ninf NaN -\n";
    let g = parse_asc(text.as_bytes()).unwrap();
    assert_eq!(g.samples, vec![-SCALE, -SCALE, -SCALE]);
}
