use tinypng::defilter::{defilter, paeth_predictor, recon_a, recon_b, recon_c};
use tinypng::png::Error;

#[test]
fn missing_left_neighbour_is_zero() {
    // Columns within the first pixel have no left neighbour.
    let recon = [9u8, 8, 7, 6, 5, 4];
    assert_eq!(recon_a(&recon, 6, 3, 0, 0), 0);
    assert_eq!(recon_a(&recon, 6, 3, 0, 2), 0);
    assert_eq!(recon_a(&recon, 6, 3, 0, 3), 9);
    assert_eq!(recon_a(&recon, 6, 3, 0, 5), 7);
}

#[test]
fn missing_above_neighbour_is_zero() {
    let recon = [9u8, 8, 7, 6, 5, 4, 3, 2, 1];
    assert_eq!(recon_b(&recon, 3, 0, 0), 0);
    assert_eq!(recon_b(&recon, 3, 0, 2), 0);
    assert_eq!(recon_b(&recon, 3, 1, 0), 9);
    assert_eq!(recon_b(&recon, 3, 2, 1), 5);
}

#[test]
fn missing_diagonal_neighbour_is_zero() {
    let recon = [9u8, 8, 7, 6, 5, 4, 3, 2, 1, 0, 11, 12];
    // First row: no row above.
    assert_eq!(recon_c(&recon, 6, 3, 0, 4), 0);
    // Second row, first pixel: no pixel to the left.
    assert_eq!(recon_c(&recon, 6, 3, 1, 2), 0);
    // Second row, second pixel: byte up and one pixel left.
    assert_eq!(recon_c(&recon, 6, 3, 1, 3), 9);
    assert_eq!(recon_c(&recon, 6, 3, 1, 5), 7);
}

#[test]
fn paeth_predictor_picks_nearest_with_ties_to_a_then_b() {
    // p = a + b - c modulo 256.
    // a = b, c = 0: p = 2a, equal distances to a and b, tie to a.
    assert_eq!(paeth_predictor(1, 1, 0), 1);
    // a = 0: p = b, distance 0 to b.
    assert_eq!(paeth_predictor(0, 255, 0), 255);
    // b = c: p = a.
    assert_eq!(paeth_predictor(7, 20, 20), 7);
    // All equal: tie resolves to a.
    assert_eq!(paeth_predictor(5, 5, 5), 5);
    // The combination wraps modulo 256: p = (200 + 100) % 256 = 44, and
    // c = 0 is nearest to 44.
    assert_eq!(paeth_predictor(200, 100, 0), 0);
}

#[test]
fn defilter_none_passes_bytes_through() {
    let data = [0u8, 1, 2, 3];
    assert_eq!(defilter(&data, 1, 3, 3), Ok(vec![1, 2, 3]));
}

#[test]
fn defilter_sub_in_first_row_uses_zero_left_of_first_pixel() {
    let data = [1u8, 10, 20, 30, 5, 6, 7];
    assert_eq!(defilter(&data, 1, 6, 3), Ok(vec![10, 20, 30, 15, 26, 37]));
}

#[test]
fn defilter_sub_wraps_modulo_256() {
    let data = [1u8, 200, 0, 0, 100, 0, 0];
    assert_eq!(defilter(&data, 1, 6, 3), Ok(vec![200, 0, 0, 44, 0, 0]));
}

#[test]
fn defilter_up_in_first_row_uses_zero_above() {
    let data = [2u8, 9, 8, 7];
    assert_eq!(defilter(&data, 1, 3, 3), Ok(vec![9, 8, 7]));
}

#[test]
fn defilter_up_adds_previous_row() {
    let data = [0u8, 9, 8, 7, 2, 1, 2, 253];
    assert_eq!(defilter(&data, 2, 3, 3), Ok(vec![9, 8, 7, 10, 10, 4]));
}

#[test]
fn defilter_average_floors_and_uses_zero_neighbours() {
    // First row: b = 0, so the predictor is a / 2 (floor).
    let data = [3u8, 10, 20, 30, 10, 20, 30];
    assert_eq!(defilter(&data, 1, 6, 3), Ok(vec![10, 20, 30, 15, 30, 45]));
}

#[test]
fn defilter_average_wide_intermediate_before_division() {
    // Second pixel of row 2: a = 200 (left), b = 200 (above); the sum 400
    // must not wrap before dividing, so the predictor is 200.
    let data = [0u8, 200, 0, 0, 200, 0, 0, 3, 100, 0, 0, 55, 0, 0];
    assert_eq!(
        defilter(&data, 2, 6, 3),
        Ok(vec![200, 0, 0, 200, 0, 0, 200, 0, 0, 255, 0, 0])
    );
}

#[test]
fn defilter_paeth_first_row_reduces_to_left_neighbour() {
    // In the first row b = c = 0, so p = a and the predictor is a.
    let data = [4u8, 50, 60, 70, 10, 10, 10];
    assert_eq!(defilter(&data, 1, 6, 3), Ok(vec![50, 60, 70, 60, 70, 80]));
}

#[test]
fn defilter_rejects_unknown_filter_type() {
    let data = [5u8, 1, 2, 3];
    assert_eq!(defilter(&data, 1, 3, 3), Err(Error::InvalidFilterType));
}

#[test]
fn defilter_rejects_unknown_filter_type_in_later_row() {
    let data = [0u8, 1, 2, 3, 9, 1, 2, 3];
    assert_eq!(defilter(&data, 2, 3, 3), Err(Error::InvalidFilterType));
}
