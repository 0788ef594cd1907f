use bmfa::config::AtlasSpec;
use bmfa::layout::{cell_of, glyph_index_of, pixel_rect_of};

#[test]
fn letter_a_occupies_cell_col_1_row_2() {
    // Code point 65 under 16 columns: order 33, 33 / 16 = 2, 33 % 16 = 1.
    // A row computed with modulo instead of division would give row 1.
    let (col, row) = cell_of(65, 16);
    assert_eq!(col, 1);
    assert_eq!(row, 2);
}

#[test]
fn cell_of_uses_division_for_the_row() {
    // The last sampled code point lands at the bottom of the grid.
    let (col, row) = cell_of(255, 16);
    assert_eq!(col, (255 - 32) % 16);
    assert_eq!(row, (255 - 32) / 16);
    assert_eq!(row, 13);
}

#[test]
fn pixel_rect_of_scales_by_slot_size() {
    let rect = pixel_rect_of(1, 2, 64);
    assert_eq!(rect, (64, 128, 64, 64));
}

#[test]
fn glyph_index_of_inverts_cell_of_for_every_sampled_code_point() {
    let spec = AtlasSpec::from_options(64, 6);
    for code_point in 33..256 {
        let (col, row) = cell_of(code_point, spec.columns);
        let (x0, y0, _, _) = pixel_rect_of(col, row, spec.slot_glyph_size);
        let back = glyph_index_of(x0, y0, spec.slot_glyph_size, spec.columns);
        assert_eq!(back, code_point);
    }
}

#[test]
fn glyph_index_of_first_pixel_is_the_space_code_point() {
    assert_eq!(glyph_index_of(0, 0, 64, 16), 32);
}
