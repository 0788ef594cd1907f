use bmfa::config::{verify_opt, AtlasSpec, Opt, OptError};

fn valid_opt() -> Opt {
    Opt {
        input_path: String::from("FreeMono.ttf"),
        input_exists: true,
        input_is_file: true,
        output_path: String::from("FontMono.bmfa"),
        output_exists: false,
        slot_glyph_size: 128,
        padding: 0,
    }
}

#[test]
fn verify_opt_accepts_valid_options() {
    assert!(verify_opt(&valid_opt()).is_ok());
}

#[test]
fn verify_opt_rejects_missing_input_file() {
    let mut opt = valid_opt();
    opt.input_exists = false;
    opt.input_is_file = false;
    match verify_opt(&opt) {
        Err(OptError::InputFileDoesNotExist(path)) => assert_eq!(path, "FreeMono.ttf"),
        _ => panic!("expected the missing-input error"),
    }
}

#[test]
fn verify_opt_rejects_input_that_is_not_a_file() {
    let mut opt = valid_opt();
    opt.input_is_file = false;
    assert!(matches!(
        verify_opt(&opt),
        Err(OptError::InputFileIsNotAFile(_))
    ));
}

#[test]
fn verify_opt_rejects_existing_output_file() {
    let mut opt = valid_opt();
    opt.output_exists = true;
    assert!(matches!(verify_opt(&opt), Err(OptError::OutputFileExists(_))));
}

#[test]
fn verify_opt_rejects_zero_slot_glyph_size() {
    let mut opt = valid_opt();
    opt.slot_glyph_size = 0;
    assert!(matches!(
        verify_opt(&opt),
        Err(OptError::SlotGlyphSizeCannotBeZero(0))
    ));
}

#[test]
fn fontgen_should_reject_padding_larger_than_slot_glyph_size() {
    let mut opt = valid_opt();
    opt.padding = 129;
    opt.slot_glyph_size = 128;
    match verify_opt(&opt) {
        Err(OptError::PaddingLargerThanSlotGlyphSize(padding, slot)) => {
            assert_eq!(padding, 129);
            assert_eq!(slot, 128);
        },
        _ => panic!("expected the padding rejection"),
    }
}

#[test]
fn atlas_spec_from_options_tiles_a_square_grid() {
    let spec = AtlasSpec::from_options(64, 6);
    assert_eq!(spec.dimensions, 1024);
    assert_eq!(spec.columns, 16);
    assert_eq!(spec.slot_glyph_size, 64);
    assert_eq!(spec.padding, 6);
    assert_eq!(spec.glyph_size, 58);
    assert_eq!(spec.dimensions, spec.slot_glyph_size * spec.columns);
}
