use postal_code::lookup::{char_from_u32, postal_code_normalize, zenkaku_to_hankaku};

#[test]
fn full_width_digits_become_half_width() {
    assert_eq!(postal_code_normalize("１２３４５６７"), "1234567");
}

#[test]
fn hyphens_are_removed_after_conversion() {
    assert_eq!(postal_code_normalize("123-4567"), "1234567");
    // the full-width hyphen-minus converts to a hyphen first, then goes
    assert_eq!(postal_code_normalize("１２３－４５６７"), "1234567");
}

#[test]
fn space_variants_collapse_to_one_space() {
    assert_eq!(postal_code_normalize("1\u{3000}2"), "1 2");
    assert_eq!(postal_code_normalize("1\u{2003}2"), "1 2");
}

#[test]
fn ascii_passes_through() {
    assert_eq!(postal_code_normalize("060 0000"), "060 0000");
    assert_eq!(postal_code_normalize("abcXYZ"), "abcXYZ");
}

#[test]
fn other_characters_are_untouched() {
    assert_eq!(postal_code_normalize("札幌"), "札幌");
}

#[test]
fn zenkaku_conversion_maps_the_block() {
    assert_eq!(zenkaku_to_hankaku('Ａ'), 'A');
    assert_eq!(zenkaku_to_hankaku('９'), '9');
    assert_eq!(zenkaku_to_hankaku('！'), '!');
    assert_eq!(zenkaku_to_hankaku('a'), 'a');
    assert_eq!(zenkaku_to_hankaku('\u{FEFF}'), ' ');
}

#[test]
fn char_from_u32_falls_back_on_invalid_scalars() {
    assert_eq!(char_from_u32(0x41, 'x'), 'A');
    assert_eq!(char_from_u32(0xD800, 'x'), 'x');
    assert_eq!(char_from_u32(0x110000, 'x'), 'x');
}
