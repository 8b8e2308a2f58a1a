use dwmend::color::{parse_border_color, parse_color_or, rgb, ColorError};

#[test]
fn parse_border_color_with_hash() {
    // #4FC3F7 (sky blue): R=0x4F G=0xC3 B=0xF7
    // COLORREF layout is 0x00BBGGRR.
    assert_eq!(parse_border_color("#4FC3F7").unwrap(), 0x00F7C34F);
}

#[test]
fn parse_border_color_without_hash() {
    assert_eq!(parse_border_color("4FC3F7").unwrap(), 0x00F7C34F);
}

#[test]
fn parse_border_color_pure_components() {
    assert_eq!(parse_border_color("#FF0000").unwrap(), 0x000000FF); // pure red
    assert_eq!(parse_border_color("#00FF00").unwrap(), 0x0000FF00); // pure green
    assert_eq!(parse_border_color("#0000FF").unwrap(), 0x00FF0000); // pure blue
    assert_eq!(parse_border_color("#000000").unwrap(), 0);
    assert_eq!(parse_border_color("#FFFFFF").unwrap(), 0x00FFFFFF);
}

#[test]
fn parse_border_color_trims_whitespace() {
    assert_eq!(parse_border_color("  #4FC3F7  ").unwrap(), 0x00F7C34F);
}

#[test]
fn parse_border_color_rejects_short_hex() {
    assert!(parse_border_color("#FFF").is_err());
    assert!(parse_border_color("").is_err());
}

#[test]
fn parse_border_color_rejects_long_hex() {
    assert!(parse_border_color("#FFFFFFFF").is_err());
}

#[test]
fn parse_border_color_rejects_non_hex() {
    assert!(parse_border_color("#GGGGGG").is_err());
    assert!(parse_border_color("#12345Z").is_err());
}

#[test]
fn each_part_of_a_color_can_be_wrong() {
    assert_eq!(parse_border_color("#ZZ0000"), Err(ColorError::Red));
    assert_eq!(parse_border_color("#00ZZ00"), Err(ColorError::Green));
    assert_eq!(parse_border_color("#0000ZZ"), Err(ColorError::Blue));
    assert_eq!(parse_border_color("#12"), Err(ColorError::Length));
    assert_eq!(ColorError::Length.message(), "must be `#RRGGBB`");
    assert_eq!(ColorError::Green.message(), "bad G");
    // Six bytes that are not six digits.
    assert!(parse_border_color("#ääa").is_err());
    // A sign is no digit.
    assert_eq!(parse_border_color("+F+F+F"), Err(ColorError::Red));
    assert_eq!(parse_border_color("#0F+F0F"), Err(ColorError::Green));
    // There is one mark at most.
    assert_eq!(parse_border_color("##12345"), Err(ColorError::Red));
    assert_eq!(parse_color_or("no", 7), 7);
    assert_eq!(rgb(1, 2, 3), 0x00030201);
}
