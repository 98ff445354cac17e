use i3_launchpad::config::deserialize_color;
use i3_launchpad::config::deserialize_map;
use i3_launchpad::config::parse_hex;
use i3_launchpad::config::parse_hex_color;
use i3_launchpad::config::Config;
use i3_launchpad::config::ParseHexError;
use i3_launchpad::config::RGBColor;
use i3_launchpad::config::Side;

fn entry(name: &str, text: &str) -> (String, String) {
    (name.to_string(), text.to_string())
}

fn config_with(classes: Vec<(String, String)>) -> Config {
    Config {
        side: Side::default(),
        default_color: RGBColor::new(1, 2, 3),
        class_colors: deserialize_map(classes).unwrap(),
        title_colors: deserialize_map(Vec::new()).unwrap(),
    }
}

#[test]
fn test_hex_parse() {
    assert_eq!(parse_hex("00"), Ok(0));
    assert_eq!(parse_hex("FF"), Ok(255));
    assert_eq!(parse_hex("2a"), Ok(42));

    assert_eq!(
        parse_hex("9x"),
        Err(ParseHexError::InvalidCharacter {
            character: 'x',
            index: 1,
        })
    );
    assert_eq!(parse_hex("FFFFFF"), Err(ParseHexError::InvalidLength));
}

#[test]
fn test_color_parse() {
    assert_eq!(parse_hex_color("FF34A8"), Ok(RGBColor::new(255, 52, 168)));
}

#[test]
fn hex_parse_short_text() {
    assert_eq!(parse_hex(""), Ok(0));
    assert_eq!(parse_hex("7"), Ok(7));
    assert_eq!(parse_hex("a"), Ok(10));
    assert_eq!(parse_hex("F"), Ok(15));
    assert_eq!(parse_hex("10"), Ok(16));
    assert_eq!(parse_hex("fF"), Ok(255));
}

#[test]
fn hex_parse_every_digit() {
    let digits = "0123456789abcdef";
    let upper = "0123456789ABCDEF";
    for (value, (low, up)) in digits.chars().zip(upper.chars()).enumerate() {
        assert_eq!(parse_hex(&low.to_string()), Ok(value as u8));
        assert_eq!(parse_hex(&up.to_string()), Ok(value as u8));
    }
}

#[test]
fn hex_parse_reports_first_invalid_character() {
    assert_eq!(
        parse_hex("g1"),
        Err(ParseHexError::InvalidCharacter { character: 'g', index: 0 })
    );
    assert_eq!(
        parse_hex("zz"),
        Err(ParseHexError::InvalidCharacter { character: 'z', index: 0 })
    );
    assert_eq!(
        parse_hex("/"),
        Err(ParseHexError::InvalidCharacter { character: '/', index: 0 })
    );
    assert_eq!(
        parse_hex("1:"),
        Err(ParseHexError::InvalidCharacter { character: ':', index: 1 })
    );
    assert_eq!(
        parse_hex("@"),
        Err(ParseHexError::InvalidCharacter { character: '@', index: 0 })
    );
    assert_eq!(
        parse_hex("G"),
        Err(ParseHexError::InvalidCharacter { character: 'G', index: 0 })
    );
    assert_eq!(
        parse_hex("`"),
        Err(ParseHexError::InvalidCharacter { character: '`', index: 0 })
    );
}

#[test]
fn hex_parse_length_comes_before_characters() {
    assert_eq!(parse_hex("xyz"), Err(ParseHexError::InvalidLength));
    assert_eq!(parse_hex("123"), Err(ParseHexError::InvalidLength));
}

#[test]
fn hex_parse_refuses_characters_outside_ascii() {
    assert_eq!(
        parse_hex("\u{130}"),
        Err(ParseHexError::InvalidCharacter { character: '\u{130}', index: 0 })
    );
    assert_eq!(
        parse_hex("1\u{e9}"),
        Err(ParseHexError::InvalidCharacter { character: '\u{e9}', index: 1 })
    );
}

#[test]
fn color_parse_is_case_insensitive() {
    assert_eq!(parse_hex_color("ff34a8"), Ok(RGBColor::new(255, 52, 168)));
    assert_eq!(parse_hex_color("Ff34a8"), parse_hex_color("fF34A8"));
    assert_eq!(parse_hex_color("000000"), Ok(RGBColor::new(0, 0, 0)));
    assert_eq!(parse_hex_color("ffffff"), Ok(RGBColor::new(255, 255, 255)));
    assert_eq!(parse_hex_color("010203"), Ok(RGBColor::new(1, 2, 3)));
}

#[test]
fn color_parse_round_trips_through_upper_case_text() {
    let colors = [
        RGBColor::new(0, 0, 0),
        RGBColor::new(255, 52, 168),
        RGBColor::new(9, 10, 15),
        RGBColor::new(16, 159, 160),
        RGBColor::new(255, 255, 255),
    ];
    for color in colors.iter() {
        let upper = format!("{:02X}{:02X}{:02X}", color.0, color.1, color.2);
        let lower = format!("{:02x}{:02x}{:02x}", color.0, color.1, color.2);
        assert_eq!(parse_hex_color(&upper), Ok(*color));
        assert_eq!(parse_hex_color(&lower), Ok(*color));
    }
}

#[test]
fn color_parse_wrong_length() {
    assert_eq!(parse_hex_color(""), Err(ParseHexError::InvalidLength));
    assert_eq!(parse_hex_color("FF34A"), Err(ParseHexError::InvalidLength));
    assert_eq!(parse_hex_color("FF34A8F"), Err(ParseHexError::InvalidLength));
    assert_eq!(parse_hex_color("#FF34A8"), Err(ParseHexError::InvalidLength));
    assert_eq!(parse_hex_color("xyz"), Err(ParseHexError::InvalidLength));
}

#[test]
fn color_parse_reports_position_in_the_whole_text() {
    assert_eq!(
        parse_hex_color("xF34A8"),
        Err(ParseHexError::InvalidCharacter { character: 'x', index: 0 })
    );
    assert_eq!(
        parse_hex_color("FF3G00"),
        Err(ParseHexError::InvalidCharacter { character: 'G', index: 3 })
    );
    assert_eq!(
        parse_hex_color("FFFFxF"),
        Err(ParseHexError::InvalidCharacter { character: 'x', index: 4 })
    );
    assert_eq!(
        parse_hex_color("FFFFF "),
        Err(ParseHexError::InvalidCharacter { character: ' ', index: 5 })
    );
    assert_eq!(
        parse_hex_color("F-3z00"),
        Err(ParseHexError::InvalidCharacter { character: '-', index: 1 })
    );
}

#[test]
fn color_parse_counts_characters() {
    assert_eq!(
        parse_hex_color("ab\u{e9}def"),
        Err(ParseHexError::InvalidCharacter { character: '\u{e9}', index: 2 })
    );
    assert_eq!(parse_hex_color("\u{e9}\u{e9}\u{e9}"), Err(ParseHexError::InvalidLength));
}

#[test]
fn error_messages() {
    assert_eq!(
        ParseHexError::InvalidLength.message(),
        "invalid length, must be six characters"
    );
    assert_eq!(
        ParseHexError::InvalidCharacter { character: 'x', index: 1 }.message(),
        "invalid character 'x' at position 1"
    );
    assert_eq!(
        ParseHexError::InvalidCharacter { character: 'x', index: 0 }.message(),
        "invalid character 'x' at position 0"
    );
    assert_eq!(
        ParseHexError::InvalidCharacter { character: 'q', index: 1234567890 }.message(),
        "invalid character 'q' at position 1234567890"
    );
}

#[test]
fn error_message_names_the_character_that_parsing_refused() {
    assert_eq!(
        parse_hex("9x").unwrap_err().message(),
        "invalid character 'x' at position 1"
    );
    assert_eq!(
        parse_hex_color("FFFF\u{e9}F").unwrap_err().message(),
        "invalid character '\u{e9}' at position 4"
    );
    assert_eq!(
        parse_hex_color("12 456").unwrap_err().message(),
        "invalid character ' ' at position 2"
    );
    assert_eq!(
        parse_hex_color("12345").unwrap_err().message(),
        "invalid length, must be six characters"
    );
}

#[test]
fn deserialize_color_reads_six_digits() {
    assert_eq!(deserialize_color("FF34A8"), Ok(RGBColor::new(255, 52, 168)));
    assert_eq!(deserialize_color("FF34A"), Err(ParseHexError::InvalidLength));
    assert_eq!(
        deserialize_color("FF34AX"),
        Err(ParseHexError::InvalidCharacter { character: 'X', index: 5 })
    );
}

#[test]
fn side_defaults_to_bottom() {
    assert_eq!(Side::default(), Side::Bottom);
}

#[test]
fn color_defaults_to_black() {
    assert_eq!(RGBColor::default(), RGBColor::new(0, 0, 0));
    assert_eq!(RGBColor::new(4, 5, 6), RGBColor(4, 5, 6));
}

#[test]
fn resolve_present_class() {
    let config = config_with(vec![entry("Firefox", "FF8000"), entry("Emacs", "7f00ff")]);
    assert_eq!(config.resolve("Firefox"), RGBColor::new(255, 128, 0));
    assert_eq!(config.resolve("Emacs"), RGBColor::new(127, 0, 255));
}

#[test]
fn resolve_absent_class_is_default() {
    let config = config_with(vec![entry("Firefox", "FF8000")]);
    assert_eq!(config.resolve("Alacritty"), RGBColor::new(1, 2, 3));
    assert_eq!(config.resolve(""), RGBColor::new(1, 2, 3));
    assert_eq!(config_with(Vec::new()).resolve("Firefox"), RGBColor::new(1, 2, 3));
}

#[test]
fn resolve_matches_exactly() {
    let config = config_with(vec![entry("Firefox", "FF8000")]);
    assert_eq!(config.resolve("firefox"), RGBColor::new(1, 2, 3));
    assert_eq!(config.resolve("Firefox "), RGBColor::new(1, 2, 3));
    assert_eq!(config.resolve("Fire"), RGBColor::new(1, 2, 3));
}

#[test]
fn deserialize_map_later_entry_stays() {
    let config = config_with(vec![entry("Firefox", "FF8000"), entry("Firefox", "000001")]);
    assert_eq!(config.resolve("Firefox"), RGBColor::new(0, 0, 1));
}

#[test]
fn deserialize_map_refuses_first_malformed_text() {
    let refused = deserialize_map(vec![
        entry("Firefox", "FF8000"),
        entry("Emacs", "7f00fg"),
        entry("Alacritty", "12345"),
    ]);
    assert_eq!(
        refused.err(),
        Some(ParseHexError::InvalidCharacter { character: 'g', index: 5 })
    );
    let refused = deserialize_map(vec![entry("Alacritty", "12345"), entry("Emacs", "7f00fg")]);
    assert_eq!(refused.err(), Some(ParseHexError::InvalidLength));
}

#[test]
fn deserialize_map_empty() {
    assert!(deserialize_map(Vec::new()).is_ok());
}
