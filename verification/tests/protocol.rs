use pico_w_display::grid::Color;
use pico_w_display::protocol::{parse_brightness, parse_color, parse_line, parse_text, Command, ProtocolError};

/// The text of a parsed `TEXT` command.
fn text_of(r: Result<Command, ProtocolError>) -> String {
    match r {
        Ok(Command::Text(t)) => t.text().to_string(),
        other => panic!("not a text command: {:?}", other),
    }
}

#[test]
fn text_command_is_parsed() {
    assert_eq!(text_of(parse_line("TEXT 12:34")), "12:34");
}

#[test]
fn command_word_ignores_ascii_case() {
    assert_eq!(text_of(parse_line("text 09:59")), "09:59");
    assert_eq!(parse_line("ClOcK"), Ok(Command::Clock));
    assert_eq!(parse_line("color 00ff00"), Ok(Command::Color(Color { r: 0, g: 255, b: 0 })));
    assert_eq!(parse_line("Brightness 9"), Ok(Command::Brightness(9)));
}

#[test]
fn line_and_argument_are_trimmed() {
    assert_eq!(text_of(parse_line("  TEXT   12:34 \t")), "12:34");
    assert_eq!(parse_line("\u{a0}CLOCK\u{85}"), Ok(Command::Clock));
    assert_eq!(parse_line("\u{3000}BRIGHTNESS \u{2003}42"), Ok(Command::Brightness(42)));
}

#[test]
fn clock_ignores_its_argument() {
    assert_eq!(parse_line("CLOCK now please"), Ok(Command::Clock));
}

#[test]
fn unknown_commands_are_refused() {
    assert_eq!(parse_line("FOO"), Err(ProtocolError::UnknownCommand));
    assert_eq!(parse_line(""), Err(ProtocolError::UnknownCommand));
    assert_eq!(parse_line("   "), Err(ProtocolError::UnknownCommand));
    assert_eq!(parse_line("TEXTX 12:34"), Err(ProtocolError::UnknownCommand));
    assert_eq!(parse_line("TEXT\t12:34"), Err(ProtocolError::UnknownCommand));
    assert_eq!(parse_line("T\u{c9}XT 12:34"), Err(ProtocolError::UnknownCommand));
}

#[test]
fn text_needs_five_bytes() {
    assert_eq!(parse_line("TEXT"), Err(ProtocolError::BadArgs));
    assert_eq!(parse_line("TEXT 1234"), Err(ProtocolError::BadArgs));
    assert_eq!(parse_line("TEXT 12:345"), Err(ProtocolError::BadArgs));
    assert_eq!(parse_text("12:3\u{e9}"), Err(ProtocolError::BadArgs));
}

#[test]
fn text_needs_digits_around_a_colon() {
    assert_eq!(parse_line("TEXT 12-34"), Err(ProtocolError::UnsupportedChar));
    assert_eq!(parse_line("TEXT ab:cd"), Err(ProtocolError::UnsupportedChar));
    assert_eq!(parse_text("1\u{e9}:3"), Err(ProtocolError::UnsupportedChar));
    assert_eq!(text_of(parse_text("00:00")), "00:00");
}

#[test]
fn color_is_three_hex_bytes() {
    assert_eq!(parse_line("COLOR ff0080"), Ok(Command::Color(Color { r: 255, g: 0, b: 128 })));
    assert_eq!(parse_color("A0b1C2"), Ok(Command::Color(Color { r: 0xa0, g: 0xb1, b: 0xc2 })));
}

#[test]
fn bad_colors_are_refused() {
    assert_eq!(parse_color("12345"), Err(ProtocolError::BadArgs));
    assert_eq!(parse_color("1234567"), Err(ProtocolError::BadArgs));
    assert_eq!(parse_color("gg0000"), Err(ProtocolError::BadArgs));
    assert_eq!(parse_color("-10000"), Err(ProtocolError::BadArgs));
    assert_eq!(parse_color("++0000"), Err(ProtocolError::BadArgs));
    assert_eq!(parse_color("+f+1+a"), Err(ProtocolError::BadArgs));
    assert_eq!(parse_color("0x1234"), Err(ProtocolError::BadArgs));
    assert_eq!(parse_color("a\u{e9}123"), Err(ProtocolError::BadArgs));
    assert_eq!(parse_line("COLOR"), Err(ProtocolError::BadArgs));
}

#[test]
fn brightness_is_a_byte() {
    assert_eq!(parse_brightness("0"), Ok(Command::Brightness(0)));
    assert_eq!(parse_brightness("255"), Ok(Command::Brightness(255)));
    assert_eq!(parse_brightness("+7"), Ok(Command::Brightness(7)));
    assert_eq!(parse_brightness("000000000000255"), Ok(Command::Brightness(255)));
}

#[test]
fn bad_brightness_is_refused() {
    assert_eq!(parse_brightness("256"), Err(ProtocolError::BadArgs));
    assert_eq!(parse_brightness("70000"), Err(ProtocolError::BadArgs));
    assert_eq!(parse_brightness(""), Err(ProtocolError::BadArgs));
    assert_eq!(parse_brightness("+"), Err(ProtocolError::BadArgs));
    assert_eq!(parse_brightness("++7"), Err(ProtocolError::BadArgs));
    assert_eq!(parse_brightness("-1"), Err(ProtocolError::BadArgs));
    assert_eq!(parse_brightness("1 2"), Err(ProtocolError::BadArgs));
    assert_eq!(parse_brightness("99999999999999999999x"), Err(ProtocolError::BadArgs));
    assert_eq!(parse_line("BRIGHTNESS"), Err(ProtocolError::BadArgs));
}

#[test]
fn reasons_read_as_sent() {
    assert_eq!(ProtocolError::UnknownCommand.reason(), "unknown command");
    assert_eq!(ProtocolError::BadArgs.reason(), "bad args");
    assert_eq!(ProtocolError::UnsupportedChar.reason(), "unsupported char");
}
