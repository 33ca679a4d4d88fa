use rusttex::decoder::{check_escapes, Mode7BeebAscii, Mode7UTF8Ansi, TTIDecoder};

const LINE_END: [u8; 14] = [0x1B, 0x5B, 0x33, 0x37, 0x3B, 0x31, 0x6D, 0x1B, 0x5B, 0x34, 0x30, 0x6D, 0x0D, 0x0A];

fn ansi(line: &[u8], line_b: bool) -> (Vec<u8>, u8) {
    Mode7UTF8Ansi::new().de_escape(line, line_b)
}

fn with_end(bytes: &[u8]) -> Vec<u8> {
    let mut v = bytes.to_vec();
    v.extend_from_slice(&LINE_END);
    v
}

#[test]
fn beeb_sets_top_bit_on_printable_text() {
    let (out, rep) = Mode7BeebAscii::new().de_escape(b"Hi there", false);
    assert_eq!(out, vec![0xC8, 0xE9, 0x20, 0xF4, 0xE8, 0xE5, 0xF2, 0xE5]);
    assert_eq!(rep, 0);
}

#[test]
fn beeb_escape_becomes_control_code() {
    // ESC A: alphanumeric red (0x81); the escape byte itself is not sent.
    let (out, rep) = Mode7BeebAscii::new().de_escape(&[0x1B, 0x41, 0x78], false);
    assert_eq!(out, vec![0x81, 0xF8]);
    assert_eq!(rep, 0);
}

#[test]
fn beeb_reports_double_height() {
    let (out, rep) = Mode7BeebAscii::new().de_escape(&[0x1B, 0x4D, b'B'], true);
    assert_eq!(out, vec![0x8D, 0xC2]);
    assert_eq!(rep, 1);
}

#[test]
fn beeb_keeps_bytes_outside_printable_range() {
    let (out, _) = Mode7BeebAscii::new().de_escape(&[0x20, 0x90, 0x7F], false);
    assert_eq!(out, vec![0x20, 0x90, 0xFF]);
}

#[test]
fn beeb_drops_carriage_returns_and_line_feeds() {
    assert_eq!(Mode7BeebAscii::new().de_escape(b"Hi\r\n", false), (vec![0xC8, 0xE9], 0));
    // CR and LF do not come between an escape and the byte it escapes.
    assert_eq!(Mode7BeebAscii::new().de_escape(&[0x1B, 0x0D, 0x4D], false), (vec![0x8D], 1));
}

#[test]
fn beeb_raw_double_height_code() {
    assert_eq!(Mode7BeebAscii::new().de_escape(&[0x8D, 0x48], false), (vec![0x8D, 0xC8], 1));
}

#[test]
fn beeb_double_escape_escapes_escape() {
    // ESC ESC: the second is an escaped byte (0x1B + 0x40); then 'M' follows an ESC again.
    let (out, rep) = Mode7BeebAscii::new().de_escape(&[0x1B, 0x1B, 0x4D], false);
    assert_eq!(out, vec![0x5B, 0x8D]);
    assert_eq!(rep, 1);
}

#[test]
fn ansi_plain_text_passes_through() {
    assert_eq!(ansi(b"Hello", false), (with_end(b"Hello"), 0));
    assert_eq!(ansi(b"", true), (with_end(b""), 0));
}

#[test]
fn ansi_drops_carriage_returns_and_line_feeds() {
    assert_eq!(ansi(b"Hi\r", false), (with_end(b"Hi"), 0));
    assert_eq!(ansi(b"a\nb", false), (with_end(b"ab"), 0));
    assert_eq!(ansi(&[0x1B, 0x0A, 0x41], false), (with_end(b"\x1b[31;1m "), 0));
}

#[test]
fn ansi_alpha_colour() {
    // ESC A = 0x81: red text, ANSI colour 31.
    assert_eq!(ansi(&[0x1B, 0x41, b'x'], false), (with_end(b"\x1b[31;1m x"), 0));
    // ESC G = 0x87: white text, ANSI colour 37.
    assert_eq!(ansi(&[0x1B, 0x47], false), (with_end(b"\x1b[37;1m "), 0));
}

#[test]
fn ansi_graphics_mosaics() {
    // ESC Q = 0x91: red graphics; '!' is mosaic U+E201.
    assert_eq!(
        ansi(&[0x1B, 0x51, b'!'], false),
        (with_end(&[0x1B, 0x5B, b'3', b'1', b';', b'1', b'm', b' ', 0xEE, 0x88, 0x81]), 0)
    );
    // 'a' (0x61) in graphics becomes 0xE1, mosaic U+E221.
    assert_eq!(
        ansi(&[0x1B, 0x51, b'a'], false),
        (with_end(&[0x1B, 0x5B, b'3', b'1', b';', b'1', b'm', b' ', 0xEE, 0x88, 0xA1]), 0)
    );
    // A raw byte 0xA5 in graphics gives a mosaic and then the byte itself.
    assert_eq!(
        ansi(&[0x1B, 0x51, 0xA5], false),
        (with_end(&[0x1B, 0x5B, b'3', b'1', b';', b'1', b'm', b' ', 0xEE, 0x88, 0x85, 0xA5]), 0)
    );
}

#[test]
fn ansi_separated_graphics() {
    // ESC Q (graphics), ESC Z (separated: shown as a space), '!' from the separated block U+E2C1.
    let (out, _) = ansi(&[0x1B, 0x51, 0x1B, 0x5A, b'!'], false);
    let mut expected = b"\x1b[31;1m  ".to_vec();
    expected.extend_from_slice(&[0xEE, 0x8B, 0x81]);
    assert_eq!(out, with_end(&expected));
}

#[test]
fn ansi_backgrounds() {
    // ESC ] = 157: new background in the current colour (white at the start: 107).
    assert_eq!(ansi(&[0x1B, 0x5D], false), (with_end(b"\x1b[107;1m "), 0));
    // ESC \ = 156: black background.
    assert_eq!(ansi(&[0x1B, 0x5C], false), (with_end(b"\x1b[40;1m"), 0));
    // After red (ESC A), new background is colour 101.
    assert_eq!(ansi(&[0x1B, 0x41, 0x1B, 0x5D], false), (with_end(b"\x1b[31;1m \x1b[101;1m "), 0));
}

#[test]
fn ansi_double_height_halves() {
    // ESC M: double height, shown as a space from the double-height block.
    let upper = ansi(&[0x1B, 0x4D, b'A'], false);
    assert_eq!(upper, (with_end(&[0xEE, 0x80, 0xA0, 0xEE, 0x81, 0x81]), 1));
    let lower = ansi(&[0x1B, 0x4D, b'A'], true);
    assert_eq!(lower, (with_end(&[0xEE, 0x84, 0xA0, 0xEE, 0x85, 0x81]), 1));
    // Raw 0x8D also selects double height; ESC L (0x8C) ends it.
    let (_, rep) = ansi(&[0x8D], false);
    assert_eq!(rep, 1);
    let (out, rep) = ansi(&[0x1B, 0x4D, 0x1B, 0x4C, b'A'], false);
    assert_eq!(out, with_end(&[0xEE, 0x80, 0xA0, b' ', b'A']));
    assert_eq!(rep, 1);
}

#[test]
fn escapes_must_fit() {
    assert!(check_escapes(&[0x1B, 0xBF]));
    assert!(!check_escapes(&[0x41, 0x1B, 0xC0]));
    assert!(check_escapes(&[0xC0, 0x1B]));
    assert!(Mode7UTF8Ansi::new().can_decode(b"text"));
    assert!(!Mode7BeebAscii::new().can_decode(&[0x1B, 0xFF]));
}
