use kytris::digits::parse_unsigned;
use kytris::event::{decode_event, decode_native, InputEvent};
use kytris::font::{draw_text, parse_bdf, BdfError, FontTable, GLYPH_SLOTS};
use kytris::keyboard::{ioc, iow, KeyAction, KeyboardState, EVIOCGRAB, IOC_WRITE};
use kytris::mouse::{mouse_step, MouseAction, MouseError};
use kytris::screen::{parse_cursor_report, Output, Position, ReportError};
use kytris::terminal::{row_cache_mask, set_row_cache_flags};

fn key(code: u16, value: i32) -> InputEvent {
    InputEvent { kind: 1, code, value }
}

fn rel(code: u16, value: i32) -> InputEvent {
    InputEvent { kind: 2, code, value }
}

fn render(outputs: &[Output]) -> String {
    let mut s = String::new();
    for o in outputs {
        s.push_str(o.text());
    }
    s
}

const WO_BDF: &str = "STARTFONT 2.1\nFONT -test\nSTARTCHAR U+6211\nENCODING 25105\nSWIDTH 1000 0\nBITMAP\nEA\n48\nFE\n48\nEA\n44\nDA\nENDCHAR\nENDFONT\n";

fn wo_table() -> FontTable {
    parse_bdf(WO_BDF.as_bytes()).unwrap()
}

// ----- Position -----

#[test]
fn position_new_and_clone() {
    let p = Position::new(80, 24);
    assert_eq!(p.0, 80);
    assert_eq!(p.1, 24);
    let q = p.clone();
    assert_eq!(q, Position(80, 24));
}

#[test]
fn position_takes_a_report() {
    let mut p = Position::new(3, 4);
    p.apply_cursor_report(None);
    assert_eq!(p, Position(3, 4));
    p.apply_cursor_report(Some((10, 7)));
    assert_eq!(p, Position(10, 7));
}

// ----- cursor report -----

#[test]
fn cursor_report_from_terminal() {
    // The reply recorded for a 250 by 12 terminal.
    let reply = [0x1b, 0x5b, 0x31, 0x32, 0x3b, 0x32, 0x35, 0x30, 0x52, 0x0a];
    assert_eq!(parse_cursor_report(&reply), Ok(Position(250, 12)));
}

#[test]
fn cursor_report_stops_at_r() {
    assert_eq!(parse_cursor_report(b"\x1b[5;9R;77"), Ok(Position(9, 5)));
}

#[test]
fn cursor_report_empty_numbers_are_zero() {
    assert_eq!(parse_cursor_report(b""), Ok(Position(0, 0)));
    assert_eq!(parse_cursor_report(b"\x1b[;R"), Ok(Position(0, 0)));
}

#[test]
fn cursor_report_not_ascii() {
    assert_eq!(parse_cursor_report(&[0x1b, b'[', 0xc3, b';', b'1', b'R']), Err(ReportError::NotAscii));
}

#[test]
fn cursor_report_bad_numbers() {
    assert_eq!(parse_cursor_report(b"\x1b[1 ;2R"), Err(ReportError::BadNumber));
    assert_eq!(parse_cursor_report(b"\x1b[70000;2R"), Err(ReportError::BadNumber));
    assert_eq!(parse_cursor_report(b"\x1b[1;65536R"), Err(ReportError::BadNumber));
    assert_eq!(parse_cursor_report(b"\x1b[65535;65535R"), Ok(Position(65535, 65535)));
}

#[test]
fn cursor_report_odd_digits_count_from_zero() {
    // ':' lies just above '9' and counts as ten.
    assert_eq!(parse_cursor_report(b"\x1b[1:;2R"), Ok(Position(2, 20)));
}

// ----- numbers -----

#[test]
fn unsigned_numbers_as_std_reads_them() {
    let s = b"xx+1F";
    assert_eq!(parse_unsigned(s, 2, 5, 16, 255), Some(31));
    assert_eq!(parse_unsigned(s, 3, 5, 16, 255), Some(31));
    assert_eq!(parse_unsigned(s, 2, 3, 16, 255), None);
    assert_eq!(parse_unsigned(s, 2, 2, 16, 255), None);
    assert_eq!(parse_unsigned(b"100", 0, 3, 16, 255), None);
    assert_eq!(parse_unsigned(b"ff", 0, 2, 16, 255), Some(255));
    assert_eq!(parse_unsigned(b"-1", 0, 2, 10, usize::MAX), None);
    assert_eq!(parse_unsigned(b"25105", 0, 5, 10, usize::MAX), Some(25105));
    assert_eq!(parse_unsigned(b"99999999999999999999999", 0, 23, 10, usize::MAX), None);
    for text in ["0", "7", "+42", "ab", "AB", "g", "", "+", "256", "00ff"] {
        let expected = u8::from_str_radix(text, 16).ok().map(|v| v as usize);
        assert_eq!(parse_unsigned(text.as_bytes(), 0, text.len(), 16, 255), expected, "{text}");
    }
}

// ----- font -----

#[test]
fn bdf_glyph_block_fills_its_slot() {
    let table = wo_table();
    assert_eq!(table.glyph(0x6211), Some([0xEA, 0x48, 0xFE, 0x48, 0xEA, 0x44, 0xDA]));
    assert_eq!(table.glyph(0x41), Some([0; 7]));
    assert_eq!(table.glyph(GLYPH_SLOTS), None);
}

#[test]
fn bdf_extra_rows_land_in_the_last() {
    let text = "ENCODING 65\nBITMAP\n01\n02\n03\n04\n05\n06\n07\n08\n09\nENDCHAR\n";
    let table = parse_bdf(text.as_bytes()).unwrap();
    assert_eq!(table.glyph(65), Some([1, 2, 3, 4, 5, 6, 9]));
}

#[test]
fn bdf_lines_with_carriage_returns() {
    let text = "ENCODING 66\r\nBITMAP\r\nff\r\nENDCHAR\r\nENCODING 67\nBITMAP\n7";
    let table = parse_bdf(text.as_bytes()).unwrap();
    assert_eq!(table.glyph(66), Some([0xff, 0, 0, 0, 0, 0, 0]));
    assert_eq!(table.glyph(67), Some([7, 0, 0, 0, 0, 0, 0]));
}

#[test]
fn bdf_bad_encoding_counts_as_zero() {
    let text = "ENCODING -1\nBITMAP\n11\nENDCHAR\n";
    let table = parse_bdf(text.as_bytes()).unwrap();
    assert_eq!(table.glyph(0), Some([0x11, 0, 0, 0, 0, 0, 0]));
}

#[test]
fn bdf_bad_row_is_refused() {
    let text = "ENCODING 65\nBITMAP\nEA \nENDCHAR\n";
    assert!(matches!(parse_bdf(text.as_bytes()), Err(BdfError::BadBitmapRow)));
    let text = "ENCODING 65\nBITMAP\n100\nENDCHAR\n";
    assert!(matches!(parse_bdf(text.as_bytes()), Err(BdfError::BadBitmapRow)));
}

#[test]
fn bdf_encoding_without_slot_is_refused() {
    let text = "ENCODING 65535\nBITMAP\n11\nENDCHAR\n";
    assert!(matches!(parse_bdf(text.as_bytes()), Err(BdfError::EncodingOutOfRange)));
    // Without bitmap rows the encoding is harmless.
    let text = "ENCODING 70000\nBITMAP\nENDCHAR\n";
    assert!(parse_bdf(text.as_bytes()).is_ok());
}

#[test]
fn draw_wo_glyph() {
    // The glyph U+6211 as the font's documentation draws it.
    let table = wo_table();
    let out = draw_text(&table, &['\u{6211}']).unwrap();
    assert_eq!(out.len(), 38);
    let row_end = " \x1b[9D\x1b[1B";
    let expected = format!(
        "▀█▀ █ ▀ {row_end}▀█▀▀█▀▀ {row_end}▀█▀ ▀▄▀ {row_end}▀▀ ▀▀ ▀ {row_end}\x1b[8C\x1b[9A\x1b[H"
    );
    assert_eq!(render(&out), expected);
}

#[test]
fn draw_blank_glyphs_and_size() {
    let table = wo_table();
    let text: Vec<char> = "本编辑器自带字体解析".chars().collect();
    let out = draw_text(&table, &text).unwrap();
    assert_eq!(out.len(), 37 * 10 + 1);
    assert_eq!(out[0], Output::Blank);
    assert_eq!(out[8], Output::RowEnd);
    assert_eq!(out[36], Output::GlyphEnd);
    assert_eq!(out[370], Output::Home);
}

#[test]
fn draw_char_without_slot() {
    let table = wo_table();
    assert!(draw_text(&table, &['a', '\u{1F600}']).is_none());
    assert_eq!(draw_text(&table, &[]), Some(vec![Output::Home]));
}

// ----- input events -----

fn packet(kind: [u8; 2], code: [u8; 2], value: [u8; 4]) -> [u8; 24] {
    let mut p = [0u8; 24];
    p[16..18].copy_from_slice(&kind);
    p[18..20].copy_from_slice(&code);
    p[20..24].copy_from_slice(&value);
    p
}

#[test]
fn decode_little_endian() {
    let p = packet([2, 0], [1, 0], [0xfe, 0xff, 0xff, 0xff]);
    assert_eq!(decode_event(&p, true), InputEvent { kind: 2, code: 1, value: -2 });
    let p = packet([1, 0], [0x14, 0x01], [1, 0, 0, 0]);
    assert_eq!(decode_event(&p, true), InputEvent { kind: 1, code: 0x114, value: 1 });
}

#[test]
fn decode_big_endian() {
    let p = packet([0, 2], [0, 1], [0x80, 0, 0, 0]);
    assert_eq!(decode_event(&p, false), InputEvent { kind: 2, code: 1, value: i32::MIN });
}

#[test]
fn decode_in_host_order() {
    let little = u16::from_ne_bytes([1, 0]) == 1;
    let p = packet([1, 0], [0x1d, 0], [2, 0, 0, 0]);
    assert_eq!(decode_native(&p), decode_event(&p, little));
    let expected = InputEvent {
        kind: u16::from_ne_bytes([1, 0]),
        code: u16::from_ne_bytes([0x1d, 0]),
        value: i32::from_ne_bytes([2, 0, 0, 0]),
    };
    assert_eq!(decode_native(&p), expected);
}

// ----- keyboard -----

#[test]
fn eviocgrab_is_iow_e_0x90_int() {
    assert_eq!(iow(b'E' as u32, 0x90, 4), EVIOCGRAB);
    assert_eq!(EVIOCGRAB, 0x4004_4590);
    assert_eq!(ioc(IOC_WRITE, b'E' as u32, 0x90, 4), 0x4004_4590);
    assert_eq!(ioc(2, 0, 0, 0), 0x8000_0000);
}

#[test]
fn ctrl_c_quits() {
    let mut k = KeyboardState::new();
    assert_eq!(k.step(&key(0x2E, 1)), KeyAction::Nothing);
    assert_eq!(k.step(&key(0x1D, 1)), KeyAction::Nothing);
    assert!(k.ctrl);
    assert_eq!(k.step(&key(0x2E, 1)), KeyAction::Quit);
}

#[test]
fn right_ctrl_release_stops_quit() {
    let mut k = KeyboardState::new();
    k.step(&key(0x61, 1));
    assert!(k.ctrl);
    k.step(&key(0x61, 0));
    assert!(!k.ctrl);
    assert_eq!(k.step(&key(0x2E, 1)), KeyAction::Nothing);
    // Auto-repeat of Ctrl (value 2) counts as not held.
    k.step(&key(0x1D, 2));
    assert!(!k.ctrl);
}

#[test]
fn held_enter_goes_home() {
    let mut k = KeyboardState::new();
    assert_eq!(k.step(&key(0x1C, 1)), KeyAction::Nothing);
    assert_eq!(k.step(&key(0x1C, 2)), KeyAction::Home);
    assert_eq!(k.step(&InputEvent { kind: 4, code: 4, value: 0x1C }), KeyAction::Nothing);
    assert_eq!(k.step(&InputEvent { kind: 0, code: 0x2E, value: 1 }), KeyAction::Nothing);
}

// ----- mouse -----

#[test]
fn mouse_moves_within_screen() {
    let screen = Position(2, 1);
    let mut pos = Position(0, 0);
    assert_eq!(mouse_step(&mut pos, &screen, &rel(0, -1)), Ok(MouseAction::Emit(Output::Bell)));
    assert_eq!(mouse_step(&mut pos, &screen, &rel(0, 3)), Ok(MouseAction::Emit(Output::CursorRight)));
    assert_eq!(mouse_step(&mut pos, &screen, &rel(0, 0)), Ok(MouseAction::Emit(Output::CursorRight)));
    assert_eq!(pos, Position(2, 0));
    assert_eq!(mouse_step(&mut pos, &screen, &rel(0, 1)), Ok(MouseAction::Emit(Output::Bell)));
    assert_eq!(mouse_step(&mut pos, &screen, &rel(0, -5)), Ok(MouseAction::Emit(Output::CursorLeft)));
    assert_eq!(pos, Position(1, 0));
    assert_eq!(mouse_step(&mut pos, &screen, &rel(1, -2)), Ok(MouseAction::Emit(Output::Bell)));
    assert_eq!(mouse_step(&mut pos, &screen, &rel(1, 1)), Ok(MouseAction::Nothing));
    assert_eq!(mouse_step(&mut pos, &screen, &rel(1, -1)), Ok(MouseAction::Nothing));
    assert_eq!(mouse_step(&mut pos, &screen, &rel(1, 2)), Ok(MouseAction::Emit(Output::CursorDown)));
    assert_eq!(mouse_step(&mut pos, &screen, &rel(1, 2)), Ok(MouseAction::Emit(Output::Bell)));
    assert_eq!(mouse_step(&mut pos, &screen, &rel(1, -3)), Ok(MouseAction::Emit(Output::CursorUp)));
    assert_eq!(pos, Position(1, 0));
}

#[test]
fn mouse_buttons_and_wheels() {
    let screen = Position(5, 5);
    let mut pos = Position(1, 1);
    for code in 0x110..=0x113u16 {
        assert_eq!(mouse_step(&mut pos, &screen, &key(code, 1)), Ok(MouseAction::Nothing));
    }
    assert_eq!(mouse_step(&mut pos, &screen, &key(0x114, 1)), Ok(MouseAction::Exit));
    assert_eq!(mouse_step(&mut pos, &screen, &rel(8, 1)), Ok(MouseAction::Nothing));
    assert_eq!(mouse_step(&mut pos, &screen, &rel(11, -120)), Ok(MouseAction::Nothing));
    assert_eq!(mouse_step(&mut pos, &screen, &InputEvent { kind: 0, code: 0, value: 0 }), Ok(MouseAction::Nothing));
    assert_eq!(mouse_step(&mut pos, &screen, &InputEvent { kind: 4, code: 4, value: 9 }), Ok(MouseAction::Nothing));
    assert_eq!(pos, Position(1, 1));
}

#[test]
fn mouse_refuses_unknown_events() {
    let screen = Position(5, 5);
    let mut pos = Position(1, 1);
    assert_eq!(mouse_step(&mut pos, &screen, &key(0x115, 1)), Err(MouseError::Unsupported));
    assert_eq!(mouse_step(&mut pos, &screen, &rel(6, 1)), Err(MouseError::Unsupported));
    assert_eq!(mouse_step(&mut pos, &screen, &InputEvent { kind: 3, code: 0, value: 0 }), Err(MouseError::Unsupported));
    assert_eq!(mouse_step(&mut pos, &screen, &InputEvent { kind: 17, code: 0, value: 0 }), Err(MouseError::Unsupported));
    assert_eq!(mouse_step(&mut pos, &screen, &rel(1, i32::MIN)), Err(MouseError::ValueOverflow));
    assert_eq!(pos, Position(1, 1));
}

#[test]
fn mouse_there_and_back() {
    let screen = Position(9, 9);
    let mut pos = Position(4, 4);
    mouse_step(&mut pos, &screen, &rel(1, 7)).unwrap();
    mouse_step(&mut pos, &screen, &rel(1, -7)).unwrap();
    mouse_step(&mut pos, &screen, &rel(0, -1)).unwrap();
    mouse_step(&mut pos, &screen, &rel(0, 1)).unwrap();
    assert_eq!(pos, Position(4, 4));
}

// ----- terminal flags -----

#[test]
fn row_cache_mask_is_icanon_and_echo() {
    assert_eq!(row_cache_mask(), libc::ICANON | libc::ECHO);
}

#[test]
fn row_cache_flags_round_trip() {
    let mask = row_cache_mask();
    let lflag = 0x8a3b | mask;
    let off = set_row_cache_flags(lflag, mask, false);
    assert_eq!(off & mask, 0);
    assert_eq!(off, lflag & !mask);
    assert_eq!(set_row_cache_flags(off, mask, true), lflag);
    assert_eq!(set_row_cache_flags(0b1, 0b110, true), 0b111);
    assert_eq!(set_row_cache_flags(0b111, 0b110, false), 0b1);
}
