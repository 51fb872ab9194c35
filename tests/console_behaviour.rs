use blog_os::vga_buffer::{print, Color, ColorCode, ScreenChar, Writer, BUFFER_HEIGHT, BUFFER_WIDTH};

fn blank() -> ScreenChar {
    ScreenChar { ascii_character: b' ', color_code: ColorCode(0x0f) }
}

fn fresh(row: usize, col: usize) -> Writer {
    Writer::new(row, col, ColorCode(0x0f), blank())
}

fn row_text(w: &Writer, row: usize, n: usize) -> Vec<u8> {
    (0..n).map(|c| w.read_char(row, c).ascii_character).collect()
}

#[test]
fn color_code_layout() {
    assert_eq!(ColorCode::new(Color::White, Color::Black).0, 0x0f);
    assert_eq!(ColorCode::new(Color::Yellow, Color::Blue).0, 0x1e);
    let mut c = ColorCode(0x4e);
    c.set_fg(Color::Green);
    assert_eq!(c.0, 0x42);
    c.set_bg(Color::Cyan);
    assert_eq!(c.0, 0x32);
}

#[test]
fn ansi_to_vga_table() {
    let expected = [
        Color::Black, Color::Red, Color::Green, Color::Brown, Color::Blue, Color::Magenta,
        Color::Cyan, Color::LightGray, Color::DarkGray, Color::LightRed, Color::LightGreen,
        Color::Yellow, Color::LightBlue, Color::Pink, Color::LightCyan, Color::White,
    ];
    for (k, c) in expected.iter().enumerate() {
        assert_eq!(Color::from_code(k as u32), *c);
    }
    assert_eq!(Color::from_code(16), Color::Black);
    assert_eq!(Color::from_code(1).index(), 4);
}

#[test]
fn printable_run_lands_in_order() {
    let mut w = fresh(3, 10);
    w.write_string("Hello, world");
    assert_eq!(row_text(&w, 3, 22)[10..].to_vec(), b"Hello, world".to_vec());
    for c in 10..22 {
        assert_eq!(w.read_char(3, c).color_code, ColorCode(0x0f));
    }
    assert_eq!((w.row(), w.column()), (3, 22));
    assert_eq!(w.read_char(4, 0), blank());
}

#[test]
fn newline_on_last_row_scrolls() {
    let mut w = fresh(0, 0);
    for r in 0..BUFFER_HEIGHT {
        w.write_string(&format!("{}", (b'a' + r as u8) as char));
        if r + 1 < BUFFER_HEIGHT {
            w.write_string("\n");
        }
    }
    w.write_string("\x1B[44m");
    w.write_string("\n");
    for r in 0..BUFFER_HEIGHT - 1 {
        assert_eq!(w.read_char(r, 0).ascii_character, b'b' + r as u8);
    }
    for c in 0..BUFFER_WIDTH {
        let ch = w.read_char(BUFFER_HEIGHT - 1, c);
        assert_eq!(ch.ascii_character, b' ');
        assert_eq!(ch.color_code, ColorCode(0x1f));
    }
    assert_eq!((w.row(), w.column()), (BUFFER_HEIGHT - 1, 0));
}

#[test]
fn sgr_pair_sets_attribute() {
    let mut w = fresh(0, 0);
    w.write_string("\x1B[31;42m");
    assert_eq!(w.color_code(), ColorCode::new(Color::Red, Color::Green));
    assert_eq!((w.row(), w.column()), (0, 0));
    w.write_string("\x1B[7m");
    assert_eq!(w.color_code(), ColorCode::new(Color::Green, Color::Red));
    w.write_string("\x1B[39;49m");
    assert_eq!(w.color_code(), ColorCode::new(Color::White, Color::Black));
    w.write_string("\x1B[93;104m");
    assert_eq!(w.color_code(), ColorCode::new(Color::Yellow, Color::LightBlue));
    w.write_string("\x1B[0m");
    assert_eq!(w.color_code().0, 0x0f);
    w.write_string("\x1B[55;36m");
    assert_eq!(w.color_code(), ColorCode::new(Color::Cyan, Color::Black));
    assert_eq!(w.read_char(0, 0), blank());
}

#[test]
fn malformed_esc_is_shown() {
    let mut w = fresh(0, 0);
    w.write_string("\x1B[41m\x1BX");
    assert_eq!(row_text(&w, 0, 4), b"ESCX".to_vec());
    for c in 0..4 {
        assert_eq!(w.read_char(0, c).color_code, ColorCode::new(Color::LightGray, Color::Red));
    }
    assert_eq!(w.color_code().0, 0x0f);
    w.write_string("ok");
    assert_eq!(row_text(&w, 0, 6), b"ESCXok".to_vec());
}

#[test]
fn malformed_csi_is_shown() {
    let mut w = fresh(0, 0);
    w.write_string("\x1B[30;1X");
    assert_eq!(row_text(&w, 0, 9), b"ESC[30;1X".to_vec());
    assert_eq!(w.read_char(0, 0).color_code, ColorCode::new(Color::LightGray, Color::Black));
    assert_eq!(w.color_code().0, 0x0f);
    assert_eq!(w.column(), 9);
    w.write_string("\x1B[32mZ");
    assert_eq!(w.read_char(0, 9).color_code, ColorCode::new(Color::Green, Color::Black));
}

#[test]
fn extra_csi_parameters_are_dropped() {
    let mut w = fresh(0, 0);
    w.write_string("\x1B[1;2;3;4;5;6;7X");
    assert_eq!(row_text(&w, 0, 14), b"ESC[1;2;3;4;5X".to_vec());
}

#[test]
fn huge_parameter_saturates() {
    let mut w = fresh(0, 0);
    w.write_string("\x1B[99999999999999X");
    assert_eq!(row_text(&w, 0, 15), b"ESC[4294967295X".to_vec());
}

#[test]
fn escape_after_escape_is_shown() {
    let mut w = fresh(0, 0);
    w.write_byte(0x1b);
    w.write_byte(0x1b);
    assert_eq!(row_text(&w, 0, 4), vec![b'E', b'S', b'C', 0x1b]);
    assert_eq!(w.column(), 4);
}

#[test]
fn write_byte_substitutes_unsupported() {
    let mut w = fresh(0, 0);
    w.write_byte(0x00);
    w.write_byte(0x7f);
    w.write_byte(b'x');
    assert_eq!(row_text(&w, 0, 3), vec![0xfe, 0xfe, b'x']);
}

#[test]
fn wrap_at_row_end() {
    let mut w = fresh(0, BUFFER_WIDTH - 1);
    w.write_string("01");
    assert_eq!(w.read_char(0, BUFFER_WIDTH - 1).ascii_character, b'0');
    assert_eq!(w.read_char(1, 0).ascii_character, b'1');
    assert_eq!((w.row(), w.column()), (1, 1));
}

#[test]
fn print_writes_text() {
    let mut w = fresh(0, 0);
    print(&mut w, &format!("x={}", 42));
    assert_eq!(row_text(&w, 0, 4), b"x=42".to_vec());
}

#[test]
fn cursor_stays_on_screen() {
    let mut w = fresh(0, 0);
    let text = "line of text that is long enough to wrap around the eighty column row once more\n\x08\x08\r\x1B[31mred\x1B[9999;1;2;3;4;5;6m";
    for _ in 0..40 {
        for b in text.bytes() {
            w.write_byte(b);
            assert!(w.row() < BUFFER_HEIGHT);
            assert!(w.column() <= BUFFER_WIDTH);
        }
    }
}

#[test]
fn printable_run_wraps_in_reading_order() {
    let mut w = fresh(3, 50);
    let run: Vec<u8> = (0..100u32).map(|i| b'!' + (i % 90) as u8).collect();
    w.write_string(std::str::from_utf8(&run).unwrap());
    for (i, b) in run.iter().enumerate() {
        let p = 3 * BUFFER_WIDTH + 50 + i;
        assert_eq!(w.read_char(p / BUFFER_WIDTH, p % BUFFER_WIDTH).ascii_character, *b);
    }
    let last = 3 * BUFFER_WIDTH + 50 + 99;
    assert_eq!((w.row(), w.column()), (last / BUFFER_WIDTH, last % BUFFER_WIDTH + 1));
    assert_eq!(w.read_char(3, 49), blank());
    assert_eq!(w.read_char(5, 70), blank());
}

#[test]
fn malformed_csi_with_one_parameter() {
    let mut w = fresh(2, 5);
    w.write_string("\x1B[30X");
    assert_eq!(row_text(&w, 2, 12)[5..].to_vec(), b"ESC[30X".to_vec());
    assert_eq!((w.row(), w.column()), (2, 12));
    assert_eq!(w.color_code().0, 0x0f);
}

#[test]
fn single_sgr_parameter() {
    let mut w = fresh(0, 0);
    w.write_string("\x1B[95m");
    assert_eq!(w.color_code(), ColorCode::new(Color::Pink, Color::Black));
    w.write_string("\x1B[7m");
    assert_eq!(w.color_code(), ColorCode::new(Color::Black, Color::Pink));
}
