use blog_os::vga_buffer::{Color, ColorCode, ScreenChar, Writer, BUFFER_HEIGHT, BUFFER_WIDTH};

fn construct_writer(row: usize, col: usize) -> Writer {
    Writer::new(row, col, ColorCode::new(Color::Blue, Color::Magenta), empty_char())
}

fn empty_char() -> ScreenChar {
    ScreenChar {
        ascii_character: b' ',
        color_code: ColorCode::new(Color::Green, Color::Brown),
    }
}

#[test]
fn write_formatted() {
    let mut writer = construct_writer(BUFFER_HEIGHT - 1, 0);
    writer.write_string("a\n");
    writer.write_string(&format!("b{}\n", "c"));

    for i in 0..BUFFER_HEIGHT {
        for j in 0..BUFFER_WIDTH {
            let screen_char = writer.read_char(i, j);
            if i == BUFFER_HEIGHT - 3 && j == 0 {
                assert_eq!(screen_char.ascii_character, b'a');
                assert_eq!(screen_char.color_code, writer.color_code());
            } else if i == BUFFER_HEIGHT - 2 && j == 0 {
                assert_eq!(screen_char.ascii_character, b'b');
                assert_eq!(screen_char.color_code, writer.color_code());
            } else if i == BUFFER_HEIGHT - 2 && j == 1 {
                assert_eq!(screen_char.ascii_character, b'c');
                assert_eq!(screen_char.color_code, writer.color_code());
            } else if i >= BUFFER_HEIGHT - 2 {
                assert_eq!(screen_char.ascii_character, b' ');
                assert_eq!(screen_char.color_code, writer.color_code());
            } else {
                assert_eq!(screen_char, empty_char());
            }
        }
    }
    assert_eq!((writer.row(), writer.column()), (BUFFER_HEIGHT - 1, 0));
}

#[test]
fn write_extra_chars() {
    let mut writer = construct_writer(0, 0);
    writer.write_string("\x08\x08\x08\x08\x08");
    writer.write_string("foo");
    writer.write_string("\rbar");
    writer.write_string("\x08z");

    for i in 0..BUFFER_HEIGHT {
        for j in 0..BUFFER_WIDTH {
            let screen_char = writer.read_char(i, j);
            if i == 0 && j == 0 {
                assert_eq!(screen_char.ascii_character, b'b');
                assert_eq!(screen_char.color_code, writer.color_code());
            } else if i == 0 && j == 1 {
                assert_eq!(screen_char.ascii_character, b'a');
                assert_eq!(screen_char.color_code, writer.color_code());
            } else if i == 0 && j == 2 {
                assert_eq!(screen_char.ascii_character, b'z');
                assert_eq!(screen_char.color_code, writer.color_code());
            } else {
                assert_eq!(screen_char, empty_char());
            }
        }
    }
    assert_eq!((writer.row(), writer.column()), (0, 3));
}

#[test]
fn write_unsupported_chars() {
    let mut writer = construct_writer(0, 0);
    writer.write_string("漢字\n");

    for i in 0..BUFFER_HEIGHT {
        for j in 0..BUFFER_WIDTH {
            let screen_char = writer.read_char(i, j);
            if i == 0 && j < 6 {
                assert_eq!(screen_char.ascii_character, 0xfe);
                assert_eq!(screen_char.color_code, writer.color_code());
            } else {
                assert_eq!(screen_char, empty_char());
            }
        }
    }
}

#[test]
fn line_feed() {
    let mut writer = construct_writer(0, BUFFER_WIDTH - 1);
    writer.write_string("01\n");

    for i in 0..BUFFER_HEIGHT {
        for j in 0..BUFFER_WIDTH {
            let screen_char = writer.read_char(i, j);
            if i == 0 && j == BUFFER_WIDTH - 1 {
                assert_eq!(screen_char.ascii_character, b'0');
                assert_eq!(screen_char.color_code, writer.color_code());
            } else if i == 1 && j == 0 {
                assert_eq!(screen_char.ascii_character, b'1');
                assert_eq!(screen_char.color_code, writer.color_code());
            } else {
                assert_eq!(screen_char, empty_char());
            }
        }
    }

    for row in 0..BUFFER_HEIGHT - 1 {
        writer.write_string(&format!("{}\n", row % 10));
    }

    for i in 0..BUFFER_HEIGHT {
        for j in 0..BUFFER_WIDTH {
            let screen_char = writer.read_char(i, j);
            if i < BUFFER_HEIGHT - 1 && j == 0 {
                assert_eq!(screen_char.ascii_character, b'0' + (i as u8 % 10));
            } else {
                assert_eq!(screen_char.ascii_character, b' ');
            }
        }
    }
}

#[test]
fn ansi_esc_bgfg() {
    let mut writer = construct_writer(0, 0);
    let empty_color = empty_char().color_code;

    for row in 0..16 {
        let bg_offset = if row < 8 { 40 } else { 100 - 8 };
        for col in 0..16 {
            let fg_offset = if col < 8 { 30 } else { 90 - 8 };
            writer.write_string(&format!("\x1B[{};{}m{:X}", bg_offset + row, fg_offset + col, col));
        }
        writer.write_string("\x1B[0m\n");
    }

    for i in 0..BUFFER_HEIGHT {
        for j in 0..BUFFER_WIDTH {
            let screen_char = writer.read_char(i, j);
            if j < 16 && i < 16 {
                let expexted_char = if j < 10 { b'0' + j as u8 } else { b'A' + (j - 10) as u8 };
                assert_eq!(screen_char.ascii_character, expexted_char);
                let expexted_color =
                    ColorCode::new(Color::from_code(j as u32), Color::from_code(i as u32));
                assert_eq!(screen_char.color_code, expexted_color);
            } else {
                assert_eq!(screen_char.ascii_character, b' ');
                assert_eq!(screen_char.color_code, empty_color);
            }
        }
    }
}
