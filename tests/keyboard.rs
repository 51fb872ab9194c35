use blog_os::keyboard::{echo_key, keyboard_interrupt, show_key, KeyText};
use blog_os::vga_buffer::{ColorCode, ScreenChar, Writer};

fn fresh() -> Writer {
    Writer::new(0, 0, ColorCode(0x0f), ScreenChar { ascii_character: b' ', color_code: ColorCode(0x0f) })
}

fn row_text(w: &Writer, n: usize) -> Vec<u8> {
    (0..n).map(|c| w.read_char(0, c).ascii_character).collect()
}

#[test]
fn key_press_echoes_character() {
    let mut w = fresh();
    let mut kb = None;
    keyboard_interrupt(&mut kb, &mut w, 0x1e);
    assert!(kb.is_some());
    keyboard_interrupt(&mut kb, &mut w, 0x9e);
    keyboard_interrupt(&mut kb, &mut w, 0x30);
    assert_eq!(row_text(&w, 2), b"ab".to_vec());
    assert_eq!(w.column(), 2);
}

#[test]
fn raw_key_echoes_name() {
    let mut w = fresh();
    let mut kb = None;
    keyboard_interrupt(&mut kb, &mut w, 0x3b);
    assert_eq!(row_text(&w, 2), b"F1".to_vec());
}

#[test]
fn echo_key_shows_text() {
    let mut w = fresh();
    echo_key(&mut w, &KeyText::Unicode('x'));
    echo_key(&mut w, &KeyText::Unicode('漢'));
    echo_key(&mut w, &KeyText::RawKey(String::from("Esc")));
    assert_eq!(row_text(&w, 7), vec![b'x', 0xfe, 0xfe, 0xfe, b'E', b's', b'c']);
}

#[test]
fn show_key_none_leaves_console() {
    let mut w = fresh();
    w.write_string("ab");
    show_key(&mut w, None);
    assert_eq!(row_text(&w, 3), b"ab ".to_vec());
    assert_eq!(w.column(), 2);
    show_key(&mut w, Some(KeyText::Unicode('c')));
    assert_eq!(row_text(&w, 3), b"abc".to_vec());
}

#[test]
fn release_and_unfinished_scancodes_show_nothing() {
    let mut w = fresh();
    let mut kb = None;
    keyboard_interrupt(&mut kb, &mut w, 0x9e);
    keyboard_interrupt(&mut kb, &mut w, 0xe0);
    assert_eq!(w.column(), 0);
    assert_eq!(row_text(&w, 1), b" ".to_vec());
}
