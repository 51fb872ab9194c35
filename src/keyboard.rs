use vstd::prelude::*;
use vstd::utf8::encode_utf8;
use pc_keyboard::layouts::Us104Key;
use pc_keyboard::{DecodedKey, Error, HandleControl, KeyEvent, PS2Keyboard, ScancodeSet1};
use crate::vga_buffer::{write_all, ConsoleView, Writer};

verus! {

#[verifier::external_type_specification]
#[verifier::external_body]
pub struct ExKeyEvent(KeyEvent);

#[verifier::external_type_specification]
#[verifier::external_body]
pub struct ExKeyboardError(Error);

#[verifier::external_type_specification]
#[verifier::external_body]
pub struct ExDecodedKey(DecodedKey);

/// The keyboard decoder: a US 104-key layout over scancode set 1. It holds which
/// modifier keys are down and how far a multi-byte scancode has come.
#[verifier::external_body]
pub struct Keyboard {
    inner: PS2Keyboard<Us104Key, ScancodeSet1>,
}

/// Relies on pc_keyboard's PS2Keyboard::new: a decoder with no key held and no scancode
/// under way.
#[verifier::external_body]
fn new_keyboard() -> Keyboard {
    Keyboard { inner: PS2Keyboard::new(ScancodeSet1::new(), Us104Key, HandleControl::Ignore) }
}

/// A decoded key as the console shows it: a character, or the name of a key that has none.
pub enum KeyText {
    Unicode(char),
    RawKey(String),
}

/// Relies on pc_keyboard's PS2Keyboard::add_byte: feeds one scancode byte to the decoder,
/// which may complete a key event.
#[verifier::external_body]
fn add_byte(keyboard: &mut Keyboard, byte: u8) -> Result<Option<KeyEvent>, Error> {
    keyboard.inner.add_byte(byte)
}

/// Relies on pc_keyboard's PS2Keyboard::process_keyevent: turns a key event into a key,
/// tracking the modifier keys.
#[verifier::external_body]
fn process_keyevent(keyboard: &mut Keyboard, ev: KeyEvent) -> Option<DecodedKey> {
    keyboard.inner.process_keyevent(ev)
}

/// Relies on pc_keyboard's DecodedKey variants and the derived `Debug` of KeyCode: a
/// character as it is, a raw key by its name.
#[verifier::external_body]
fn key_text(key: DecodedKey) -> KeyText {
    match key {
        DecodedKey::Unicode(c) => KeyText::Unicode(c),
        DecodedKey::RawKey(code) => KeyText::RawKey(format!("{:?}", code)),
    }
}

/// Relies on std's `char::encode_utf8`: the UTF-8 bytes of `c` at the front of a
/// four-byte buffer, which is large enough for any character, and their count.
#[verifier::external_body]
fn char_utf8(c: char) -> (r: ([u8; 4], usize))
    ensures
        r.1 <= 4,
        r.0@.take(r.1 as int) == encode_utf8(seq![c]),
{
    let mut buf = [0u8; 4];
    let n = c.encode_utf8(&mut buf).len();
    (buf, n)
}

/// The console after showing a key: the UTF-8 bytes of its character or of its name.
pub open spec fn echo_key_spec(v: ConsoleView, key: KeyText) -> ConsoleView {
    match key {
        KeyText::Unicode(c) => write_all(v, encode_utf8(seq![c])),
        KeyText::RawKey(name) => write_all(v, encode_utf8(name@)),
    }
}

/// Shows a decoded key on the console.
pub fn echo_key(writer: &mut Writer, key: &KeyText)
    requires
        old(writer).wf(),
    ensures
        final(writer).wf(),
        final(writer)@ == echo_key_spec(old(writer)@, *key),
{
    match key {
        KeyText::Unicode(c) => {
            let (buf, n) = char_utf8(*c);
            let ghost v0 = writer@;
            let mut i: usize = 0;
            while i < n
                invariant
                    i <= n <= 4,
                    buf@.len() == 4,
                    writer.wf(),
                    writer@ == write_all(v0, buf@.take(i as int)),
                decreases n - i,
            {
                writer.write_byte(buf[i]);
                assert(buf@.take(i + 1).drop_last() =~= buf@.take(i as int));
                i += 1;
            }
        },
        KeyText::RawKey(name) => {
            writer.write_string(name.as_str());
        },
    }
}

/// The console after showing what the decoder gave: nothing, or one key.
pub open spec fn show_key_spec(v: ConsoleView, key: Option<KeyText>) -> ConsoleView {
    match key {
        Some(k) => echo_key_spec(v, k),
        None => v,
    }
}

/// Shows the key the decoder gave, if any; with no key the console stays as it is.
pub fn show_key(writer: &mut Writer, key: Option<KeyText>)
    requires
        old(writer).wf(),
    ensures
        final(writer).wf(),
        key is None ==> final(writer)@ == old(writer)@,
        key matches Some(k) ==> final(writer)@ == echo_key_spec(old(writer)@, k),
        final(writer)@ == show_key_spec(old(writer)@, key),
{
    if let Some(k) = key {
        echo_key(writer, &k);
    }
}

/// Handles one scancode from the keyboard port: feeds it to the decoder, made on first
/// use, and shows on the console the key it completes. A decoder error, an unfinished
/// scancode or an event that gives no key leaves the console as it is.
pub fn keyboard_interrupt(keyboard: &mut Option<Keyboard>, writer: &mut Writer, scancode: u8)
    requires
        old(writer).wf(),
    ensures
        *final(keyboard) is Some,
        final(writer).wf(),
        exists|key: Option<KeyText>| final(writer)@ == show_key_spec(old(writer)@, key),
{
    if keyboard.is_none() {
        *keyboard = Some(new_keyboard());
    }
    let decoder = keyboard.as_mut().unwrap();
    let key: Option<KeyText> = match add_byte(decoder, scancode) {
        Ok(Some(ev)) => match process_keyevent(decoder, ev) {
            Some(k) => Some(key_text(k)),
            None => None,
        },
        _ => None,
    };
    let ghost shown = key;
    show_key(writer, key);
    assert(writer@ == show_key_spec(old(writer)@, shown));
}

} // verus!
