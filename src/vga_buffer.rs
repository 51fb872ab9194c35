use vstd::prelude::*;
use volatile::Volatile;
use vstd::string::StringSliceAdditionalSpecFns;

verus! {

#[verifier::external_type_specification]
#[verifier::external_body]
#[verifier::reject_recursive_types(T)]
pub struct ExVolatile<T: Copy>(Volatile<T>);

/// The value that a volatile cell holds. volatile::Volatile keeps it in a private field;
/// `cell_new`, `cell_read` and `cell_write` below say how it moves.
pub uninterp spec fn cell_value(c: Volatile<u16>) -> u16;

/// Relies on volatile::Volatile::new: the new cell holds `v`.
#[verifier::external_body]
fn cell_new(v: u16) -> (r: Volatile<u16>)
    ensures
        cell_value(r) == v,
{
    Volatile::new(v)
}

/// Relies on volatile::Volatile::read: a volatile load of the held value.
#[verifier::external_body]
fn cell_read(c: &Volatile<u16>) -> (r: u16)
    ensures
        r == cell_value(*c),
{
    c.read()
}

/// Relies on volatile::Volatile::write: a volatile store of `v`.
#[verifier::external_body]
fn cell_write(c: &mut Volatile<u16>, v: u16)
    ensures
        cell_value(*final(c)) == v,
{
    c.write(v)
}

/// Rows of the VGA text buffer.
pub const BUFFER_HEIGHT: usize = 25;

/// Columns of the VGA text buffer.
pub const BUFFER_WIDTH: usize = 80;

/// Cells of the VGA text buffer.
pub const BUFFER_CELLS: usize = 2000;

/// Numeric parameters that one CSI sequence can hold.
pub const SGR_BUFFER_LENGTH: usize = 5;

/// The sixteen colors of VGA text mode, in the hardware's order.
#[derive(Debug, Clone, Copy, PartialEq, Eq, Structural)]
pub enum Color {
    Black,
    Blue,
    Green,
    Cyan,
    Red,
    Magenta,
    Brown,
    LightGray,
    DarkGray,
    LightBlue,
    LightGreen,
    LightCyan,
    LightRed,
    Pink,
    Yellow,
    White,
}

/// The 4-bit VGA index of a color.
pub open spec fn vga_index(c: Color) -> u8 {
    match c {
        Color::Black => 0,
        Color::Blue => 1,
        Color::Green => 2,
        Color::Cyan => 3,
        Color::Red => 4,
        Color::Magenta => 5,
        Color::Brown => 6,
        Color::LightGray => 7,
        Color::DarkGray => 8,
        Color::LightBlue => 9,
        Color::LightGreen => 10,
        Color::LightCyan => 11,
        Color::LightRed => 12,
        Color::Pink => 13,
        Color::Yellow => 14,
        Color::White => 15,
    }
}

/// The VGA index of ANSI color `k` (0..8 standard, 8..16 bright); black beyond.
pub open spec fn ansi_to_vga(k: int) -> u8 {
    if k == 0 { 0 }
    else if k == 1 { 4 }
    else if k == 2 { 2 }
    else if k == 3 { 6 }
    else if k == 4 { 1 }
    else if k == 5 { 5 }
    else if k == 6 { 3 }
    else if k == 7 { 7 }
    else if k == 8 { 8 }
    else if k == 9 { 12 }
    else if k == 10 { 10 }
    else if k == 11 { 14 }
    else if k == 12 { 9 }
    else if k == 13 { 13 }
    else if k == 14 { 11 }
    else if k == 15 { 15 }
    else { 0 }
}

impl Color {
    /// The 4-bit VGA index of this color.
    pub fn index(self) -> (r: u8)
        ensures
            r == vga_index(self),
            r < 16,
    {
        match self {
            Color::Black => 0,
            Color::Blue => 1,
            Color::Green => 2,
            Color::Cyan => 3,
            Color::Red => 4,
            Color::Magenta => 5,
            Color::Brown => 6,
            Color::LightGray => 7,
            Color::DarkGray => 8,
            Color::LightBlue => 9,
            Color::LightGreen => 10,
            Color::LightCyan => 11,
            Color::LightRed => 12,
            Color::Pink => 13,
            Color::Yellow => 14,
            Color::White => 15,
        }
    }

    /// Translates an ANSI color number into the VGA color that shows it.
    pub fn from_code(val: u32) -> (r: Color)
        ensures
            vga_index(r) == ansi_to_vga(val as int),
    {
        match val {
            0 => Color::Black,
            1 => Color::Red,
            2 => Color::Green,
            3 => Color::Brown,
            4 => Color::Blue,
            5 => Color::Magenta,
            6 => Color::Cyan,
            7 => Color::LightGray,
            8 => Color::DarkGray,
            9 => Color::LightRed,
            10 => Color::LightGreen,
            11 => Color::Yellow,
            12 => Color::LightBlue,
            13 => Color::Pink,
            14 => Color::LightCyan,
            15 => Color::White,
            _ => Color::Black,
        }
    }
}

/// An attribute byte: background color in the high nibble, foreground in the low one.
pub open spec fn attribute(fg: int, bg: int) -> u8 {
    (bg * 16 + fg) as u8
}

/// `c` with its foreground nibble replaced by `fg`.
pub open spec fn with_fg(c: u8, fg: u8) -> u8 {
    attribute(fg as int, c as int / 16)
}

/// `c` with its background nibble replaced by `bg`.
pub open spec fn with_bg(c: u8, bg: u8) -> u8 {
    attribute(c as int % 16, bg as int)
}

/// The attribute a console starts with and returns to on reset: white on black.
pub open spec fn default_attribute() -> u8 {
    15
}

/// An attribute byte of the VGA text buffer.
#[derive(Debug, Clone, Copy, PartialEq, Eq, Structural)]
pub struct ColorCode(pub u8);

impl ColorCode {
    pub fn new(foreground: Color, background: Color) -> (r: ColorCode)
        ensures
            r.0 == attribute(vga_index(foreground) as int, vga_index(background) as int),
    {
        ColorCode(background.index() * 16 + foreground.index())
    }

    pub fn set_fg(&mut self, foreground: Color)
        ensures
            final(self).0 == with_fg(old(self).0, vga_index(foreground)),
    {
        let fg = foreground.index();
        self.0 = (self.0 / 16) * 16 + fg;
    }

    pub fn set_bg(&mut self, background: Color)
        ensures
            final(self).0 == with_bg(old(self).0, vga_index(background)),
    {
        let bg = background.index();
        self.0 = bg * 16 + self.0 % 16;
    }
}

/// One cell of the VGA text buffer.
#[derive(Debug, Clone, Copy, PartialEq, Eq, Structural)]
pub struct ScreenChar {
    pub ascii_character: u8,
    pub color_code: ColorCode,
}

/// How a cell is laid out in memory: the character in the low byte, the attribute in the high one.
pub open spec fn cell_of(ch: u8, color: u8) -> u16 {
    (color as int * 256 + ch as int) as u16
}

/// Where the escape-sequence parser stands.
#[derive(Debug, Clone, Copy, PartialEq, Eq, Structural)]
pub enum Mode {
    Normal,
    Esc,
    Csi,
}

/// A console seen as data: cursor, attribute, parser state and the 25 x 80 cells,
/// row-major, each laid out as `cell_of` says.
pub struct ConsoleView {
    pub row: int,
    pub col: int,
    pub color: u8,
    pub mode: Mode,
    pub index: int,
    pub params: Seq<u32>,
    pub cells: Seq<u16>,
}

impl ConsoleView {
    /// The cursor stands on the screen (one past the last column at most),
    /// the parameter index within the buffer or just past it.
    pub open spec fn wf(self) -> bool {
        &&& 0 <= self.row < BUFFER_HEIGHT
        &&& 0 <= self.col <= BUFFER_WIDTH
        &&& 0 <= self.index <= SGR_BUFFER_LENGTH
        &&& self.params.len() == SGR_BUFFER_LENGTH
        &&& self.cells.len() == BUFFER_CELLS
    }
}

/// Bytes the console takes as they are: printable ASCII, newline, carriage return,
/// backspace and ESC.
pub open spec fn is_accepted(b: u8) -> bool {
    (0x20 <= b && b <= 0x7e) || b == 0x0a || b == 0x0d || b == 0x08 || b == 0x1b
}

/// What the console makes of a byte: itself if accepted, else the filled block `0xfe`.
pub open spec fn sanitize(b: u8) -> u8 {
    if is_accepted(b) { b } else { 0xfe }
}

/// The cells after the screen moves up one row and the last row is blanked.
pub open spec fn scrolled(cells: Seq<u16>, color: u8) -> Seq<u16> {
    Seq::new(
        BUFFER_CELLS as nat,
        |i: int| if i < BUFFER_CELLS - BUFFER_WIDTH { cells[i + BUFFER_WIDTH] } else { cell_of(0x20, color) },
    )
}

/// Moves to the start of the next row, scrolling on the last one.
pub open spec fn new_line(v: ConsoleView) -> ConsoleView {
    if v.row == BUFFER_HEIGHT - 1 {
        ConsoleView { cells: scrolled(v.cells, v.color), col: 0, ..v }
    } else {
        ConsoleView { row: v.row + 1, col: 0, ..v }
    }
}

/// Writes glyph `b` at the cursor with the current attribute, wrapping first at the
/// end of a row.
pub open spec fn put_glyph(v: ConsoleView, b: u8) -> ConsoleView {
    let w = if v.col >= BUFFER_WIDTH { new_line(v) } else { v };
    ConsoleView {
        cells: w.cells.update(w.row * BUFFER_WIDTH + w.col, cell_of(b, w.color)),
        col: w.col + 1,
        ..w
    }
}

/// One byte outside an escape sequence: newline, carriage return and backspace move
/// the cursor, anything else is drawn.
pub open spec fn put_normal(v: ConsoleView, b: u8) -> ConsoleView {
    if b == 0x0a {
        new_line(v)
    } else if b == 0x0d {
        ConsoleView { col: 0, ..v }
    } else if b == 0x08 {
        if v.col > 0 { ConsoleView { col: v.col - 1, ..v } } else { v }
    } else {
        put_glyph(v, b)
    }
}

/// `put_normal` over a run of bytes, first to last.
pub open spec fn put_all(v: ConsoleView, bs: Seq<u8>) -> ConsoleView
    decreases bs.len(),
{
    if bs.len() == 0 {
        v
    } else {
        put_normal(put_all(v, bs.drop_last()), bs.last())
    }
}

/// The result of one SGR parameter on an attribute byte.
pub open spec fn sgr_one(c: u8, p: u32) -> u8 {
    if p == 0 {
        default_attribute()
    } else if p == 7 {
        attribute(c as int / 16, c as int % 16)
    } else if 30 <= p && p <= 37 {
        with_fg(c, ansi_to_vga(p - 30))
    } else if p == 39 {
        with_fg(c, 15)
    } else if 40 <= p && p <= 47 {
        with_bg(c, ansi_to_vga(p - 40))
    } else if p == 49 {
        with_bg(c, 0)
    } else if 90 <= p && p <= 97 {
        with_fg(c, ansi_to_vga(p - 90 + 8))
    } else if 100 <= p && p <= 107 {
        with_bg(c, ansi_to_vga(p - 100 + 8))
    } else {
        c
    }
}

/// SGR parameters applied in order.
pub open spec fn sgr_all(c: u8, ps: Seq<u32>) -> u8
    decreases ps.len(),
{
    if ps.len() == 0 {
        c
    } else {
        sgr_one(sgr_all(c, ps.drop_last()), ps.last())
    }
}

/// The parameters a CSI sequence has gathered: those up to the current index, five at most.
pub open spec fn active_params(v: ConsoleView) -> Seq<u32> {
    v.params.take(if v.index < SGR_BUFFER_LENGTH { v.index + 1 } else { SGR_BUFFER_LENGTH as int })
}

/// A parameter after one more decimal digit `d`, held at `u32::MAX` instead of overflowing.
pub open spec fn accumulate(p: u32, d: u32) -> u32 {
    if p * 10 + d <= u32::MAX { (p * 10 + d) as u32 } else { u32::MAX }
}

/// The ASCII decimal digits of `n`.
pub open spec fn decimal(n: nat) -> Seq<u8>
    decreases n,
{
    if n < 10 {
        seq![(0x30 + n) as u8]
    } else {
        decimal(n / 10).push((0x30 + n % 10) as u8)
    }
}

/// Parameters written back as text, separated by `;`.
pub open spec fn csi_text(ps: Seq<u32>) -> Seq<u8>
    decreases ps.len(),
{
    if ps.len() == 0 {
        seq![]
    } else if ps.len() == 1 {
        decimal(ps[0] as nat)
    } else {
        csi_text(ps.drop_last()).push(0x3b) + decimal(ps.last() as nat)
    }
}

/// The letters `ESC`.
pub open spec fn esc_word() -> Seq<u8> {
    seq![0x45u8, 0x53u8, 0x43u8]
}

/// Shows `text` literally in light gray on the current background, then resets the
/// attribute to white on black and returns to normal mode.
pub open spec fn echo(v: ConsoleView, text: Seq<u8>) -> ConsoleView {
    let w = put_all(ConsoleView { color: with_fg(v.color, 7), ..v }, text);
    ConsoleView { color: default_attribute(), mode: Mode::Normal, ..w }
}

/// One byte inside a CSI sequence.
pub open spec fn csi_step(v: ConsoleView, b: u8) -> ConsoleView {
    if b == 0x6d {
        ConsoleView { color: sgr_all(v.color, active_params(v)), mode: Mode::Normal, ..v }
    } else if b == 0x3b {
        ConsoleView { index: if v.index < SGR_BUFFER_LENGTH { v.index + 1 } else { SGR_BUFFER_LENGTH as int }, ..v }
    } else if 0x30 <= b && b <= 0x39 {
        if v.index < SGR_BUFFER_LENGTH {
            ConsoleView { params: v.params.update(v.index, accumulate(v.params[v.index], (b - 0x30) as u32)), ..v }
        } else {
            v
        }
    } else {
        echo(v, esc_word().push(0x5b) + csi_text(active_params(v)).push(b))
    }
}

/// The console after one byte.
pub open spec fn step(v: ConsoleView, byte: u8) -> ConsoleView {
    let b = sanitize(byte);
    match v.mode {
        Mode::Normal => if b == 0x1b { ConsoleView { mode: Mode::Esc, ..v } } else { put_normal(v, b) },
        Mode::Esc => if b == 0x5b {
            ConsoleView { mode: Mode::Csi, index: 0, params: Seq::new(SGR_BUFFER_LENGTH as nat, |i: int| 0u32), ..v }
        } else {
            echo(v, esc_word().push(b))
        },
        Mode::Csi => csi_step(v, b),
    }
}

/// The console after a run of bytes, first to last.
pub open spec fn write_all(v: ConsoleView, bs: Seq<u8>) -> ConsoleView
    decreases bs.len(),
{
    if bs.len() == 0 {
        v
    } else {
        step(write_all(v, bs.drop_last()), bs.last())
    }
}

/// The 25 x 80 cells, row-major; every access is a volatile load or store.
struct Buffer {
    chars: Vec<Volatile<u16>>,
}

/// The numeric parameters of the CSI sequence being read.
struct CsiSeq {
    index: usize,
    array: [u32; SGR_BUFFER_LENGTH],
}

/// A VGA text console that interprets a subset of ANSI escape sequences.
pub struct Writer {
    column_position: usize,
    row_position: usize,
    color_code: ColorCode,
    buffer: Buffer,
    mode: Mode,
    csi_sequence: CsiSeq,
}

/// What a run of volatile cells holds.
pub open spec fn cells_view(chars: Seq<Volatile<u16>>) -> Seq<u16> {
    chars.map_values(|c: Volatile<u16>| cell_value(c))
}

proof fn lemma_cells_update(chars: Seq<Volatile<u16>>, k: int, c: Volatile<u16>)
    requires
        0 <= k < chars.len(),
    ensures
        cells_view(chars.update(k, c)) =~= cells_view(chars).update(k, cell_value(c)),
{
}

impl View for Writer {
    type V = ConsoleView;

    closed spec fn view(&self) -> ConsoleView {
        ConsoleView {
            row: self.row_position as int,
            col: self.column_position as int,
            color: self.color_code.0,
            mode: self.mode,
            index: self.csi_sequence.index as int,
            params: self.csi_sequence.array@,
            cells: cells_view(self.buffer.chars@),
        }
    }
}

impl Writer {
    /// The console's state is well formed.
    pub open spec fn wf(&self) -> bool {
        self@.wf()
    }

    /// A console with the cursor at (`row`, `col`), attribute `color_code`, every cell
    /// holding `blank`, and no escape sequence under way.
    pub fn new(row: usize, col: usize, color_code: ColorCode, blank: ScreenChar) -> (r: Writer)
        requires
            row < BUFFER_HEIGHT,
            col <= BUFFER_WIDTH,
        ensures
            r.wf(),
            r@ == (ConsoleView {
                row: row as int,
                col: col as int,
                color: color_code.0,
                mode: Mode::Normal,
                index: 0,
                params: Seq::new(SGR_BUFFER_LENGTH as nat, |i: int| 0u32),
                cells: Seq::new(BUFFER_CELLS as nat, |i: int| cell_of(blank.ascii_character, blank.color_code.0)),
            }),
    {
        let v: u16 = (blank.color_code.0 as u16) * 256 + (blank.ascii_character as u16);
        let mut chars: Vec<Volatile<u16>> = Vec::new();
        let mut i: usize = 0;
        while i < BUFFER_CELLS
            invariant
                i <= BUFFER_CELLS,
                chars@.len() == i,
                forall|j: int| 0 <= j < i ==> cell_value(#[trigger] chars@[j]) == v,
            decreases BUFFER_CELLS - i,
        {
            chars.push(cell_new(v));
            i += 1;
        }
        let r = Writer {
            column_position: col,
            row_position: row,
            color_code,
            buffer: Buffer { chars },
            mode: Mode::Normal,
            csi_sequence: CsiSeq { index: 0, array: [0u32; SGR_BUFFER_LENGTH] },
        };
        assert(r.csi_sequence.array@ =~= Seq::new(SGR_BUFFER_LENGTH as nat, |i: int| 0u32));
        assert(cells_view(r.buffer.chars@) =~= Seq::new(
            BUFFER_CELLS as nat,
            |i: int| cell_of(blank.ascii_character, blank.color_code.0),
        ));
        r
    }

    /// A console over existing cells, such as the VGA text buffer itself: cursor at the
    /// top left, white on black, no escape sequence under way. `None` unless there are
    /// exactly 25 x 80 cells.
    pub fn from_cells(chars: Vec<Volatile<u16>>) -> (r: Option<Writer>)
        ensures
            r is Some <==> chars@.len() == BUFFER_CELLS,
            r matches Some(w) ==> w.wf() && w@ == (ConsoleView {
                row: 0,
                col: 0,
                color: default_attribute(),
                mode: Mode::Normal,
                index: 0,
                params: Seq::new(SGR_BUFFER_LENGTH as nat, |i: int| 0u32),
                cells: cells_view(chars@),
            }),
    {
        if chars.len() != BUFFER_CELLS {
            return None;
        }
        let r = Writer {
            column_position: 0,
            row_position: 0,
            color_code: ColorCode(15),
            buffer: Buffer { chars },
            mode: Mode::Normal,
            csi_sequence: CsiSeq { index: 0, array: [0u32; SGR_BUFFER_LENGTH] },
        };
        assert(r.csi_sequence.array@ =~= Seq::new(SGR_BUFFER_LENGTH as nat, |i: int| 0u32));
        Some(r)
    }

    /// The cell at (`row`, `col`).
    pub fn read_char(&self, row: usize, col: usize) -> (r: ScreenChar)
        requires
            self.wf(),
            row < BUFFER_HEIGHT,
            col < BUFFER_WIDTH,
        ensures
            cell_of(r.ascii_character, r.color_code.0) == self@.cells[row * BUFFER_WIDTH + col],
    {
        let v = cell_read(&self.buffer.chars[row * BUFFER_WIDTH + col]);
        ScreenChar { ascii_character: (v % 256) as u8, color_code: ColorCode((v / 256) as u8) }
    }

    /// The current attribute.
    pub fn color_code(&self) -> (r: ColorCode)
        ensures
            r.0 == self@.color,
    {
        self.color_code
    }

    /// The cursor's row.
    pub fn row(&self) -> (r: usize)
        ensures
            r == self@.row,
    {
        self.row_position
    }

    /// The cursor's column.
    pub fn column(&self) -> (r: usize)
        ensures
            r == self@.col,
    {
        self.column_position
    }

    /// Fills row `row` with spaces in the current attribute.
    fn clear_row(&mut self, row: usize)
        requires
            old(self).wf(),
            row < BUFFER_HEIGHT,
        ensures
            final(self).wf(),
            final(self)@ == (ConsoleView {
                cells: Seq::new(
                    BUFFER_CELLS as nat,
                    |j: int|
                        if row * BUFFER_WIDTH <= j < row * BUFFER_WIDTH + BUFFER_WIDTH {
                            cell_of(0x20, old(self)@.color)
                        } else {
                            old(self)@.cells[j]
                        },
                ),
                ..old(self)@
            }),
    {
        let ghost v0 = self@;
        let blank: u16 = (self.color_code.0 as u16) * 256 + 0x20;
        let mut col: usize = 0;
        while col < BUFFER_WIDTH
            invariant
                col <= BUFFER_WIDTH,
                row < BUFFER_HEIGHT,
                blank == cell_of(0x20, v0.color),
                v0.wf(),
                self@ == (ConsoleView { cells: self@.cells, ..v0 }),
                self@.cells.len() == BUFFER_CELLS,
                forall|j: int|
                    0 <= j < BUFFER_CELLS ==> #[trigger] self@.cells[j] == if row * BUFFER_WIDTH <= j < row
                        * BUFFER_WIDTH + col {
                        blank
                    } else {
                        v0.cells[j]
                    },
            decreases BUFFER_WIDTH - col,
        {
            let ghost before = self.buffer.chars@;
            cell_write(&mut self.buffer.chars[row * BUFFER_WIDTH + col], blank);
            proof {
                lemma_cells_update(before, row * BUFFER_WIDTH + col, self.buffer.chars@[row * BUFFER_WIDTH + col]);
                assert(self.buffer.chars@ == before.update(row * BUFFER_WIDTH + col, self.buffer.chars@[row * BUFFER_WIDTH + col]));
            }
            col += 1;
        }
        assert(self@.cells =~= Seq::new(
            BUFFER_CELLS as nat,
            |j: int|
                if row * BUFFER_WIDTH <= j < row * BUFFER_WIDTH + BUFFER_WIDTH {
                    cell_of(0x20, v0.color)
                } else {
                    v0.cells[j]
                },
        ));
    }

    /// Moves to the start of the next row, scrolling the screen up on the last row.
    fn new_line(&mut self)
        requires
            old(self).wf(),
        ensures
            final(self).wf(),
            final(self)@ == new_line(old(self)@),
    {
        let ghost v0 = self@;
        if self.row_position == BUFFER_HEIGHT - 1 {
            let mut i: usize = BUFFER_WIDTH;
            while i < BUFFER_CELLS
                invariant
                    BUFFER_WIDTH <= i <= BUFFER_CELLS,
                    v0.wf(),
                    self@ == (ConsoleView { cells: self@.cells, ..v0 }),
                    self@.cells.len() == BUFFER_CELLS,
                    forall|j: int|
                        0 <= j < BUFFER_CELLS ==> #[trigger] self@.cells[j] == if j < i - BUFFER_WIDTH {
                            v0.cells[j + BUFFER_WIDTH]
                        } else {
                            v0.cells[j]
                        },
                decreases BUFFER_CELLS - i,
            {
                assert(self@.cells[i as int] == v0.cells[i as int]);
                let c = cell_read(&self.buffer.chars[i]);
                assert(c == v0.cells[i as int]);
                let ghost before = self.buffer.chars@;
                cell_write(&mut self.buffer.chars[i - BUFFER_WIDTH], c);
                proof {
                    let k = i - BUFFER_WIDTH;
                    lemma_cells_update(before, k, self.buffer.chars@[k]);
                    assert(self.buffer.chars@ == before.update(k, self.buffer.chars@[k]));
                }
                i += 1;
            }
            self.clear_row(BUFFER_HEIGHT - 1);
            assert(self@.cells =~= scrolled(v0.cells, v0.color));
        } else {
            self.row_position += 1;
        }
        self.column_position = 0;
    }
    /// Draws glyph `b` at the cursor, wrapping to a new row first at the end of one.
    fn put_glyph(&mut self, b: u8)
        requires
            old(self).wf(),
        ensures
            final(self).wf(),
            final(self)@ == put_glyph(old(self)@, b),
    {
        if self.column_position >= BUFFER_WIDTH {
            self.new_line();
        }
        let pos = self.row_position * BUFFER_WIDTH + self.column_position;
        let v: u16 = (self.color_code.0 as u16) * 256 + (b as u16);
        let ghost before = self.buffer.chars@;
        cell_write(&mut self.buffer.chars[pos], v);
        proof {
            lemma_cells_update(before, pos as int, self.buffer.chars@[pos as int]);
            assert(self.buffer.chars@ == before.update(pos as int, self.buffer.chars@[pos as int]));
        }
        self.column_position += 1;
    }

    /// One byte outside an escape sequence.
    fn put_normal(&mut self, b: u8)
        requires
            old(self).wf(),
        ensures
            final(self).wf(),
            final(self)@ == put_normal(old(self)@, b),
    {
        if b == 0x0a {
            self.new_line();
        } else if b == 0x0d {
            self.column_position = 0;
        } else if b == 0x08 {
            if self.column_position > 0 {
                self.column_position -= 1;
            }
        } else {
            self.put_glyph(b);
        }
    }

    /// Starts showing escape-sequence text literally: light gray on the current background.
    fn begin_echo(&mut self)
        requires
            old(self).wf(),
        ensures
            final(self).wf(),
            final(self)@ == put_all(ConsoleView { color: with_fg(old(self)@.color, 7), ..old(self)@ }, Seq::<u8>::empty()),
    {
        self.color_code.set_fg(Color::LightGray);
    }

    /// Shows one more byte of literal text begun at `base`, after `done`.
    fn echo_byte(&mut self, b: u8, Ghost(base): Ghost<ConsoleView>, Ghost(done): Ghost<Seq<u8>>)
        requires
            old(self).wf(),
            old(self)@ == put_all(base, done),
        ensures
            final(self).wf(),
            final(self)@ == put_all(base, done.push(b)),
            final(self)@.params == old(self)@.params,
    {
        self.put_normal(b);
        assert(done.push(b).drop_last() =~= done);
    }

    /// Shows the decimal digits of `n` as literal text begun at `base`, after `done`.
    fn echo_decimal(&mut self, n: u32, Ghost(base): Ghost<ConsoleView>, Ghost(done): Ghost<Seq<u8>>)
        requires
            old(self).wf(),
            old(self)@ == put_all(base, done),
        ensures
            final(self).wf(),
            final(self)@ == put_all(base, done + decimal(n as nat)),
            final(self)@.params == old(self)@.params,
        decreases n,
    {
        if n >= 10 {
            self.echo_decimal(n / 10, Ghost(base), Ghost(done));
            self.echo_byte(0x30 + (n % 10) as u8, Ghost(base), Ghost(done + decimal((n / 10) as nat)));
            assert((done + decimal((n / 10) as nat)).push((0x30 + n % 10) as u8) =~= done + decimal(n as nat));
        } else {
            self.echo_byte(0x30 + n as u8, Ghost(base), Ghost(done));
            assert(done.push((0x30 + n) as u8) =~= done + decimal(n as nat));
        }
    }

    /// Ends literal text: resets the attribute to white on black and leaves the escape
    /// sequence.
    fn end_echo(&mut self)
        requires
            old(self).wf(),
        ensures
            final(self).wf(),
            final(self)@ == (ConsoleView { color: default_attribute(), mode: Mode::Normal, ..old(self)@ }),
    {
        self.color_code = ColorCode(15);
        self.mode = Mode::Normal;
    }

    /// Applies the gathered SGR parameters to the attribute, in order.
    fn parse_sgr(&mut self)
        requires
            old(self).wf(),
        ensures
            final(self).wf(),
            final(self)@ == (ConsoleView {
                color: sgr_all(old(self)@.color, active_params(old(self)@)),
                ..old(self)@
            }),
    {
        let ghost v0 = self@;
        let n: usize = if self.csi_sequence.index < SGR_BUFFER_LENGTH {
            self.csi_sequence.index + 1
        } else {
            SGR_BUFFER_LENGTH
        };
        let mut i: usize = 0;
        while i < n
            invariant
                i <= n,
                n <= SGR_BUFFER_LENGTH,
                v0.wf(),
                active_params(v0) == v0.params.take(n as int),
                self@ == (ConsoleView { color: sgr_all(v0.color, v0.params.take(i as int)), ..v0 }),
            decreases n - i,
        {
            let value = self.csi_sequence.array[i];
            apply_sgr(&mut self.color_code, value);
            assert(v0.params.take(i + 1).drop_last() =~= v0.params.take(i as int));
            i += 1;
        }
    }

    /// The byte after ESC: `[` opens a CSI sequence, anything else is shown literally.
    fn parse_esc(&mut self, byte: u8)
        requires
            old(self).wf(),
            old(self)@.mode == Mode::Esc,
            sanitize(byte) == byte,
        ensures
            final(self).wf(),
            final(self)@ == step(old(self)@, byte),
    {
        if byte == 0x5b {
            self.mode = Mode::Csi;
            self.csi_sequence = CsiSeq { index: 0, array: [0u32; SGR_BUFFER_LENGTH] };
            assert(self.csi_sequence.array@ =~= Seq::new(SGR_BUFFER_LENGTH as nat, |i: int| 0u32));
        } else {
            let ghost v0 = self@;
            let ghost g = ConsoleView { color: with_fg(v0.color, 7), ..v0 };
            let ghost e1 = seq![0x45u8];
            let ghost e2 = seq![0x45u8, 0x53u8];
            assert(Seq::<u8>::empty().push(0x45u8) =~= e1);
            assert(e1.push(0x53) =~= e2);
            assert(e2.push(0x43) =~= esc_word());
            self.begin_echo();
            self.echo_byte(0x45, Ghost(g), Ghost(Seq::<u8>::empty()));
            self.echo_byte(0x53, Ghost(g), Ghost(e1));
            self.echo_byte(0x43, Ghost(g), Ghost(e2));
            self.echo_byte(byte, Ghost(g), Ghost(esc_word()));
            self.end_echo();
        }
    }
    /// A byte inside a CSI sequence: digits build a parameter, `;` moves to the next one,
    /// `m` applies them, anything else ends the sequence and shows it literally.
    fn parse_csi(&mut self, byte: u8)
        requires
            old(self).wf(),
            old(self)@.mode == Mode::Csi,
            sanitize(byte) == byte,
        ensures
            final(self).wf(),
            final(self)@ == step(old(self)@, byte),
    {
        let ghost v0 = self@;
        if byte == 0x6d {
            self.parse_sgr();
            self.mode = Mode::Normal;
        } else if byte == 0x3b {
            if self.csi_sequence.index < SGR_BUFFER_LENGTH {
                self.csi_sequence.index += 1;
            }
        } else if 0x30 <= byte && byte <= 0x39 {
            let d = (byte - 0x30) as u32;
            let index = self.csi_sequence.index;
            if index < SGR_BUFFER_LENGTH {
                let p = self.csi_sequence.array[index];
                let q = if p <= (u32::MAX - d) / 10 {
                    assert(p * 10 + d <= u32::MAX) by (nonlinear_arith)
                        requires
                            p <= (u32::MAX - d) / 10,
                            d <= 9,
                    ;
                    p * 10 + d
                } else {
                    assert(p * 10 + d > u32::MAX) by (nonlinear_arith)
                        requires
                            p > (u32::MAX - d) / 10,
                            d <= 9,
                    ;
                    u32::MAX
                };
                self.csi_sequence.array[index] = q;
            }
        } else {
            let n: usize = if self.csi_sequence.index < SGR_BUFFER_LENGTH {
                self.csi_sequence.index + 1
            } else {
                SGR_BUFFER_LENGTH
            };
            let ghost g = ConsoleView { color: with_fg(v0.color, 7), ..v0 };
            let ghost prefix = esc_word().push(0x5b);
            let ghost e1 = seq![0x45u8];
            let ghost e2 = seq![0x45u8, 0x53u8];
            assert(Seq::<u8>::empty().push(0x45u8) =~= e1);
            assert(e1.push(0x53) =~= e2);
            assert(e2.push(0x43) =~= esc_word());
            self.begin_echo();
            self.echo_byte(0x45, Ghost(g), Ghost(Seq::<u8>::empty()));
            self.echo_byte(0x53, Ghost(g), Ghost(e1));
            self.echo_byte(0x43, Ghost(g), Ghost(e2));
            self.echo_byte(0x5b, Ghost(g), Ghost(esc_word()));
            assert(prefix =~= prefix + csi_text(v0.params.take(0)));
            let mut i: usize = 0;
            while i < n
                invariant
                    i <= n,
                    n <= SGR_BUFFER_LENGTH,
                    v0.wf(),
                    self.wf(),
                    self.csi_sequence.array@ == v0.params,
                    active_params(v0) == v0.params.take(n as int),
                    self@ == put_all(g, prefix + csi_text(v0.params.take(i as int))),
                decreases n - i,
            {
                let ghost done = prefix + csi_text(v0.params.take(i as int));
                let value = self.csi_sequence.array[i];
                if i > 0 {
                    self.echo_byte(0x3b, Ghost(g), Ghost(done));
                    self.echo_decimal(value, Ghost(g), Ghost(done.push(0x3b)));
                } else {
                    self.echo_decimal(value, Ghost(g), Ghost(done));
                }
                proof {
                    let ps = v0.params.take(i + 1);
                    assert(ps.drop_last() =~= v0.params.take(i as int));
                    assert(ps.last() == v0.params[i as int]);
                    if i > 0 {
                        assert(done.push(0x3b) + decimal(value as nat) =~= prefix + (csi_text(ps.drop_last()).push(0x3b) + decimal(ps.last() as nat)));
                    } else {
                        assert(done + decimal(value as nat) =~= prefix + decimal(ps[0] as nat));
                    }
                }
                i += 1;
            }
            self.echo_byte(byte, Ghost(g), Ghost(prefix + csi_text(active_params(v0))));
            assert((prefix + csi_text(active_params(v0))).push(byte) =~= prefix + csi_text(active_params(v0)).push(byte));
            self.end_echo();
        }
    }

    /// Feeds one byte to the console. A byte outside printable ASCII, newline, carriage
    /// return, backspace and ESC counts as the filled block `0xfe`.
    pub fn write_byte(&mut self, byte: u8)
        requires
            old(self).wf(),
        ensures
            final(self).wf(),
            final(self)@ == step(old(self)@, byte),
    {
        let b = if (0x20 <= byte && byte <= 0x7e) || byte == 0x0a || byte == 0x0d || byte == 0x08
            || byte == 0x1b {
            byte
        } else {
            0xfe
        };
        match self.mode {
            Mode::Esc => self.parse_esc(b),
            Mode::Csi => self.parse_csi(b),
            Mode::Normal => {
                if b == 0x1b {
                    self.mode = Mode::Esc;
                } else {
                    self.put_normal(b);
                }
            },
        }
    }

    /// Feeds the bytes of `s` to the console, first to last.
    pub fn write_string(&mut self, s: &str)
        requires
            old(self).wf(),
        ensures
            final(self).wf(),
            final(self)@ == write_all(old(self)@, s.spec_bytes()),
    {
        let ghost v0 = self@;
        let bytes = s.as_bytes();
        let mut i: usize = 0;
        while i < bytes.len()
            invariant
                i <= bytes@.len(),
                bytes@ == s.spec_bytes(),
                self.wf(),
                self@ == write_all(v0, bytes@.take(i as int)),
            decreases bytes@.len() - i,
        {
            self.write_byte(bytes[i]);
            assert(bytes@.take(i + 1).drop_last() =~= bytes@.take(i as int));
            i += 1;
        }
        assert(bytes@.take(bytes@.len() as int) =~= bytes@);
    }
}

/// Prints already formatted text on `writer`.
pub fn print(writer: &mut Writer, s: &str)
    requires
        old(writer).wf(),
    ensures
        final(writer).wf(),
        final(writer)@ == write_all(old(writer)@, s.spec_bytes()),
{
    writer.write_string(s);
}

/// Applies one SGR parameter to an attribute.
fn apply_sgr(c: &mut ColorCode, value: u32)
    ensures
        final(c).0 == sgr_one(old(c).0, value),
{
    if value == 0 {
        *c = ColorCode::new(Color::White, Color::Black);
    } else if value == 7 {
        c.0 = (c.0 % 16) * 16 + c.0 / 16;
    } else if 30 <= value && value <= 37 {
        c.set_fg(Color::from_code(value - 30));
    } else if value == 39 {
        c.set_fg(Color::White);
    } else if 40 <= value && value <= 47 {
        c.set_bg(Color::from_code(value - 40));
    } else if value == 49 {
        c.set_bg(Color::Black);
    } else if 90 <= value && value <= 97 {
        c.set_fg(Color::from_code(value - 90 + 8));
    } else if 100 <= value && value <= 107 {
        c.set_bg(Color::from_code(value - 100 + 8));
    }
}

} // verus!
