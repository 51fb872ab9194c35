use vstd::prelude::*;
use crate::vga_buffer::{
    accumulate, active_params, cell_of, csi_step, csi_text, decimal, default_attribute, echo, esc_word,
    put_all, put_glyph, put_normal, sanitize, sgr_all, sgr_one, step, with_fg, write_all, ConsoleView,
    Mode,
};

verus! {

/// A byte that `put_normal` draws rather than acting on.
pub open spec fn is_glyph(b: u8) -> bool {
    b != 0x0a && b != 0x0d && b != 0x08
}

/// A printable ASCII byte.
pub open spec fn is_printable(b: u8) -> bool {
    0x20 <= b && b <= 0x7e
}

/// Feeding `a` and then `b` is feeding `a + b`.
pub proof fn lemma_write_all_append(v: ConsoleView, a: Seq<u8>, b: Seq<u8>)
    ensures
        write_all(v, a + b) == write_all(write_all(v, a), b),
    decreases b.len(),
{
    if b.len() == 0 {
        assert(a + b =~= a);
    } else {
        assert((a + b).drop_last() =~= a + b.drop_last());
        assert((a + b).last() == b.last());
        lemma_write_all_append(v, a, b.drop_last());
    }
}

/// Every step keeps the console well formed.
pub proof fn lemma_step_wf(v: ConsoleView, b: u8)
    requires
        v.wf(),
    ensures
        step(v, b).wf(),
{
    let c = sanitize(b);
    match v.mode {
        Mode::Normal => {
            if c != 0x1b {
                lemma_put_normal_wf(v, c);
            }
        },
        Mode::Esc => {
            if c != 0x5b {
                lemma_echo_wf(v, esc_word().push(c));
            }
        },
        Mode::Csi => {
            if c != 0x6d && c != 0x3b && !(0x30 <= c && c <= 0x39) {
                lemma_echo_wf(v, esc_word().push(0x5b) + csi_text(active_params(v)).push(c));
            }
        },
    }
}

proof fn lemma_put_normal_wf(v: ConsoleView, b: u8)
    requires
        v.wf(),
    ensures
        put_normal(v, b).wf(),
{
}

proof fn lemma_put_all_wf(v: ConsoleView, bs: Seq<u8>)
    requires
        v.wf(),
    ensures
        put_all(v, bs).wf(),
    decreases bs.len(),
{
    if bs.len() > 0 {
        lemma_put_all_wf(v, bs.drop_last());
        lemma_put_normal_wf(put_all(v, bs.drop_last()), bs.last());
    }
}

proof fn lemma_echo_wf(v: ConsoleView, text: Seq<u8>)
    requires
        v.wf(),
    ensures
        echo(v, text).wf(),
{
    lemma_put_all_wf(ConsoleView { color: with_fg(v.color, 7), ..v }, text);
}

/// Whatever is written to a well-formed console, the cursor stays on the screen:
/// row within 0..=24, column within 0..=80.
pub proof fn lemma_cursor_stays_on_screen(v: ConsoleView, bs: Seq<u8>)
    requires
        v.wf(),
    ensures
        write_all(v, bs).wf(),
        0 <= write_all(v, bs).row <= 24,
        0 <= write_all(v, bs).col <= 80,
    decreases bs.len(),
{
    if bs.len() > 0 {
        lemma_cursor_stays_on_screen(v, bs.drop_last());
        lemma_step_wf(write_all(v, bs.drop_last()), bs.last());
    }
}

/// The cursor's place in reading order: row by row, 80 cells each.
pub open spec fn flat_pos(v: ConsoleView) -> int {
    v.row * 80 + v.col
}

/// Drawing a run of glyphs that fits before the end of the screen puts each byte in
/// the cell after the previous one in reading order, wrapping at the end of a row,
/// with the current attribute, and touches no other cell. The cursor ends just after
/// the last byte, on the row of that byte.
pub proof fn lemma_put_run(v: ConsoleView, run: Seq<u8>)
    requires
        v.wf(),
        flat_pos(v) + run.len() <= 2000,
        forall|i: int| 0 <= i < run.len() ==> is_glyph(#[trigger] run[i]),
    ensures
        put_all(v, run).wf(),
        flat_pos(put_all(v, run)) == flat_pos(v) + run.len(),
        run.len() > 0 ==> 1 <= put_all(v, run).col,
        run.len() > 0 ==> put_all(v, run).row == (flat_pos(v) + run.len() - 1) / 80,
        run.len() > 0 ==> put_all(v, run).col == (flat_pos(v) + run.len() - 1) % 80 + 1,
        v.col + run.len() <= 80 ==> put_all(v, run).row == v.row,
        v.col + run.len() <= 80 ==> put_all(v, run).col == v.col + run.len(),
        put_all(v, run).color == v.color,
        put_all(v, run).mode == v.mode,
        put_all(v, run).index == v.index,
        put_all(v, run).params == v.params,
        forall|i: int|
            0 <= i < run.len() ==> #[trigger] put_all(v, run).cells[flat_pos(v) + i] == cell_of(
                run[i],
                v.color,
            ),
        forall|j: int|
            0 <= j < 2000 && !(flat_pos(v) <= j < flat_pos(v) + run.len())
                ==> #[trigger] put_all(v, run).cells[j] == v.cells[j],
    decreases run.len(),
{
    if run.len() > 0 {
        let init = run.drop_last();
        lemma_put_run(v, init);
        let w = put_all(v, init);
        assert(is_glyph(run[run.len() - 1]));
        let u = put_all(v, run);
        assert(u == put_glyph(w, run.last()));
        if w.col >= 80 {
            assert(w.row < 24);
        }
        assert forall|i: int| 0 <= i < run.len() implies #[trigger] u.cells[flat_pos(v) + i]
            == cell_of(run[i], v.color) by {
            if i < init.len() {
                assert(init[i] == run[i]);
                assert(w.cells[flat_pos(v) + i] == cell_of(init[i], v.color));
            }
        }
        let p = flat_pos(v) + run.len() - 1;
        assert(u.row * 80 + u.col - 1 == p);
        assert(p / 80 == u.row && p % 80 == u.col - 1) by (nonlinear_arith)
            requires
                u.row * 80 + u.col - 1 == p,
                1 <= u.col <= 80,
                0 <= u.row,
        ;
    }
}

/// In normal mode a printable run without control bytes is drawn as it is, so long as
/// it ends on the screen: each byte lands in the next cell in reading order, wrapping
/// at the end of a row, with the attribute then current.
pub proof fn lemma_printable_run(v: ConsoleView, run: Seq<u8>)
    requires
        v.wf(),
        v.mode == Mode::Normal,
        flat_pos(v) + run.len() <= 2000,
        forall|i: int| 0 <= i < run.len() ==> is_printable(#[trigger] run[i]),
    ensures
        write_all(v, run) == put_all(v, run),
        flat_pos(write_all(v, run)) == flat_pos(v) + run.len(),
        run.len() > 0 ==> write_all(v, run).row == (flat_pos(v) + run.len() - 1) / 80,
        run.len() > 0 ==> write_all(v, run).col == (flat_pos(v) + run.len() - 1) % 80 + 1,
        v.col + run.len() <= 80 ==> write_all(v, run).row == v.row,
        v.col + run.len() <= 80 ==> write_all(v, run).col == v.col + run.len(),
        write_all(v, run).color == v.color,
        write_all(v, run).mode == Mode::Normal,
        forall|i: int|
            0 <= i < run.len() ==> #[trigger] write_all(v, run).cells[flat_pos(v) + i] == cell_of(
                run[i],
                v.color,
            ),
        forall|j: int|
            0 <= j < 2000 && !(flat_pos(v) <= j < flat_pos(v) + run.len())
                ==> #[trigger] write_all(v, run).cells[j] == v.cells[j],
    decreases run.len(),
{
    if run.len() > 0 {
        let init = run.drop_last();
        assert forall|i: int| 0 <= i < init.len() implies is_printable(#[trigger] init[i]) by {
            assert(init[i] == run[i]);
        }
        lemma_printable_run(v, init);
        assert(is_printable(run[run.len() - 1]));
        lemma_put_run(v, init);
    }
    assert forall|i: int| 0 <= i < run.len() implies is_glyph(#[trigger] run[i]) by {
        assert(is_printable(run[i]));
    }
    lemma_put_run(v, run);
}

/// A newline on the last row moves every row up by one, blanks the last row with the
/// current attribute, and leaves the cursor at the start of the last row.
pub proof fn lemma_newline_scrolls(v: ConsoleView)
    requires
        v.wf(),
        v.mode == Mode::Normal,
        v.row == 24,
    ensures
        step(v, 0x0a).row == 24,
        step(v, 0x0a).col == 0,
        step(v, 0x0a).color == v.color,
        forall|k: int, c: int|
            0 <= k < 24 && 0 <= c < 80 ==> #[trigger] step(v, 0x0a).cells[k * 80 + c] == v.cells[(k + 1)
                * 80 + c],
        forall|c: int| 0 <= c < 80 ==> #[trigger] step(v, 0x0a).cells[24 * 80 + c] == cell_of(0x20, v.color),
{
    assert forall|k: int, c: int| 0 <= k < 24 && 0 <= c < 80 implies #[trigger] step(v, 0x0a).cells[k
        * 80 + c] == v.cells[(k + 1) * 80 + c] by {
        assert(k * 80 + c < 1920) by (nonlinear_arith)
            requires
                0 <= k < 24,
                0 <= c < 80,
        ;
        assert(k * 80 + c + 80 == (k + 1) * 80 + c) by (nonlinear_arith);
    }
}

/// Feeding one byte is one step.
pub proof fn lemma_write_one(v: ConsoleView, b: u8)
    ensures
        write_all(v, seq![b]) == step(v, b),
{
    assert(seq![b].drop_last() =~= Seq::<u8>::empty());
    assert(seq![b].last() == b);
    assert(write_all(v, Seq::<u8>::empty()) == v);
}

proof fn lemma_open_csi(v: ConsoleView)
    requires
        v.wf(),
        v.mode == Mode::Normal,
    ensures
        write_all(v, seq![0x1bu8, 0x5bu8]) == (ConsoleView {
            mode: Mode::Csi,
            index: 0,
            params: Seq::new(5, |i: int| 0u32),
            ..v
        }),
{
    assert(seq![0x1bu8, 0x5bu8].drop_last() =~= seq![0x1bu8]);
    lemma_write_one(v, 0x1b);
}

proof fn lemma_next_param(v: ConsoleView)
    requires
        v.wf(),
        v.mode == Mode::Csi,
        v.index < 5,
    ensures
        write_all(v, seq![0x3bu8]) == (ConsoleView { index: v.index + 1, ..v }),
{
    lemma_write_one(v, 0x3b);
}

proof fn lemma_end_sgr(v: ConsoleView)
    requires
        v.wf(),
        v.mode == Mode::Csi,
    ensures
        write_all(v, seq![0x6du8]) == (ConsoleView {
            color: sgr_all(v.color, active_params(v)),
            mode: Mode::Normal,
            ..v
        }),
{
    lemma_write_one(v, 0x6d);
}

/// The decimal digits of a number are ASCII digits.
pub proof fn lemma_decimal_digits(n: nat)
    ensures
        decimal(n).len() >= 1,
        forall|i: int| 0 <= i < decimal(n).len() ==> 0x30 <= #[trigger] decimal(n)[i] <= 0x39,
    decreases n,
{
    if n >= 10 {
        lemma_decimal_digits(n / 10);
    }
}

/// Parameters written back as text hold only digits and `;`.
pub proof fn lemma_csi_text_bytes(ps: Seq<u32>)
    ensures
        forall|i: int|
            0 <= i < csi_text(ps).len() ==> (0x30 <= #[trigger] csi_text(ps)[i] <= 0x39 || csi_text(ps)[i]
                == 0x3b),
    decreases ps.len(),
{
    if ps.len() == 1 {
        lemma_decimal_digits(ps[0] as nat);
    } else if ps.len() > 1 {
        lemma_csi_text_bytes(ps.drop_last());
        lemma_decimal_digits(ps.last() as nat);
        let a = csi_text(ps.drop_last()).push(0x3b);
        let d = decimal(ps.last() as nat);
        assert forall|i: int| 0 <= i < csi_text(ps).len() implies (0x30 <= #[trigger] csi_text(ps)[i]
            <= 0x39 || csi_text(ps)[i] == 0x3b) by {
            if i < a.len() {
                assert(csi_text(ps)[i] == a[i]);
            } else {
                assert(csi_text(ps)[i] == d[i - a.len()]);
            }
        }
    }
}

/// Inside a CSI sequence, the digits of `n` fed to an empty parameter leave `n` in it.
pub proof fn lemma_digits_build_param(v: ConsoleView, n: u32)
    requires
        v.wf(),
        v.mode == Mode::Csi,
        v.index < 5,
        v.params[v.index] == 0,
    ensures
        write_all(v, decimal(n as nat)) == (ConsoleView { params: v.params.update(v.index, n), ..v }),
    decreases n,
{
    let d = (0x30 + n % 10) as u8;
    if n < 10 {
        lemma_write_one(v, d);
        assert(accumulate(0, n) == n);
        assert(v.params.update(v.index, n) == v.params.update(v.index, accumulate(v.params[v.index], n)));
    } else {
        let q = (n / 10) as u32;
        lemma_digits_build_param(v, q);
        assert(decimal(n as nat).drop_last() =~= decimal(q as nat));
        assert(decimal(n as nat).last() == d);
        assert(q * 10 + n % 10 == n);
        assert(accumulate(q, (n % 10) as u32) == n);
        assert(v.params.update(v.index, q).update(v.index, n) =~= v.params.update(v.index, n));
    }
}

/// The bytes of `ESC [ n ; m m`.
pub open spec fn sgr_pair_bytes(n: u32, m: u32) -> Seq<u8> {
    seq![0x1bu8, 0x5bu8] + decimal(n as nat) + seq![0x3bu8] + decimal(m as nat) + seq![0x6du8]
}

/// `ESC [ n ; m m` in normal mode applies SGR parameter `n` and then `m` to the
/// attribute, and changes neither the cursor nor any cell.
pub proof fn lemma_sgr_pair(v: ConsoleView, n: u32, m: u32)
    requires
        v.wf(),
        v.mode == Mode::Normal,
    ensures
        write_all(v, sgr_pair_bytes(n, m)).color == sgr_one(sgr_one(v.color, n), m),
        write_all(v, sgr_pair_bytes(n, m)).mode == Mode::Normal,
        write_all(v, sgr_pair_bytes(n, m)).row == v.row,
        write_all(v, sgr_pair_bytes(n, m)).col == v.col,
        write_all(v, sgr_pair_bytes(n, m)).cells == v.cells,
{
    let a0 = seq![0x1bu8, 0x5bu8];
    let dn = decimal(n as nat);
    let dm = decimal(m as nat);
    let a1 = a0 + dn;
    let a2 = a1 + seq![0x3bu8];
    let a3 = a2 + dm;
    lemma_open_csi(v);
    let v1 = write_all(v, a0);
    lemma_digits_build_param(v1, n);
    lemma_write_all_append(v, a0, dn);
    let v2 = write_all(v, a1);
    lemma_next_param(v2);
    lemma_write_all_append(v, a1, seq![0x3bu8]);
    let v3 = write_all(v, a2);
    lemma_digits_build_param(v3, m);
    lemma_write_all_append(v, a2, dm);
    let v4 = write_all(v, a3);
    lemma_end_sgr(v4);
    lemma_write_all_append(v, a3, seq![0x6du8]);
    let ps = active_params(v4);
    assert(ps =~= seq![n, m]);
    assert(ps.drop_last() =~= seq![n]);
    assert(seq![n].drop_last() =~= Seq::<u32>::empty());
    assert(ps.last() == m);
    assert(seq![n].last() == n);
    assert(sgr_all(v.color, Seq::<u32>::empty()) == v.color);
    assert(sgr_all(v.color, seq![n]) == sgr_one(v.color, n));
    assert(sgr_all(v.color, ps) == sgr_one(sgr_one(v.color, n), m));
}

/// The bytes of ESC followed by `x`.
pub open spec fn esc_then(x: u8) -> Seq<u8> {
    seq![0x1bu8, x]
}

/// ESC followed by a printable byte other than `[` shows `ESC` and that byte literally,
/// in light gray on the current background, then resets the attribute to white on
/// black and returns to normal mode.
pub proof fn lemma_malformed_esc(v: ConsoleView, x: u8)
    requires
        v.wf(),
        v.mode == Mode::Normal,
        is_printable(x),
        x != 0x5b,
        v.col + 4 <= 80,
    ensures
        write_all(v, esc_then(x)).mode == Mode::Normal,
        write_all(v, esc_then(x)).color == default_attribute(),
        write_all(v, esc_then(x)).row == v.row,
        write_all(v, esc_then(x)).col == v.col + 4,
        forall|i: int|
            0 <= i < 4 ==> #[trigger] write_all(v, esc_then(x)).cells[flat_pos(v) + i] == cell_of(
                esc_word().push(x)[i],
                with_fg(v.color, 7),
            ),
{
    assert(esc_then(x).drop_last() =~= seq![0x1bu8]);
    lemma_write_one(v, 0x1b);
    let text = esc_word().push(x);
    let v1 = ConsoleView { mode: Mode::Esc, ..v };
    assert(write_all(v, esc_then(x)) == echo(v1, text));
    let g = ConsoleView { color: with_fg(v.color, 7), ..v1 };
    assert forall|i: int| 0 <= i < text.len() implies is_glyph(#[trigger] text[i]) by {}
    lemma_put_run(g, text);
}

/// The text a CSI sequence cut short by byte `b` shows: `ESC[`, its parameters, `b`.
pub open spec fn csi_echo_text(v: ConsoleView, b: u8) -> Seq<u8> {
    esc_word().push(0x5b) + csi_text(active_params(v)).push(b)
}

/// A CSI sequence cut short by a printable byte other than a digit, `;` or `m` shows
/// its source text literally, in light gray on the current background, then resets the
/// attribute to white on black and returns to normal mode.
pub proof fn lemma_malformed_csi(v: ConsoleView, b: u8)
    requires
        v.wf(),
        v.mode == Mode::Csi,
        is_printable(b),
        b != 0x6d,
        b != 0x3b,
        !(0x30 <= b <= 0x39),
        v.col + csi_echo_text(v, b).len() <= 80,
    ensures
        step(v, b).mode == Mode::Normal,
        step(v, b).color == default_attribute(),
        step(v, b).row == v.row,
        step(v, b).col == v.col + csi_echo_text(v, b).len(),
        forall|i: int|
            0 <= i < csi_echo_text(v, b).len() ==> #[trigger] step(v, b).cells[flat_pos(v) + i]
                == cell_of(csi_echo_text(v, b)[i], with_fg(v.color, 7)),
{
    let text = csi_echo_text(v, b);
    let ps = csi_text(active_params(v));
    lemma_csi_text_bytes(active_params(v));
    let head = esc_word().push(0x5b);
    assert forall|i: int| 0 <= i < text.len() implies is_glyph(#[trigger] text[i]) by {
        if i < 4 {
            assert(text[i] == head[i]);
        } else if i < 4 + ps.len() {
            assert(text[i] == ps[i - 4]);
        } else {
            assert(text[i] == b);
        }
    }
    assert(step(v, b) == echo(v, text));
    let g = ConsoleView { color: with_fg(v.color, 7), ..v };
    lemma_put_run(g, text);
}

/// The bytes of `ESC [ n m`.
pub open spec fn sgr_single_bytes(n: u32) -> Seq<u8> {
    seq![0x1bu8, 0x5bu8] + decimal(n as nat) + seq![0x6du8]
}

/// `ESC [ n m` in normal mode applies SGR parameter `n` to the attribute, and changes
/// neither the cursor nor any cell.
pub proof fn lemma_sgr_single(v: ConsoleView, n: u32)
    requires
        v.wf(),
        v.mode == Mode::Normal,
    ensures
        write_all(v, sgr_single_bytes(n)).color == sgr_one(v.color, n),
        write_all(v, sgr_single_bytes(n)).mode == Mode::Normal,
        write_all(v, sgr_single_bytes(n)).row == v.row,
        write_all(v, sgr_single_bytes(n)).col == v.col,
        write_all(v, sgr_single_bytes(n)).cells == v.cells,
{
    let a0 = seq![0x1bu8, 0x5bu8];
    let dn = decimal(n as nat);
    let a1 = a0 + dn;
    lemma_open_csi(v);
    let v1 = write_all(v, a0);
    lemma_digits_build_param(v1, n);
    lemma_write_all_append(v, a0, dn);
    let v2 = write_all(v, a1);
    lemma_end_sgr(v2);
    lemma_write_all_append(v, a1, seq![0x6du8]);
    let ps = active_params(v2);
    assert(ps =~= seq![n]);
    assert(ps.drop_last() =~= Seq::<u32>::empty());
    assert(ps.last() == n);
    assert(sgr_all(v.color, Seq::<u32>::empty()) == v.color);
}

/// The bytes of `ESC [ n x`.
pub open spec fn csi_cut_bytes(n: u32, x: u8) -> Seq<u8> {
    seq![0x1bu8, 0x5bu8] + decimal(n as nat) + seq![x]
}

/// `ESC [ n` cut short in normal mode by a printable byte `x` other than a digit, `;`
/// or `m` shows `ESC[`, the digits of `n` and `x` literally, in light gray on the
/// current background, then resets the attribute to white on black and returns to
/// normal mode.
pub proof fn lemma_malformed_csi_from_normal(v: ConsoleView, n: u32, x: u8)
    requires
        v.wf(),
        v.mode == Mode::Normal,
        is_printable(x),
        x != 0x6d,
        x != 0x3b,
        !(0x30 <= x <= 0x39),
        v.col + 5 + decimal(n as nat).len() <= 80,
    ensures
        write_all(v, csi_cut_bytes(n, x)).mode == Mode::Normal,
        write_all(v, csi_cut_bytes(n, x)).color == default_attribute(),
        write_all(v, csi_cut_bytes(n, x)).row == v.row,
        write_all(v, csi_cut_bytes(n, x)).col == v.col + 5 + decimal(n as nat).len(),
        forall|i: int|
            0 <= i < 5 + decimal(n as nat).len() ==> #[trigger] write_all(v, csi_cut_bytes(n, x)).cells[flat_pos(v)
                + i] == cell_of(
                (esc_word().push(0x5b) + decimal(n as nat)).push(x)[i],
                with_fg(v.color, 7),
            ),
{
    let a0 = seq![0x1bu8, 0x5bu8];
    let dn = decimal(n as nat);
    let a1 = a0 + dn;
    lemma_open_csi(v);
    let v1 = write_all(v, a0);
    lemma_digits_build_param(v1, n);
    lemma_write_all_append(v, a0, dn);
    let v2 = write_all(v, a1);
    lemma_write_all_append(v, a1, seq![x]);
    lemma_write_one(v2, x);
    assert(active_params(v2) =~= seq![n]);
    assert(csi_text(seq![n]) == dn);
    let text = (esc_word().push(0x5b) + dn).push(x);
    assert(csi_echo_text(v2, x) =~= text);
    lemma_malformed_csi(v2, x);
    assert(csi_cut_bytes(n, x) == a1 + seq![x]);
    let u = write_all(v, csi_cut_bytes(n, x));
    assert(u == step(v2, x));
    assert(flat_pos(v2) == flat_pos(v) && v2.color == v.color && v2.row == v.row && v2.col == v.col);
    assert forall|i: int| 0 <= i < 5 + dn.len() implies #[trigger] u.cells[flat_pos(v) + i] == cell_of(
        text[i],
        with_fg(v.color, 7),
    ) by {
        assert(step(v2, x).cells[flat_pos(v2) + i] == cell_of(csi_echo_text(v2, x)[i], with_fg(v2.color, 7)));
    }
}

} // verus!
