use vstd::prelude::*;

verus! {

/// Resets all colors and text attributes.
pub const COLOR_RESET: &'static str = "\x1b[0m";

/// Clears the whole screen.
pub const CLEAR_ALL: &'static str = "\x1b[2J";

/// Moves the cursor to the top left corner.
pub const CURSOR_GOTO_1_1: &'static str = "\x1b[1;1H";

/// Makes the cursor visible again.
pub const CURSOR_SHOW: &'static str = "\x1b[?25h";

/// The character of a decimal digit.
pub open spec fn digit_char(d: int) -> char {
    if d == 0 {
        '0'
    } else if d == 1 {
        '1'
    } else if d == 2 {
        '2'
    } else if d == 3 {
        '3'
    } else if d == 4 {
        '4'
    } else if d == 5 {
        '5'
    } else if d == 6 {
        '6'
    } else if d == 7 {
        '7'
    } else if d == 8 {
        '8'
    } else {
        '9'
    }
}

/// The decimal digits of `n`, most significant first, without leading zeros.
pub open spec fn dec(n: nat) -> Seq<char>
    decreases n,
{
    if n < 10 {
        seq![digit_char(n as int)]
    } else {
        dec(n / 10).push(digit_char((n % 10) as int))
    }
}

/// The decimal text of a signed integer.
pub open spec fn int_text(i: int) -> Seq<char> {
    if i < 0 {
        seq!['-'] + dec((-i) as nat)
    } else {
        dec(i as nat)
    }
}

/// The control sequence introducer `ESC [`.
pub open spec fn csi() -> Seq<char> {
    seq!['\x1b', '[']
}

/// The escape sequence that moves the cursor to column `col` of row `row` (both 1-based).
pub open spec fn goto_text(col: int, row: int) -> Seq<char> {
    csi() + int_text(row) + seq![';'] + int_text(col) + seq!['H']
}

fn digit(d: u32) -> (c: char)
    requires
        d < 10,
    ensures
        c == digit_char(d as int),
{
    if d == 0 {
        '0'
    } else if d == 1 {
        '1'
    } else if d == 2 {
        '2'
    } else if d == 3 {
        '3'
    } else if d == 4 {
        '4'
    } else if d == 5 {
        '5'
    } else if d == 6 {
        '6'
    } else if d == 7 {
        '7'
    } else if d == 8 {
        '8'
    } else {
        '9'
    }
}

/// Appends the decimal digits of `n`.
pub fn push_dec(out: &mut Vec<char>, n: u32)
    ensures
        final(out)@ == old(out)@ + dec(n as nat),
    decreases n,
{
    if n >= 10 {
        push_dec(out, n / 10);
    }
    out.push(digit(n % 10));
    assert(final(out)@ =~= old(out)@ + dec(n as nat));
}

/// Appends the decimal text of `i`, with a leading minus sign when negative.
pub fn push_int(out: &mut Vec<char>, i: i32)
    ensures
        final(out)@ == old(out)@ + int_text(i as int),
{
    if i < 0 {
        out.push('-');
        let m: i64 = 0 - (i as i64);
        push_dec(out, m as u32);
        assert(final(out)@ =~= old(out)@ + int_text(i as int));
    } else {
        push_dec(out, i as u32);
    }
}

/// Appends the control sequence introducer.
pub fn push_csi(out: &mut Vec<char>)
    ensures
        final(out)@ == old(out)@ + csi(),
{
    out.push('\x1b');
    out.push('[');
    assert(final(out)@ =~= old(out)@ + csi());
}

/// Relies on `String`'s `FromIterator<&char>`: the string holds the characters in order.
#[verifier::external_body]
pub(crate) fn chars_to_string(v: &Vec<char>) -> (s: String)
    ensures
        s@ == v@,
{
    v.iter().collect()
}

/// The escape sequence that moves the cursor to column `col` of row `row`, both 1-based.
pub fn cursor_goto(col: i32, row: i32) -> (s: String)
    ensures
        s@ == goto_text(col as int, row as int),
{
    let mut out: Vec<char> = Vec::new();
    push_goto(&mut out, col, row);
    assert(out@ =~= goto_text(col as int, row as int));
    chars_to_string(&out)
}

/// Appends the escape sequence that moves the cursor to column `col` of row `row`.
pub fn push_goto(out: &mut Vec<char>, col: i32, row: i32)
    ensures
        final(out)@ == old(out)@ + goto_text(col as int, row as int),
{
    push_csi(out);
    push_int(out, row);
    out.push(';');
    push_int(out, col);
    out.push('H');
    assert(final(out)@ =~= old(out)@ + goto_text(col as int, row as int));
}

} // verus!
