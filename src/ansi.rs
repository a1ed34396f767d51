use vstd::prelude::*;

verus! {

/// The digit character for `d < 10`.
pub open spec fn digit(d: nat) -> char {
    seq!['0', '1', '2', '3', '4', '5', '6', '7', '8', '9'][d as int]
}

/// `n` written in decimal, without leading zeros.
pub open spec fn decimal(n: nat) -> Seq<char>
    decreases n,
{
    if n < 10 {
        seq![digit(n)]
    } else {
        decimal(n / 10).push(digit(n % 10))
    }
}

/// A control sequence with one numeric parameter: `ESC [ n <fin>`.
pub open spec fn csi(n: nat, fin: char) -> Seq<char> {
    seq!['\x1b', '['] + decimal(n) + seq![fin]
}

/// `n`, capped to what a cursor movement can carry.
pub open spec fn cap16(n: int) -> nat {
    if n > u16::MAX { u16::MAX as nat } else if n < 0 { 0 } else { n as nat }
}

pub(crate) fn push_decimal(out: &mut Vec<char>, n: usize)
    ensures
        final(out)@ == old(out)@ + decimal(n as nat),
    decreases n,
{
    if n >= 10 {
        push_decimal(out, n / 10);
    }
    let d = n % 10;
    let c = if d == 0 { '0' } else if d == 1 { '1' } else if d == 2 { '2' } else if d == 3 {
        '3'
    } else if d == 4 { '4' } else if d == 5 { '5' } else if d == 6 { '6' } else if d == 7 {
        '7'
    } else if d == 8 { '8' } else { '9' };
    assert(c == digit((n % 10) as nat));
    out.push(c);
    assert(out@ =~= old(out)@ + decimal(n as nat));
}

/// Appends `ESC [ n <fin>`, with `n` capped to `u16::MAX`.
pub(crate) fn push_csi(out: &mut Vec<char>, n: usize, fin: char)
    ensures
        final(out)@ == old(out)@ + csi(cap16(n as int), fin),
{
    let m: usize = if n > 65535 { 65535 } else { n };
    out.push('\x1b');
    out.push('[');
    push_decimal(out, m);
    out.push(fin);
    assert(out@ =~= old(out)@ + csi(cap16(n as int), fin));
}

/// Appends every character of `s`.
pub(crate) fn push_all(out: &mut Vec<char>, s: &[char])
    ensures
        final(out)@ == old(out)@ + s@,
{
    let mut i: usize = 0;
    while i < s.len()
        invariant
            i <= s@.len(),
            out@ == old(out)@ + s@.take(i as int),
        decreases s@.len() - i,
    {
        out.push(s[i]);
        assert(out@ =~= old(out)@ + s@.take(i + 1));
        i = i + 1;
    }
    assert(s@.take(i as int) =~= s@);
}

pub open spec fn clear_all_seq() -> Seq<char> {
    seq!['\x1b', '[', '2', 'J']
}

pub open spec fn clear_after_seq() -> Seq<char> {
    seq!['\x1b', '[', 'J']
}

pub open spec fn goto_origin_seq() -> Seq<char> {
    seq!['\x1b', '[', '1', ';', '1', 'H']
}

/// Sets the foreground to palette entry `code` (a single digit here).
pub open spec fn fg_seq(code: char) -> Seq<char> {
    seq!['\x1b', '[', '3', '8', ';', '5', ';', code, 'm']
}

/// Sets the background to palette entry `code` (a single digit here).
pub open spec fn bg_seq(code: char) -> Seq<char> {
    seq!['\x1b', '[', '4', '8', ';', '5', ';', code, 'm']
}

pub open spec fn reset_fg_seq() -> Seq<char> {
    seq!['\x1b', '[', '3', '9', 'm']
}

pub open spec fn reset_bg_seq() -> Seq<char> {
    seq!['\x1b', '[', '4', '9', 'm']
}

pub(crate) fn push_clear_all(out: &mut Vec<char>)
    ensures
        final(out)@ == old(out)@ + clear_all_seq(),
{
    out.push('\x1b');
    out.push('[');
    out.push('2');
    out.push('J');
    assert(out@ =~= old(out)@ + clear_all_seq());
}

pub(crate) fn push_clear_after(out: &mut Vec<char>)
    ensures
        final(out)@ == old(out)@ + clear_after_seq(),
{
    out.push('\x1b');
    out.push('[');
    out.push('J');
    assert(out@ =~= old(out)@ + clear_after_seq());
}

pub(crate) fn push_goto_origin(out: &mut Vec<char>)
    ensures
        final(out)@ == old(out)@ + goto_origin_seq(),
{
    out.push('\x1b');
    out.push('[');
    out.push('1');
    out.push(';');
    out.push('1');
    out.push('H');
    assert(out@ =~= old(out)@ + goto_origin_seq());
}

pub(crate) fn push_fg(out: &mut Vec<char>, code: char)
    ensures
        final(out)@ == old(out)@ + fg_seq(code),
{
    out.push('\x1b');
    out.push('[');
    out.push('3');
    out.push('8');
    out.push(';');
    out.push('5');
    out.push(';');
    out.push(code);
    out.push('m');
    assert(out@ =~= old(out)@ + fg_seq(code));
}

pub(crate) fn push_bg(out: &mut Vec<char>, code: char)
    ensures
        final(out)@ == old(out)@ + bg_seq(code),
{
    out.push('\x1b');
    out.push('[');
    out.push('4');
    out.push('8');
    out.push(';');
    out.push('5');
    out.push(';');
    out.push(code);
    out.push('m');
    assert(out@ =~= old(out)@ + bg_seq(code));
}

pub(crate) fn push_reset_fg(out: &mut Vec<char>)
    ensures
        final(out)@ == old(out)@ + reset_fg_seq(),
{
    out.push('\x1b');
    out.push('[');
    out.push('3');
    out.push('9');
    out.push('m');
    assert(out@ =~= old(out)@ + reset_fg_seq());
}

pub(crate) fn push_reset_bg(out: &mut Vec<char>)
    ensures
        final(out)@ == old(out)@ + reset_bg_seq(),
{
    out.push('\x1b');
    out.push('[');
    out.push('4');
    out.push('9');
    out.push('m');
    assert(out@ =~= old(out)@ + reset_bg_seq());
}

} // verus!
