use vstd::prelude::*;

verus! {

/// `x`, capped at `usize::MAX`.
pub open spec fn sat(x: int) -> int {
    if x > usize::MAX { usize::MAX as int } else { x }
}

/// `t` rounded up to a multiple of `w`.
pub open spec fn round_up(t: int, w: int) -> int {
    if t % w != 0 { (t / w + 1) * w } else { t }
}

/// The columns used by a prompt of width `pw` followed by lines of widths `ws` on a
/// terminal `w` columns wide: each line starts on a fresh terminal row, after the prompt's
/// width. Totals are capped at `usize::MAX`.
pub open spec fn calc_width(pw: int, ws: Seq<usize>, w: int) -> int
    decreases ws.len(),
{
    if ws.len() == 0 {
        0
    } else {
        let t = calc_width(pw, ws.drop_last(), w);
        sat(sat(round_up(t, w)) + pw + ws.last())
    }
}

pub proof fn lemma_calc_width_range(pw: int, ws: Seq<usize>, w: int)
    requires
        0 <= pw,
        w >= 1,
    ensures
        0 <= calc_width(pw, ws, w) <= usize::MAX,
    decreases ws.len(),
{
    if ws.len() > 0 {
        lemma_calc_width_range(pw, ws.drop_last(), w);
        let t = calc_width(pw, ws.drop_last(), w);
        assert(round_up(t, w) >= 0) by (nonlinear_arith)
            requires
                t >= 0,
                w >= 1,
        {
        }
    }
}

fn round_up_sat(t: usize, w: usize) -> (r: usize)
    requires
        w >= 1,
    ensures
        r == sat(round_up(t as int, w as int)),
{
    if t % w != 0 {
        assert(w >= 2);
        assert(t / w < usize::MAX) by (nonlinear_arith)
            requires
                w >= 2,
                t <= usize::MAX,
        {
        }
        let q = t / w + 1;
        if q > usize::MAX / w {
            assert(q * w > usize::MAX) by (nonlinear_arith)
                requires
                    q > usize::MAX / w,
                    w >= 1,
            {
            }
            usize::MAX
        } else {
            assert(q * w <= usize::MAX) by (nonlinear_arith)
                requires
                    q <= usize::MAX / w,
                    w >= 1,
            {
            }
            q * w
        }
    } else {
        t
    }
}

/// The columns used by a prompt of width `pw` and lines of widths `ws`.
pub fn calc_total_width(pw: usize, ws: &Vec<usize>, w: usize) -> (r: usize)
    requires
        w >= 1,
    ensures
        r == calc_width(pw as int, ws@, w as int),
{
    let mut total: usize = 0;
    let mut i: usize = 0;
    while i < ws.len()
        invariant
            w >= 1,
            i <= ws@.len(),
            total == calc_width(pw as int, ws@.take(i as int), w as int),
        decreases ws@.len() - i,
    {
        assert(ws@.take(i + 1).drop_last() =~= ws@.take(i as int));
        let r = round_up_sat(total, w);
        let sum: u128 = r as u128 + pw as u128 + ws[i] as u128;
        total = if sum > usize::MAX as u128 { usize::MAX } else { sum as usize };
        i = i + 1;
    }
    assert(ws@.take(i as int) =~= ws@);
    total
}

/// The state of the ANSI-stripping scan: plain text, after ESC, inside a control sequence,
/// inside an operating-system command.
pub open spec fn strip_from(s: Seq<char>, st: int) -> Seq<char>
    decreases s.len(),
{
    if s.len() == 0 {
        Seq::<char>::empty()
    } else {
        let c = s[0];
        let rest = s.drop_first();
        if st == 0 {
            if c == '\x1b' { strip_from(rest, 1) } else { seq![c] + strip_from(rest, 0) }
        } else if st == 1 {
            if c == '[' { strip_from(rest, 2) } else if c == ']' { strip_from(rest, 3) } else { strip_from(rest, 0) }
        } else if st == 2 {
            if ('A' <= c && c <= 'Z') || ('a' <= c && c <= 'z') { strip_from(rest, 0) } else { strip_from(rest, 2) }
        } else {
            if c == '\x07' { strip_from(rest, 0) } else { strip_from(rest, 3) }
        }
    }
}

/// `s` without its ANSI escape sequences.
pub fn remove_codes(s: &[char]) -> (r: Vec<char>)
    ensures
        r@ == strip_from(s@, 0),
{
    let mut out: Vec<char> = Vec::new();
    let mut st: u8 = 0;
    let mut i: usize = 0;
    assert(s@.skip(0) =~= s@);
    assert(out@ + strip_from(s@, 0) =~= strip_from(s@, 0));
    while i < s.len()
        invariant
            i <= s@.len(),
            st <= 3,
            out@ + strip_from(s@.skip(i as int), st as int) == strip_from(s@, 0),
        decreases s@.len() - i,
    {
        let c = s[i];
        assert(s@.skip(i as int).drop_first() =~= s@.skip(i + 1));
        assert(s@.skip(i as int)[0] == c);
        let ghost prev = out@;
        if st == 0 {
            if c == '\x1b' {
                st = 1;
            } else {
                out.push(c);
                assert(out@ + strip_from(s@.skip(i + 1), 0) =~= prev + (seq![c] + strip_from(s@.skip(i + 1), 0)));
            }
        } else if st == 1 {
            if c == '[' {
                st = 2;
            } else if c == ']' {
                st = 3;
            } else {
                st = 0;
            }
        } else if st == 2 {
            if ('A' <= c && c <= 'Z') || ('a' <= c && c <= 'z') {
                st = 0;
            }
        } else {
            if c == '\x07' {
                st = 0;
            }
        }
        i = i + 1;
    }
    assert(s@.skip(i as int) =~= Seq::<char>::empty());
    assert(out@ + Seq::<char>::empty() =~= out@);
    out
}

/// The text after the last newline of `s`.
pub open spec fn last_line(s: Seq<char>) -> Seq<char>
    decreases s.len(),
{
    if s.len() == 0 {
        Seq::<char>::empty()
    } else if s.last() == '\n' {
        Seq::<char>::empty()
    } else {
        last_line(s.drop_last()).push(s.last())
    }
}

/// The last line of a (possibly multi-line) prompt.
pub fn handle_prompt(s: &[char]) -> (r: Vec<char>)
    ensures
        r@ == last_line(s@),
{
    let mut j: usize = s.len();
    assert(s@.take(j as int) =~= s@);
    assert(last_line(s@) + s@.skip(j as int) =~= last_line(s@));
    while j > 0 && s[j - 1] != '\n'
        invariant
            j <= s@.len(),
            last_line(s@) == last_line(s@.take(j as int)) + s@.skip(j as int),
        decreases j,
    {
        assert(s@.take(j as int).drop_last() =~= s@.take(j - 1));
        assert(s@.skip(j - 1) =~= seq![s@[j - 1]] + s@.skip(j as int));
        assert(last_line(s@.take(j as int)) == last_line(s@.take(j - 1)).push(s@[j - 1]));
        assert(last_line(s@.take(j as int)) + s@.skip(j as int) =~= last_line(s@.take(j - 1)) + s@.skip(j - 1));
        j = j - 1;
    }
    assert(last_line(s@.take(j as int)) =~= Seq::<char>::empty());
    let mut r: Vec<char> = Vec::new();
    let mut k: usize = j;
    while k < s.len()
        invariant
            j <= k <= s@.len(),
            r@ == s@.subrange(j as int, k as int),
        decreases s@.len() - k,
    {
        r.push(s[k]);
        assert(r@ =~= s@.subrange(j as int, k + 1));
        k = k + 1;
    }
    assert(r@ =~= s@.skip(j as int));
    assert(last_line(s@) =~= r@);
    r
}

/// The length of the longest candidate, and at least 1.
pub open spec fn max_word(c: Seq<Seq<char>>) -> int
    decreases c.len(),
{
    if c.len() == 0 {
        1
    } else {
        let m = max_word(c.drop_last());
        if c.last().len() > m { c.last().len() as int } else { m }
    }
}

/// How many candidates fit side by side, as first estimated from the longest one.
pub open spec fn grid_items(w: int, mw: int) -> int {
    if w / mw >= 1 { w / mw } else { 1 }
}

/// The width of one grid cell.
pub open spec fn grid_col_width(w: int, mw: int) -> int {
    2 + w / grid_items(w, mw)
}

/// The number of columns the grid is drawn in.
pub open spec fn grid_cols(w: int, mw: int) -> int {
    if w / grid_col_width(w, mw) >= 1 { w / grid_col_width(w, mw) } else { 1 }
}

pub proof fn lemma_max_word_range(c: Seq<Seq<char>>)
    ensures
        max_word(c) >= 1,
        forall|k: int| 0 <= k < c.len() ==> #[trigger] c[k].len() <= max_word(c),
        max_word(c) == 1 || exists|k: int| 0 <= k < c.len() && #[trigger] c[k].len() == max_word(c),
    decreases c.len(),
{
    if c.len() > 0 {
        lemma_max_word_range(c.drop_last());
        assert forall|k: int| 0 <= k < c.len() implies #[trigger] c[k].len() <= max_word(c) by {
            if k < c.len() - 1 {
                assert(c.drop_last()[k] == c[k]);
            }
        }
        if max_word(c) != 1 {
            if c.last().len() > max_word(c.drop_last()) {
                assert(c[c.len() - 1].len() == max_word(c));
            } else {
                let k = choose|k: int| 0 <= k < c.drop_last().len() && #[trigger] c.drop_last()[k].len() == max_word(c.drop_last());
                assert(c[k].len() == max_word(c));
            }
        }
    }
}

} // verus!
