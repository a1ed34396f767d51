use unicode_width::UnicodeWidthStr;
use vstd::prelude::*;
use vstd::std_specs::iter::IteratorSpec;

verus! {

/// The number of terminal columns that `s` takes, as unicode-width measures it.
pub uninterp spec fn display_width(s: Seq<char>) -> usize;

/// Relies on `UnicodeWidthStr::width` from unicode-width: the columns that a string takes
/// depend on its characters alone.
#[verifier::external_body]
pub(crate) fn width_of(cs: &[char]) -> (r: usize)
    ensures
        r == display_width(cs@),
{
    let s: String = cs.iter().collect();
    UnicodeWidthStr::width(s.as_str())
}

/// The characters of `s`, in order.
pub(crate) fn chars_of(s: &str) -> (r: Vec<char>)
    ensures
        r@ == s@,
{
    broadcast use vstd::string::group_string_axioms;

    let mut it = s.chars();
    let mut r: Vec<char> = Vec::new();
    loop
        invariant
            it.obeys_prophetic_iter_laws(),
            it.decrease() is Some,
            r@ + it.remaining() == s@,
        ensures
            r@ == s@,
        decreases it.decrease()->0,
    {
        match it.next() {
            Some(c) => {
                r.push(c);
                assert(r@ + it.remaining() =~= s@);
            },
            None => {
                assert(r@ =~= s@);
                break;
            },
        }
    }
    r
}

/// Relies on `collect` into a `String`: the string made of `cs`, in order.
#[verifier::external_body]
pub(crate) fn string_of(cs: &[char]) -> (r: String)
    ensures
        r@ == cs@,
{
    cs.iter().collect()
}

/// `s` cut at each newline; the newlines themselves are dropped. There is always at least
/// one line.
pub open spec fn split_lines(s: Seq<char>) -> Seq<Seq<char>>
    decreases s.len(),
{
    if s.len() == 0 {
        seq![Seq::<char>::empty()]
    } else {
        let p = split_lines(s.drop_last());
        if s.last() == '\n' {
            p.push(Seq::<char>::empty())
        } else {
            p.update(p.len() - 1, p.last().push(s.last()))
        }
    }
}

pub proof fn lemma_split_lines_nonempty(s: Seq<char>)
    ensures
        split_lines(s).len() >= 1,
        split_lines(s).len() <= s.len() + 1,
    decreases s.len(),
{
    if s.len() > 0 {
        lemma_split_lines_nonempty(s.drop_last());
    }
}

/// The columns of each line of `s`.
pub open spec fn line_widths(s: Seq<char>) -> Seq<usize> {
    split_lines(s).map_values(|l: Seq<char>| display_width(l))
}

pub open spec fn lines_view(v: Seq<Vec<char>>) -> Seq<Seq<char>> {
    v.map_values(|l: Vec<char>| l@)
}

/// The lines of `s`.
pub fn lines_of(s: &[char]) -> (r: Vec<Vec<char>>)
    ensures
        lines_view(r@) == split_lines(s@),
{
    let mut lines: Vec<Vec<char>> = Vec::new();
    let mut cur: Vec<char> = Vec::new();
    let mut i: usize = 0;
    while i < s.len()
        invariant
            i <= s@.len(),
            lines_view(lines@).push(cur@) == split_lines(s@.take(i as int)),
        decreases s@.len() - i,
    {
        let c = s[i];
        let ghost prev = lines_view(lines@).push(cur@);
        assert(s@.take(i + 1).drop_last() =~= s@.take(i as int));
        proof {
            lemma_split_lines_nonempty(s@.take(i as int));
        }
        if c == '\n' {
            lines.push(cur);
            cur = Vec::new();
            assert(lines_view(lines@).push(cur@) =~= prev.push(Seq::<char>::empty()));
        } else {
            cur.push(c);
            assert(lines_view(lines@).push(cur@) =~= prev.update(prev.len() - 1, prev.last().push(c)));
        }
        i = i + 1;
    }
    lines.push(cur);
    assert(s@.take(s@.len() as int) =~= s@);
    lines
}

/// The columns of each line of `s`.
pub fn widths_of(s: &[char]) -> (r: Vec<usize>)
    ensures
        r@ == line_widths(s@),
{
    let lines = lines_of(s);
    let mut r: Vec<usize> = Vec::new();
    let mut i: usize = 0;
    while i < lines.len()
        invariant
            i <= lines@.len(),
            lines_view(lines@) == split_lines(s@),
            r@ == split_lines(s@).take(i as int).map_values(|l: Seq<char>| display_width(l)),
        decreases lines@.len() - i,
    {
        let w = width_of(lines[i].as_slice());
        r.push(w);
        assert(lines_view(lines@)[i as int] == lines@[i as int]@);
        assert(r@ =~= split_lines(s@).take(i + 1).map_values(|l: Seq<char>| display_width(l)));
        i = i + 1;
    }
    assert(split_lines(s@).take(i as int) =~= split_lines(s@));
    r
}

} // verus!
