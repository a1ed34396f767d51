use vstd::prelude::*;

verus! {

/// How to move the highlight through the completion grid.
#[derive(Clone, Copy, Debug, PartialEq, Eq, Structural)]
pub enum CompleteType {
    Next,
    Prev,
    Up,
    Down,
}

/// Where the highlight goes from `i`, among `len` candidates shown in `cols` columns.
/// Next and Prev wrap around; Up and Down move one row and stay put at the edge.
pub open spec fn step_index(i: int, kind: CompleteType, len: int, cols: int) -> int {
    match kind {
        CompleteType::Next => if i + 1 >= len { 0 } else { i + 1 },
        CompleteType::Prev => if i == 0 { len - 1 } else { i - 1 },
        CompleteType::Up => if i < cols { i } else { i - cols },
        CompleteType::Down => if i + cols > len - 1 { i } else { i + cols },
    }
}

/// Moves the highlight from `i` among `len` candidates laid out in `cols` columns.
pub fn step_completion(i: usize, kind: CompleteType, len: usize, cols: usize) -> (r: usize)
    requires
        i < len,
        cols >= 1,
    ensures
        r == step_index(i as int, kind, len as int, cols as int),
        r < len,
{
    match kind {
        CompleteType::Next => if i + 1 >= len { 0 } else { i + 1 },
        CompleteType::Prev => if i == 0 { len - 1 } else { i - 1 },
        CompleteType::Up => if i < cols { i } else { i - cols },
        CompleteType::Down => if cols > len - 1 - i { i } else { i + cols },
    }
}

/// Cycling forward and then back leaves the highlight where it was, when the candidates
/// do not change.
pub proof fn lemma_next_then_prev(i: int, len: int, cols: int)
    requires
        0 <= i < len,
    ensures
        step_index(step_index(i, CompleteType::Next, len, cols), CompleteType::Prev, len, cols) == i,
{
}

/// Cycling back and then forward leaves the highlight where it was.
pub proof fn lemma_prev_then_next(i: int, len: int, cols: int)
    requires
        0 <= i < len,
    ensures
        step_index(step_index(i, CompleteType::Prev, len, cols), CompleteType::Next, len, cols) == i,
{
}

/// `a` comes before `b` in dictionary order, comparing from position `k` on.
pub open spec fn lex_lt_from(a: Seq<char>, b: Seq<char>, k: int) -> bool
    decreases a.len() - k,
{
    if k < 0 {
        false
    } else if k >= a.len() {
        k < b.len()
    } else if k >= b.len() {
        false
    } else if a[k] != b[k] {
        (a[k] as u32) < (b[k] as u32)
    } else {
        lex_lt_from(a, b, k + 1)
    }
}

/// Dictionary order by code point.
pub open spec fn lex_lt(a: Seq<char>, b: Seq<char>) -> bool {
    lex_lt_from(a, b, 0)
}

proof fn lemma_lex_total(a: Seq<char>, b: Seq<char>, k: int)
    requires
        0 <= k,
        k <= a.len(),
        k <= b.len(),
        a.take(k) == b.take(k),
        a != b,
    ensures
        lex_lt_from(a, b, k) || lex_lt_from(b, a, k),
    decreases a.len() - k,
{
    if k < a.len() && k < b.len() && a[k] == b[k] {
        assert(a.take(k + 1) =~= a.take(k).push(a[k]));
        assert(b.take(k + 1) =~= b.take(k).push(b[k]));
        lemma_lex_total(a, b, k + 1);
    } else if k == a.len() && k == b.len() {
        assert(a =~= a.take(k));
        assert(b =~= b.take(k));
    } else if k < a.len() && k < b.len() {
        vstd::utf8::char_u32_cast(a[k], a[k] as u32);
        vstd::utf8::char_u32_cast(b[k], b[k] as u32);
    }
}

/// `a` is before `b`.
fn lex_less(a: &Vec<char>, b: &Vec<char>) -> (r: bool)
    ensures
        r == lex_lt(a@, b@),
{
    let mut k: usize = 0;
    while k < a.len() && k < b.len() && a[k] == b[k]
        invariant
            k <= a@.len(),
            k <= b@.len(),
            lex_lt_from(a@, b@, k as int) == lex_lt(a@, b@),
        decreases a@.len() - k,
    {
        k = k + 1;
    }
    if k >= a.len() {
        k < b.len()
    } else if k >= b.len() {
        false
    } else {
        (a[k] as u32) < (b[k] as u32)
    }
}

fn same_chars(a: &Vec<char>, b: &Vec<char>) -> (r: bool)
    ensures
        r == (a@ == b@),
{
    if a.len() != b.len() {
        return false;
    }
    let mut k: usize = 0;
    while k < a.len()
        invariant
            a@.len() == b@.len(),
            k <= a@.len(),
            a@.take(k as int) == b@.take(k as int),
        decreases a@.len() - k,
    {
        if a[k] != b[k] {
            assert(a@[k as int] != b@[k as int]);
            return false;
        }
        assert(a@.take(k + 1) =~= a@.take(k as int).push(a@[k as int]));
        assert(b@.take(k + 1) =~= b@.take(k as int).push(b@[k as int]));
        k = k + 1;
    }
    assert(a@ =~= a@.take(k as int));
    assert(b@ =~= b@.take(k as int));
    true
}

pub open spec fn views(v: Seq<Vec<char>>) -> Seq<Seq<char>> {
    v.map_values(|x: Vec<char>| x@)
}

/// Each candidate comes strictly before the next.
pub open spec fn strictly_sorted(s: Seq<Seq<char>>) -> bool {
    forall|k: int| 0 <= k < s.len() - 1 ==> #[trigger] lex_lt(s[k], s[k + 1])
}

/// The candidates in dictionary order, each once.
pub fn sort_dedup(input: Vec<Vec<char>>) -> (r: Vec<Vec<char>>)
    ensures
        strictly_sorted(views(r@)),
        views(r@).to_set() == views(input@).to_set(),
{
    let mut r: Vec<Vec<char>> = Vec::new();
    let mut i: usize = 0;
    let n = input.len();
    let mut rest = input;
    let ghost orig = rest@;
    assert(views(r@).to_set() =~= views(orig.take(0)).to_set());
    while i < n
        invariant
            n == orig.len(),
            i <= n,
            rest@.len() == n,
            forall|j: int| i <= j < n ==> #[trigger] rest@[j]@ == orig[j]@,
            strictly_sorted(views(r@)),
            views(r@).to_set() == views(orig.take(i as int)).to_set(),
        decreases n - i,
    {
        let ghost before = views(r@);
        let mut x: Vec<char> = Vec::new();
        let ghost rest_before = rest@;
        assert(rest_before[i as int]@ == orig[i as int]@);
        std::mem::swap(&mut x, &mut rest[i]);
        assert(x@ == orig[i as int]@);
        assert(views(orig)[i as int] == orig[i as int]@);
        let mut p: usize = 0;
        while p < r.len() && lex_less(&r[p], &x)
            invariant
                p <= r@.len(),
                views(r@) == before,
                p > 0 ==> lex_lt(before[p - 1], x@),
            decreases r@.len() - p,
        {
            p = p + 1;
        }
        assert(views(orig.take(i + 1)) =~= views(orig.take(i as int)).push(x@));
        proof {
            views(orig.take(i as int)).lemma_push_to_set_commute(x@);
        }
        if p < r.len() && same_chars(&r[p], &x) {
            assert(before[p as int] == x@);
            assert(before.to_set().contains(x@));
            assert(views(r@).to_set() =~= views(orig.take(i + 1)).to_set());
        } else {
            proof {
                if p < before.len() {
                    assert(!lex_lt(before[p as int], x@));
                    assert(before[p as int] != x@);
                    assert(x@.take(0) =~= before[p as int].take(0));
                    lemma_lex_total(x@, before[p as int], 0);
                    assert(lex_lt(x@, before[p as int]));
                }
            }
            r.insert(p, x);
            let ghost after = views(r@);
            assert(after =~= before.insert(p as int, x@));
            assert forall|k: int| 0 <= k < after.len() - 1 implies #[trigger] lex_lt(after[k], after[k + 1]) by {
                if k + 1 < p {
                    assert(lex_lt(before[k], before[k + 1]));
                } else if k + 1 == p {
                } else if k == p {
                } else {
                    let m = k - 1;
                    assert(lex_lt(before[m], before[m + 1]));
                }
            }
            assert forall|y: Seq<char>| after.to_set().contains(y) <==> before.to_set().insert(x@).contains(y) by {
                if after.contains(y) {
                    let j = choose|j: int| 0 <= j < after.len() && after[j] == y;
                    if j < p {
                        assert(before[j] == y);
                    } else if j > p {
                        assert(before[j - 1] == y);
                    }
                }
                if before.contains(y) {
                    let j = choose|j: int| 0 <= j < before.len() && before[j] == y;
                    if j < p {
                        assert(after[j] == y);
                    } else {
                        assert(after[j + 1] == y);
                    }
                }
                if y == x@ {
                    assert(after[p as int] == y);
                }
            }
            assert(views(r@).to_set() =~= views(orig.take(i + 1)).to_set());
        }
        i = i + 1;
    }
    assert(orig.take(n as int) =~= orig);
    r
}

/// `p` begins every candidate.
pub open spec fn prefix_of_all(p: Seq<char>, cands: Seq<Seq<char>>) -> bool {
    forall|k: int| 0 <= k < cands.len() ==> #[trigger] cands[k].len() >= p.len() && cands[k].take(p.len() as int) == p
}

/// The longest sequence that begins every candidate.
pub open spec fn lcp(cands: Seq<Seq<char>>) -> Seq<char> {
    choose|p: Seq<char>| prefix_of_all(p, cands) && !(exists|q: Seq<char>| q.len() > p.len() && #[trigger] prefix_of_all(q, cands))
}

proof fn lemma_lcp_unique(p: Seq<char>, cands: Seq<Seq<char>>)
    requires
        cands.len() > 0,
        prefix_of_all(p, cands),
        !(exists|q: Seq<char>| q.len() > p.len() && #[trigger] prefix_of_all(q, cands)),
    ensures
        lcp(cands) == p,
{
    let l = lcp(cands);
    assert(prefix_of_all(l, cands) && !(exists|q: Seq<char>| q.len() > l.len() && #[trigger] prefix_of_all(q, cands)));
    assert(l.len() == p.len());
    assert(cands[0].take(p.len() as int) == p);
    assert(cands[0].take(l.len() as int) == l);
}

/// The longest sequence that begins every candidate (empty when there are none).
pub fn common_prefix(cands: &Vec<Vec<char>>) -> (r: Vec<char>)
    ensures
        cands@.len() == 0 ==> r@.len() == 0,
        cands@.len() > 0 ==> prefix_of_all(r@, views(cands@)),
        cands@.len() > 0 ==> !(exists|q: Seq<char>| q.len() > r@.len() && #[trigger] prefix_of_all(q, views(cands@))),
        cands@.len() > 0 ==> r@ == lcp(views(cands@)),
{
    let mut r: Vec<char> = Vec::new();
    if cands.len() == 0 {
        return r;
    }
    let first = &cands[0];
    let ghost vs = views(cands@);
    assert forall|t: int| 0 <= t < vs.len() implies #[trigger] vs[t].len() >= r@.len() && vs[t].take(r@.len() as int) == r@ by {
        assert(vs[t].take(0) =~= r@);
    }
    loop
        invariant
            vs == views(cands@),
            cands@.len() > 0,
            first@ == vs[0],
            prefix_of_all(r@, vs),
        ensures
            prefix_of_all(r@, vs),
            !(exists|q: Seq<char>| q.len() > r@.len() && #[trigger] prefix_of_all(q, vs)),
        decreases first@.len() - r@.len(),
    {
        let k = r.len();
        assert(vs[0].len() >= r@.len());
        if k >= first.len() {
            assert forall|q: Seq<char>| q.len() > r@.len() implies !#[trigger] prefix_of_all(q, vs) by {
                if prefix_of_all(q, vs) {
                    assert(vs[0].len() >= q.len());
                }
            }
            break;
        }
        let c = first[k];
        let mut j: usize = 1;
        let mut all = true;
        while j < cands.len()
            invariant
                vs == views(cands@),
                1 <= j <= cands@.len(),
                k < vs[0].len(),
                c == vs[0][k as int],
                all == (forall|t: int| #![trigger vs[t]] 1 <= t < j ==> (vs[t].len() > k && vs[t][k as int] == c)),
            decreases cands@.len() - j,
        {
            let w = &cands[j];
            assert(vs[j as int] == w@);
            if !(k < w.len() && w[k] == c) {
                all = false;
            }
            proof {
                assert(vs[j as int].len() == w@.len());
            }
            j = j + 1;
        }
        if !all {
            assert forall|q: Seq<char>| q.len() > r@.len() implies !#[trigger] prefix_of_all(q, vs) by {
                if prefix_of_all(q, vs) {
                    let t = choose|t: int| #![trigger vs[t]] 1 <= t < cands@.len() && !(vs[t].len() > k && vs[t][k as int] == c);
                    assert(vs[t].take(q.len() as int)[k as int] == q[k as int]);
                    assert(vs[0].take(q.len() as int)[k as int] == q[k as int]);
                }
            }
            break;
        }
        let ghost old_r = r@;
        r.push(c);
        assert forall|t: int| 0 <= t < vs.len() implies #[trigger] vs[t].len() >= r@.len() && vs[t].take(r@.len() as int) == r@ by {
            assert(vs[t].take(k as int) == old_r);
            assert(vs[t].take(k + 1) =~= vs[t].take(k as int).push(vs[t][k as int]));
        }
    }
    proof {
        lemma_lcp_unique(r@, vs);
    }
    r
}

} // verus!
