use crate::buffer::{is_prefix, occurs_in, strictly_starts_with, Buffer};
use crate::position::spans_ok;
use vstd::prelude::*;

verus! {

/// The finished lines, oldest first.
pub struct History {
    pub(crate) buffers: Vec<Buffer>,
}

/// Does entry `e` match query `q`: by a strict prefix, or by an occurrence anywhere.
pub open spec fn entry_matches(e: Seq<char>, q: Seq<char>, by_prefix: bool) -> bool {
    if by_prefix {
        strictly_starts_with(e, q)
    } else {
        occurs_in(e, q)
    }
}

/// The indices below `n` of the entries that match `q`, in ascending order.
pub open spec fn matching_indices(h: Seq<Seq<char>>, q: Seq<char>, by_prefix: bool, n: int) -> Seq<usize>
    decreases n,
{
    if n <= 0 {
        Seq::<usize>::empty()
    } else if entry_matches(h[n - 1], q, by_prefix) {
        matching_indices(h, q, by_prefix, n - 1).push((n - 1) as usize)
    } else {
        matching_indices(h, q, by_prefix, n - 1)
    }
}

/// The largest index below `n` whose entry strictly starts with `q`.
pub open spec fn newest_match(h: Seq<Seq<char>>, q: Seq<char>, n: int) -> Option<usize>
    decreases n,
{
    if n <= 0 {
        None
    } else if strictly_starts_with(h[n - 1], q) {
        Some((n - 1) as usize)
    } else {
        newest_match(h, q, n - 1)
    }
}

pub proof fn lemma_matching_indices_bounded(h: Seq<Seq<char>>, q: Seq<char>, by_prefix: bool, n: int)
    ensures
        forall|k: int| 0 <= k < matching_indices(h, q, by_prefix, n).len()
            ==> #[trigger] matching_indices(h, q, by_prefix, n)[k] < n,
        matching_indices(h, q, by_prefix, n).len() <= if n < 0 { 0 } else { n },
    decreases n,
{
    if n > 0 {
        lemma_matching_indices_bounded(h, q, by_prefix, n - 1);
    }
}

pub proof fn lemma_newest_match_bounded(h: Seq<Seq<char>>, q: Seq<char>, n: int)
    requires
        n <= usize::MAX,
    ensures
        newest_match(h, q, n) matches Some(i) ==> i < n && strictly_starts_with(h[i as int], q),
    decreases n,
{
    if n > 0 {
        lemma_newest_match_bounded(h, q, n - 1);
    }
}

/// Where a newest-match search starts: `upper`, clamped to `len`, or `len` when absent.
pub open spec fn search_top(upper: Option<usize>, len: int) -> int {
    match upper {
        Some(u) => if u <= len { u as int } else { len },
        None => len,
    }
}

impl History {
    /// The entries' texts.
    pub open(crate) spec fn view(&self) -> Seq<Seq<char>> {
        self.buffers@.map_values(|b: Buffer| b@)
    }

    pub fn new() -> (r: History)
        ensures
            r.view() == Seq::<Seq<char>>::empty(),
    {
        let r = History { buffers: Vec::new() };
        assert(r.view() =~= Seq::<Seq<char>>::empty());
        r
    }

    /// The number of entries.
    pub fn len(&self) -> (r: usize)
        ensures
            r == self.view().len(),
    {
        self.buffers.len()
    }

    /// Appends a finished line.
    pub fn push(&mut self, buf: Buffer)
        ensures
            final(self).view() == old(self).view().push(buf@),
    {
        self.buffers.push(buf);
        assert(self.view() =~= old(self).view().push(buf@));
    }

    pub(crate) proof fn lemma_view(&self)
        ensures
            self.buffers@.len() == self.view().len(),
            self.view().len() <= usize::MAX,
            forall|i: int| 0 <= i < self.view().len() ==> #[trigger] self.view()[i] == self.buffers@[i]@,
    {
        assert(self.buffers.len() == self.buffers@.len());
    }

    /// Exchanges the entry at `i` with `b`.
    pub(crate) fn swap_entry(&mut self, i: usize, b: &mut Buffer)
        requires
            i < old(self).view().len(),
        ensures
            final(self).view() == old(self).view().update(i as int, old(b)@),
            final(b)@ == old(self).view()[i as int],
            final(self).buffers@ == old(self).buffers@.update(i as int, *old(b)),
            *final(b) == old(self).buffers@[i as int],
    {
        std::mem::swap(b, &mut self.buffers[i]);
        assert(self.view() =~= old(self).view().update(i as int, old(b)@));
    }

    /// The entry at `i`.
    pub fn get(&self, i: usize) -> (r: &Buffer)
        requires
            i < self.view().len(),
        ensures
            r@ == self.view()[i as int],
    {
        &self.buffers[i]
    }

    fn collect_matches(&self, q: &Vec<char>, by_prefix: bool) -> (r: Vec<usize>)
        ensures
            r@ == matching_indices(self.view(), q@, by_prefix, self.view().len() as int),
    {
        let mut r: Vec<usize> = Vec::new();
        let mut i: usize = 0;
        while i < self.buffers.len()
            invariant
                i <= self.buffers@.len(),
                r@ == matching_indices(self.view(), q@, by_prefix, i as int),
            decreases self.buffers@.len() - i,
        {
            let e = &self.buffers[i];
            assert(self.view()[i as int] == e@);
            let m = if by_prefix { e.starts_with(q) } else { e.contains(q) };
            if m {
                r.push(i);
            }
            i = i + 1;
        }
        r
    }

    /// The indices of the entries in which the query occurs, ascending.
    pub fn search_index(&self, q: &Vec<char>) -> (r: Vec<usize>)
        ensures
            r@ == matching_indices(self.view(), q@, false, self.view().len() as int),
    {
        self.collect_matches(q, false)
    }

    /// The indices of the entries that strictly start with the query, ascending.
    pub fn get_history_subset(&self, q: &Vec<char>) -> (r: Vec<usize>)
        ensures
            r@ == matching_indices(self.view(), q@, true, self.view().len() as int),
    {
        self.collect_matches(q, true)
    }

    /// The newest entry below `upper` (or below the end, when `upper` is absent or past it)
    /// that strictly starts with the query.
    pub fn get_newest_match(&self, upper: Option<usize>, q: &Vec<char>) -> (r: Option<usize>)
        ensures
            r == newest_match(self.view(), q@, search_top(upper, self.view().len() as int)),
    {
        let mut pos: usize = match upper {
            Some(u) => if u <= self.buffers.len() { u } else { self.buffers.len() },
            None => self.buffers.len(),
        };
        let ghost top = pos as int;
        assert(top == search_top(upper, self.view().len() as int));
        while pos > 0
            invariant
                pos <= self.buffers@.len(),
                top == search_top(upper, self.view().len() as int),
                newest_match(self.view(), q@, pos as int) == newest_match(self.view(), q@, top),
            decreases pos,
        {
            let e = &self.buffers[pos - 1];
            assert(self.view()[pos - 1] == e@);
            if e.starts_with(q) {
                assert(strictly_starts_with(self.view()[pos - 1], q@));
                assert(newest_match(self.view(), q@, pos as int) == Some((pos - 1) as usize));
                return Some(pos - 1);
            }
            pos = pos - 1;
        }
        None
    }
}

/// What the editor works with besides its own line: the history.
pub struct Context {
    pub history: History,
}

impl Context {
    pub fn new() -> (r: Context)
        ensures
            r.history.view() == Seq::<Seq<char>>::empty(),
    {
        Context { history: History::new() }
    }
}

/// A source of completions for the word before the cursor.
pub trait Completer {
    /// The candidates for completing `start`.
    fn completions(&self, start: &str) -> Vec<String>;
}

/// A span `(s, e)` of `buf` is a word: it starts on a non-space, and it ends at the end of
/// the buffer or just before a space that no backslash escapes.
pub open spec fn word_span_ok(buf: Seq<char>, s: int, e: int) -> bool {
    &&& 0 <= s < e <= buf.len()
    &&& buf[s] != ' '
    &&& (e == buf.len() || (buf[e] == ' ' && buf[e - 1] != '\\'))
}

/// The word spans of `s` found from position `i` on, given the word open at `start` (if
/// any), whether the previous character was a backslash, and the spans found so far.
pub open spec fn words_from(s: Seq<char>, i: int, start: Option<usize>, bs: bool, acc: Seq<(usize, usize)>) -> Seq<(usize, usize)>
    decreases s.len() - i,
{
    if i >= s.len() {
        match start {
            Some(st) => acc.push((st, s.len() as usize)),
            None => acc,
        }
    } else if s[i] == '\\' {
        words_from(s, i + 1, start, true, acc)
    } else {
        match start {
            Some(st) => if s[i] == ' ' && !bs {
                words_from(s, i + 1, None, false, acc.push((st, i as usize)))
            } else {
                words_from(s, i + 1, start, false, acc)
            },
            None => if s[i] != ' ' {
                words_from(s, i + 1, Some(i as usize), false, acc)
            } else {
                words_from(s, i + 1, None, false, acc)
            },
        }
    }
}

/// The words of `s`: runs of non-spaces, where a space right after a backslash does not end
/// a word.
pub open spec fn buffer_words(s: Seq<char>) -> Seq<(usize, usize)> {
    words_from(s, 0, None, false, Seq::empty())
}

/// Splits the buffer into words at spaces; a space right after a backslash does not split.
pub fn get_buffer_words(buf: &Buffer) -> (r: Vec<(usize, usize)>)
    ensures
        r@ == buffer_words(buf@),
        spans_ok(r@, buf@.len() as int),
        forall|i: int| 0 <= i < r@.len() ==> #[trigger] word_span_ok(buf@, r@[i].0 as int, r@[i].1 as int),
{
    let data = buf.chars();
    let n = data.len();
    let mut res: Vec<(usize, usize)> = Vec::new();
    let mut word_start: Option<usize> = None;
    let mut just_had_backslash = false;
    let mut i: usize = 0;
    while i < n
        invariant
            n == data@.len(),
            data@ == buf@,
            i <= n,
            spans_ok(res@, i as int),
            forall|k: int| 0 <= k < res@.len() ==> #[trigger] word_span_ok(buf@, res@[k].0 as int, res@[k].1 as int),
            word_start matches Some(s) ==> s < i && buf@[s as int] != ' ' && (res@.len() > 0 ==> res@.last().1 < s),
            word_start is None && res@.len() > 0 ==> res@.last().1 < i || (res@.last().1 == i && i == 0),
            just_had_backslash <==> (i > 0 && buf@[i - 1] == '\\'),
            word_start is None && res@.len() > 0 ==> res@.last().1 < i,
            words_from(buf@, i as int, word_start, just_had_backslash, res@) == buffer_words(buf@),
        decreases n - i,
    {
        let c = data[i];
        if c == '\\' {
            just_had_backslash = true;
        } else {
            match word_start {
                Some(start) => {
                    if c == ' ' && !just_had_backslash {
                        res.push((start, i));
                        word_start = None;
                    }
                },
                None => {
                    if c != ' ' {
                        word_start = Some(i);
                    }
                },
            }
            just_had_backslash = false;
        }
        i = i + 1;
    }
    match word_start {
        Some(start) => {
            res.push((start, n));
        },
        None => {},
    }
    res
}

} // verus!
