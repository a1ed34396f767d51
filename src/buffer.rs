use crate::text::{chars_of, line_widths, lines_of, lines_view, split_lines, string_of, widths_of};
use vstd::prelude::*;

verus! {

/// The part of `s` before `at`, then `t`, then the rest of `s`.
pub open spec fn spliced(s: Seq<char>, at: int, t: Seq<char>) -> Seq<char> {
    s.take(at) + t + s.skip(at)
}

/// `s` without the characters in `[lo, hi)`.
pub open spec fn cut(s: Seq<char>, lo: int, hi: int) -> Seq<char> {
    s.take(lo) + s.skip(hi)
}

/// Where an insertion at `start` lands: positions past the end are clamped to it.
pub open spec fn insert_pos(len: int, start: int) -> int {
    if start <= len { start } else { len }
}

/// The range `[lo, hi)` that a removal of `[start, end)` touches, clamped to the buffer.
pub open spec fn remove_lo(len: int, start: int) -> int {
    if start <= len { start } else { len }
}

pub open spec fn remove_hi(len: int, start: int, end: int) -> int {
    let lo = remove_lo(len, start);
    if end <= lo { lo } else if end <= len { end } else { len }
}

pub open spec fn insert_spec(s: Seq<char>, start: int, t: Seq<char>) -> Seq<char> {
    spliced(s, insert_pos(s.len() as int, start), t)
}

pub open spec fn remove_spec(s: Seq<char>, start: int, end: int) -> Seq<char> {
    cut(s, remove_lo(s.len() as int, start), remove_hi(s.len() as int, start, end))
}

pub open spec fn removed_spec(s: Seq<char>, start: int, end: int) -> Seq<char> {
    s.subrange(remove_lo(s.len() as int, start), remove_hi(s.len() as int, start, end))
}

/// One recorded edit, or a group marker.
pub enum Action {
    Insert { start: usize, text: Vec<char> },
    Remove { start: usize, text: Vec<char> },
    StartGroup,
    EndGroup,
}

/// The mathematical value of an [`Action`].
pub ghost enum ActionV {
    Insert(int, Seq<char>),
    Remove(int, Seq<char>),
    StartGroup,
    EndGroup,
}

impl View for Action {
    type V = ActionV;

    open spec fn view(&self) -> ActionV {
        match self {
            Action::Insert { start, text } => ActionV::Insert(*start as int, text@),
            Action::Remove { start, text } => ActionV::Remove(*start as int, text@),
            Action::StartGroup => ActionV::StartGroup,
            Action::EndGroup => ActionV::EndGroup,
        }
    }
}

/// What performing `a` does to `s`.
pub open spec fn do_spec(a: ActionV, s: Seq<char>) -> Seq<char> {
    match a {
        ActionV::Insert(start, text) => if s.len() + text.len() <= usize::MAX {
            insert_spec(s, start, text)
        } else {
            s
        },
        ActionV::Remove(start, text) => remove_spec(s, start, start + text.len()),
        _ => s,
    }
}

/// What taking `a` back does to `s`.
pub open spec fn undo_spec(a: ActionV, s: Seq<char>) -> Seq<char> {
    match a {
        ActionV::Insert(start, text) => remove_spec(s, start, start + text.len()),
        ActionV::Remove(start, text) => if s.len() + text.len() <= usize::MAX {
            insert_spec(s, start, text)
        } else {
            s
        },
        _ => s,
    }
}

/// Undoing walks back from the newest action, tracking group nesting, and stops once it is
/// outside every group and has taken back at least one edit. The result is the text and the
/// number of actions left.
pub open spec fn undo_run(s: Seq<char>, acts: Seq<ActionV>, nest: int, seen: bool) -> (Seq<char>, int)
    decreases acts.len(),
{
    if acts.len() == 0 {
        (s, 0)
    } else {
        let a = acts.last();
        let s2 = undo_spec(a, s);
        let nest2 = match a {
            ActionV::EndGroup => nest + 1,
            ActionV::StartGroup => nest - 1,
            _ => nest,
        };
        let seen2 = match a {
            ActionV::EndGroup => false,
            ActionV::StartGroup => seen,
            _ => true,
        };
        if nest2 == 0 && seen2 {
            (s2, acts.len() - 1)
        } else {
            undo_run(s2, acts.drop_last(), nest2, seen2)
        }
    }
}

/// Redoing walks forward through the undone actions (stored newest-undone last) in the
/// mirror image of [`undo_run`].
pub open spec fn redo_run(s: Seq<char>, acts: Seq<ActionV>, nest: int, seen: bool) -> (Seq<char>, int)
    decreases acts.len(),
{
    if acts.len() == 0 {
        (s, 0)
    } else {
        let a = acts.last();
        let s2 = do_spec(a, s);
        let nest2 = match a {
            ActionV::StartGroup => nest + 1,
            ActionV::EndGroup => nest - 1,
            _ => nest,
        };
        let seen2 = match a {
            ActionV::StartGroup => false,
            ActionV::EndGroup => seen,
            _ => true,
        };
        if nest2 == 0 && seen2 {
            (s2, acts.len() - 1)
        } else {
            redo_run(s2, acts.drop_last(), nest2, seen2)
        }
    }
}

/// The elements of `s`, last first.
pub open spec fn reversed(s: Seq<ActionV>) -> Seq<ActionV> {
    Seq::new(s.len(), |i: int| s[s.len() - 1 - i])
}

/// `text` is a prefix of `s`.
pub open spec fn is_prefix(text: Seq<char>, s: Seq<char>) -> bool {
    text.len() <= s.len() && s.take(text.len() as int) == text
}

/// `s` starts with `prefix`, which is not empty and shorter than `s`.
pub open spec fn strictly_starts_with(s: Seq<char>, prefix: Seq<char>) -> bool {
    prefix.len() > 0 && prefix.len() < s.len() && is_prefix(prefix, s)
}

/// `pattern` is non-empty and occurs in `s`.
pub open spec fn occurs_in(s: Seq<char>, pattern: Seq<char>) -> bool {
    pattern.len() > 0 && exists|i: int|
        0 <= i && i + pattern.len() <= s.len() && #[trigger] s.subrange(i, i + pattern.len()) == pattern
}

pub proof fn lemma_undo_run_shrinks(s: Seq<char>, acts: Seq<ActionV>, nest: int, seen: bool)
    ensures
        0 <= undo_run(s, acts, nest, seen).1 <= acts.len(),
        acts.len() > 0 ==> undo_run(s, acts, nest, seen).1 < acts.len(),
    decreases acts.len(),
{
    if acts.len() > 0 {
        let a = acts.last();
        let s2 = undo_spec(a, s);
        let nest2 = match a {
            ActionV::EndGroup => nest + 1,
            ActionV::StartGroup => nest - 1,
            _ => nest,
        };
        let seen2 = match a {
            ActionV::EndGroup => false,
            ActionV::StartGroup => seen,
            _ => true,
        };
        lemma_undo_run_shrinks(s2, acts.drop_last(), nest2, seen2);
    }
}

/// Undo after one group holding one insertion gives back the text as it was before the
/// group, and leaves the earlier actions.
pub proof fn lemma_undo_group_insert(s: Seq<char>, acts: Seq<ActionV>, start: int, text: Seq<char>)
    requires
        0 <= start <= s.len(),
        s.len() + text.len() <= usize::MAX,
    ensures
        undo_run(
            insert_spec(s, start, text),
            acts.push(ActionV::StartGroup).push(ActionV::Insert(start, text)).push(ActionV::EndGroup),
            0,
            false,
        ) == (s, acts.len() as int),
{
    let s1 = insert_spec(s, start, text);
    let a1 = acts.push(ActionV::StartGroup).push(ActionV::Insert(start, text));
    let a2 = a1.push(ActionV::EndGroup);
    assert(a2.drop_last() =~= a1);
    assert(a1.drop_last() =~= acts.push(ActionV::StartGroup));
    assert(acts.push(ActionV::StartGroup).drop_last() =~= acts);
    assert(remove_spec(s1, start, start + text.len()) =~= s);
    assert(undo_run(s1, a2, 0, false) == undo_run(s1, a1, 1, false));
    assert(undo_run(s1, a1, 1, false) == undo_run(s, acts.push(ActionV::StartGroup), 1, true));
}

/// Undo after one group holding one removal gives back the text as it was before the
/// group, and leaves the earlier actions.
pub proof fn lemma_undo_group_remove(s: Seq<char>, acts: Seq<ActionV>, start: int, end: int)
    requires
        0 <= start <= end <= s.len(),
        s.len() <= usize::MAX,
    ensures
        undo_run(
            remove_spec(s, start, end),
            acts.push(ActionV::StartGroup).push(ActionV::Remove(start, removed_spec(s, start, end)))
                .push(ActionV::EndGroup),
            0,
            false,
        ) == (s, acts.len() as int),
{
    let s1 = remove_spec(s, start, end);
    let text = removed_spec(s, start, end);
    let a1 = acts.push(ActionV::StartGroup).push(ActionV::Remove(start, text));
    let a2 = a1.push(ActionV::EndGroup);
    assert(a2.drop_last() =~= a1);
    assert(a1.drop_last() =~= acts.push(ActionV::StartGroup));
    assert(acts.push(ActionV::StartGroup).drop_last() =~= acts);
    assert(s1.len() + text.len() == s.len());
    assert(insert_spec(s1, start, text) =~= s);
    assert(undo_run(s1, a2, 0, false) == undo_run(s1, a1, 1, false));
    assert(undo_run(s1, a1, 1, false) == undo_run(s, acts.push(ActionV::StartGroup), 1, true));
}

/// Reverting undoes until no action is left.
pub open spec fn revert_run(s: Seq<char>, acts: Seq<ActionV>) -> Seq<char>
    decreases acts.len(),
{
    if acts.len() == 0 {
        s
    } else {
        let r = undo_run(s, acts, 0, false);
        if 0 <= r.1 < acts.len() {
            revert_run(r.0, acts.take(r.1))
        } else {
            r.0
        }
    }
}

/// Inserts `text` into `data` at `start` (clamped to the end).
fn insert_raw(data: &mut Vec<char>, start: usize, text: &Vec<char>)
    requires
        old(data)@.len() + text@.len() <= usize::MAX,
    ensures
        final(data)@ == insert_spec(old(data)@, start as int, text@),
{
    let at: usize = if start <= data.len() { start } else { data.len() };
    let ghost orig = data@;
    let mut i: usize = 0;
    while i < text.len()
        invariant
            at <= orig.len(),
            i <= text@.len(),
            orig.len() + text@.len() <= usize::MAX,
            data@ == orig.take(at as int) + text@.take(i as int) + orig.skip(at as int),
        decreases text@.len() - i,
    {
        data.insert(at + i, text[i]);
        proof {
            assert(data@ =~= orig.take(at as int) + text@.take(i + 1) + orig.skip(at as int));
        }
        i = i + 1;
    }
    assert(text@.take(text@.len() as int) =~= text@);
}

/// Removes `[start, end)` (clamped) from `data` and returns what was removed.
fn remove_raw(data: &mut Vec<char>, start: usize, end: usize) -> (r: Vec<char>)
    ensures
        final(data)@ == remove_spec(old(data)@, start as int, end as int),
        r@ == removed_spec(old(data)@, start as int, end as int),
{
    let len = data.len();
    let lo: usize = if start <= len { start } else { len };
    let hi: usize = if end <= lo { lo } else if end <= len { end } else { len };
    let ghost orig = data@;
    let mut r: Vec<char> = Vec::new();
    let mut k: usize = lo;
    while k < hi
        invariant
            lo <= k <= hi <= orig.len(),
            data@ == orig.take(lo as int) + orig.skip(k as int),
            r@ == orig.subrange(lo as int, k as int),
        decreases hi - k,
    {
        let c = data.remove(lo);
        r.push(c);
        proof {
            assert(data@ =~= orig.take(lo as int) + orig.skip(k + 1));
            assert(r@ =~= orig.subrange(lo as int, k + 1));
        }
        k = k + 1;
    }
    r
}

impl Action {
    /// Performs the action on `data`.
    fn do_on(&self, data: &mut Vec<char>)
        ensures
            final(data)@ == do_spec(self@, old(data)@),
    {
        match self {
            Action::Insert { start, text } => {
                if data.len() <= usize::MAX - text.len() {
                    insert_raw(data, *start, text);
                }
            },
            Action::Remove { start, text } => {
                if *start <= usize::MAX - text.len() {
                    let _ = remove_raw(data, *start, *start + text.len());
                } else {
                    let ghost s0 = data@;
                    let n = data.len();
                    assert(remove_hi(s0.len() as int, *start as int, usize::MAX as int)
                        == remove_hi(s0.len() as int, *start as int, *start + text@.len()));
                    let _ = remove_raw(data, *start, usize::MAX);
                }
            },
            _ => {},
        }
    }

    /// Takes the action back on `data`.
    fn undo_on(&self, data: &mut Vec<char>)
        ensures
            final(data)@ == undo_spec(self@, old(data)@),
    {
        match self {
            Action::Remove { start, text } => {
                if data.len() <= usize::MAX - text.len() {
                    insert_raw(data, *start, text);
                }
            },
            Action::Insert { start, text } => {
                if *start <= usize::MAX - text.len() {
                    let _ = remove_raw(data, *start, *start + text.len());
                } else {
                    let ghost s0 = data@;
                    let n = data.len();
                    assert(remove_hi(s0.len() as int, *start as int, usize::MAX as int)
                        == remove_hi(s0.len() as int, *start as int, *start + text@.len()));
                    let _ = remove_raw(data, *start, usize::MAX);
                }
            },
            _ => {},
        }
    }

    pub open spec fn text_len(&self) -> nat {
        match self {
            Action::Insert { text, .. } => text@.len(),
            Action::Remove { text, .. } => text@.len(),
            _ => 0,
        }
    }
}

/// A line of text being edited, with the record of its edits for undo and redo.
pub struct Buffer {
    data: Vec<char>,
    actions: Vec<Action>,
    undone_actions: Vec<Action>,
}

impl View for Buffer {
    type V = Seq<char>;

    closed spec fn view(&self) -> Seq<char> {
        self.data@
    }
}

impl Buffer {
    /// The recorded actions, oldest first.
    pub closed spec fn actions(&self) -> Seq<ActionV> {
        self.actions@.map_values(|a: Action| a@)
    }

    /// The undone actions; the most recently undone comes last.
    pub closed spec fn undone(&self) -> Seq<ActionV> {
        self.undone_actions@.map_values(|a: Action| a@)
    }

    /// An empty buffer with no recorded actions.
    pub fn new() -> (r: Buffer)
        ensures
            r@ == Seq::<char>::empty(),
            r.actions() == Seq::<ActionV>::empty(),
            r.undone() == Seq::<ActionV>::empty(),
    {
        let r = Buffer { data: Vec::new(), actions: Vec::new(), undone_actions: Vec::new() };
        assert(r.actions() =~= Seq::<ActionV>::empty());
        assert(r.undone() =~= Seq::<ActionV>::empty());
        r
    }

    /// A buffer holding the characters of `s`, with no recorded actions.
    pub fn from_text(s: &str) -> (r: Buffer)
        ensures
            r@ == s@,
            r.actions() == Seq::<ActionV>::empty(),
            r.undone() == Seq::<ActionV>::empty(),
    {
        Buffer::from_chars(chars_of(s))
    }

    /// The text, as a string.
    pub fn to_text(&self) -> (r: String)
        ensures
            r@ == self@,
    {
        string_of(self.data.as_slice())
    }

    /// A buffer holding `cs`, with no recorded actions.
    pub fn from_chars(cs: Vec<char>) -> (r: Buffer)
        ensures
            r@ == cs@,
            r.actions() == Seq::<ActionV>::empty(),
            r.undone() == Seq::<ActionV>::empty(),
    {
        let r = Buffer { data: cs, actions: Vec::new(), undone_actions: Vec::new() };
        assert(r.actions() =~= Seq::<ActionV>::empty());
        assert(r.undone() =~= Seq::<ActionV>::empty());
        r
    }

    pub open spec fn len(&self) -> nat {
        self@.len()
    }

    pub proof fn lemma_len_fits(&self)
        ensures
            self@.len() <= usize::MAX,
    {
        assert(self.data.len() == self.data@.len());
    }

    /// The number of characters.
    pub fn num_chars(&self) -> (r: usize)
        ensures
            r == self@.len(),
    {
        self.data.len()
    }

    pub fn is_empty(&self) -> (r: bool)
        ensures
            r == (self@.len() == 0),
    {
        self.data.len() == 0
    }

    /// The characters, as a vector.
    pub fn chars(&self) -> (r: &Vec<char>)
        ensures
            r@ == self@,
    {
        &self.data
    }

    /// The character just before position `cursor`, if there is one.
    pub fn char_before(&self, cursor: usize) -> (r: Option<char>)
        ensures
            r == (if 0 < cursor <= self@.len() { Some(self@[cursor - 1]) } else { None::<char> }),
    {
        if cursor == 0 || cursor > self.data.len() {
            None
        } else {
            Some(self.data[cursor - 1])
        }
    }

    /// The character just after position `cursor`, if there is one.
    pub fn char_after(&self, cursor: usize) -> (r: Option<char>)
        ensures
            r == (if cursor < self@.len() { Some(self@[cursor as int]) } else { None::<char> }),
    {
        if cursor < self.data.len() {
            Some(self.data[cursor])
        } else {
            None
        }
    }

    /// Forgets every recorded action.
    pub fn clear_actions(&mut self)
        ensures
            final(self)@ == old(self)@,
            final(self).actions() == Seq::<ActionV>::empty(),
            final(self).undone() == Seq::<ActionV>::empty(),
    {
        self.actions.clear();
        self.undone_actions.clear();
        assert(self.actions() =~= Seq::<ActionV>::empty());
        assert(self.undone() =~= Seq::<ActionV>::empty());
    }

    /// Opens an undo group: everything up to the matching [`Buffer::end_undo_group`] is
    /// undone in one step.
    pub fn start_undo_group(&mut self)
        ensures
            final(self)@ == old(self)@,
            final(self).actions() == old(self).actions().push(ActionV::StartGroup),
            final(self).undone() == old(self).undone(),
    {
        self.actions.push(Action::StartGroup);
        assert(self.actions() =~= old(self).actions().push(ActionV::StartGroup));
    }

    /// Closes an undo group.
    pub fn end_undo_group(&mut self)
        ensures
            final(self)@ == old(self)@,
            final(self).actions() == old(self).actions().push(ActionV::EndGroup),
            final(self).undone() == old(self).undone(),
    {
        self.actions.push(Action::EndGroup);
        assert(self.actions() =~= old(self).actions().push(ActionV::EndGroup));
    }

    /// Records an edit that has just been performed; it can no longer be followed by redo.
    fn push_action(&mut self, act: Action)
        ensures
            final(self)@ == old(self)@,
            final(self).actions() == old(self).actions().push(act@),
            final(self).undone() == Seq::<ActionV>::empty(),
    {
        self.actions.push(act);
        self.undone_actions.clear();
        assert(self.actions() =~= old(self).actions().push(act@));
        assert(self.undone() =~= Seq::<ActionV>::empty());
    }

    /// Inserts `text` at `start` (clamped to the end) and records it.
    pub fn insert(&mut self, start: usize, text: &[char])
        requires
            old(self)@.len() + text@.len() <= usize::MAX,
        ensures
            final(self)@ == insert_spec(old(self)@, start as int, text@),
            final(self).actions() == old(self).actions().push(
                ActionV::Insert(insert_pos(old(self)@.len() as int, start as int), text@),
            ),
            final(self).undone() == Seq::<ActionV>::empty(),
    {
        let at: usize = if start <= self.data.len() { start } else { self.data.len() };
        let mut t: Vec<char> = Vec::new();
        let mut i: usize = 0;
        while i < text.len()
            invariant
                i <= text@.len(),
                t@ == text@.take(i as int),
            decreases text@.len() - i,
        {
            t.push(text[i]);
            assert(t@ =~= text@.take(i + 1));
            i = i + 1;
        }
        assert(t@ =~= text@);
        insert_raw(&mut self.data, at, &t);
        self.push_action(Action::Insert { start: at, text: t });
    }

    /// Removes `[start, end)` (clamped to the buffer), records it, and returns how many
    /// characters went.
    pub fn remove(&mut self, start: usize, end: usize) -> (r: usize)
        ensures
            final(self)@ == remove_spec(old(self)@, start as int, end as int),
            r == remove_hi(old(self)@.len() as int, start as int, end as int)
                - remove_lo(old(self)@.len() as int, start as int),
            final(self).actions() == old(self).actions().push(
                ActionV::Remove(
                    remove_lo(old(self)@.len() as int, start as int),
                    removed_spec(old(self)@, start as int, end as int),
                ),
            ),
            final(self).undone() == Seq::<ActionV>::empty(),
    {
        let lo: usize = if start <= self.data.len() { start } else { self.data.len() };
        let text = remove_raw(&mut self.data, start, end);
        let n = text.len();
        self.push_action(Action::Remove { start: lo, text });
        n
    }

    /// Keeps the first `num` characters.
    pub fn truncate(&mut self, num: usize)
        ensures
            final(self)@ == (if num <= old(self)@.len() { old(self)@.take(num as int) } else { old(self)@ }),
            final(self).actions() == old(self).actions().push(
                ActionV::Remove(
                    remove_lo(old(self)@.len() as int, num as int),
                    removed_spec(old(self)@, num as int, old(self)@.len() as int),
                ),
            ),
            final(self).undone() == Seq::<ActionV>::empty(),
    {
        let end = self.data.len();
        self.remove(num, end);
        assert(self@ =~= (if num <= old(self)@.len() { old(self)@.take(num as int) } else { old(self)@ }));
    }

    /// Appends the part of `other` that goes beyond this buffer's length.
    pub fn insert_from_buffer(&mut self, other: &Vec<char>)
        requires
            old(self)@.len() + other@.len() <= usize::MAX,
        ensures
            final(self)@ == (if other@.len() > old(self)@.len() {
                old(self)@ + other@.skip(old(self)@.len() as int)
            } else {
                old(self)@
            }),
            other@.len() > old(self)@.len() ==> final(self).actions() == old(self).actions().push(
                ActionV::Insert(old(self)@.len() as int, other@.skip(old(self)@.len() as int)),
            ) && final(self).undone() == Seq::<ActionV>::empty(),
            other@.len() <= old(self)@.len() ==> final(self).actions() == old(self).actions()
                && final(self).undone() == old(self).undone(),
    {
        let start = self.data.len();
        if start < other.len() {
            let mut tail: Vec<char> = Vec::new();
            let mut i: usize = start;
            while i < other.len()
                invariant
                    start <= i <= other@.len(),
                    tail@ == other@.subrange(start as int, i as int),
                decreases other@.len() - i,
            {
                tail.push(other[i]);
                assert(tail@ =~= other@.subrange(start as int, i + 1));
                i = i + 1;
            }
            self.insert(start, tail.as_slice());
            assert(self@ =~= old(self)@ + other@.skip(old(self)@.len() as int));
        }
    }

    /// Replaces the whole text with that of `other`, as two recorded edits.
    pub fn copy_buffer(&mut self, other: &Vec<char>)
        ensures
            final(self)@ == other@,
            final(self).actions() == old(self).actions().push(ActionV::Remove(0, old(self)@)).push(
                ActionV::Insert(0, other@),
            ),
            final(self).undone() == Seq::<ActionV>::empty(),
    {
        let len = self.data.len();
        let m = other.len();
        assert(removed_spec(self@, 0, len as int) =~= self@);
        self.remove(0, len);
        assert(self@ =~= Seq::<char>::empty());
        self.insert(0, other.as_slice());
        assert(self@ =~= other@);
    }

    /// The characters in `[start, end)`.
    pub fn range_chars(&self, start: usize, end: usize) -> (r: Vec<char>)
        requires
            start <= end <= self@.len(),
        ensures
            r@ == self@.subrange(start as int, end as int),
    {
        let mut r: Vec<char> = Vec::new();
        let mut i: usize = start;
        while i < end
            invariant
                start <= i <= end <= self@.len(),
                r@ == self@.subrange(start as int, i as int),
            decreases end - i,
        {
            r.push(self.data[i]);
            assert(r@ =~= self@.subrange(start as int, i + 1));
            i = i + 1;
        }
        r
    }

    /// `prefix` is non-empty, shorter than this buffer, and begins it.
    pub fn starts_with(&self, prefix: &Vec<char>) -> (r: bool)
        ensures
            r == strictly_starts_with(self@, prefix@),
    {
        if prefix.len() == 0 || prefix.len() >= self.data.len() {
            return false;
        }
        let mut i: usize = 0;
        while i < prefix.len()
            invariant
                prefix@.len() < self@.len(),
                i <= prefix@.len(),
                forall|j: int| 0 <= j < i ==> self@[j] == prefix@[j],
            decreases prefix@.len() - i,
        {
            if self.data[i] != prefix[i] {
                assert(self@.take(prefix@.len() as int)[i as int] != prefix@[i as int]);
                return false;
            }
            i = i + 1;
        }
        assert(self@.take(prefix@.len() as int) =~= prefix@);
        true
    }

    /// `pattern` is non-empty and occurs somewhere in this buffer.
    pub fn contains(&self, pattern: &Vec<char>) -> (r: bool)
        ensures
            r == occurs_in(self@, pattern@),
    {
        let n = self.data.len();
        let m = pattern.len();
        if m == 0 || m > n {
            return false;
        }
        let mut i: usize = 0;
        while i <= n - m
            invariant
                0 < m <= n,
                n == self@.len(),
                m == pattern@.len(),
                i <= n - m + 1,
                forall|k: int| 0 <= k < i ==> #[trigger] self@.subrange(k, k + m) != pattern@,
            decreases n - i,
        {
            let mut j: usize = 0;
            let mut ok = true;
            while j < m
                invariant
                    i + m <= n,
                    n == self@.len(),
                    m == pattern@.len(),
                    j <= m,
                    ok == (forall|l: int| 0 <= l < j ==> self@[i + l] == pattern@[l]),
                decreases m - j,
            {
                if self.data[i + j] != pattern[j] {
                    ok = false;
                }
                j = j + 1;
            }
            if ok {
                assert(self@.subrange(i as int, i + m) =~= pattern@);
                return true;
            }
            assert(self@.subrange(i as int, i + m)[0] == self@[i as int]);
            assert(exists|l: int| 0 <= l < m && self@[i + l] != pattern@[l]);
            let ghost l = choose|l: int| 0 <= l < m && self@[i + l] != pattern@[l];
            assert(self@.subrange(i as int, i + m)[l] != pattern@[l]);
            i = i + 1;
        }
        assert forall|k: int| 0 <= k && k + m <= n implies #[trigger] self@.subrange(k, k + m) != pattern@ by {
            assert(k < i);
        }
        false
    }

    /// Takes back the newest undo group (or lone edit). Returns whether anything was
    /// recorded to take back.
    pub fn undo(&mut self) -> (did: bool)
        ensures
            did == (old(self).actions().len() > 0),
            final(self)@ == undo_run(old(self)@, old(self).actions(), 0, false).0,
            final(self).actions() == old(self).actions().take(
                undo_run(old(self)@, old(self).actions(), 0, false).1,
            ),
            final(self).undone() == old(self).undone() + reversed(
                old(self).actions().skip(undo_run(old(self)@, old(self).actions(), 0, false).1),
            ),
    {
        let did = self.actions.len() > 0;
        let ghost acts0 = self.actions();
        let ghost undone0 = self.undone();
        let ghost r = undo_run(self@, self.actions(), 0, false);
        let ghost n0 = self.actions@.len();
        let mut nest: i128 = 0;
        let mut seen = false;
        let mut stop = false;
        while !stop && self.actions.len() > 0
            invariant
                n0 == acts0.len(),
                self.actions@.len() <= n0,
                -(n0 - self.actions@.len()) <= nest <= n0 - self.actions@.len(),
                n0 <= usize::MAX,
                stop ==> self@ == r.0 && self.actions@.len() == r.1,
                !stop ==> undo_run(self@, self.actions(), nest as int, seen) == r,
                self.actions() == acts0.take(self.actions@.len() as int),
                self.undone() == undone0 + reversed(acts0.skip(self.actions@.len() as int)),
            decreases self.actions@.len(),
        {
            let ghost before = self.actions();
            let ghost k = self.actions@.len();
            match self.actions.pop() {
                Some(act) => {
                    assert(before.last() == act@);
                    act.undo_on(&mut self.data);
                    match act {
                        Action::EndGroup => {
                            nest = nest + 1;
                            seen = false;
                        },
                        Action::StartGroup => {
                            nest = nest - 1;
                        },
                        _ => {
                            seen = true;
                        },
                    }
                    let ghost u0 = self.undone();
                    self.undone_actions.push(act);
                    assert(self.undone() =~= u0.push(before.last()));
                    assert(before.last() == acts0[k - 1]);
                    assert(reversed(acts0.skip(k - 1)) =~= reversed(acts0.skip(k as int)).push(acts0[k - 1]));
                    assert(self.actions() =~= before.drop_last());
                    assert(self.actions() =~= acts0.take(self.actions@.len() as int));
                    assert(self.undone() =~= undone0 + reversed(acts0.skip(self.actions@.len() as int)));
                    if nest == 0 && seen {
                        stop = true;
                    }
                },
                None => {},
            }
        }
        did
    }

    /// Performs again the newest undone group (or lone edit). Returns whether anything had
    /// been undone.
    pub fn redo(&mut self) -> (did: bool)
        ensures
            did == (old(self).undone().len() > 0),
            final(self)@ == redo_run(old(self)@, old(self).undone(), 0, false).0,
            final(self).undone() == old(self).undone().take(
                redo_run(old(self)@, old(self).undone(), 0, false).1,
            ),
            final(self).actions() == old(self).actions() + reversed(
                old(self).undone().skip(redo_run(old(self)@, old(self).undone(), 0, false).1),
            ),
    {
        let did = self.undone_actions.len() > 0;
        let ghost acts0 = self.actions();
        let ghost undone0 = self.undone();
        let ghost r = redo_run(self@, self.undone(), 0, false);
        let ghost n0 = self.undone_actions@.len();
        let mut nest: i128 = 0;
        let mut seen = false;
        let mut stop = false;
        while !stop && self.undone_actions.len() > 0
            invariant
                n0 == undone0.len(),
                self.undone_actions@.len() <= n0,
                -(n0 - self.undone_actions@.len()) <= nest <= n0 - self.undone_actions@.len(),
                n0 <= usize::MAX,
                stop ==> self@ == r.0 && self.undone_actions@.len() == r.1,
                !stop ==> redo_run(self@, self.undone(), nest as int, seen) == r,
                self.undone() == undone0.take(self.undone_actions@.len() as int),
                self.actions() == acts0 + reversed(undone0.skip(self.undone_actions@.len() as int)),
            decreases self.undone_actions@.len(),
        {
            let ghost before = self.undone();
            let ghost k = self.undone_actions@.len();
            match self.undone_actions.pop() {
                Some(act) => {
                    assert(before.last() == act@);
                    act.do_on(&mut self.data);
                    match act {
                        Action::StartGroup => {
                            nest = nest + 1;
                            seen = false;
                        },
                        Action::EndGroup => {
                            nest = nest - 1;
                        },
                        _ => {
                            seen = true;
                        },
                    }
                    let ghost a0 = self.actions();
                    self.actions.push(act);
                    assert(self.actions() =~= a0.push(before.last()));
                    assert(before.last() == undone0[k - 1]);
                    assert(reversed(undone0.skip(k - 1)) =~= reversed(undone0.skip(k as int)).push(undone0[k - 1]));
                    assert(self.undone() =~= before.drop_last());
                    assert(self.undone() =~= undone0.take(self.undone_actions@.len() as int));
                    assert(self.actions() =~= acts0 + reversed(undone0.skip(self.undone_actions@.len() as int)));
                    if nest == 0 && seen {
                        stop = true;
                    }
                },
                None => {},
            }
        }
        did
    }

    /// Undoes everything recorded. Returns whether there was anything.
    pub fn revert(&mut self) -> (did: bool)
        ensures
            did == (old(self).actions().len() > 0),
            final(self)@ == revert_run(old(self)@, old(self).actions()),
            final(self).actions().len() == 0,
    {
        if self.actions.len() == 0 {
            assert(self.actions().len() == 0);
            return false;
        }
        let ghost target = revert_run(self@, self.actions());
        let mut go = true;
        while go
            invariant
                go ==> revert_run(self@, self.actions()) == target,
                !go ==> self@ == target && self.actions().len() == 0,
                self.actions().len() == self.actions@.len(),
            decreases self.actions@.len() + (if go { 1int } else { 0int }),
        {
            let ghost s0 = self@;
            let ghost a0 = self.actions();
            proof {
                lemma_undo_run_shrinks(s0, a0, 0, false);
            }
            let d = self.undo();
            if !d {
                go = false;
            }
        }
        true
    }

    /// The characters in `[start, end)`, as a string.
    pub fn range(&self, start: usize, end: usize) -> (r: String)
        requires
            start <= end <= self@.len(),
        ensures
            r@ == self@.subrange(start as int, end as int),
    {
        let v = self.range_chars(start, end);
        string_of(v.as_slice())
    }

    /// The lines of the text.
    pub fn lines(&self) -> (r: Vec<Vec<char>>)
        ensures
            lines_view(r@) == split_lines(self@),
    {
        lines_of(self.data.as_slice())
    }

    /// The columns that each line takes.
    pub fn width(&self) -> (r: Vec<usize>)
        ensures
            r@ == line_widths(self@),
    {
        widths_of(self.data.as_slice())
    }

    /// The columns that each line of `[start, end)` takes.
    pub fn range_width(&self, start: usize, end: usize) -> (r: Vec<usize>)
        requires
            start <= end <= self@.len(),
        ensures
            r@ == line_widths(self@.subrange(start as int, end as int)),
    {
        let v = self.range_chars(start, end);
        widths_of(v.as_slice())
    }
}

} // verus!
