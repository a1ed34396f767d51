use crate::buffer::{cut, redo_run, remove_spec, spliced, undo_run, ActionV};
use crate::editor::clamped;
use crate::complete::CompleteType;
use crate::editor::{lemma_wf_cursor, Editor};
use crate::history::Completer;
use crate::key::Key;
use vstd::prelude::*;

verus! {

broadcast use lemma_wf_cursor;

/// A Vi editing mode.
#[derive(Clone, Copy, Debug, PartialEq, Eq, Structural)]
pub enum Mode {
    Insert,
    Normal,
    Replace,
    /// A delete or change waiting for its movement; the cursor position it started at.
    Delete(usize),
}

/// A stack of modes; normal mode lies beneath an empty stack.
pub struct ModeStack(Vec<Mode>);

/// The mode on top of `s`, or normal mode when `s` is empty.
pub open spec fn top_mode(s: Seq<Mode>) -> Mode {
    if s.len() == 0 { Mode::Normal } else { s.last() }
}

/// How nested key replays may go: a repeat replays keys, which may finish an insert with a
/// count, which replays keys again.
pub const REPLAY_DEPTH: u8 = 3;

impl ModeStack {
    pub closed spec fn view(&self) -> Seq<Mode> {
        self.0@
    }

    /// A stack holding insert mode only.
    pub fn with_insert() -> (r: ModeStack)
        ensures
            r.view() == seq![Mode::Insert],
    {
        let r = ModeStack(vec![Mode::Insert]);
        assert(r.view() =~= seq![Mode::Insert]);
        r
    }

    /// The current mode.
    pub fn mode(&self) -> (r: Mode)
        ensures
            r == top_mode(self.view()),
    {
        if self.0.len() == 0 {
            Mode::Normal
        } else {
            self.0[self.0.len() - 1]
        }
    }

    /// Empties the stack, back to normal mode.
    pub fn clear(&mut self)
        ensures
            final(self).view() == Seq::<Mode>::empty(),
    {
        self.0.clear();
        assert(self.view() =~= Seq::<Mode>::empty());
    }

    /// Pushes a mode.
    pub fn push(&mut self, m: Mode)
        ensures
            final(self).view() == old(self).view().push(m),
    {
        self.0.push(m);
    }

    /// Pops the current mode and returns it (normal mode when the stack is empty).
    pub fn pop(&mut self) -> (r: Mode)
        ensures
            r == top_mode(old(self).view()),
            final(self).view() == (if old(self).view().len() == 0 {
                old(self).view()
            } else {
                old(self).view().drop_last()
            }),
    {
        match self.0.pop() {
            Some(m) => m,
            None => Mode::Normal,
        }
    }
}

/// Keys that move the cursor and so complete a delete or change.
pub open spec fn movement_key(key: Key) -> bool {
    key == Key::Char('h') || key == Key::Char('l') || key == Key::Left || key == Key::Right
        || key == Key::Backspace || key == Key::Char(' ') || key == Key::Home || key == Key::End
        || key == Key::Char('$')
}

pub fn is_movement_key(key: Key) -> (r: bool)
    ensures
        r == movement_key(key),
{
    match key {
        Key::Char('h') | Key::Char('l') | Key::Left | Key::Right | Key::Backspace | Key::Char(' ')
        | Key::Home | Key::End | Key::Char('$') => true,
        _ => false,
    }
}

/// What ended a line other than Enter.
#[derive(Clone, Copy, Debug, PartialEq, Eq, Structural)]
pub enum KeyError {
    /// Ctrl-C.
    Interrupted,
    /// Ctrl-D on an empty line.
    EndOfInput,
}

/// `count * 10 + d`, saturating at `u32::MAX`.
pub open spec fn push_digit(count: u32, d: u32) -> u32 {
    let x = count as int * 10 + d as int;
    if x > u32::MAX { u32::MAX } else { x as u32 }
}

/// The movement count: the typed count, or 1 when none was typed.
pub open spec fn count_or_one(count: u32) -> int {
    if count == 0 { 1 } else { count as int }
}

/// The movement count, limited to the `room` characters available.
pub open spec fn limited(room: int, count: u32) -> int {
    if room < count_or_one(count) { room } else { count_or_one(count) }
}

/// What replacing `i` characters of `t` from `c` by `ch` records: for each, the removal of
/// the old character and the insertion of the new one.
pub open spec fn replace_pairs(t: Seq<char>, c: int, ch: char, i: int) -> Seq<ActionV>
    decreases i,
{
    if i <= 0 {
        Seq::<ActionV>::empty()
    } else {
        replace_pairs(t, c, ch, i - 1).push(ActionV::Remove(c + i - 1, seq![t[c + i - 1]])).push(
            ActionV::Insert(c + i - 1, seq![ch]),
        )
    }
}

/// Undo after a replace group gives back the text from before it.
pub proof fn lemma_undo_replace_group(t: Seq<char>, acts: Seq<ActionV>, c: int, ch: char, n: int)
    requires
        0 <= c,
        1 <= n,
        c + n <= t.len(),
        t.len() <= usize::MAX,
    ensures
        undo_run(
            t.take(c) + copies(ch, n as nat) + t.skip(c + n),
            (acts.push(ActionV::StartGroup) + replace_pairs(t, c, ch, n)).push(ActionV::EndGroup),
            0,
            false,
        ) == (t, acts.len() as int),
{
    let s = t.take(c) + copies(ch, n as nat) + t.skip(c + n);
    let base = acts.push(ActionV::StartGroup);
    let all = (base + replace_pairs(t, c, ch, n)).push(ActionV::EndGroup);
    assert(all.drop_last() =~= base + replace_pairs(t, c, ch, n));
    lemma_undo_pairs(t, base, c, ch, n, false);
    assert(base.drop_last() =~= acts);
    assert(undo_run(s, all, 0, false) == undo_run(s, base + replace_pairs(t, c, ch, n), 1, false));
    assert(undo_run(t, base, 1, true) == (t, acts.len() as int));
}

proof fn lemma_undo_pairs(t: Seq<char>, base: Seq<ActionV>, c: int, ch: char, i: int, seen: bool)
    requires
        0 <= c,
        0 <= i,
        c + i <= t.len(),
        t.len() <= usize::MAX,
    ensures
        undo_run(t.take(c) + copies(ch, i as nat) + t.skip(c + i), base + replace_pairs(t, c, ch, i), 1, seen)
            == undo_run(t, base, 1, seen || i > 0),
    decreases i,
{
    if i == 0 {
        assert(t.take(c) + copies(ch, 0) + t.skip(c) =~= t);
        assert(base + replace_pairs(t, c, ch, 0) =~= base);
    } else {
        let s = t.take(c) + copies(ch, i as nat) + t.skip(c + i);
        let p = base + replace_pairs(t, c, ch, i);
        let p1 = base + replace_pairs(t, c, ch, i - 1);
        let mid = t.take(c) + copies(ch, (i - 1) as nat) + t.skip(c + i);
        let s1 = t.take(c) + copies(ch, (i - 1) as nat) + t.skip(c + i - 1);
        let q = p1.push(ActionV::Remove(c + i - 1, seq![t[c + i - 1]]));
        assert(p =~= q.push(ActionV::Insert(c + i - 1, seq![ch])));
        assert(p.drop_last() =~= q);
        assert(q.drop_last() =~= p1);
        assert(crate::buffer::remove_spec(s, c + i - 1, c + i) =~= mid);
        assert(mid.len() + 1 <= usize::MAX);
        assert(crate::buffer::insert_spec(mid, c + i - 1, seq![t[c + i - 1]]) =~= s1);
        assert(undo_run(s, p, 1, seen) == undo_run(mid, q, 1, true));
        assert(undo_run(mid, q, 1, true) == undo_run(s1, p1, 1, true));
        lemma_undo_pairs(t, base, c, ch, i - 1, true);
        assert(t.skip(c + i - 1) == t.skip(c + (i - 1)));
    }
}

/// `n` copies of `c`.
pub open spec fn copies(c: char, n: nat) -> Seq<char> {
    Seq::new(n, |_i: int| c)
}

/// Keys that move by a count, or to the end of the line.
pub open spec fn counted_motion(key: Key) -> bool {
    key == Key::Char('h') || key == Key::Left || key == Key::Backspace || key == Key::Char('l')
        || key == Key::Right || key == Key::Char(' ') || key == Key::Char('$')
}

/// Where a movement key sends the cursor of `a`, before the redraw clamps it: left or right
/// by the count (not while a completion grid is shown), to the end for `$`, else to the
/// start.
pub open spec fn motion_target(a: Vi, key: Key, count: u32) -> int {
    let t = a.ed().cur();
    let c = a.ed().cursor_pos();
    if key == Key::Char('h') || key == Key::Left || key == Key::Backspace {
        if a.ed().hint_active() { c } else { c - limited(c, count) }
    } else if key == Key::Char('l') || key == Key::Right || key == Key::Char(' ') {
        if a.ed().hint_active() { c } else { c + limited(t.len() - c, count) }
    } else if key == Key::Char('$') {
        t.len() as int
    } else {
        0
    }
}

/// The smaller and the larger of two positions.
pub open spec fn lo_of(x: int, y: int) -> int {
    if x <= y { x } else { y }
}

pub open spec fn hi_of(x: int, y: int) -> int {
    if x <= y { y } else { x }
}

/// `b` is `a` after a movement to `c1` (the text of `a` unchanged) and the pop that follows:
/// a pending delete removes what lies between its start and `c1`, leaving the cursor at
/// the lower end; the count is cleared.
pub open spec fn after_motion(a: Vi, b: Vi, c1: int) -> bool {
    let t = a.ed().cur();
    &&& b.count_value() == 0
    &&& match top_mode(a.modes()) {
        Mode::Delete(s) => {
            let rest = a.modes().drop_last();
            let lo = lo_of(c1, s as int);
            let u = remove_spec(t, lo, hi_of(c1, s as int));
            &&& b.ed().cur() == u
            &&& b.ed().cursor_pos() == clamped(lo, u.len() as int, top_mode(rest) == Mode::Normal)
            &&& b.modes() == rest
        },
        _ => {
            &&& b.ed().cur() == t
            &&& b.ed().cursor_pos() == c1
            &&& b.modes() == (if a.modes().len() == 0 { a.modes() } else { a.modes().drop_last() })
        },
    }
}

/// The text after up to `n` undo steps, stopping when nothing is left to undo.
pub open spec fn undos(s: Seq<char>, acts: Seq<ActionV>, n: int) -> Seq<char>
    decreases n,
{
    if n <= 0 || acts.len() == 0 {
        s
    } else {
        let r = undo_run(s, acts, 0, false);
        undos(r.0, acts.take(r.1), n - 1)
    }
}

/// The text after up to `n` redo steps, stopping when nothing is left to redo.
pub open spec fn redos(s: Seq<char>, undone: Seq<ActionV>, n: int) -> Seq<char>
    decreases n,
{
    if n <= 0 || undone.len() == 0 {
        s
    } else {
        let r = redo_run(s, undone, 0, false);
        redos(r.0, undone.take(r.1), n - 1)
    }
}

/// The parts of the editor state that the key effects speak of are the same in `a` and `b`.
pub open spec fn same_view(a: Vi, b: Vi) -> bool {
    &&& a.ed() == b.ed()
    &&& a.modes() == b.modes()
    &&& a.count_value() == b.count_value()
    &&& a.secondary_value() == b.secondary_value()
    &&& a.pending_insert() == b.pending_insert()
    &&& a.last_insert_view() == b.last_insert_view()
}

/// `st` lists the states passed through when handling `keys` from `a`: each key has its key
/// effect, and the last state agrees with `b`.
pub open spec fn chain(a: Vi, b: Vi, keys: Seq<Key>, st: Seq<Vi>) -> bool {
    &&& st.len() == keys.len() + 1
    &&& same_view(a, st[0])
    &&& same_view(st[keys.len() as int], b)
    &&& forall|i: int| 0 <= i < keys.len() ==> #[trigger] key_effect(st[i], st[i + 1], keys[i])
}

/// `b` is reached from `a` by handling `keys` one after another, each with its key effect.
pub open spec fn replays(a: Vi, b: Vi, keys: Seq<Key>) -> bool {
    exists|st: Seq<Vi>| #[trigger] chain(a, b, keys, st)
}

/// `st` lists the states at the start of each of `n` rounds and at the end of the last, from
/// `a`: each round replays the keys recorded when it starts.
pub open spec fn round_chain(a: Vi, b: Vi, n: int, st: Seq<Vi>) -> bool {
    &&& st.len() == n + 1
    &&& same_view(a, st[0])
    &&& st[0].last_command_view() == a.last_command_view()
    &&& st[n] == b
    &&& forall|j: int| 0 <= j < n ==> #[trigger] replays(st[j], st[j + 1], st[j].last_command_view())
}

/// Leaving insert mode from `m`: the cursor moves left (not while a completion grid is
/// shown), the mode below returns and the undo group of the insert closes.
pub open spec fn esc_finish(m: Vi, b: Vi) -> bool {
    let t = m.ed().cur();
    let rest = if m.modes().len() == 0 { m.modes() } else { m.modes().drop_last() };
    &&& b.modes() == rest
    &&& b.ed().cur() == t
    &&& b.ed().cursor_pos() == clamped(motion_target(m, Key::Left, 1), t.len() as int, m.ed().eol_blocked())
    &&& b.ed().eol_blocked() == (top_mode(rest) == Mode::Normal)
    &&& b.ed().cur_buf().actions() == (if top_mode(m.modes()) == Mode::Insert {
        m.ed().cur_buf().actions().push(ActionV::EndGroup)
    } else {
        m.ed().cur_buf().actions()
    })
    &&& b.count_value() == 0
}

/// Esc in insert mode with a count above 1: the keys recorded are replayed count - 1 more
/// times (each round replaying what the previous one recorded), then insert mode is left.
pub open spec fn esc_repeats(a: Vi, b: Vi) -> bool {
    a.count_value() > 1 ==> exists|st: Seq<Vi>| #[trigger] round_chain(a, st.last(), a.count_value() - 1, st)
        && esc_finish(st.last(), b)
}

/// The command that `.` repeats in `b`: the insert key, the recorded keys and the count.
pub open spec fn dot_state(b: Vi, li: Option<Key>, lc: Seq<Key>, lcount: u32) -> bool {
    b.last_insert_view() == li && b.last_command_view() == lc && b.last_count_view() == lcount
}

/// The command that `.` repeats is the same in `a` and `b`.
pub open spec fn same_dot(a: Vi, b: Vi) -> bool {
    dot_state(b, a.last_insert_view(), a.last_command_view(), a.last_count_view())
}

/// The effect of a key in normal mode (or of a movement or digit completing a pending
/// delete), where it is simple to say.
pub open spec fn normal_effect(a: Vi, b: Vi, key: Key) -> bool {
    let t = a.ed().cur();
    let c = a.ed().cursor_pos();
    let n = a.count_value();
    let eol = a.ed().eol_blocked();
    let acts = a.ed().cur_buf().actions();
    let same_ed = b.ed().cur() == t && b.ed().cursor_pos() == c && b.modes() == a.modes();
    let ins = a.modes().push(Mode::Insert);
    &&& (key == Key::Esc ==> same_ed && b.count_value() == 0 && same_dot(a, b))
    &&& (key matches Key::Char(d) ==> (49 <= (d as u32) <= 57 || (d == '0' && n != 0)) ==> same_ed
        && b.count_value() == push_digit(n, (d as u32 - 48) as u32) && same_dot(a, b))
    &&& (counted_motion(key) || (key == Key::Char('0') && n == 0) ==> after_motion(
        a,
        b,
        clamped(motion_target(a, key, n), t.len() as int, eol),
    ) && (top_mode(a.modes()) is Delete ==> dot_state(b, a.pending_insert(), a.current_command_view(), n)
        && b.secondary_value() == 0) && (!(top_mode(a.modes()) is Delete) ==> same_dot(a, b)))
    &&& ((key == Key::Char('x') || key == Key::Delete) ==> dot_state(b, None, seq![key], n)
        && b.ed().cur_buf().actions() == acts.push(ActionV::Remove(c, t.subrange(c, c + limited(t.len() - c, n)))))
    &&& ((key == Key::Char('i') || key == Key::Char('a') || key == Key::Char('A') || key == Key::Char('I')) ==> b.count_value()
        == n && dot_state(b, Some(key), Seq::<Key>::empty(), 0) && !b.restarts())
    &&& (key == Key::Char('s') ==> dot_state(b, Some(key), Seq::<Key>::empty(), n) && !b.restarts())
    &&& ((key == Key::Char('D') || key == Key::Char('C')) ==> dot_state(b, None, seq![key], 0))
    &&& (key == Key::Char('C') ==> !b.restarts())
    &&& (key == Key::Char('r') ==> b.count_value() == n && same_dot(a, b))
    &&& (key == Key::Char('d') ==> b.secondary_value() == n && b.pending_insert() is None
        && b.current_command_view() == seq![key])
    &&& (key == Key::Char('c') ==> b.secondary_value() == n && b.pending_insert() == Some(key)
        && b.current_command_view() == Seq::<Key>::empty())
    &&& ((key == Key::Char('x') || key == Key::Delete) ==> {
        let u = cut(t, c, c + limited(t.len() - c, n));
        &&& b.ed().cur() == u
        &&& b.ed().cursor_pos() == clamped(c, u.len() as int, eol)
        &&& b.count_value() == 0
        &&& b.modes() == a.modes()
    })
    &&& (key == Key::Char('i') ==> b.modes() == ins && b.ed().cur() == t && b.ed().cursor_pos() == c
        && !b.ed().eol_blocked() && b.ed().cur_buf().actions() == acts.push(ActionV::StartGroup))
    &&& (key == Key::Char('a') ==> b.modes() == ins && b.ed().cur() == t && b.ed().cursor_pos() == (
        if a.ed().hint_active() { c } else { c + limited(t.len() - c, 1) }))
    &&& (key == Key::Char('A') ==> b.modes() == ins && b.ed().cur() == t && b.ed().cursor_pos() == t.len())
    &&& (key == Key::Char('I') ==> b.modes() == ins && b.ed().cur() == t && b.ed().cursor_pos() == 0)
    &&& (key == Key::Char('s') ==> b.modes() == ins && b.ed().cur() == remove_spec(t, c, c + limited(t.len() - c, n))
        && b.ed().cursor_pos() == c && b.count_value() == 0)
    &&& (key == Key::Char('D') ==> b.modes() == a.modes() && b.ed().cur() == t.take(c)
        && b.ed().cursor_pos() == clamped(c, c, eol) && b.count_value() == 0)
    &&& (key == Key::Char('C') ==> b.modes() == ins && b.ed().cur() == t.take(c) && b.ed().cursor_pos() == c
        && b.count_value() == 0)
    &&& (key == Key::Char('r') ==> b.modes() == a.modes().push(Mode::Replace) && b.ed().cur() == t
        && b.ed().cursor_pos() == c)
    &&& (key == Key::Char('d') ==> b.modes() == a.modes().push(Mode::Delete(c as usize)) && b.ed().cur() == t
        && b.ed().cursor_pos() == c && b.count_value() == 0)
    &&& (key == Key::Char('c') ==> b.modes() == ins.push(Mode::Delete(c as usize)) && b.ed().cur() == t
        && b.ed().cursor_pos() == c && b.count_value() == 0)
    &&& (key == Key::Char('u') ==> b.ed().cur() == undos(t, acts, count_or_one(n)) && b.count_value() == 0
        && b.modes() == a.modes())
    &&& (key == Key::Ctrl('r') ==> b.ed().cur() == redos(t, a.ed().cur_buf().undone(), count_or_one(n))
        && b.count_value() == 0 && b.modes() == a.modes())
}

/// The effect of a key in insert mode, where it is simple to say: a character is inserted
/// and the cursor moves past it; the arrows and Home/End move; Esc (without a count to
/// repeat) moves left, returns to the mode below and closes the undo group.
pub open spec fn insert_effect(a: Vi, b: Vi, key: Key) -> bool {
    let t = a.ed().cur();
    let c = a.ed().cursor_pos();
    let fits = t.len() + 1 <= usize::MAX;
    &&& (key matches Key::Char(ch) ==> b.modes() == a.modes() && b.ed().cur() == (if fits {
        spliced(t, c, seq![ch])
    } else {
        t
    }) && b.ed().cursor_pos() == (if fits { c + 1 } else { c }))
    &&& ((key is Char || key == Key::Backspace || key == Key::Delete) ==> {
        let r = a.restarts();
        let acts = a.ed().cur_buf().actions();
        &&& b.count_value() == a.count_value()
        &&& b.ed().eol_blocked() == a.ed().eol_blocked()
        &&& b.modes() == a.modes()
        &&& !b.restarts()
        &&& dot_state(
            b,
            if r { Some(Key::Char('i')) } else { a.last_insert_view() },
            (if r { Seq::<Key>::empty() } else { a.last_command_view() }).push(key),
            a.last_count_view(),
        )
        &&& (key is Char && fits ==> b.ed().cur_buf().actions() == (if r {
            acts.push(ActionV::EndGroup).push(ActionV::StartGroup)
        } else {
            acts
        }).push(ActionV::Insert(c, seq![key->Char_0])))
    })
    &&& (key == Key::Backspace ==> b.ed().cur() == (if c > 0 { cut(t, c - 1, c) } else { t })
        && b.ed().cursor_pos() == (if c > 0 { c - 1 } else { 0 }))
    &&& (key == Key::Delete ==> b.ed().cur() == (if c < t.len() { cut(t, c, c + 1) } else { t })
        && b.ed().cursor_pos() == c)
    &&& ((key == Key::Left || key == Key::Right || key == Key::Home || key == Key::End) ==> b.modes() == a.modes()
        && b.ed().eol_blocked() == a.ed().eol_blocked() && b.ed().cur() == t && b.count_value() == 0 && b.ed().cursor_pos() == (if key == Key::Home {
        0
    } else if key == Key::End {
        t.len() as int
    } else {
        clamped(motion_target(a, key, 1), t.len() as int, false)
    }))
    &&& (key == Key::Esc && a.count_value() <= 1 ==> {
        let rest = a.modes().drop_last();
        &&& b.modes() == rest
        &&& b.ed().cur() == t
        &&& b.ed().cursor_pos() == clamped(motion_target(a, Key::Left, 1), t.len() as int, false)
        &&& b.ed().eol_blocked() == (top_mode(rest) == Mode::Normal)
        &&& b.ed().cur_buf().actions() == a.ed().cur_buf().actions().push(ActionV::EndGroup)
        &&& b.count_value() == 0
    })
}

/// The effect of a key while a delete or change waits for its movement: a movement deletes
/// from where the operator was typed to where the movement goes (its count multiplied by the
/// one typed before the operator); `dd` or `cc` empties the line; any other key but a digit
/// cancels.
pub open spec fn delete_effect(a: Vi, b: Vi, key: Key) -> bool {
    let t = a.ed().cur();
    let n2 = combined_count(a.count_value(), a.secondary_value());
    &&& (counted_motion(key) ==> after_motion(
        a,
        b,
        clamped(motion_target(a, key, n2), t.len() as int, a.ed().eol_blocked()),
    ) && dot_state(b, a.pending_insert(), a.current_command_view().push(key), n2) && b.secondary_value() == 0)
    &&& (key matches Key::Char(d) ==> (49 <= (d as u32) <= 57 || (d == '0' && a.count_value() != 0)) ==> b.ed().cur()
        == t && b.ed().cursor_pos() == a.ed().cursor_pos() && b.modes() == a.modes() && b.count_value() == push_digit(
        a.count_value(),
        (d as u32 - 48) as u32,
    ))
    &&& (key == Key::Char('0') && a.count_value() == 0 && a.secondary_value() == 0 ==> after_motion(a, b, 0)
        && dot_state(b, a.pending_insert(), a.current_command_view().push(key), 0) && b.secondary_value() == 0)
    &&& ((key == Key::Char('d') && a.pending_insert() is None) || (key == Key::Char('c')
        && a.pending_insert() == Some(Key::Char('c'))) ==> b.ed().cur() == Seq::<char>::empty()
        && b.ed().cursor_pos() == 0 && b.modes() == a.modes().drop_last() && b.count_value() == 0)
    &&& (!movement_key(key) && !(key matches Key::Char(d) && 48 <= (d as u32) <= 57) && !((key == Key::Char('d')
        && a.pending_insert() is None) || (key == Key::Char('c') && a.pending_insert() == Some(Key::Char('c'))))
        ==> b.modes() == Seq::<Mode>::empty() && b.ed().cur() == t && b.ed().cursor_pos() == a.ed().cursor_pos()
        && b.count_value() == 0)
}

/// The effect of a key in replace mode: a character overwrites count characters when that
/// many remain, leaving the cursor on the last one; either way the mode is left.
pub open spec fn replace_effect(a: Vi, b: Vi, key: Key) -> bool {
    let t = a.ed().cur();
    let c = a.ed().cursor_pos();
    let n = count_or_one(a.count_value());
    &&& (!(key is Char) ==> b.modes() == Seq::<Mode>::empty() && b.ed().cur() == t && b.ed().cursor_pos() == c
        && b.count_value() == 0)
    &&& (key matches Key::Char(ch) && c + n <= t.len() ==> dot_state(
        b,
        None,
        seq![Key::Char('r'), key],
        a.count_value(),
    ))
    &&& (key matches Key::Char(ch) && c + n > t.len() ==> same_dot(a, b))
    &&& key matches Key::Char(ch) ==> {
        &&& b.modes() == a.modes().drop_last()
        &&& b.count_value() == 0
        &&& if c + n <= t.len() {
            &&& b.ed().cur() == t.take(c) + copies(ch, n as nat) + t.skip(c + n)
            &&& b.ed().cur_buf().actions() == (a.ed().cur_buf().actions().push(ActionV::StartGroup) + replace_pairs(
                t,
                c,
                ch,
                n,
            )).push(ActionV::EndGroup)
            &&& b.ed().cursor_pos() == (if a.ed().hint_active() { c + n } else { c + n - 1 })
        } else {
            b.ed().cur() == t && b.ed().cursor_pos() == c
        }
    }
}

/// The count for a delete or change: its own count times the one typed before the operator
/// (each counting only when set), saturating.
pub open spec fn combined_count(count: u32, secondary: u32) -> u32 {
    if count == 0 {
        secondary
    } else if secondary == 0 {
        count
    } else if secondary as int * count as int > u32::MAX {
        u32::MAX
    } else {
        (secondary as int * count as int) as u32
    }
}

/// What a key does in the current mode, where it is simple to say.
pub open spec fn key_effect(a: Vi, b: Vi, key: Key) -> bool {
    match top_mode(a.modes()) {
        Mode::Normal => normal_effect(a, b, key),
        Mode::Insert => insert_effect(a, b, key),
        Mode::Delete(_) => delete_effect(a, b, key),
        Mode::Replace => replace_effect(a, b, key),
    }
}

/// The Vi key map: keystrokes, interpreted through a stack of modes, drive an [`Editor`].
pub struct Vi {
    ed: Editor,
    mode_stack: ModeStack,
    current_command: Vec<Key>,
    last_command: Vec<Key>,
    current_insert: Option<Key>,
    last_insert: Option<Key>,
    count: u32,
    secondary_count: u32,
    last_count: u32,
    movement_reset: bool,
}

impl Vi {
    /// The editor is well formed, and it keeps the cursor off the end of the line exactly
    /// in normal mode.
    pub closed spec fn wf(&self) -> bool {
        &&& self.ed.wf()
        &&& self.ed.eol_blocked() == (top_mode(self.mode_stack.view()) == Mode::Normal)
    }

    pub closed spec fn ed(&self) -> Editor {
        self.ed
    }

    pub closed spec fn modes(&self) -> Seq<Mode> {
        self.mode_stack.view()
    }

    pub closed spec fn count_value(&self) -> u32 {
        self.count
    }

    /// The count typed before a pending operator.
    pub closed spec fn secondary_value(&self) -> u32 {
        self.secondary_count
    }

    /// The keys that `.` replays: the key that entered insert mode (if any), the recorded
    /// keys, and then Esc when insert mode was entered.
    pub closed spec fn dot_keys(&self) -> Seq<Key> {
        match self.last_insert {
            Some(k) => seq![k] + self.last_command@ + seq![Key::Esc],
            None => self.last_command@,
        }
    }

    /// This state with the count set to `n`.
    pub closed spec fn with_count(&self, n: u32) -> Vi {
        Vi { count: n, ..*self }
    }

    /// The count that `.` runs with: the typed one, else that of the command repeated, else 1.
    pub closed spec fn dot_count(&self) -> u32 {
        if self.count != 0 { self.count } else if self.last_count != 0 { self.last_count } else { 1 }
    }

    /// The key that began a pending change (`c`), if any.
    pub closed spec fn pending_insert(&self) -> Option<Key> {
        self.current_insert
    }

    /// The key that entered insert mode for the command `.` repeats, if any.
    pub closed spec fn last_insert_view(&self) -> Option<Key> {
        self.last_insert
    }

    /// The keys recorded for the command `.` repeats.
    pub closed spec fn last_command_view(&self) -> Seq<Key> {
        self.last_command@
    }

    /// The count of the command `.` repeats.
    pub closed spec fn last_count_view(&self) -> u32 {
        self.last_count
    }

    /// The keys recorded for a pending delete or change.
    pub closed spec fn current_command_view(&self) -> Seq<Key> {
        self.current_command@
    }

    /// The next key typed in insert mode starts a new command (and undo group), as after a
    /// movement.
    pub closed spec fn restarts(&self) -> bool {
        self.movement_reset
    }

    /// What `.` replays and with which count, in terms of the recorded command.
    pub proof fn lemma_dot(&self)
        ensures
            self.dot_keys() == (match self.last_insert_view() {
                Some(k) => seq![k] + self.last_command_view() + seq![Key::Esc],
                None => self.last_command_view(),
            }),
            self.dot_count() == (if self.count_value() != 0 {
                self.count_value()
            } else if self.last_count_view() != 0 {
                self.last_count_view()
            } else {
                1
            }),
    {
    }

    /// A well-formed key map's editor is well formed, and keeps the cursor off the end of the
    /// line exactly in normal mode (so in insert mode the cursor may rest at the end).
    pub proof fn lemma_wf(&self)
        requires
            self.wf(),
        ensures
            self.ed().wf(),
            self.ed().eol_blocked() == (top_mode(self.modes()) == Mode::Normal),
    {
    }

    /// Starts in insert mode, with an undo group open.
    pub fn new(ed: Editor) -> (r: Vi)
        requires
            ed.wf(),
        ensures
            r.wf(),
            r.modes() == seq![Mode::Insert],
            r.ed().cur() == ed.cur(),
            r.ed().cursor_pos() == ed.cursor_pos(),
            r.count_value() == 0,
            !r.ed().eol_blocked(),
            r.ed().hint_active() == ed.hint_active(),
            r.dot_keys() == seq![Key::Char('i'), Key::Esc],
            r.dot_count() == 1,
            r.pending_insert() is None,
            r.secondary_value() == 0,
            r.ed().cur_buf().actions() == ed.cur_buf().actions().push(ActionV::StartGroup),
    {
        let mut ed = ed;
        ed.set_no_eol(false);
        ed.start_undo_group();
        assert(seq![Key::Char('i')] + Seq::<Key>::empty() + seq![Key::Esc] =~= seq![Key::Char('i'), Key::Esc]);
        Vi {
            ed,
            mode_stack: ModeStack::with_insert(),
            current_command: Vec::new(),
            last_command: Vec::new(),
            current_insert: None,
            last_insert: Some(Key::Char('i')),
            count: 0,
            secondary_count: 0,
            last_count: 0,
            movement_reset: false,
        }
    }

    /// The editor.
    pub fn editor(&mut self) -> (r: &mut Editor)
        ensures
            *r == old(self).ed(),
            final(self).ed() == *final(r),
            final(self).modes() == old(self).modes(),
            final(self).count_value() == old(self).count_value(),
            old(self).wf() && final(r).wf() && final(r).eol_blocked() == old(self).ed().eol_blocked() ==> final(self).wf(),
    {
        &mut self.ed
    }

    /// The count typed so far.
    pub fn count(&self) -> (r: u32)
        ensures
            r == self.count_value(),
    {
        self.count
    }

    /// Sets the pending count.
    pub fn set_count(&mut self, count: u32)
        ensures
            final(self).count_value() == count,
            final(self).ed() == old(self).ed(),
            final(self).modes() == old(self).modes(),
            final(self).wf() == old(self).wf(),
    {
        self.count = count;
    }

    /// The current mode.
    pub fn mode(&self) -> (r: Mode)
        ensures
            r == top_mode(self.modes()),
    {
        self.mode_stack.mode()
    }

    /// Ends the session: the text of the line, and the context back.
    pub fn finish(self) -> (r: (String, crate::history::Context))
        requires
            self.wf(),
        ensures
            r.0@ == self.ed().cur(),
    {
        self.ed.finish()
    }

    fn set_mode(&mut self, mode: Mode)
        requires
            old(self).wf(),
        ensures
            final(self).current_command@ == old(self).current_command@,
            final(self).current_insert == old(self).current_insert,
            final(self).secondary_count == old(self).secondary_count,
            final(self).last_insert == old(self).last_insert,
            final(self).movement_reset == (mode != Mode::Insert),
            mode == Mode::Insert ==> final(self).last_count == 0 && final(self).last_command@ == Seq::<Key>::empty(),
            mode != Mode::Insert ==> final(self).last_command@ == old(self).last_command@,
            final(self).ed().hint_active() == old(self).ed().hint_active(),
            final(self).ed().cur_buf().actions() == (if mode == Mode::Insert {
                old(self).ed().cur_buf().actions().push(ActionV::StartGroup)
            } else {
                old(self).ed().cur_buf().actions()
            }),
            final(self).wf(),
            final(self).modes() == old(self).modes().push(mode),
            final(self).ed().cur() == old(self).ed().cur(),
            final(self).ed().cursor_pos() == old(self).ed().cursor_pos(),
            final(self).count == old(self).count,
            mode != Mode::Insert ==> final(self).last_count == old(self).last_count,
    {
        self.set_mode_preserve_last(mode);
        if mode == Mode::Insert {
            self.last_count = 0;
            self.last_command.clear();
        }
    }

    fn set_mode_preserve_last(&mut self, mode: Mode)
        requires
            old(self).wf(),
        ensures
            final(self).current_command@ == old(self).current_command@,
            final(self).current_insert == old(self).current_insert,
            final(self).secondary_count == old(self).secondary_count,
            final(self).last_insert == old(self).last_insert,
            final(self).last_command@ == old(self).last_command@,
            final(self).last_count == old(self).last_count,
            final(self).movement_reset == (mode != Mode::Insert),
            final(self).ed().hint_active() == old(self).ed().hint_active(),
            final(self).ed().cur_buf().actions() == (if mode == Mode::Insert {
                old(self).ed().cur_buf().actions().push(ActionV::StartGroup)
            } else {
                old(self).ed().cur_buf().actions()
            }),
            final(self).wf(),
            final(self).modes() == old(self).modes().push(mode),
            final(self).ed().cur() == old(self).ed().cur(),
            final(self).ed().cursor_pos() == old(self).ed().cursor_pos(),
            final(self).count == old(self).count,
            final(self).last_count == old(self).last_count,
    {
        self.ed.set_no_eol(mode == Mode::Normal);
        self.movement_reset = mode != Mode::Insert;
        self.mode_stack.push(mode);
        if mode == Mode::Insert {
            self.ed.start_undo_group();
        }
    }

    fn pop_mode_after_movement(&mut self)
        requires
            old(self).wf(),
            top_mode(old(self).modes()) == Mode::Normal || top_mode(old(self).modes()) is Delete,
        ensures
            !(top_mode(old(self).modes()) is Delete) ==> final(self).last_command@ == old(self).last_command@
                && final(self).last_insert == old(self).last_insert && final(self).last_count == old(self).last_count,
            top_mode(old(self).modes()) is Delete ==> final(self).last_command@ == old(self).current_command@
                && final(self).last_insert == old(self).current_insert && final(self).last_count == old(self).count
                && final(self).secondary_count == 0,
            final(self).ed().hint_active() == old(self).ed().hint_active(),
            final(self).wf(),
            final(self).modes() == (if old(self).modes().len() == 0 { old(self).modes() } else { old(self).modes().drop_last() }),
            after_motion(*old(self), *final(self), old(self).ed().cursor_pos()),
    {
        let popped = self.mode_stack.pop();
        let m = self.mode_stack.mode();
        self.ed.set_no_eol(m == Mode::Normal);
        self.movement_reset = m != Mode::Insert;
        match popped {
            Mode::Delete(start_pos) => {
                self.ed.delete_until(start_pos);
                std::mem::swap(&mut self.last_command, &mut self.current_command);
                self.last_insert = self.current_insert;
                self.last_count = self.count;
                self.count = 0;
                self.secondary_count = 0;
            },
            Mode::Normal => {
                self.count = 0;
            },
            _ => {},
        }
    }

    fn pop_mode(&mut self)
        requires
            old(self).wf(),
        ensures
            final(self).current_command@ == old(self).current_command@,
            final(self).current_insert == old(self).current_insert,
            final(self).secondary_count == old(self).secondary_count,
            final(self).last_insert == old(self).last_insert,
            final(self).last_command@ == old(self).last_command@,
            final(self).last_count == old(self).last_count,
            final(self).wf(),
            final(self).modes() == (if old(self).modes().len() == 0 { old(self).modes() } else { old(self).modes().drop_last() }),
            final(self).ed().cur() == old(self).ed().cur(),
            final(self).ed().cursor_pos() == old(self).ed().cursor_pos(),
            final(self).ed().hint_active() == old(self).ed().hint_active(),
            final(self).count == old(self).count,
            final(self).ed().cur_buf().actions() == (if top_mode(old(self).modes()) == Mode::Insert {
                old(self).ed().cur_buf().actions().push(ActionV::EndGroup)
            } else {
                old(self).ed().cur_buf().actions()
            }),
    {
        let last_mode = self.mode_stack.pop();
        let m = self.mode_stack.mode();
        self.ed.set_no_eol(m == Mode::Normal);
        self.movement_reset = m != Mode::Insert;
        if last_mode == Mode::Insert {
            self.ed.end_undo_group();
        }
    }

    /// Drops every pending mode and count: back to normal mode.
    fn normal_mode_abort(&mut self)
        requires
            old(self).wf(),
        ensures
            final(self).ed().hint_active() == old(self).ed().hint_active(),
            final(self).wf(),
            final(self).modes() == Seq::<Mode>::empty(),
            final(self).count == 0,
            final(self).ed().cur() == old(self).ed().cur(),
            final(self).ed().cursor_pos() == old(self).ed().cursor_pos(),
            same_dot(*old(self), *final(self)),
    {
        self.mode_stack.clear();
        self.ed.set_no_eol(true);
        self.count = 0;
    }

    /// The count for a movement: the typed count, or 1 when none was typed.
    pub fn move_count(&self) -> (r: usize)
        ensures
            r == (if self.count_value() == 0 { 1 } else { self.count_value() as int }),
    {
        if self.count == 0 {
            1
        } else {
            self.count as usize
        }
    }

    /// The movement count, limited to the characters left of the cursor.
    pub fn move_count_left(&self) -> (r: usize)
        requires
            self.wf(),
        ensures
            r == (if self.ed().cursor_pos() < (if self.count_value() == 0 { 1 } else { self.count_value() as int }) {
                self.ed().cursor_pos()
            } else {
                if self.count_value() == 0 { 1 } else { self.count_value() as int }
            }),
    {
        let c = self.ed.cursor();
        let m = self.move_count();
        if c < m { c } else { m }
    }

    /// The movement count, limited to the characters right of the cursor.
    pub fn move_count_right(&self) -> (r: usize)
        requires
            self.wf(),
        ensures
            r == (if self.ed().cur().len() - self.ed().cursor_pos() < (if self.count_value() == 0 { 1 } else { self.count_value() as int }) {
                self.ed().cur().len() - self.ed().cursor_pos()
            } else {
                if self.count_value() == 0 { 1 } else { self.count_value() as int }
            }),
            r + self.ed().cursor_pos() <= self.ed().cur().len(),
    {
        let n = self.ed.current_buffer().num_chars() - self.ed.cursor();
        let m = self.move_count();
        if n < m { n } else { m }
    }

    /// Replays the last command: the key that entered insert mode (if any), the recorded
    /// keys, then Esc.
    fn repeat(&mut self, depth: u8)
        requires
            old(self).wf(),
        ensures
            final(self).ed().hint_active() == old(self).ed().hint_active(),
            final(self).last_command@ == old(self).last_command@,
            final(self).wf(),
            depth > 0 ==> replays(*old(self), *final(self), old(self).dot_keys()),
        decreases depth, 0int,
    {
        let ghost a0 = *self;
        let ghost full = self.dot_keys();
        self.last_count = self.count;
        let mut keys: Vec<Key> = Vec::new();
        std::mem::swap(&mut keys, &mut self.last_command);
        let had_insert = self.last_insert;
        let ghost mut done: Seq<Key> = Seq::empty();
        let ghost mut st: Seq<Vi> = seq![*self];
        if depth > 0 {
            match had_insert {
                Some(insert_key) => {
                    self.dispatch(insert_key, depth - 1);
                    proof {
                        done = done.push(insert_key);
                        st = st.push(*self);
                    }
                },
                None => {},
            }
            let ghost pre = done;
            let mut i: usize = 0;
            while i < keys.len()
                invariant
                    self.wf(),
                    depth > 0,
                    self.ed().hint_active() == old(self).ed().hint_active(),
                    i <= keys@.len(),
                    done == pre + keys@.take(i as int),
                    st.len() == done.len() + 1,
                    st.last() == *self,
                    same_view(a0, st[0]),
                    forall|j: int| 0 <= j < done.len() ==> #[trigger] key_effect(st[j], st[j + 1], done[j]),
                decreases keys@.len() - i,
            {
                let k = keys[i];
                self.dispatch(k, depth - 1);
                proof {
                    let old_st = st;
                    let old_done = done;
                    done = done.push(k);
                    st = st.push(*self);
                    assert(done =~= pre + keys@.take(i + 1));
                    assert forall|j: int| 0 <= j < done.len() implies #[trigger] key_effect(st[j], st[j + 1], done[j]) by {
                        if j < done.len() - 1 {
                            assert(st[j] == old_st[j]);
                            assert(st[j + 1] == old_st[j + 1]);
                            assert(done[j] == old_done[j]);
                        }
                    }
                }
                i = i + 1;
            }
            assert(keys@.take(i as int) =~= keys@);
            if had_insert.is_some() {
                self.dispatch(Key::Esc, depth - 1);
                proof {
                    let old_st = st;
                    let old_done = done;
                    done = done.push(Key::Esc);
                    st = st.push(*self);
                    assert forall|j: int| 0 <= j < done.len() implies #[trigger] key_effect(st[j], st[j + 1], done[j]) by {
                        if j < done.len() - 1 {
                            assert(st[j] == old_st[j]);
                            assert(st[j + 1] == old_st[j + 1]);
                            assert(done[j] == old_done[j]);
                        }
                    }
                }
            }
            assert(done =~= full);
        }
        self.last_command = keys;
        proof {
            if depth > 0 {
                assert(same_view(st[full.len() as int], *self));
                assert(chain(a0, *self, full, st));
            }
        }
    }

    /// Keys that act the same in every mode.
    fn handle_key_common(&mut self, key: Key)
        requires
            old(self).wf(),
        ensures
            final(self).current_command@ == old(self).current_command@,
            final(self).current_insert == old(self).current_insert,
            final(self).secondary_count == old(self).secondary_count,
            final(self).last_insert == old(self).last_insert,
            final(self).last_command@ == old(self).last_command@,
            final(self).last_count == old(self).last_count,
            final(self).movement_reset == old(self).movement_reset,
            final(self).ed().hint_active() == old(self).ed().hint_active(),
            final(self).wf(),
            final(self).modes() == old(self).modes(),
            final(self).count == old(self).count,
            (key == Key::Left || key == Key::Right || key == Key::Home || key == Key::End) ==> final(self).ed().cur()
                == old(self).ed().cur() && final(self).ed().cursor_pos() == clamped(
                if key == Key::Home {
                    0
                } else if key == Key::End {
                    old(self).ed().cur().len() as int
                } else {
                    motion_target(*old(self), key, 1)
                },
                old(self).ed().cur().len() as int,
                old(self).ed().eol_blocked(),
            ),
            key == Key::Backspace ==> final(self).ed().cur() == (if old(self).ed().cursor_pos() > 0 {
                cut(old(self).ed().cur(), old(self).ed().cursor_pos() - 1, old(self).ed().cursor_pos())
            } else {
                old(self).ed().cur()
            }) && final(self).ed().cursor_pos() == clamped(
                if old(self).ed().cursor_pos() > 0 { old(self).ed().cursor_pos() - 1 } else { 0 },
                final(self).ed().cur().len() as int,
                old(self).ed().eol_blocked(),
            ),
            key == Key::Delete ==> final(self).ed().cur() == (if old(self).ed().cursor_pos() < old(self).ed().cur().len() {
                cut(old(self).ed().cur(), old(self).ed().cursor_pos(), old(self).ed().cursor_pos() + 1)
            } else {
                old(self).ed().cur()
            }) && final(self).ed().cursor_pos() == clamped(
                old(self).ed().cursor_pos(),
                final(self).ed().cur().len() as int,
                old(self).ed().eol_blocked(),
            ),
    {
        match key {
            Key::Ctrl('l') => self.ed.clear(),
            Key::Left => self.ed.move_cursor_left(1),
            Key::Right => self.ed.move_cursor_right(1),
            Key::Up => self.ed.move_up(),
            Key::Down => self.ed.move_down(),
            Key::Home => self.ed.move_cursor_to_start_of_line(),
            Key::End => self.ed.move_cursor_to_end_of_line(),
            Key::Backspace => self.ed.delete_before_cursor(),
            Key::Delete => self.ed.delete_after_cursor(),
            _ => {},
        }
    }

    /// After a movement in insert mode, the next edit starts a new undo group and a new
    /// command to repeat, as if `i` had been pressed.
    fn restart_insert_capture(&mut self)
        requires
            old(self).wf(),
        ensures
            final(self).current_command@ == old(self).current_command@,
            final(self).current_insert == old(self).current_insert,
            final(self).secondary_count == old(self).secondary_count,
            final(self).last_count == old(self).last_count,
            !final(self).movement_reset,
            final(self).last_insert == (if old(self).movement_reset { Some(Key::Char('i')) } else { old(self).last_insert }),
            final(self).last_command@ == (if old(self).movement_reset { Seq::<Key>::empty() } else { old(self).last_command@ }),
            final(self).ed().cur_buf().actions() == (if old(self).movement_reset {
                old(self).ed().cur_buf().actions().push(ActionV::EndGroup).push(ActionV::StartGroup)
            } else {
                old(self).ed().cur_buf().actions()
            }),
            final(self).ed().hint_active() == old(self).ed().hint_active(),
            final(self).ed().eol_blocked() == old(self).ed().eol_blocked(),
            final(self).wf(),
            final(self).modes() == old(self).modes(),
            final(self).count == old(self).count,
            final(self).ed().cur() == old(self).ed().cur(),
            final(self).ed().cursor_pos() == old(self).ed().cursor_pos(),
    {
        if self.movement_reset {
            self.ed.end_undo_group();
            self.ed.start_undo_group();
            self.last_command.clear();
            self.movement_reset = false;
            self.last_insert = Some(Key::Char('i'));
        }
    }

    fn handle_key_insert(&mut self, key: Key, depth: u8)
        requires
            old(self).wf(),
            top_mode(old(self).modes()) == Mode::Insert,
        ensures
            key == Key::Esc && depth > 0 ==> esc_repeats(*old(self), *final(self)),
            final(self).ed().hint_active() == old(self).ed().hint_active(),
            final(self).wf(),
            insert_effect(*old(self), *final(self), key),
        decreases depth, 1int,
    {
        match key {
            Key::Esc => {
                let ghost a0 = *self;
                let ghost mut rs: Seq<Vi> = seq![*self];
                if self.count > 0 {
                    let total = self.count;
                    self.last_count = total;
                    proof {
                        rs = seq![*self];
                    }
                    let mut n: u32 = 1;
                    if total > 1 {
                        while n < total
                            invariant
                                self.wf(),
                                self.ed().hint_active() == old(self).ed().hint_active(),
                                1 <= n <= total,
                                rs.len() == n as int,
                                rs.last() == *self,
                                same_view(a0, rs[0]),
                                rs[0].last_command_view() == a0.last_command_view(),
                                depth > 0 ==> forall|j: int| 0 <= j < rs.len() - 1 ==> #[trigger] replays(
                                    rs[j],
                                    rs[j + 1],
                                    rs[j].last_command_view(),
                                ),
                            decreases total - n,
                        {
                            let ghost s0 = *self;
                            let mut keys: Vec<Key> = Vec::new();
                            std::mem::swap(&mut keys, &mut self.last_command);
                            let ghost mut cst: Seq<Vi> = seq![*self];
                            if depth > 0 {
                                let mut i: usize = 0;
                                while i < keys.len()
                                    invariant
                                        self.wf(),
                                        self.ed().hint_active() == old(self).ed().hint_active(),
                                        depth > 0,
                                        i <= keys@.len(),
                                        cst.len() == i + 1,
                                        cst.last() == *self,
                                        same_view(s0, cst[0]),
                                        keys@ == s0.last_command_view(),
                                        forall|j: int| 0 <= j < i ==> #[trigger] key_effect(cst[j], cst[j + 1], keys@[j]),
                                    decreases keys@.len() - i,
                                {
                                    self.dispatch(keys[i], depth - 1);
                                    proof {
                                        let old_cst = cst;
                                        cst = cst.push(*self);
                                        assert forall|j: int| 0 <= j < i + 1 implies #[trigger] key_effect(cst[j], cst[j + 1], keys@[j]) by {
                                            if j < i {
                                                assert(cst[j] == old_cst[j]);
                                                assert(cst[j + 1] == old_cst[j + 1]);
                                            }
                                        }
                                    }
                                    i = i + 1;
                                }
                                proof {
                                    assert(same_view(cst[keys@.len() as int], *self));
                                    assert(chain(s0, *self, s0.last_command_view(), cst));
                                }
                            }
                            proof {
                                let old_rs = rs;
                                rs = rs.push(*self);
                                if depth > 0 {
                                    assert forall|j: int| 0 <= j < rs.len() - 1 implies #[trigger] replays(
                                        rs[j],
                                        rs[j + 1],
                                        rs[j].last_command_view(),
                                    ) by {
                                        if j < rs.len() - 2 {
                                            assert(rs[j] == old_rs[j]);
                                            assert(rs[j + 1] == old_rs[j + 1]);
                                        } else {
                                            assert(rs[j] == s0);
                                        }
                                    }
                                }
                            }
                            n = n + 1;
                        }
                    }
                    proof {
                        if depth > 0 && total > 1 {
                            assert(round_chain(a0, rs.last(), (total - 1) as int, rs));
                        }
                    }
                    self.count = 0;
                }
                let ghost m = rs.last();
                self.ed.move_cursor_left(1);
                self.pop_mode();
                proof {
                    if depth > 0 && a0.count_value() > 1 {
                        assert(esc_finish(m, *self));
                    }
                }
            },
            Key::Char(c) => {
                self.restart_insert_capture();
                self.last_command.push(key);
                self.ed.insert_after_cursor(c);
            },
            Key::Backspace | Key::Delete => {
                self.restart_insert_capture();
                self.last_command.push(key);
                self.handle_key_common(key);
            },
            Key::Left | Key::Right | Key::Home | Key::End => {
                self.count = 0;
                self.movement_reset = true;
                self.handle_key_common(key);
            },
            Key::Up => {
                self.count = 0;
                self.movement_reset = true;
                self.ed.end_undo_group();
                self.ed.move_up();
                self.ed.start_undo_group();
            },
            Key::Down => {
                self.count = 0;
                self.movement_reset = true;
                self.ed.end_undo_group();
                self.ed.move_down();
                self.ed.start_undo_group();
            },
            _ => self.handle_key_common(key),
        }
    }

    /// Undoes (or redoes) up to the movement count of groups, stopping at the first refusal.
    fn undo_redo_count(&mut self, redo: bool)
        requires
            old(self).wf(),
        ensures
            final(self).current_command@ == old(self).current_command@,
            final(self).current_insert == old(self).current_insert,
            final(self).secondary_count == old(self).secondary_count,
            final(self).last_insert == old(self).last_insert,
            final(self).last_command@ == old(self).last_command@,
            final(self).last_count == old(self).last_count,
            final(self).ed().hint_active() == old(self).ed().hint_active(),
            final(self).wf(),
            final(self).count == 0,
            final(self).modes() == old(self).modes(),
            !redo ==> final(self).ed().cur() == undos(
                old(self).ed().cur(),
                old(self).ed().cur_buf().actions(),
                count_or_one(old(self).count),
            ),
            redo ==> final(self).ed().cur() == redos(
                old(self).ed().cur(),
                old(self).ed().cur_buf().undone(),
                count_or_one(old(self).count),
            ),
    {
        let count = self.move_count();
        self.count = 0;
        let ghost target = if redo {
            redos(self.ed.cur(), self.ed.cur_buf().undone(), count as int)
        } else {
            undos(self.ed.cur(), self.ed.cur_buf().actions(), count as int)
        };
        let mut i: usize = 0;
        let mut go = true;
        while go && i < count
            invariant
                self.wf(),
                self.count == 0,
                self.modes() == old(self).modes(),
                self.ed().hint_active() == old(self).ed().hint_active(),
                self.current_command@ == old(self).current_command@,
                self.current_insert == old(self).current_insert,
                self.secondary_count == old(self).secondary_count,
                self.last_insert == old(self).last_insert,
                self.last_command@ == old(self).last_command@,
                self.last_count == old(self).last_count,
                i <= count,
                go ==> target == (if redo {
                    redos(self.ed.cur(), self.ed.cur_buf().undone(), count - i)
                } else {
                    undos(self.ed.cur(), self.ed.cur_buf().actions(), count - i)
                }),
                !go ==> self.ed.cur() == target,
            decreases count - i + (if go { 1int } else { 0int }),
        {
            let did = if redo { self.ed.redo() } else { self.ed.undo() };
            if !did {
                go = false;
            } else {
                i = i + 1;
            }
        }
    }

    fn handle_key_normal(&mut self, key: Key, depth: u8)
        requires
            old(self).wf(),
            top_mode(old(self).modes()) == Mode::Normal || top_mode(old(self).modes()) is Delete,
        ensures
            final(self).ed().hint_active() == old(self).ed().hint_active(),
            final(self).wf(),
            normal_effect(*old(self), *final(self), key),
            key == Key::Char('.') && depth > 0 ==> replays(
                old(self).with_count(old(self).dot_count()),
                *final(self),
                old(self).dot_keys(),
            ) && final(self).last_command_view() == old(self).last_command_view(),
        decreases depth, 1int,
    {
        match key {
            Key::Esc => {
                self.count = 0;
            },
            Key::Char('i') => {
                self.last_insert = Some(key);
                self.set_mode(Mode::Insert);
            },
            Key::Char('a') => {
                self.last_insert = Some(key);
                self.set_mode(Mode::Insert);
                self.ed.move_cursor_right(1);
            },
            Key::Char('A') => {
                self.last_insert = Some(key);
                self.set_mode(Mode::Insert);
                self.ed.move_cursor_to_end_of_line();
            },
            Key::Char('I') => {
                self.last_insert = Some(key);
                self.set_mode(Mode::Insert);
                self.ed.move_cursor_to_start_of_line();
            },
            Key::Char('s') => {
                self.last_insert = Some(key);
                self.set_mode(Mode::Insert);
                let pos = self.ed.cursor() + self.move_count_right();
                self.ed.delete_until(pos);
                self.last_count = self.count;
                self.count = 0;
            },
            Key::Char('r') => {
                self.set_mode(Mode::Replace);
            },
            Key::Char('d') | Key::Char('c') => {
                self.current_command.clear();
                if key == Key::Char('d') {
                    self.current_insert = None;
                    self.current_command.push(key);
                } else {
                    self.current_insert = Some(key);
                    self.current_command.clear();
                    self.set_mode(Mode::Insert);
                }
                let start_pos = self.ed.cursor();
                self.set_mode(Mode::Delete(start_pos));
                self.secondary_count = self.count;
                self.count = 0;
            },
            Key::Char('D') => {
                self.last_insert = None;
                self.last_command.clear();
                self.last_command.push(key);
                self.count = 0;
                self.last_count = 0;
                self.ed.delete_all_after_cursor();
            },
            Key::Char('C') => {
                self.last_insert = None;
                self.last_command.clear();
                self.last_command.push(key);
                self.count = 0;
                self.last_count = 0;
                self.set_mode_preserve_last(Mode::Insert);
                self.ed.delete_all_after_cursor();
            },
            Key::Char('.') => {
                self.count = if self.count != 0 {
                    self.count
                } else if self.last_count != 0 {
                    self.last_count
                } else {
                    1
                };
                assert(*self == old(self).with_count(old(self).dot_count()));
                self.repeat(depth);
            },
            Key::Char('h') | Key::Left | Key::Backspace => {
                let count = self.move_count_left();
                self.ed.move_cursor_left(count);
                self.pop_mode_after_movement();
            },
            Key::Char('l') | Key::Right | Key::Char(' ') => {
                let count = self.move_count_right();
                self.ed.move_cursor_right(count);
                self.pop_mode_after_movement();
            },
            Key::Char('k') | Key::Up => {
                self.ed.move_up();
                self.pop_mode_after_movement();
            },
            Key::Char('j') | Key::Down => {
                self.ed.move_down();
                self.pop_mode_after_movement();
            },
            Key::Char('$') => {
                self.ed.move_cursor_to_end_of_line();
                self.pop_mode_after_movement();
            },
            Key::Char('x') | Key::Delete => {
                self.last_insert = None;
                self.last_command.clear();
                self.last_command.push(key);
                self.last_count = self.count;
                let pos = self.ed.cursor() + self.move_count_right();
                proof {
                    assert(crate::buffer::remove_spec(self.ed.cur(), self.ed.cursor_pos(), pos as int)
                        =~= cut(self.ed.cur(), self.ed.cursor_pos(), pos as int));
                }
                self.ed.delete_until(pos);
                self.count = 0;
            },
            Key::Char('u') => {
                self.undo_redo_count(false);
            },
            Key::Ctrl('r') => {
                self.undo_redo_count(true);
            },
            Key::Char(d) => {
                if d == '0' && self.count == 0 {
                    self.ed.move_cursor_to_start_of_line();
                    self.pop_mode_after_movement();
                } else if '0' <= d && d <= '9' {
                    let i: u32 = (d as u32) - ('0' as u32);
                    let x: u64 = (self.count as u64) * 10 + (i as u64);
                    self.count = if x > u32::MAX as u64 { u32::MAX } else { x as u32 };
                } else {
                    self.handle_key_common(key);
                }
            },
            _ => self.handle_key_common(key),
        }
    }

    fn handle_key_replace(&mut self, key: Key)
        requires
            old(self).wf(),
            top_mode(old(self).modes()) == Mode::Replace,
        ensures
            final(self).ed().hint_active() == old(self).ed().hint_active(),
            final(self).wf(),
            final(self).count == 0,
            replace_effect(*old(self), *final(self), key),
    {
        match key {
            Key::Char(c) => {
                if self.move_count_right() == self.move_count() {
                    self.last_insert = None;
                    self.last_command.clear();
                    self.last_command.push(Key::Char('r'));
                    self.last_command.push(key);
                    assert(self.last_command@ =~= seq![Key::Char('r'), key]);
                    self.last_count = self.count;
                    self.ed.start_undo_group();
                    let n = self.move_count_right();
                    let ghost t = old(self).ed().cur();
                    let ghost c0 = old(self).ed().cursor_pos();
                    let ghost base = old(self).ed().cur_buf().actions().push(ActionV::StartGroup);
                    assert(base + replace_pairs(t, c0, c, 0) =~= base);
                    let mut i: usize = 0;
                    while i < n
                        invariant
                            self.wf(),
                            top_mode(self.modes()) == Mode::Replace,
                            !self.ed.eol_blocked(),
                            self.ed.hint_active() == old(self).ed().hint_active(),
                            self.modes() == old(self).modes(),
                            self.last_command@ == seq![Key::Char('r'), key],
                            self.last_insert.is_none(),
                            self.last_count == old(self).count,
                            0 <= c0,
                            c0 + n <= t.len(),
                            i <= n,
                            self.ed.cur() == t.take(c0) + copies(c, i as nat) + t.skip(c0 + i),
                            self.ed.cursor_pos() == c0 + i,
                            self.ed.cur_buf().actions() == base + replace_pairs(t, c0, c, i as int),
                        decreases n - i,
                    {
                        let ghost before = self.ed.cur();
                        proof {
                            assert(before.len() == t.len());
                            assert(before.take(c0 + i) =~= t.take(c0) + copies(c, i as nat));
                            assert(before.skip(c0 + i + 1) =~= t.skip(c0 + i + 1));
                        }
                        self.ed.delete_after_cursor();
                        proof {
                            assert(self.ed.cur() =~= t.take(c0) + copies(c, i as nat) + t.skip(c0 + i + 1));
                        }
                        self.ed.insert_after_cursor(c);
                        proof {
                            assert(self.ed.cur() =~= t.take(c0) + copies(c, (i + 1) as nat) + t.skip(c0 + i + 1));
                            assert(before[c0 + i] == t[c0 + i]);
                            assert(self.ed.cur_buf().actions() =~= base + replace_pairs(t, c0, c, i + 1));
                        }
                        i = i + 1;
                    }
                    self.ed.end_undo_group();
                    self.ed.move_cursor_left(1);
                }
                self.pop_mode();
            },
            _ => {
                self.normal_mode_abort();
            },
        }
        self.count = 0;
    }

    fn handle_key_delete_or_change(&mut self, key: Key, depth: u8)
        requires
            old(self).wf(),
            top_mode(old(self).modes()) is Delete,
        ensures
            final(self).ed().hint_active() == old(self).ed().hint_active(),
            final(self).wf(),
            delete_effect(*old(self), *final(self), key),
        decreases depth, 2int,
    {
        if is_movement_key(key) || (key == Key::Char('0') && self.count == 0) {
            self.count = if self.count == 0 {
                self.secondary_count
            } else if self.secondary_count == 0 {
                self.count
            } else {
                let a = self.secondary_count as u64;
                let b = self.count as u64;
                assert(a * b <= 0xffff_fffe_0000_0001) by (nonlinear_arith)
                    requires
                        a <= 0xffff_ffff,
                        b <= 0xffff_ffff,
                {
                }
                let x: u64 = a * b;
                assert(x as int == self.secondary_count as int * self.count as int);
                if x > u32::MAX as u64 { u32::MAX } else { x as u32 }
            };
            assert(self.count == combined_count(old(self).count, old(self).secondary_count));
            self.current_command.push(key);
            self.handle_key_normal(key, depth);
            assert(key == Key::Char('0') && old(self).count == 0 && old(self).secondary_count == 0 ==> after_motion(*old(self), *self, 0));
            assert(counted_motion(key) ==> after_motion(*old(self), *self, clamped(motion_target(*old(self), key, combined_count(old(self).count, old(self).secondary_count)), old(self).ed().cur().len() as int, old(self).ed().eol_blocked())));
        } else if key matches Key::Char('0'..='9') {
            self.handle_key_normal(key, depth);
        } else if (key == Key::Char('c') && self.current_insert == Some(Key::Char('c')))
            || (key == Key::Char('d') && self.current_insert.is_none()) {
            self.current_command.push(key);
            self.count = 0;
            self.secondary_count = 0;
            self.ed.move_cursor_to_start_of_line();
            self.ed.delete_all_after_cursor();
            assert(self.ed.cur() =~= Seq::<char>::empty());
            self.pop_mode();
        } else {
            self.normal_mode_abort();
        }
    }

    /// Handles a key in the current mode; `depth` bounds nested replays.
    fn dispatch(&mut self, key: Key, depth: u8)
        requires
            old(self).wf(),
        ensures
            top_mode(old(self).modes()) == Mode::Insert && key == Key::Esc && depth > 0 ==> esc_repeats(*old(self), *final(self)),
            final(self).ed().hint_active() == old(self).ed().hint_active(),
            top_mode(old(self).modes()) == Mode::Normal && key == Key::Char('.') && depth > 0 ==> replays(
                old(self).with_count(old(self).dot_count()),
                *final(self),
                old(self).dot_keys(),
            ) && final(self).last_command_view() == old(self).last_command_view(),
            final(self).wf(),
            key_effect(*old(self), *final(self), key),
        decreases depth, 3int,
    {
        match self.mode_stack.mode() {
            Mode::Normal => self.handle_key_normal(key, depth),
            Mode::Insert => self.handle_key_insert(key, depth),
            Mode::Replace => self.handle_key_replace(key),
            Mode::Delete(_) => self.handle_key_delete_or_change(key, depth),
        }
    }

    /// Handles a key in the current mode.
    pub fn handle_key_core(&mut self, key: Key)
        requires
            old(self).wf(),
        ensures
            top_mode(old(self).modes()) == Mode::Insert && key == Key::Esc ==> esc_repeats(*old(self), *final(self)),
            final(self).ed().hint_active() == old(self).ed().hint_active(),
            top_mode(old(self).modes()) == Mode::Normal && key == Key::Char('.') ==> replays(
                old(self).with_count(old(self).dot_count()),
                *final(self),
                old(self).dot_keys(),
            ) && final(self).last_command_view() == old(self).last_command_view(),
            final(self).wf(),
            key_effect(*old(self), *final(self), key),
    {
        self.dispatch(key, REPLAY_DEPTH);
    }

    /// Handles one keystroke, with `completer` serving Tab. Enter may finish the line
    /// (`Ok(true)`); Ctrl-C, and Ctrl-D on an empty line, end it with an error. Ctrl-F,
    /// and Right at the end of the line, take a shown autosuggestion. Every other key goes
    /// to the current mode and hides the completion grid.
    pub fn handle_key_with<C: Completer>(&mut self, key: Key, completer: Option<&C>) -> (r: Result<bool, KeyError>)
        requires
            old(self).wf(),
        ensures
            key != Key::Char('\t') && !old(self).ed().hint_active() ==> !final(self).ed().hint_active(),
            top_mode(old(self).modes()) == Mode::Insert && key == Key::Esc && !old(self).ed().hint_active() ==> esc_repeats(*old(self), *final(self)),
            top_mode(old(self).modes()) == Mode::Normal && key == Key::Char('.') && !old(self).ed().hint_active() ==> replays(
                old(self).with_count(old(self).dot_count()),
                *final(self),
                old(self).dot_keys(),
            ) && final(self).last_command_view() == old(self).last_command_view(),
            final(self).wf(),
            r == Ok::<bool, KeyError>(true) ==> key == Key::Char('\n'),
            key == Key::Ctrl('c') ==> r == Err::<bool, KeyError>(KeyError::Interrupted),
            key == Key::Ctrl('d') && old(self).ed().cur().len() == 0 ==> r == Err::<bool, KeyError>(KeyError::EndOfInput),
            key != Key::Ctrl('h') && key != Key::Ctrl('c') && key != Key::Ctrl('d') && key != Key::Char('\t')
                && key != Key::Char('\n') && key != Key::Ctrl('f') && (key != Key::Right
                || !old(self).ed().suggestion_shown() || !old(self).ed().at_end())
                && !old(self).ed().hint_active() ==> key_effect(*old(self), *final(self), key) && r == Ok::<bool, KeyError>(false),
            key == Key::Char('\n') && !old(self).ed().searching() ==> (r == Ok::<bool, KeyError>(true)
                <==> !old(self).ed().hint_active() && !(old(self).ed().cursor_pos() > 0
                && old(self).ed().cur()[old(self).ed().cursor_pos() - 1] == '\\')),
    {
        let key = if key == Key::Ctrl('h') { Key::Backspace } else { key };
        let is_empty = self.ed.current_buffer().is_empty();
        if key == Key::Ctrl('c') {
            self.ed.handle_newline();
            return Err(KeyError::Interrupted);
        }
        if key == Key::Ctrl('d') && is_empty {
            self.ed.handle_newline();
            return Err(KeyError::EndOfInput);
        }
        let mut done = false;
        if key == Key::Char('\t') {
            self.ed.complete(completer, CompleteType::Next);
        } else if key == Key::Char('\n') {
            done = self.ed.handle_newline();
        } else if key == Key::Ctrl('f') && self.ed.is_currently_showing_autosuggestion() {
            self.ed.accept_autosuggestion();
        } else if key == Key::Right && self.ed.is_currently_showing_autosuggestion()
            && self.ed.cursor_is_at_end_of_line() {
            self.ed.accept_autosuggestion();
        } else {
            self.handle_key_core(key);
            let ghost mid = *self;
            self.ed.skip_completions_hint();
            assert(!old(self).ed().hint_active() ==> *self == mid);
            assert(self.count == mid.count && self.mode_stack == mid.mode_stack);
        }
        Ok(done)
    }

    /// Handles one keystroke, with no completer: Tab completes nothing.
    pub fn handle_key(&mut self, key: Key) -> (r: Result<bool, KeyError>)
        requires
            old(self).wf(),
        ensures
            key != Key::Char('\t') && !old(self).ed().hint_active() ==> !final(self).ed().hint_active(),
            top_mode(old(self).modes()) == Mode::Insert && key == Key::Esc && !old(self).ed().hint_active() ==> esc_repeats(*old(self), *final(self)),
            top_mode(old(self).modes()) == Mode::Normal && key == Key::Char('.') && !old(self).ed().hint_active() ==> replays(
                old(self).with_count(old(self).dot_count()),
                *final(self),
                old(self).dot_keys(),
            ) && final(self).last_command_view() == old(self).last_command_view(),
            final(self).wf(),
            key != Key::Ctrl('h') && key != Key::Ctrl('c') && key != Key::Ctrl('d') && key != Key::Char('\t')
                && key != Key::Char('\n') && key != Key::Ctrl('f') && (key != Key::Right
                || !old(self).ed().suggestion_shown() || !old(self).ed().at_end())
                && !old(self).ed().hint_active() ==> key_effect(*old(self), *final(self), key) && r == Ok::<bool, KeyError>(false),
            key == Key::Char('\n') && !old(self).ed().searching() ==> (r == Ok::<bool, KeyError>(true)
                <==> !old(self).ed().hint_active() && !(old(self).ed().cursor_pos() > 0
                && old(self).ed().cur()[old(self).ed().cursor_pos() - 1] == '\\')),
            r == Ok::<bool, KeyError>(true) ==> key == Key::Char('\n'),
            key == Key::Ctrl('c') ==> r == Err::<bool, KeyError>(KeyError::Interrupted),
            key == Key::Ctrl('d') && old(self).ed().cur().len() == 0 ==> r == Err::<bool, KeyError>(KeyError::EndOfInput),
    {
        self.handle_key_with::<NoCompleter>(key, None)
    }
}

/// A completer that offers nothing.
pub struct NoCompleter;

impl Completer for NoCompleter {
    fn completions(&self, _start: &str) -> Vec<String> {
        Vec::new()
    }
}

impl Vi {
    /// The text of the line.
    pub fn into_text(self) -> (r: String)
        ensures
            self.wf() ==> r@ == self.ed().cur(),
    {
        self.ed.into_text()
    }
}

impl From<Vi> for String {
    fn from(vi: Vi) -> String {
        vi.into_text()
    }
}

impl vstd::std_specs::convert::FromSpecImpl<Vi> for String {
    open spec fn obeys_from_spec() -> bool {
        false
    }

    open spec fn from_spec(vi: Vi) -> String {
        arbitrary()
    }
}



} // verus!
