use crate::ansi::{
    bg_seq, cap16, clear_after_seq, clear_all_seq, goto_origin_seq, csi, decimal, fg_seq, push_all, push_bg, push_clear_after, push_clear_all,
    push_csi, push_decimal, push_fg, push_goto_origin, push_reset_bg, push_reset_fg, reset_bg_seq, reset_fg_seq,
};
use crate::buffer::{cut, is_prefix, remove_lo, removed_spec, redo_run, remove_spec, revert_run, spliced, undo_run, ActionV, Buffer};
use crate::complete::{common_prefix, lcp, sort_dedup, step_completion, step_index, strictly_sorted, views, CompleteType};
use crate::history::{
    buffer_words, get_buffer_words, lemma_matching_indices_bounded, matching_indices, newest_match, Completer,
    Context,
};
use crate::layout::{
    calc_total_width, calc_width, grid_col_width, grid_cols, grid_items, handle_prompt, last_line,
    lemma_calc_width_range, lemma_max_word_range, max_word, remove_codes, sat, strip_from,
};
use crate::position::{position_of, spans_ok, CursorPosition};
use crate::text::{chars_of, display_width, line_widths, lines_of, lines_view, split_lines, string_of, width_of, widths_of};
use vstd::prelude::*;

verus! {

/// The terminal width assumed until the host reports one.
pub const DEFAULT_TERMINAL_WIDTH: usize = 80;

/// The cursor after a redraw: within the text, and off the end in Vi normal mode.
pub open spec fn clamped(c: int, len: int, no_eol: bool) -> int {
    let c1 = if c > len { len } else { c };
    if no_eol && c1 != 0 && c1 == len { c1 - 1 } else { c1 }
}

/// Where a refreshed search selects: the first match at or after the previously selected
/// history index (going forward), or the last one at or before it (going back); with no
/// previous selection, the first (forward) or last (back) match.
pub open spec fn refreshed_loc(sub: Seq<usize>, target: Option<usize>, forward: bool) -> Option<usize> {
    if sub.len() == 0 {
        None
    } else {
        match target {
            Some(t) => {
                if exists|i: int| 0 <= i < sub.len() && t <= #[trigger] sub[i] {
                    let i = choose|i: int| 0 <= i < sub.len() && t <= #[trigger] sub[i]
                        && forall|j: int| 0 <= j < i ==> !(t <= #[trigger] sub[j]);
                    Some((if forward || t == sub[i] || i == 0 { i } else { i - 1 }) as usize)
                } else {
                    Some((if forward { 0 } else { sub.len() - 1 }) as usize)
                }
            },
            None => Some((if forward { 0 } else { sub.len() - 1 }) as usize),
        }
    }
}

/// `b` is `a` after an edit that left text `t` in the current buffer with the cursor at
/// `c` before the redraw clamped it; nothing else changed.
pub open spec fn after_edit(a: &Editor, b: &Editor, t: Seq<char>, c: int) -> bool {
    &&& b.wf()
    &&& Editor::kept(a, b)
    &&& b.held_suggestion() == b.suggestion()
    &&& b.eol_blocked() == a.eol_blocked()
    &&& b.hint_active() == a.hint_active()
    &&& b.searching() == a.searching()
    &&& b.loc() == a.loc()
    &&& b.cur() == t
    &&& b.cursor_pos() == clamped(c, t.len() as int, a.eol_blocked())
    &&& (forall|i: int| 0 <= i < a.hist().len() && Some(i as usize) != a.loc()
        ==> #[trigger] b.hist()[i] == a.hist()[i])
    &&& (a.loc() is Some ==> b.new_text() == a.new_text())
}

/// The word span that word-wise deletion and completion work on, by where the cursor sits:
/// inside or at the right edge of a word, that word; at a left edge or in space, the word
/// to the left, but only when space before the cursor is to be skipped.
pub open spec fn word_before(words: Seq<(usize, usize)>, pos: CursorPosition, ignore_space: bool) -> Option<(usize, usize)> {
    match pos {
        CursorPosition::InWord(i) => if i < words.len() { Some(words[i as int]) } else { None },
        CursorPosition::InSpace(Some(i), _) => if ignore_space && i < words.len() { Some(words[i as int]) } else { None },
        CursorPosition::InSpace(None, _) => None,
        CursorPosition::OnWordLeftEdge(i) => if ignore_space && i > 0 && i - 1 < words.len() {
            Some(words[i - 1])
        } else {
            None
        },
        CursorPosition::OnWordRightEdge(i) => if i < words.len() { Some(words[i as int]) } else { None },
    }
}

/// A well-formed editor's cursor lies within its text, which fits in memory.
pub broadcast proof fn lemma_wf_cursor(e: &Editor)
    requires
        #[trigger] e.wf(),
    ensures
        0 <= e.cursor_pos() <= e.cur().len(),
        e.cur().len() <= usize::MAX,
        e.hist().len() <= usize::MAX,
        e.cur_buf()@ == e.cur(),
{
    e.lemma_cursor_range();
    e.lemma_cur_buf();
}

/// What a well-formed editor guarantees: the cursor lies in the text, at most one search
/// direction is on, and the selected match is a valid index into the matches.
pub proof fn lemma_invariants(e: &Editor)
    requires
        e.wf(),
    ensures
        0 <= e.cursor_pos() <= e.cur().len(),
        !(e.forward() && e.reverse()),
        e.subset_loc() matches Some(l) ==> l < e.subset().len(),
        forall|k: int| 0 <= k < e.subset().len() ==> #[trigger] e.subset()[k] < e.hist().len(),
        e.cur_buf()@ == e.cur(),
{
    e.lemma_cursor_range();
    e.lemma_cur_buf();
}

/// After a redraw in Vi normal mode the cursor rests on a character of a non-empty line.
pub proof fn lemma_clamped_no_eol(c: int, len: int)
    requires
        0 <= c,
        len > 0,
    ensures
        0 <= clamped(c, len, true) <= len - 1,
{
}

/// Inserting one character and then deleting the character before the cursor gives back
/// the text and the cursor (outside Vi normal mode, where the cursor may rest at the end).
pub proof fn lemma_insert_then_delete(e1: &Editor, e2: &Editor, e3: &Editor, c: char)
    requires
        e1.wf(),
        !e1.eol_blocked(),
        e1.cur().len() + 1 <= usize::MAX,
        after_edit(e1, e2, spliced(e1.cur(), e1.cursor_pos(), seq![c]), e1.cursor_pos() + 1),
        after_edit(
            e2,
            e3,
            if e2.cursor_pos() > 0 { cut(e2.cur(), e2.cursor_pos() - 1, e2.cursor_pos()) } else { e2.cur() },
            if e2.cursor_pos() > 0 { e2.cursor_pos() - 1 } else { 0 },
        ),
    ensures
        e3.cur() == e1.cur(),
        e3.cursor_pos() == e1.cursor_pos(),
{
    e1.lemma_cursor_range();
    assert(cut(e2.cur(), e2.cursor_pos() - 1, e2.cursor_pos()) =~= e1.cur());
}

/// Undo right after an undo group that holds one insertion gives back the text from
/// before the group.
pub proof fn lemma_undo_restores_group(e1: &Editor, e2: &Editor, e3: &Editor, e4: &Editor, e5: &Editor, cs: Seq<char>)
    requires
        e1.wf(),
        e1.cur().len() + cs.len() <= usize::MAX,
        e2.wf(),
        e2.cur() == e1.cur(),
        e2.cursor_pos() == e1.cursor_pos(),
        e2.cur_buf().actions() == e1.cur_buf().actions().push(ActionV::StartGroup),
        after_edit(e2, e3, spliced(e2.cur(), e2.cursor_pos(), cs), e2.cursor_pos() + cs.len()),
        e3.cur_buf().actions() == e2.cur_buf().actions().push(ActionV::Insert(e2.cursor_pos(), cs)),
        e4.wf(),
        e4.cur() == e3.cur(),
        e4.cur_buf().actions() == e3.cur_buf().actions().push(ActionV::EndGroup),
        e5.cur() == undo_run(e4.cur(), e4.cur_buf().actions(), 0, false).0,
    ensures
        e5.cur() == e1.cur(),
{
    e1.lemma_cursor_range();
    crate::buffer::lemma_undo_group_insert(e1.cur(), e1.cur_buf().actions(), e1.cursor_pos(), cs);
    assert(crate::buffer::insert_spec(e1.cur(), e1.cursor_pos(), cs) == spliced(e1.cur(), e1.cursor_pos(), cs));
    assert(e1.cur_buf().actions().push(ActionV::StartGroup).push(ActionV::Insert(e1.cursor_pos(), cs)).push(
        ActionV::EndGroup,
    ) == e4.cur_buf().actions());
}

/// `s` with each newline written as CR LF.
pub open spec fn crlf(s: Seq<char>) -> Seq<char>
    decreases s.len(),
{
    if s.len() == 0 {
        Seq::<char>::empty()
    } else {
        crlf(s.drop_last()) + (if s.last() == '\n' { seq!['\r', '\n'] } else { seq![s.last()] })
    }
}

/// `n` spaces.
pub open spec fn spaces(n: int) -> Seq<char> {
    Seq::new(if n < 0 { 0 } else { n as nat }, |_i: int| ' ')
}

/// The drawing of one line of the buffer body, when `remaining` characters of the buffer
/// itself are still to come: continuation lines are indented past the prompt, and what lies
/// beyond the buffer (the autosuggestion) is drawn in the shadow colour, as everything is
/// while searching.
pub open spec fn line_piece(line: Seq<char>, first: bool, last: bool, remaining: int, searching: bool, pw: int) -> Seq<char> {
    let lead = if !first { csi(cap16(pw), 'C') } else { Seq::<char>::empty() };
    let tail = if !last { seq!['\r', '\n'] } else { Seq::<char>::empty() };
    lead + line_mid(line, remaining, searching) + tail
}

/// The characters of one body line, with the colour change where the buffer ends.
pub open spec fn line_mid(line: Seq<char>, remaining: int, searching: bool) -> Seq<char> {
    let shade = fg_seq('3');
    if remaining == 0 {
        line
    } else if line.len() > remaining {
        (if searching { shade } else { Seq::<char>::empty() }) + line.take(remaining) + (if !searching {
            shade
        } else {
            Seq::<char>::empty()
        }) + line.skip(remaining)
    } else {
        (if searching { shade } else { Seq::<char>::empty() }) + line
    }
}

/// What a redraw writes, from its parts: the move up to the prompt's first row, the mark
/// for output that did not end its line, a clear to the end of the screen, the completion
/// grid, the prompt, the body, the colour reset, a line break when the text ends exactly at
/// the right margin, and the moves that put the terminal cursor on the text cursor.
pub open spec fn drawing(
    tcl: int,
    no_newline: bool,
    w: int,
    grid: Seq<char>,
    prompt: Seq<char>,
    body: Seq<char>,
    reset: bool,
    total: int,
    new_lines: int,
    term_line: int,
    to_cursor: int,
) -> Seq<char> {
    drawing_head(tcl, no_newline, w, grid, prompt) + drawing_tail(w, body, reset, total, new_lines, term_line, to_cursor)
}

/// The part of a redraw up to and including the prompt.
pub open spec fn drawing_head(tcl: int, no_newline: bool, w: int, grid: Seq<char>, prompt: Seq<char>) -> Seq<char> {
    let up = if tcl > 1 { csi(cap16(tcl - 1), 'A') } else { Seq::<char>::empty() };
    let mark = if !no_newline { seq!['\u{23ce}'] + spaces(w - 1) } else { Seq::<char>::empty() };
    up + mark + seq!['\r'] + clear_after_seq() + grid + prompt
}

/// The part of a redraw after the prompt.
pub open spec fn drawing_tail(w: int, body: Seq<char>, reset: bool, total: int, new_lines: int, term_line: int, to_cursor: int) -> Seq<char> {
    body + (if reset { reset_fg_seq() } else { Seq::<char>::empty() }) + (if total % w == 0 {
        seq!['\r', '\n']
    } else {
        Seq::<char>::empty()
    }) + cursor_moves(w, total, new_lines, term_line, to_cursor)
}

/// The moves from the end of the drawing (on its last row) to the text cursor: up by the
/// rows between them, then left or right by the columns between them.
pub open spec fn cursor_moves(w: int, total: int, new_lines: int, term_line: int, to_cursor: int) -> Seq<char> {
    let diff = new_lines - term_line;
    let col = total - to_cursor - diff * w;
    (if diff > 0 { csi(cap16(diff), 'A') } else { Seq::<char>::empty() }) + (if col > 0 {
        csi(cap16(col), 'D')
    } else if col < 0 {
        csi(cap16(-col), 'C')
    } else {
        Seq::<char>::empty()
    })
}

/// The candidates and highlight of a completion grid.
pub open spec fn hint_view(h: Option<(Vec<Vec<char>>, Option<usize>)>) -> Option<(Seq<Seq<char>>, Option<usize>)> {
    match h {
        Some((c, hl)) => Some((views(c@), hl)),
        None => None,
    }
}

/// The drawing of a completion grid, with its closing line break; nothing without one.
pub open spec fn grid_drawing(h: Option<(Seq<Seq<char>>, Option<usize>)>, w: int) -> Seq<char> {
    match h {
        Some((c, hl)) => grid_from(c, 0, 0, grid_cols(w, max_word(c)), grid_col_width(w, max_word(c)), hl) + seq![
            '\r',
            '\n',
        ],
        None => Seq::<char>::empty(),
    }
}

/// The rows that a completion grid takes.
pub open spec fn grid_rows_of(h: Option<(Seq<Seq<char>>, Option<usize>)>, w: int) -> int {
    match h {
        Some((c, _)) => (c.len() - 1) / grid_cols(w, max_word(c)) + 1,
        None => 0,
    }
}

/// One cell of the completion grid: the candidate padded to the cell width, inverted when
/// highlighted.
pub open spec fn grid_cell(word: Seq<char>, cw: int, on: bool) -> Seq<char> {
    (if on { fg_seq('0') + bg_seq('7') } else { Seq::<char>::empty() }) + word + spaces(cw - word.len())
        + (if on { reset_bg_seq() + reset_fg_seq() } else { Seq::<char>::empty() })
}

/// The drawing of candidates `c[k..]` in `cols` columns of cells `cw` wide, `col` cells of
/// the current row being used; rows are broken with CR LF.
pub open spec fn grid_from(c: Seq<Seq<char>>, k: int, col: int, cols: int, cw: int, hl: Option<usize>) -> Seq<char>
    decreases c.len() - k,
{
    if k < 0 || k >= c.len() {
        Seq::<char>::empty()
    } else {
        let brk = if col == cols { seq!['\r', '\n'] } else { Seq::<char>::empty() };
        brk + grid_cell(c[k], cw, hl == Some(k as usize)) + grid_from(
            c,
            k + 1,
            (if col == cols { 0 } else { col }) + 1,
            cols,
            cw,
            hl,
        )
    }
}

/// The buffer characters still to come after drawing `line`.
pub open spec fn rest_after(line: Seq<char>, remaining: int) -> int {
    if remaining == 0 || line.len() > remaining { 0 } else { remaining - line.len() }
}

/// The drawing of `lines[i..]`.
pub open spec fn body_from(lines: Seq<Seq<char>>, i: int, remaining: int, searching: bool, pw: int) -> Seq<char>
    decreases lines.len() - i,
{
    if i < 0 || i >= lines.len() {
        Seq::<char>::empty()
    } else {
        line_piece(lines[i], i == 0, i + 1 >= lines.len(), remaining, searching, pw) + body_from(
            lines,
            i + 1,
            rest_after(lines[i], remaining),
            searching,
            pw,
        )
    }
}

/// With a completion grid shown, completing with Next and then with Prev highlights the
/// candidate that was highlighted before.
pub proof fn lemma_cycle_next_prev(e1: &Editor, e2: &Editor, e3: &Editor, c: Seq<Seq<char>>, i: usize)
    requires
        e1.hint() == Some((c, Some(i))),
        i < c.len(),
        e2.hint() == Some((c, Some(step_index(i as int, CompleteType::Next, c.len() as int, e1.grid_columns(c)) as usize))),
        e3.hint() == Some((
            c,
            Some(step_index(
                step_index(i as int, CompleteType::Next, c.len() as int, e1.grid_columns(c)),
                CompleteType::Prev,
                c.len() as int,
                e2.grid_columns(c),
            ) as usize),
        )),
    ensures
        e3.hint() == e1.hint(),
{
    crate::complete::lemma_next_then_prev(i as int, c.len() as int, e1.grid_columns(c));
}

/// What the history walk, the autosuggestion and its acceptance select, in terms of the
/// editor's public views.
pub proof fn lemma_selection_views(e: &Editor)
    ensures
        e.up_target() == (if e.new_text().len() > 0 {
            match e.subset_loc() {
                Some(i) => if i > 0 { Some(e.subset()[i - 1]) } else { e.loc() },
                None => {
                    let sub = matching_indices(e.hist(), e.new_text(), true, e.hist().len() as int);
                    if sub.len() > 0 { Some(sub.last()) } else { e.loc() }
                },
            }
        } else {
            match e.loc() {
                Some(i) => if i > 0 { Some((i - 1) as usize) } else { e.loc() },
                None => if e.hist().len() > 0 { Some((e.hist().len() - 1) as usize) } else { None },
            }
        }),
        e.down_target() == (if e.new_text().len() > 0 {
            match e.subset_loc() {
                Some(i) => if i + 1 < e.subset().len() { Some(e.subset()[i + 1]) } else { None },
                None => e.loc(),
            }
        } else {
            match e.loc() {
                Some(i) => if i + 1 < e.hist().len() { Some((i + 1) as usize) } else { None },
                None => None,
            }
        }),
        e.suggestion() == (if e.searching() {
            if e.subset().len() > 0 && e.subset_loc() is Some {
                Some(e.hist()[e.subset()[e.subset_loc()->0 as int] as int])
            } else {
                None
            }
        } else if e.suggestions_on() {
            match e.loc() {
                Some(i) => Some(e.hist()[i as int]),
                None => match newest_match(e.hist(), e.new_text(), e.hist().len() as int) {
                    Some(i) => Some(e.hist()[i as int]),
                    None => None,
                },
            }
        } else {
            None
        }),
        e.accepted() == (match e.held_suggestion() {
            Some(x) => if !e.suggestions_on() {
                e.cur()
            } else if e.searching() {
                x
            } else if x.len() > e.cur().len() && e.cur().len() + x.len() <= usize::MAX {
                e.cur() + x.skip(e.cur().len() as int)
            } else {
                e.cur()
            },
            None => e.cur(),
        }),
{
}

/// The core line editor: the line being composed or a history entry being edited, the
/// cursor, and the state of completion, incremental search and autosuggestion. Every edit
/// is followed by a redraw, whose terminal output collects until the host takes it.
pub struct Editor {
    prompt: Vec<char>,
    context: Context,
    cursor: usize,
    new_buf: Buffer,
    cur_history_loc: Option<usize>,
    term_cursor_line: usize,
    show_completions_hint: Option<(Vec<Vec<char>>, Option<usize>)>,
    show_autosuggestions: bool,
    no_eol: bool,
    no_newline: bool,
    reverse_search: bool,
    forward_search: bool,
    buffer_changed: bool,
    history_subset_index: Vec<usize>,
    history_subset_loc: Option<usize>,
    autosuggestion: Option<Vec<char>>,
    terminal_width: usize,
    output: Vec<char>,
}

impl Editor {
    /// The texts of the history entries.
    pub closed spec fn hist(&self) -> Seq<Seq<char>> {
        self.context.history.view()
    }

    /// The text of the line being composed.
    pub closed spec fn new_text(&self) -> Seq<char> {
        self.new_buf@
    }

    /// Which buffer is being edited: `None` for the new line, else a history index.
    pub closed spec fn loc(&self) -> Option<usize> {
        self.cur_history_loc
    }

    /// The text of the buffer being edited.
    pub closed spec fn cur(&self) -> Seq<char> {
        match self.cur_history_loc {
            Some(i) => self.hist()[i as int],
            None => self.new_buf@,
        }
    }

    /// When the cursor may not rest past the last character, it does not.
    pub open spec fn settled(&self) -> bool {
        self.eol_blocked() && self.cur().len() > 0 ==> self.cursor_pos() < self.cur().len()
    }

    /// The cursor rests on the last position it may take.
    pub open spec fn at_end(&self) -> bool {
        if self.eol_blocked() && self.cur().len() > 0 {
            self.cursor_pos() + 1 == self.cur().len()
        } else {
            self.cursor_pos() == self.cur().len()
        }
    }

    /// Autosuggestions are enabled.
    pub closed spec fn suggestions_on(&self) -> bool {
        self.show_autosuggestions
    }

    /// The prompt as set.
    pub closed spec fn prompt_view(&self) -> Seq<char> {
        self.prompt@
    }

    /// The next redraw first marks output that did not end its line.
    pub closed spec fn mark_pending(&self) -> bool {
        !self.no_newline
    }

    /// This state with the terminal cursor on the first row: what a new editor draws from.
    pub closed spec fn fresh(&self) -> Editor {
        Editor { term_cursor_line: 1, ..*self }
    }

    /// The state that clearing the screen redraws: no search, the terminal cursor on the
    /// first row, no mark for unfinished output.
    pub closed spec fn cleared(&self) -> Editor {
        Editor {
            term_cursor_line: 1,
            no_newline: true,
            reverse_search: false,
            forward_search: false,
            history_subset_loc: None,
            ..*self
        }
    }

    /// The state in which a finished line is drawn a last time: cursor at the end, no mark
    /// for unfinished output, no search.
    pub closed spec fn finishing(&self) -> Editor {
        Editor {
            cursor: self.cur().len() as usize,
            no_newline: true,
            reverse_search: false,
            forward_search: false,
            history_subset_loc: None,
            ..*self
        }
    }

    /// The cursor may not rest past the last character (Vi normal mode).
    pub closed spec fn eol_blocked(&self) -> bool {
        self.no_eol
    }

    pub closed spec fn cursor_pos(&self) -> int {
        self.cursor as int
    }

    /// A grid of completion candidates is being shown.
    pub closed spec fn hint_active(&self) -> bool {
        self.show_completions_hint is Some
    }

    /// An incremental search is under way.
    pub closed spec fn searching(&self) -> bool {
        self.reverse_search || self.forward_search
    }

    pub closed spec fn forward(&self) -> bool {
        self.forward_search
    }

    pub closed spec fn reverse(&self) -> bool {
        self.reverse_search
    }

    /// The matches of the search or of the prefix walk, as history indices.
    pub closed spec fn subset(&self) -> Seq<usize> {
        self.history_subset_index@
    }

    /// The search query changed since the matches were computed.
    pub closed spec fn query_changed(&self) -> bool {
        self.buffer_changed
    }

    pub closed spec fn subset_loc(&self) -> Option<usize> {
        self.history_subset_loc
    }

    pub closed spec fn width(&self) -> nat {
        self.terminal_width as nat
    }

    /// The terminal output produced so far and not yet taken.
    pub closed spec fn pending(&self) -> Seq<char> {
        self.output@
    }

    /// The internal invariant.
    pub closed spec fn wf(&self) -> bool {
        &&& self.cursor <= self.cur().len()
        &&& (self.cur_history_loc matches Some(i) ==> i < self.hist().len())
        &&& !(self.reverse_search && self.forward_search)
        &&& (self.history_subset_loc matches Some(l) ==> l < self.history_subset_index@.len())
        &&& (forall|k: int| 0 <= k < self.history_subset_index@.len()
            ==> #[trigger] self.history_subset_index@[k] < self.hist().len())
        &&& (self.searching() ==> self.cur_history_loc is None)
        &&& 1 <= self.terminal_width <= u16::MAX
        &&& (self.show_completions_hint matches Some((c, h)) ==> c@.len() >= 1 && (h matches Some(i) ==> i < c@.len()))
    }

    /// Everything but the buffers' contents and undo records is the same in `a` and `b`.
    pub closed spec fn same_state(a: &Editor, b: &Editor) -> bool {
        &&& a.prompt@ == b.prompt@
        &&& a.cursor == b.cursor
        &&& a.cur_history_loc == b.cur_history_loc
        &&& a.term_cursor_line == b.term_cursor_line
        &&& a.show_completions_hint == b.show_completions_hint
        &&& a.show_autosuggestions == b.show_autosuggestions
        &&& a.no_eol == b.no_eol
        &&& a.no_newline == b.no_newline
        &&& a.reverse_search == b.reverse_search
        &&& a.forward_search == b.forward_search
        &&& a.history_subset_index@ == b.history_subset_index@
        &&& a.history_subset_loc == b.history_subset_loc
        &&& a.autosuggestion == b.autosuggestion
        &&& a.terminal_width == b.terminal_width
        &&& a.output@ == b.output@
    }

    /// `b` is `a` with the current buffer's text replaced by `t` (and its undo record changed).
    pub open spec fn cur_replaced(a: &Editor, b: &Editor, t: Seq<char>) -> bool {
        &&& b.loc() == a.loc()
        &&& b.cur() == t
        &&& b.hist().len() == a.hist().len()
        &&& (forall|i: int| 0 <= i < a.hist().len() && Some(i as usize) != a.loc()
            ==> #[trigger] b.hist()[i] == a.hist()[i])
        &&& (a.loc() is Some ==> b.new_text() == a.new_text())
    }

    proof fn lemma_same_texts(a: &Editor, b: &Editor)
        requires
            a.wf(),
            a.hist().len() <= usize::MAX,
            Self::cur_replaced(a, b, a.cur()),
        ensures
            b.hist() == a.hist(),
            b.new_text() == a.new_text(),
    {
        assert forall|i: int| 0 <= i < a.hist().len() implies #[trigger] b.hist()[i] == a.hist()[i] by {
            if Some(i as usize) == a.loc() {
                assert(b.cur() == b.hist()[i]);
            }
        }
        assert(b.hist() =~= a.hist());
    }

    /// Takes the current buffer out, leaving an empty one in its place.
    fn take_cur(&mut self) -> (r: Buffer)
        requires
            old(self).wf(),
        ensures
            r@ == old(self).cur(),
            r == old(self).cur_buf(),
            Self::same_state(old(self), final(self)),
            Self::cur_replaced(old(self), final(self), Seq::<char>::empty()),
    {
        let mut b = Buffer::new();
        proof {
            self.context.history.lemma_view();
        }
        match self.cur_history_loc {
            Some(i) => {
                self.context.history.swap_entry(i, &mut b);
            },
            None => {
                std::mem::swap(&mut b, &mut self.new_buf);
                assert(self.hist() =~= old(self).hist());
            },
        }
        b
    }

    /// Puts `b` back as the current buffer.
    fn put_cur(&mut self, b: Buffer)
        requires
            old(self).cur_history_loc matches Some(i) ==> i < old(self).hist().len(),
        ensures
            Self::same_state(old(self), final(self)),
            Self::cur_replaced(old(self), final(self), b@),
            final(self).cur_buf() == b,
    {
        let mut b = b;
        proof {
            self.context.history.lemma_view();
        }
        match self.cur_history_loc {
            Some(i) => {
                self.context.history.swap_entry(i, &mut b);
            },
            None => {
                std::mem::swap(&mut b, &mut self.new_buf);
                assert(self.hist() =~= old(self).hist());
            },
        }
    }

    /// The buffer being edited, for changes of the caller's own. The editor is well formed
    /// again once the cursor still fits the changed text.
    pub fn current_buffer_mut(&mut self) -> (r: &mut Buffer)
        requires
            old(self).wf(),
        ensures
            *r == old(self).cur_buf(),
            final(self).cur_buf() == *final(r),
            final(self).loc() == old(self).loc(),
            final(self).cursor_pos() == old(self).cursor_pos(),
            final(self).eol_blocked() == old(self).eol_blocked(),
            final(self).hint_active() == old(self).hint_active(),
            final(self).searching() == old(self).searching(),
            final(self).hist().len() == old(self).hist().len(),
            final(r)@.len() >= old(self).cursor_pos() ==> final(self).wf(),
    {
        self.buffer_changed = true;
        proof {
            self.context.history.lemma_view();
        }
        match self.cur_history_loc {
            Some(i) => &mut self.context.history.buffers[i],
            None => &mut self.new_buf,
        }
    }

    /// The buffer being edited.
    pub fn current_buffer(&self) -> (r: &Buffer)
        requires
            self.wf(),
        ensures
            r@ == self.cur(),
    {
        match self.cur_history_loc {
            Some(i) => self.context.history.get(i),
            None => &self.new_buf,
        }
    }

    /// The columns of each line of the first `k` characters of `s`.
    fn prefix_widths(s: &Vec<char>, k: usize) -> (r: Vec<usize>)
        requires
            k <= s@.len(),
        ensures
            r@ == line_widths(s@.take(k as int)),
    {
        let mut t: Vec<char> = Vec::new();
        let mut i: usize = 0;
        while i < k
            invariant
                i <= k <= s@.len(),
                t@ == s@.take(i as int),
            decreases k - i,
        {
            t.push(s[i]);
            assert(t@ =~= s@.take(i + 1));
            i = i + 1;
        }
        widths_of(t.as_slice())
    }

    /// The length of the longest candidate, and at least 1.
    fn longest(completions: &Vec<Vec<char>>) -> (r: usize)
        ensures
            r == max_word(views(completions@)),
    {
        let mut m: usize = 1;
        let mut i: usize = 0;
        while i < completions.len()
            invariant
                i <= completions@.len(),
                m == max_word(views(completions@).take(i as int)),
            decreases completions@.len() - i,
        {
            assert(views(completions@).take(i + 1).drop_last() =~= views(completions@).take(i as int));
            let l = completions[i].len();
            if l > m {
                m = l;
            }
            i = i + 1;
        }
        assert(views(completions@).take(i as int) =~= views(completions@));
        m
    }

    /// How many candidates fit side by side, the cell width, and the number of columns.
    fn grid(w: usize, completions: &Vec<Vec<char>>) -> (r: (usize, usize, usize))
        requires
            1 <= w <= u16::MAX,
        ensures
            r.0 == grid_items(w as int, max_word(views(completions@))),
            r.1 == grid_col_width(w as int, max_word(views(completions@))),
            r.2 == grid_cols(w as int, max_word(views(completions@))),
            r.0 >= 1,
            r.2 >= 1,
    {
        let mw = Self::longest(completions);
        proof {
            lemma_max_word_range(views(completions@));
        }
        let items = if w / mw >= 1 { w / mw } else { 1 };
        assert(w / items <= w) by (nonlinear_arith)
            requires
                items >= 1,
                w >= 1,
        {
        }
        let col_width = 2 + w / items;
        let cols = if w / col_width >= 1 { w / col_width } else { 1 };
        (items, col_width, cols)
    }

    /// Draws one cell of the completion grid.
    fn push_cell(out: &mut Vec<char>, com: &Vec<char>, col_width: usize, hl: bool)
        ensures
            final(out)@ == old(out)@ + grid_cell(com@, col_width as int, hl),
    {
        if hl {
            push_fg(out, '0');
            push_bg(out, '7');
        }
        push_all(out, com.as_slice());
        let ghost s0 = out@;
        let mut pad: usize = com.len();
        while pad < col_width
            invariant
                com@.len() <= pad,
                pad <= col_width || pad == com@.len(),
                out@ == s0 + spaces(pad - com@.len()),
            decreases col_width - pad,
        {
            out.push(' ');
            assert(out@ =~= s0 + spaces(pad + 1 - com@.len()));
            pad = pad + 1;
        }
        assert(spaces(pad - com@.len()) =~= spaces(col_width - com@.len()));
        if hl {
            push_reset_bg(out);
            push_reset_fg(out);
        }
        assert(out@ =~= old(out)@ + grid_cell(com@, col_width as int, hl));
    }

    /// Draws the completion grid; returns how many row breaks it used.
    fn print_completion_list(out: &mut Vec<char>, completions: &Vec<Vec<char>>, highlighted: Option<usize>, w: usize) -> (lines: usize)
        requires
            1 <= w <= u16::MAX,
        ensures
            lines as int == (if completions@.len() == 0 { 0 } else {
                (completions@.len() - 1) as int / grid_cols(w as int, max_word(views(completions@)))
            }),
            final(out)@ == old(out)@ + grid_from(
                views(completions@),
                0,
                0,
                grid_cols(w as int, max_word(views(completions@))),
                grid_col_width(w as int, max_word(views(completions@))),
                highlighted,
            ),
    {
        let (_items, col_width, cols) = Self::grid(w, completions);
        let ghost vs = views(completions@);
        let mut lines: usize = 0;
        let mut i: usize = 0;
        let mut index: usize = 0;
        while index < completions.len()
            invariant
                vs == views(completions@),
                cols >= 1,
                index <= completions@.len(),
                i <= cols,
                index > 0 ==> i >= 1,
                index == 0 ==> i == 0 && lines == 0,
                index > 0 ==> lines * cols + i == index,
                lines <= lines * cols,
                old(out)@ + grid_from(vs, 0, 0, cols as int, col_width as int, highlighted)
                    == out@ + grid_from(vs, index as int, i as int, cols as int, col_width as int, highlighted),
            decreases completions@.len() - index,
        {
            let ghost before = out@;
            let ghost i_old = i;
            if i == cols {
                assert((lines + 1) * cols == lines * cols + cols) by (nonlinear_arith);
                assert(lines + 1 <= (lines + 1) * cols) by (nonlinear_arith)
                    requires
                        cols >= 1,
                {
                }
                out.push('\r');
                out.push('\n');
                lines = lines + 1;
                i = 0;
            }
            let hl = match highlighted {
                Some(h) => h == index,
                None => false,
            };
            assert(vs[index as int] == completions@[index as int]@);
            Self::push_cell(out, &completions[index], col_width, hl);
            let ghost piece = out@.skip(before.len() as int);
            assert(out@ =~= before + piece);
            assert(grid_from(vs, index as int, i_old as int, cols as int, col_width as int, highlighted)
                =~= piece + grid_from(vs, index + 1, i + 1, cols as int, col_width as int, highlighted));
            i = i + 1;
            index = index + 1;
        }
        if completions.len() > 0 {
            proof {
                let n = completions@.len() as int;
                vstd::arithmetic::div_mod::lemma_fundamental_div_mod_converse(
                    n - 1,
                    cols as int,
                    lines as int,
                    (i - 1) as int,
                );
            }
        }
        assert(out@ =~= out@ + grid_from(vs, index as int, i as int, cols as int, col_width as int, highlighted));
        lines
    }

    /// The prompt width that cursor placement counts from: the search framing's fixed
    /// width while searching, else the visible width of the prompt's last line.
    pub closed spec fn cursor_prompt_width(&self) -> int {
        if self.searching() {
            9
        } else {
            display_width(strip_from(last_line(self.prompt@), 0)) as int
        }
    }

    /// The prompt drawn: while searching, the search framing with the query (green when it
    /// matches, red when not) and the position among the matches; else the prompt.
    pub closed spec fn shown_prompt(&self) -> Seq<char> {
        if self.searching() {
            let n = self.history_subset_index@.len();
            let hplace: nat = if n > 0 {
                match self.history_subset_loc {
                    Some(l) => (l + 1) as nat,
                    None => 1,
                }
            } else {
                0
            };
            seq!['(', 's', 'e', 'a', 'r', 'c', 'h', ')', '\''] + fg_seq(if n > 0 { '2' } else { '1' }) + self.cur()
                + reset_fg_seq() + seq!['`', ' ', '('] + decimal(hplace) + seq!['/'] + decimal(n) + seq![
                ')',
                ':',
                ' ',
            ]
        } else {
            self.prompt@
        }
    }

    /// The visible width of the last line of the drawn prompt.
    pub closed spec fn shown_width(&self) -> int {
        display_width(strip_from(last_line(self.shown_prompt()), 0)) as int
    }

    /// The text whose lines are laid out: the autosuggestion `sugg` when there is one, else
    /// the buffer.
    pub closed spec fn laid_out(&self, sugg: Option<Seq<char>>) -> Seq<char> {
        match sugg {
            Some(sg) => sg,
            None => self.cur(),
        }
    }

    /// The autosuggestion held for drawing.
    pub closed spec fn held_suggestion(&self) -> Option<Seq<char>> {
        match self.autosuggestion {
            Some(sg) => Some(sg@),
            None => None,
        }
    }

    /// What a redraw writes, for this state and autosuggestion `sugg`: see [`drawing`]. The
    /// cursor is first clamped.
    pub closed spec fn redraw_output(&self, sugg: Option<Seq<char>>, show_autosuggest: bool) -> Seq<char> {
        let w = self.terminal_width as int;
        let c = clamped(self.cursor as int, self.cur().len() as int, self.no_eol);
        let total = calc_width(self.shown_width(), line_widths(self.laid_out(sugg)), w);
        let to_cursor = calc_width(self.cursor_prompt_width(), self.widths_to(sugg, c), w);
        let shown_text = if show_autosuggest { self.laid_out(sugg) } else { self.cur() };
        drawing(
            self.term_cursor_line as int,
            self.no_newline,
            w,
            grid_drawing(hint_view(self.show_completions_hint), w),
            if !self.no_newline { crlf(self.shown_prompt()) } else { last_line(self.shown_prompt()) },
            body_from(split_lines(shown_text), 0, self.cur().len() as int, self.searching(), self.shown_width()),
            sugg is Some || self.searching(),
            total,
            sat((total + w) / w),
            sat((to_cursor + w) / w),
            to_cursor,
        )
    }

    /// The widths of the displayed lines up to cursor `c`: of the autosuggestion `sugg` when
    /// the cursor is inside it, else of the buffer.
    pub closed spec fn widths_to(&self, sugg: Option<Seq<char>>, c: int) -> Seq<usize> {
        match sugg {
            Some(sg) => if c < sg.len() {
                line_widths(sg.take(c))
            } else {
                line_widths(self.cur().subrange(0, c))
            },
            None => line_widths(self.cur().subrange(0, c)),
        }
    }


    /// The rows that the completion grid takes.
    pub closed spec fn grid_rows(&self) -> int {
        match self.show_completions_hint {
            Some((c, _)) => (c@.len() - 1) / grid_cols(self.terminal_width as int, max_word(views(c@))) + 1,
            None => 0,
        }
    }

    /// The suggestion that a redraw shows: the selected match while searching; else, when
    /// enabled, the history entry being edited or the newest entry that extends the line.
    pub closed spec fn suggestion(&self) -> Option<Seq<char>> {
        if self.searching() {
            if self.history_subset_index@.len() > 0 && self.history_subset_loc is Some {
                Some(self.hist()[self.history_subset_index@[self.history_subset_loc->0 as int] as int])
            } else {
                None
            }
        } else if self.show_autosuggestions {
            match self.cur_history_loc {
                Some(i) => Some(self.hist()[i as int]),
                None => match newest_match(self.hist(), self.new_buf@, self.hist().len() as int) {
                    Some(i) => Some(self.hist()[i as int]),
                    None => None,
                },
            }
        } else {
            None
        }
    }

    fn copy_entry(&self, i: usize) -> (r: Vec<char>)
        requires
            i < self.hist().len(),
        ensures
            r@ == self.hist()[i as int],
    {
        let mut r: Vec<char> = Vec::new();
        push_all(&mut r, self.context.history.get(i).chars().as_slice());
        r
    }

    fn search_history_loc(&self) -> (r: Option<usize>)
        requires
            self.wf(),
        ensures
            r == (if self.history_subset_index@.len() > 0 && self.history_subset_loc is Some {
                Some(self.history_subset_index@[self.history_subset_loc->0 as int])
            } else {
                None::<usize>
            }),
            r matches Some(i) ==> i < self.hist().len(),
    {
        if self.history_subset_index.len() > 0 {
            match self.history_subset_loc {
                Some(l) => Some(self.history_subset_index[l]),
                None => None,
            }
        } else {
            None
        }
    }

    fn current_autosuggestion(&self) -> (r: Option<Vec<char>>)
        requires
            self.wf(),
        ensures
            match r {
                Some(v) => self.suggestion() == Some(v@),
                None => self.suggestion() is None,
            },
    {
        if self.reverse_search || self.forward_search {
            match self.search_history_loc() {
                Some(i) => Some(self.copy_entry(i)),
                None => None,
            }
        } else if self.show_autosuggestions {
            match self.cur_history_loc {
                Some(i) => Some(self.copy_entry(i)),
                None => {
                    let n = self.context.history.len();
                    proof {
                        crate::history::lemma_newest_match_bounded(self.hist(), self.new_buf@, n as int);
                    }
                    match self.context.history.get_newest_match(Some(n), self.new_buf.chars()) {
                        Some(i) => Some(self.copy_entry(i)),
                        None => None,
                    }
                },
            }
        } else {
            None
        }
    }

    /// The prompt to draw, and the width that cursor placement counts from while searching.
    fn search_prompt(&self) -> (r: (Vec<char>, usize))
        requires
            self.wf(),
        ensures
            !self.searching() ==> r.0@ == self.prompt@ && r.1 == 0,
            self.searching() ==> r.1 == 9,
            r.0@ == self.shown_prompt(),
    {
        if self.reverse_search || self.forward_search {
            let mut p: Vec<char> = vec!['(', 's', 'e', 'a', 'r', 'c', 'h', ')', '\''];
            assert(p@ =~= seq!['(', 's', 'e', 'a', 'r', 'c', 'h', ')', '\'']);
            let n = self.history_subset_index.len();
            let hplace: usize = if n > 0 {
                match self.history_subset_loc {
                    Some(l) => l + 1,
                    None => 1,
                }
            } else {
                0
            };
            push_fg(&mut p, if n > 0 { '2' } else { '1' });
            push_all(&mut p, self.current_buffer().chars().as_slice());
            push_reset_fg(&mut p);
            push_all(&mut p, &['`', ' ', '(']);
            push_decimal(&mut p, hplace);
            p.push('/');
            push_decimal(&mut p, n);
            push_all(&mut p, &[')', ':', ' ']);
            assert(p@ =~= self.shown_prompt());
            (p, 9)
        } else {
            let mut p: Vec<char> = Vec::new();
            push_all(&mut p, self.prompt.as_slice());
            assert(p@ =~= self.prompt@);
            (p, 0)
        }
    }

    /// Everything but the cursor, the terminal row and the pending output is the same.
    pub closed spec fn same_but_view(a: &Editor, b: &Editor) -> bool {
        &&& a.prompt@ == b.prompt@
        &&& a.cur_history_loc == b.cur_history_loc
        &&& a.show_completions_hint == b.show_completions_hint
        &&& a.show_autosuggestions == b.show_autosuggestions
        &&& a.no_eol == b.no_eol
        &&& a.no_newline == b.no_newline
        &&& a.reverse_search == b.reverse_search
        &&& a.forward_search == b.forward_search
        &&& a.buffer_changed == b.buffer_changed
        &&& a.history_subset_index@ == b.history_subset_index@
        &&& a.history_subset_loc == b.history_subset_loc
        &&& a.autosuggestion == b.autosuggestion
        &&& a.terminal_width == b.terminal_width
        &&& a.hist() == b.hist()
        &&& a.new_buf@ == b.new_buf@
    }

    /// Writes each line of the prompt, with CRLF between them.
    fn push_prompt_lines(out: &mut Vec<char>, prompt: &Vec<char>)
        ensures
            final(out)@ == old(out)@ + crlf(prompt@),
    {
        let mut k: usize = 0;
        while k < prompt.len()
            invariant
                k <= prompt@.len(),
                out@ == old(out)@ + crlf(prompt@.take(k as int)),
            decreases prompt@.len() - k,
        {
            assert(prompt@.take(k + 1).drop_last() =~= prompt@.take(k as int));
            if prompt[k] == '\n' {
                out.push('\r');
                out.push('\n');
            } else {
                out.push(prompt[k]);
            }
            assert(out@ =~= old(out)@ + crlf(prompt@.take(k + 1)));
            k = k + 1;
        }
        assert(prompt@.take(k as int) =~= prompt@);
    }

    /// Writes one line of the body; returns how many buffer characters are still to come.
    fn push_line(out: &mut Vec<char>, line: &Vec<char>, first: bool, last: bool, rem_in: usize, searching: bool, prompt_width: usize) -> (r: usize)
        ensures
            final(out)@ == old(out)@ + line_piece(line@, first, last, rem_in as int, searching, prompt_width as int),
            r == rest_after(line@, rem_in as int),
    {
        if !first {
            push_csi(out, prompt_width, 'C');
        }
        Self::push_mid(out, line, rem_in, searching);
        if !last {
            out.push('\r');
            out.push('\n');
        }
        assert(out@ =~= old(out)@ + line_piece(line@, first, last, rem_in as int, searching, prompt_width as int));
        if rem_in == 0 || line.len() > rem_in { 0 } else { rem_in - line.len() }
    }

    /// Writes the characters of one body line.
    fn push_mid(out: &mut Vec<char>, line: &Vec<char>, remaining: usize, searching: bool)
        ensures
            final(out)@ == old(out)@ + line_mid(line@, remaining as int, searching),
    {
        if remaining == 0 {
            push_all(out, line.as_slice());
        } else if line.len() > remaining {
            if searching {
                push_fg(out, '3');
            }
            let ghost s0 = out@;
            let mut k: usize = 0;
            while k < remaining
                invariant
                    remaining < line@.len(),
                    k <= remaining,
                    out@ == s0 + line@.take(k as int),
                decreases remaining - k,
            {
                out.push(line[k]);
                assert(out@ =~= s0 + line@.take(k + 1));
                k = k + 1;
            }
            if !searching {
                push_fg(out, '3');
            }
            let ghost s1 = out@;
            while k < line.len()
                invariant
                    remaining <= k <= line@.len(),
                    out@ == s1 + line@.subrange(remaining as int, k as int),
                decreases line@.len() - k,
            {
                out.push(line[k]);
                assert(out@ =~= s1 + line@.subrange(remaining as int, k + 1));
                k = k + 1;
            }
            assert(line@.subrange(remaining as int, k as int) =~= line@.skip(remaining as int));
            assert(out@ =~= old(out)@ + line_mid(line@, remaining as int, searching));
        } else {
            if searching {
                push_fg(out, '3');
            }
            push_all(out, line.as_slice());
            assert(out@ =~= old(out)@ + line_mid(line@, remaining as int, searching));
        }
    }

    /// Writes the displayed lines: the first `buf_len` characters are the buffer's own, the
    /// rest is autosuggestion.
    fn push_body(out: &mut Vec<char>, lines: &Vec<Vec<char>>, buf_len: usize, searching: bool, prompt_width: usize)
        ensures
            final(out)@ == old(out)@ + body_from(lines_view(lines@), 0, buf_len as int, searching, prompt_width as int),
    {
        let ghost ls = lines_view(lines@);
        let mut remaining = buf_len;
        let mut i: usize = 0;
        while i < lines.len()
            invariant
                i <= lines@.len(),
                ls == lines_view(lines@),
                old(out)@ + body_from(ls, 0, buf_len as int, searching, prompt_width as int)
                    == out@ + body_from(ls, i as int, remaining as int, searching, prompt_width as int),
            decreases lines@.len() - i,
        {
            let ghost before = out@;
            let ghost rem_old = remaining;
            assert(ls[i as int] == lines@[i as int]@);
            remaining = Self::push_line(out, &lines[i], i == 0, i + 1 >= lines.len(), remaining, searching, prompt_width);
            let ghost piece = line_piece(ls[i as int], i == 0, i + 1 >= ls.len(), rem_old as int, searching, prompt_width as int);
            assert(out@ == before + piece);
            assert(body_from(ls, i as int, rem_old as int, searching, prompt_width as int)
                == piece + body_from(ls, i + 1, remaining as int, searching, prompt_width as int));
            assert(before + (piece + body_from(ls, i + 1, remaining as int, searching, prompt_width as int))
                =~= out@ + body_from(ls, i + 1, remaining as int, searching, prompt_width as int));
            i = i + 1;
        }
    }

    /// Redraws prompt and buffer. The cursor is first clamped into the text (and off its
    /// end in Vi normal mode); the terminal row of the cursor is then computed from the
    /// width of everything before it.
    #[verifier::rlimit(90)]
    fn redraw(&mut self, show_autosuggest: bool)
        requires
            old(self).wf(),
        ensures
            final(self).context.history.buffers@ == old(self).context.history.buffers@,
            final(self).new_buf == old(self).new_buf,
            final(self).wf(),
            Self::same_but_view(old(self), final(self)),
            final(self).cursor == clamped(old(self).cursor as int, old(self).cur().len() as int, old(self).no_eol),
            final(self).term_cursor_line == sat(
                sat(
                    (calc_width(
                        old(self).cursor_prompt_width(),
                        old(self).widths_to(old(self).held_suggestion(), final(self).cursor as int),
                        old(self).terminal_width as int,
                    ) + old(self).terminal_width) / (old(self).terminal_width as int),
                ) + old(self).grid_rows(),
            ),
            final(self).output@ == old(self).output@ + old(self).redraw_output(old(self).held_suggestion(), show_autosuggest),
    {
        let (prompt, rev_prompt_width) = self.search_prompt();
        let w = self.terminal_width;
        let last = handle_prompt(prompt.as_slice());
        let clean = remove_codes(last.as_slice());
        let prompt_width = width_of(clean.as_slice());
        let searching = self.reverse_search || self.forward_search;
        let n = self.current_buffer().num_chars();
        if n < self.cursor {
            self.cursor = n;
        }
        if self.no_eol && self.cursor != 0 && self.cursor == n {
            self.cursor = self.cursor - 1;
        }
        let cursor = self.cursor;
        let buf = self.current_buffer();
        let buf_widths = match &self.autosuggestion {
            Some(sg) => widths_of(sg.as_slice()),
            None => buf.width(),
        };
        let to_cursor_widths = match &self.autosuggestion {
            Some(sg) => if cursor < sg.len() {
                Self::prefix_widths(sg, cursor)
            } else {
                buf.range_width(0, cursor)
            },
            None => buf.range_width(0, cursor),
        };
        let lines = if show_autosuggest {
            match &self.autosuggestion {
                Some(sg) => lines_of(sg.as_slice()),
                None => buf.lines(),
            }
        } else {
            buf.lines()
        };
        let buf_len = buf.num_chars();
        let total = calc_total_width(prompt_width, &buf_widths, w);
        let to_cursor = calc_total_width(
            if searching { rev_prompt_width } else { prompt_width },
            &to_cursor_widths,
            w,
        );
        proof {
            lemma_calc_width_range(prompt_width as int, buf_widths@, w as int);
        }
        let lines_q: u128 = (total as u128 + w as u128) / (w as u128);
        let new_num_lines: usize = if lines_q > usize::MAX as u128 { usize::MAX } else { lines_q as usize };
        let row_q: u128 = (to_cursor as u128 + w as u128) / (w as u128);
        let term_line: usize = if row_q > usize::MAX as u128 { usize::MAX } else { row_q as usize };

        let mut out: Vec<char> = Vec::new();
        std::mem::swap(&mut out, &mut self.output);
        let reset = self.autosuggestion.is_some() || searching;
        let completion_lines = Self::emit(
            &mut out,
            self.term_cursor_line,
            self.no_newline,
            w,
            &self.show_completions_hint,
            &prompt,
            &last,
            &lines,
            buf_len,
            searching,
            prompt_width,
            reset,
            total,
            new_num_lines,
            term_line,
            to_cursor,
        );
        self.term_cursor_line = if term_line > usize::MAX - completion_lines {
            usize::MAX
        } else {
            term_line + completion_lines
        };
        self.output = out;
    }

    /// Writes the mark for output that did not end its line: a return glyph and spaces to
    /// the right margin.
    fn push_mark(out: &mut Vec<char>, w: usize)
        requires
            w >= 1,
        ensures
            final(out)@ == old(out)@ + seq!['\u{23ce}'] + spaces(w - 1),
    {
        out.push('\u{23ce}');
        let ghost s_m = out@;
        let mut k: usize = 1;
        while k < w
            invariant
                1 <= k <= w,
                out@ == s_m + spaces(k - 1),
            decreases w - k,
        {
            out.push(' ');
            assert(out@ =~= s_m + spaces(k as int));
            k = k + 1;
        }
    }

    /// Writes the grid with its closing line break; returns the rows it took.
    fn push_grid(out: &mut Vec<char>, hint: &Option<(Vec<Vec<char>>, Option<usize>)>, w: usize) -> (rows: usize)
        requires
            1 <= w <= u16::MAX,
            hint matches Some((c, _)) ==> c@.len() >= 1,
        ensures
            final(out)@ == old(out)@ + grid_drawing(hint_view(*hint), w as int),
            rows as int == grid_rows_of(hint_view(*hint), w as int),
    {
        match hint {
            Some((c, h)) => {
                let cl = c.len();
                let l = Self::print_completion_list(out, c, *h, w);
                assert((c@.len() - 1) as int / grid_cols(w as int, max_word(views(c@))) <= c@.len() - 1) by (nonlinear_arith)
                    requires
                        c@.len() >= 1,
                        grid_cols(w as int, max_word(views(c@))) >= 1,
                {
                }
                out.push('\r');
                out.push('\n');
                assert(out@ =~= old(out)@ + grid_drawing(hint_view(*hint), w as int));
                l + 1
            },
            None => {
                assert(out@ =~= old(out)@ + grid_drawing(hint_view(*hint), w as int));
                0
            },
        }
    }

    /// Writes the part of a redraw up to the prompt; returns the rows of the grid.
    #[verifier::rlimit(60)]
    fn emit_head(
        out: &mut Vec<char>,
        tcl: usize,
        no_newline: bool,
        w: usize,
        hint: &Option<(Vec<Vec<char>>, Option<usize>)>,
        prompt: &Vec<char>,
        last: &Vec<char>,
    ) -> (rows: usize)
        requires
            1 <= w <= u16::MAX,
            hint matches Some((c, _)) ==> c@.len() >= 1,
        ensures
            rows as int == grid_rows_of(hint_view(*hint), w as int),
            final(out)@ == old(out)@ + drawing_head(
                tcl as int,
                no_newline,
                w as int,
                grid_drawing(hint_view(*hint), w as int),
                if !no_newline { crlf(prompt@) } else { last@ },
            ),
    {
        let ghost s0 = out@;
        if tcl > 1 {
            push_csi(out, tcl - 1, 'A');
        }
        let ghost s1 = out@;
        if !no_newline {
            Self::push_mark(out, w);
        }
        let ghost s2 = out@;
        out.push('\r');
        push_clear_after(out);
        let ghost s3 = out@;
        let rows = Self::push_grid(out, hint, w);
        let ghost s4 = out@;
        if !no_newline {
            Self::push_prompt_lines(out, prompt);
        } else {
            push_all(out, last.as_slice());
        }
        let ghost up = if tcl > 1 { csi(cap16(tcl - 1), 'A') } else { Seq::<char>::empty() };
        let ghost mark = if !no_newline { seq!['\u{23ce}'] + spaces(w - 1) } else { Seq::<char>::empty() };
        assert(s1 =~= s0 + up);
        assert(s2 =~= s0 + up + mark);
        assert(s3 =~= s0 + (up + mark + seq!['\r'] + clear_after_seq()));
        assert(s4 =~= s0 + (up + mark + seq!['\r'] + clear_after_seq() + grid_drawing(hint_view(*hint), w as int)));
        assert(out@ =~= s0 + drawing_head(
            tcl as int,
            no_newline,
            w as int,
            grid_drawing(hint_view(*hint), w as int),
            if !no_newline { crlf(prompt@) } else { last@ },
        ));
        rows
    }

    /// Writes the part of a redraw after the prompt.
    fn emit_tail(
        out: &mut Vec<char>,
        w: usize,
        lines: &Vec<Vec<char>>,
        buf_len: usize,
        searching: bool,
        prompt_width: usize,
        reset: bool,
        total: usize,
        new_num_lines: usize,
        term_line: usize,
        to_cursor: usize,
    )
        requires
            1 <= w <= u16::MAX,
        ensures
            final(out)@ == old(out)@ + drawing_tail(
                w as int,
                body_from(lines_view(lines@), 0, buf_len as int, searching, prompt_width as int),
                reset,
                total as int,
                new_num_lines as int,
                term_line as int,
                to_cursor as int,
            ),
    {
        let ghost s0 = out@;
        Self::push_body(out, lines, buf_len, searching, prompt_width);
        if reset {
            push_reset_fg(out);
        }
        let ghost s2 = out@;
        if total % w == 0 {
            out.push('\r');
            out.push('\n');
        }
        let ghost s3 = out@;
        Self::push_moves(out, w, total, new_num_lines, term_line, to_cursor);
        let ghost body = body_from(lines_view(lines@), 0, buf_len as int, searching, prompt_width as int);
        let ghost rs = if reset { reset_fg_seq() } else { Seq::<char>::empty() };
        let ghost wr = if total % w == 0 { seq!['\r', '\n'] } else { Seq::<char>::empty() };
        assert(s2 =~= s0 + (body + rs));
        assert(s3 =~= s0 + (body + rs + wr));
        assert(out@ =~= s0 + drawing_tail(
            w as int,
            body,
            reset,
            total as int,
            new_num_lines as int,
            term_line as int,
            to_cursor as int,
        ));
    }

    /// Writes a whole redraw from its computed parts; returns the rows of the grid.
    fn emit(
        out: &mut Vec<char>,
        tcl: usize,
        no_newline: bool,
        w: usize,
        hint: &Option<(Vec<Vec<char>>, Option<usize>)>,
        prompt: &Vec<char>,
        last: &Vec<char>,
        lines: &Vec<Vec<char>>,
        buf_len: usize,
        searching: bool,
        prompt_width: usize,
        reset: bool,
        total: usize,
        new_num_lines: usize,
        term_line: usize,
        to_cursor: usize,
    ) -> (rows: usize)
        requires
            1 <= w <= u16::MAX,
            hint matches Some((c, _)) ==> c@.len() >= 1,
        ensures
            rows as int == grid_rows_of(hint_view(*hint), w as int),
            final(out)@ == old(out)@ + drawing(
                tcl as int,
                no_newline,
                w as int,
                grid_drawing(hint_view(*hint), w as int),
                if !no_newline { crlf(prompt@) } else { last@ },
                body_from(lines_view(lines@), 0, buf_len as int, searching, prompt_width as int),
                reset,
                total as int,
                new_num_lines as int,
                term_line as int,
                to_cursor as int,
            ),
    {
        let ghost s0 = out@;
        let rows = Self::emit_head(out, tcl, no_newline, w, hint, prompt, last);
        Self::emit_tail(out, w, lines, buf_len, searching, prompt_width, reset, total, new_num_lines, term_line, to_cursor);
        assert(out@ =~= s0 + drawing(
            tcl as int,
            no_newline,
            w as int,
            grid_drawing(hint_view(*hint), w as int),
            if !no_newline { crlf(prompt@) } else { last@ },
            body_from(lines_view(lines@), 0, buf_len as int, searching, prompt_width as int),
            reset,
            total as int,
            new_num_lines as int,
            term_line as int,
            to_cursor as int,
        ));
        rows
    }

    /// Moves the terminal cursor from the end of the drawing to the text cursor.
    fn push_moves(out: &mut Vec<char>, w: usize, total: usize, new_num_lines: usize, term_line: usize, to_cursor: usize)
        requires
            1 <= w <= u16::MAX,
        ensures
            final(out)@ == old(out)@ + cursor_moves(w as int, total as int, new_num_lines as int, term_line as int, to_cursor as int),
    {
        let diff: i128 = new_num_lines as i128 - term_line as i128;
        if diff > 0 {
            push_csi(out, diff as usize, 'A');
        }
        assert(-0x1_0000_0000_0000_0000_0000 <= diff * (w as i128) <= 0x1_0000_0000_0000_0000_0000) by (nonlinear_arith)
            requires
                -(usize::MAX as int) <= diff <= usize::MAX,
                1 <= w <= u16::MAX,
        {
        }
        let col_diff: i128 = total as i128 - to_cursor as i128 - diff * (w as i128);
        if col_diff > 0 {
            let m: usize = if col_diff > usize::MAX as i128 { usize::MAX } else { col_diff as usize };
            push_csi(out, m, 'D');
        } else if col_diff < 0 {
            let m: usize = if -col_diff > usize::MAX as i128 { usize::MAX } else { (-col_diff) as usize };
            push_csi(out, m, 'C');
        }
        assert(out@ =~= old(out)@ + cursor_moves(w as int, total as int, new_num_lines as int, term_line as int, to_cursor as int));
    }

    /// Flags and settings that an edit leaves alone.
    pub closed spec fn kept(a: &Editor, b: &Editor) -> bool {
        &&& a.prompt@ == b.prompt@
        &&& a.show_completions_hint == b.show_completions_hint
        &&& a.show_autosuggestions == b.show_autosuggestions
        &&& a.no_eol == b.no_eol
        &&& a.reverse_search == b.reverse_search
        &&& a.forward_search == b.forward_search
        &&& a.terminal_width == b.terminal_width
        &&& a.hist().len() == b.hist().len()
    }

    /// Recomputes the matches of an incremental search for the current query, keeping the
    /// selection near the previously selected entry.
    #[verifier::rlimit(40)]
    fn refresh_search(&mut self, forward: bool)
        requires
            old(self).wf(),
        ensures
            final(self).context.history.buffers@ == old(self).context.history.buffers@,
            final(self).new_buf == old(self).new_buf,
            final(self).wf(),
            final(self).history_subset_index@ == matching_indices(
                old(self).hist(),
                old(self).new_buf@,
                false,
                old(self).hist().len() as int,
            ),
            final(self).history_subset_loc == refreshed_loc(
                final(self).history_subset_index@,
                if old(self).history_subset_index@.len() > 0 && old(self).history_subset_loc is Some {
                    Some(old(self).history_subset_index@[old(self).history_subset_loc->0 as int])
                } else {
                    None::<usize>
                },
                forward,
            ),
            final(self).forward_search == forward,
            final(self).reverse_search == !forward,
            final(self).cur_history_loc is None,
            final(self).no_newline,
            !final(self).buffer_changed,
            final(self).cursor == old(self).cursor || old(self).cur_history_loc is Some,
            final(self).cursor <= final(self).cur().len(),
            final(self).hist() == old(self).hist(),
            final(self).new_buf@ == old(self).new_buf@,
            final(self).prompt@ == old(self).prompt@,
            final(self).show_completions_hint == old(self).show_completions_hint,
            final(self).show_autosuggestions == old(self).show_autosuggestions,
            final(self).no_eol == old(self).no_eol,
            final(self).terminal_width == old(self).terminal_width,
            final(self).autosuggestion == old(self).autosuggestion,
    {
        let target = self.search_history_loc();
        let sub = self.context.history.search_index(self.new_buf.chars());
        proof {
            lemma_matching_indices_bounded(self.hist(), self.new_buf@, false, self.hist().len() as int);
        }
        let len = sub.len();
        let mut loc: Option<usize> = None;
        if len > 0 {
            loc = Some(if forward { 0 } else { len - 1 });
            match target {
                Some(t) => {
                    let mut i: usize = 0;
                    let mut found = false;
                    while i < len && !found
                        invariant
                            len == sub@.len(),
                            i <= len,
                            len > 0,
                            !found ==> forall|j: int| 0 <= j < i ==> !(t <= #[trigger] sub@[j]),
                            !found ==> loc == Some((if forward { 0 } else { len - 1 }) as usize),
                            found ==> loc == refreshed_loc(sub@, Some(t), forward),
                            loc matches Some(l) && l < len,
                        decreases len - i + (if found { 0int } else { 1int }),
                    {
                        if t <= sub[i] {
                            proof {
                                let ii = i as int;
                                assert(0 <= ii < sub@.len() && t <= sub@[ii] && forall|j: int| 0 <= j < ii ==> !(t <= #[trigger] sub@[j]));
                                let k = choose|k: int| 0 <= k < sub@.len() && t <= #[trigger] sub@[k]
                                    && forall|j: int| 0 <= j < k ==> !(t <= #[trigger] sub@[j]);
                                if k < ii {
                                    assert(!(t <= sub@[k]));
                                } else if k > ii {
                                    assert(!(t <= sub@[ii]));
                                }
                            }
                            loc = Some(if forward || t == sub[i] || i == 0 { i } else { i - 1 });
                            found = true;
                        } else {
                            i = i + 1;
                        }
                    }
                },
                None => {},
            }
        }
        self.history_subset_index = sub;
        self.history_subset_loc = loc;
        self.reverse_search = !forward;
        self.forward_search = forward;
        if self.cur_history_loc.is_some() {
            self.cur_history_loc = None;
            if self.cursor > self.new_buf.num_chars() {
                self.cursor = self.new_buf.num_chars();
            }
        }
        self.no_newline = true;
        self.buffer_changed = false;
    }

    /// Redraws, first refreshing an incremental search whose query changed and recomputing
    /// the autosuggestion.
    pub fn display(&mut self)
        requires
            old(self).wf(),
        ensures
            final(self).held_suggestion() == final(self).suggestion(),
            !(old(self).searching() && old(self).query_changed()) ==> final(self).mark_pending() == old(self).mark_pending(),
            !(old(self).searching() && old(self).query_changed()) ==> final(self).subset() == old(self).subset() && final(self).subset_loc() == old(self).subset_loc(),
            final(self).cur_buf() == old(self).cur_buf(),
            final(self).settled(),
            final(self).wf(),
            Self::kept(old(self), final(self)),
            final(self).loc() == old(self).loc(),
            final(self).cur() == old(self).cur(),
            final(self).hist() == old(self).hist(),
            final(self).new_text() == old(self).new_text(),
            final(self).cursor_pos() == clamped(old(self).cursor_pos() as int, old(self).cur().len() as int, old(self).eol_blocked()),
            !(old(self).searching() && old(self).query_changed()) ==> final(self).pending() == old(self).pending()
                + old(self).redraw_output(old(self).suggestion(), true),
    {
        if (self.reverse_search || self.forward_search) && self.buffer_changed {
            let forward = self.forward_search;
            self.refresh_search(forward);
        }
        self.autosuggestion = self.current_autosuggestion();
        self.redraw(true);
    }

    /// An editor on a new empty line, drawn once.
    pub fn new(prompt: String, context: Context) -> (r: Editor)
        ensures
            r.prompt_view() == prompt@,
            r.pending() == r.fresh().redraw_output(r.fresh().suggestion(), true),
            r.wf(),
            r.loc() is None,
            r.cur() == Seq::<char>::empty(),
            r.cursor_pos() == 0,
            !r.eol_blocked(),
            !r.hint_active(),
            !r.searching(),
            r.hist() == context.history.view(),
    {
        Editor::new_with_init_buffer(prompt, context, Buffer::new())
    }

    /// An editor on a new line that starts with `buffer`, cursor at its end, drawn once.
    pub fn new_with_init_buffer(prompt: String, context: Context, buffer: Buffer) -> (r: Editor)
        ensures
            r.prompt_view() == prompt@,
            r.pending() == r.fresh().redraw_output(r.fresh().suggestion(), true),
            r.wf(),
            r.loc() is None,
            r.cur() == buffer@,
            r.cursor_pos() == buffer@.len(),
            !r.eol_blocked(),
            !r.hint_active(),
            !r.searching(),
            r.hist() == context.history.view(),
    {
        let mut ed = Editor {
            prompt: chars_of(prompt.as_str()),
            context,
            cursor: 0,
            new_buf: buffer,
            cur_history_loc: None,
            term_cursor_line: 1,
            show_completions_hint: None,
            show_autosuggestions: true,
            no_eol: false,
            no_newline: false,
            reverse_search: false,
            forward_search: false,
            buffer_changed: false,
            history_subset_index: Vec::new(),
            history_subset_loc: None,
            autosuggestion: None,
            terminal_width: DEFAULT_TERMINAL_WIDTH,
            output: Vec::new(),
        };
        ed.cursor = ed.new_buf.num_chars();
        let ghost e0 = ed;
        ed.display();
        proof {
            let b = ed.fresh();
            assert(b.cursor == e0.cursor);
            assert(b.term_cursor_line == e0.term_cursor_line);
            assert(b.no_newline == e0.no_newline);
            assert(b.no_eol == e0.no_eol);
            assert(b.show_completions_hint == e0.show_completions_hint);
            assert(b.terminal_width == e0.terminal_width);
            assert(b.prompt@ == e0.prompt@);
            assert(b.cur() == e0.cur());
            assert(b.shown_prompt() == e0.shown_prompt());
            assert(b.suggestion() == e0.suggestion());
            assert(b.cursor_prompt_width() == e0.cursor_prompt_width());
            assert(e0.redraw_output(e0.suggestion(), true) == b.redraw_output(b.suggestion(), true));
            assert(e0.output@ =~= Seq::<char>::empty());
        }
        ed
    }

    /// `None` on the new line, else the index of the history entry being edited.
    pub fn current_history_location(&self) -> (r: Option<usize>)
        ensures
            r == self.loc(),
    {
        self.cur_history_loc
    }

    /// The word spans of the current buffer and where the cursor sits among them.
    pub fn get_words_and_cursor_position(&self) -> (r: (Vec<(usize, usize)>, CursorPosition))
        requires
            self.wf(),
        ensures
            r.0@ == buffer_words(self.cur()),
            spans_ok(r.0@, self.cur().len() as int),
            r.1 == position_of(self.cursor_pos() as usize, r.0@),
    {
        let words = get_buffer_words(self.current_buffer());
        let pos = CursorPosition::get(self.cursor, words.as_slice());
        (words, pos)
    }

    pub fn set_prompt(&mut self, prompt: String)
        requires
            old(self).wf(),
        ensures
            final(self).wf(),
            final(self).cur() == old(self).cur(),
            final(self).cursor_pos() == old(self).cursor_pos(),
            final(self).prompt_view() == prompt@,
            !final(self).searching() ==> final(self).shown_prompt() == prompt@,
            final(self).pending() == old(self).pending(),
            final(self).loc() == old(self).loc(),
            final(self).hist() == old(self).hist(),
            final(self).new_text() == old(self).new_text(),
            final(self).eol_blocked() == old(self).eol_blocked(),
            final(self).hint_active() == old(self).hint_active(),
            final(self).searching() == old(self).searching(),
    {
        self.prompt = chars_of(prompt.as_str());
    }

    /// Sets whether the cursor may rest past the last character.
    pub fn set_no_eol(&mut self, no_eol: bool)
        requires
            old(self).wf(),
        ensures
            final(self).cur_buf() == old(self).cur_buf(),
            final(self).wf(),
            final(self).eol_blocked() == no_eol,
            final(self).cur() == old(self).cur(),
            final(self).loc() == old(self).loc(),
            final(self).hist() == old(self).hist(),
            final(self).new_text() == old(self).new_text(),
            final(self).cursor_pos() == old(self).cursor_pos(),
            final(self).hint_active() == old(self).hint_active(),
            final(self).searching() == old(self).searching(),
    {
        self.no_eol = no_eol;
    }

    /// Sets the terminal width; 0, which a terminal reports when it does not know, counts
    /// as the default width.
    pub fn set_terminal_width(&mut self, width: u16)
        requires
            old(self).wf(),
        ensures
            final(self).wf(),
            final(self).width() == (if width == 0 { DEFAULT_TERMINAL_WIDTH as nat } else { width as nat }),
            final(self).cur() == old(self).cur(),
            final(self).cursor_pos() == old(self).cursor_pos(),
            final(self).pending() == old(self).pending(),
            final(self).loc() == old(self).loc(),
            final(self).hist() == old(self).hist(),
            final(self).new_text() == old(self).new_text(),
            final(self).eol_blocked() == old(self).eol_blocked(),
            final(self).hint_active() == old(self).hint_active(),
            final(self).searching() == old(self).searching(),
    {
        self.terminal_width = if width == 0 { DEFAULT_TERMINAL_WIDTH } else { width as usize };
    }

    /// Hands over the terminal output produced since the last call.
    pub fn take_output(&mut self) -> (r: String)
        requires
            old(self).wf(),
        ensures
            final(self).wf(),
            r@ == old(self).pending(),
            final(self).pending() == Seq::<char>::empty(),
            final(self).cur() == old(self).cur(),
            final(self).cursor_pos() == old(self).cursor_pos(),
            final(self).loc() == old(self).loc(),
            final(self).hist() == old(self).hist(),
            final(self).new_text() == old(self).new_text(),
            final(self).eol_blocked() == old(self).eol_blocked(),
            final(self).hint_active() == old(self).hint_active(),
            final(self).searching() == old(self).searching(),
    {
        let mut out: Vec<char> = Vec::new();
        std::mem::swap(&mut out, &mut self.output);
        string_of(out.as_slice())
    }

    /// The cursor position.
    pub fn cursor(&self) -> (r: usize)
        ensures
            r == self.cursor_pos(),
    {
        self.cursor
    }

    /// Whether a grid of completion candidates is being shown.
    pub fn show_autosuggestions(&self) -> (r: bool)
        ensures
            r == self.hint_active(),
    {
        self.show_completions_hint.is_some()
    }

    /// Whether the last redraw showed an autosuggestion.
    pub fn is_currently_showing_autosuggestion(&self) -> (r: bool)
        ensures
            r == self.suggestion_shown(),
    {
        self.autosuggestion.is_some()
    }

    pub open spec fn suggestion_shown(&self) -> bool {
        self.held_suggestion() is Some
    }

    /// Hides the completion grid.
    pub fn skip_completions_hint(&mut self)
        requires
            old(self).wf(),
        ensures
            final(self).cur_buf() == old(self).cur_buf(),
            !old(self).hint_active() ==> *final(self) == *old(self),
            final(self).wf(),
            !final(self).hint_active(),
            final(self).cur() == old(self).cur(),
            final(self).loc() == old(self).loc(),
            final(self).hist() == old(self).hist(),
            final(self).new_text() == old(self).new_text(),
            final(self).cursor_pos() == old(self).cursor_pos(),
            final(self).eol_blocked() == old(self).eol_blocked(),
            final(self).searching() == old(self).searching(),
    {
        self.show_completions_hint = None;
    }

    /// The history and the other shared state.
    pub fn context(&self) -> (r: &Context)
        ensures
            r.history.view() == self.hist(),
    {
        &self.context
    }

    /// The text of the current buffer.
    pub fn text(&self) -> (r: String)
        requires
            self.wf(),
        ensures
            r@ == self.cur(),
    {
        string_of(self.current_buffer().chars().as_slice())
    }

    /// Ends the session: the text of the current buffer, and the context back.
    pub fn finish(self) -> (r: (String, Context))
        requires
            self.wf(),
        ensures
            r.0@ == self.cur(),
            r.1.history.view() == self.hist(),
    {
        let s = self.text();
        (s, self.context)
    }

    /// Does the cursor rest on the last position it may take?
    pub fn cursor_is_at_end_of_line(&self) -> (r: bool)
        requires
            self.wf(),
        ensures
            r == self.at_end(),
    {
        let n = self.current_buffer().num_chars();
        if self.no_eol && n > 0 {
            self.cursor == n - 1
        } else {
            self.cursor == n
        }
    }

    /// Inserts `cs` at the cursor and moves the cursor past them. (Text that would not fit
    /// in memory is not inserted.)
    pub fn insert_chars_after_cursor(&mut self, cs: &[char])
        requires
            old(self).wf(),
        ensures
            old(self).cur().len() + cs@.len() <= usize::MAX ==> final(self).cur_buf().actions()
                == old(self).cur_buf().actions().push(ActionV::Insert(old(self).cursor_pos(), cs@)),
            after_edit(
                old(self),
                final(self),
                if old(self).cur().len() + cs@.len() <= usize::MAX {
                    spliced(old(self).cur(), old(self).cursor_pos() as int, cs@)
                } else {
                    old(self).cur()
                },
                if old(self).cur().len() + cs@.len() <= usize::MAX {
                    old(self).cursor_pos() + cs@.len()
                } else {
                    old(self).cursor_pos() as int
                },
            ),
    {
        let mut b = self.take_cur();
        if b.num_chars() <= usize::MAX - cs.len() {
            b.insert(self.cursor, cs);
            self.cursor = self.cursor + cs.len();
        }
        self.put_cur(b);
        self.buffer_changed = true;
        self.no_newline = true;
        self.display();
    }

    /// Inserts a string at the cursor.
    pub fn insert_str_after_cursor(&mut self, s: &str)
        requires
            old(self).wf(),
        ensures
            after_edit(
                old(self),
                final(self),
                if old(self).cur().len() + s@.len() <= usize::MAX {
                    spliced(old(self).cur(), old(self).cursor_pos() as int, s@)
                } else {
                    old(self).cur()
                },
                if old(self).cur().len() + s@.len() <= usize::MAX {
                    old(self).cursor_pos() + s@.len()
                } else {
                    old(self).cursor_pos() as int
                },
            ),
    {
        let cs = chars_of(s);
        self.insert_chars_after_cursor(cs.as_slice());
    }

    /// Inserts one character at the cursor.
    pub fn insert_after_cursor(&mut self, c: char)
        requires
            old(self).wf(),
        ensures
            old(self).cur().len() + 1 <= usize::MAX ==> final(self).cur_buf().actions()
                == old(self).cur_buf().actions().push(ActionV::Insert(old(self).cursor_pos(), seq![c])),
            after_edit(
                old(self),
                final(self),
                if old(self).cur().len() + 1 <= usize::MAX {
                    spliced(old(self).cur(), old(self).cursor_pos() as int, seq![c])
                } else {
                    old(self).cur()
                },
                if old(self).cur().len() + 1 <= usize::MAX {
                    old(self).cursor_pos() + 1
                } else {
                    old(self).cursor_pos() as int
                },
            ),
    {
        let cs = [c];
        assert(cs@ =~= seq![c]);
        self.insert_chars_after_cursor(&cs);
    }

    /// Removes `[lo, hi)` from the current buffer (clamped) and puts the cursor at `c`.
    fn remove_range(&mut self, lo: usize, hi: usize, c: usize)
        requires
            old(self).wf(),
            c <= remove_spec(old(self).cur(), lo as int, hi as int).len(),
        ensures
            after_edit(old(self), final(self), remove_spec(old(self).cur(), lo as int, hi as int), c as int),
            final(self).cur_buf().actions() == old(self).cur_buf().actions().push(
                ActionV::Remove(
                    remove_lo(old(self).cur().len() as int, lo as int),
                    removed_spec(old(self).cur(), lo as int, hi as int),
                ),
            ),
    {
        proof {
            self.lemma_cur_buf();
        }
        let mut b = self.take_cur();
        b.remove(lo, hi);
        self.put_cur(b);
        self.cursor = c;
        self.buffer_changed = true;
        self.no_newline = true;
        self.display();
    }

    /// Deletes the character before the cursor, if any, and moves left.
    pub fn delete_before_cursor(&mut self)
        requires
            old(self).wf(),
        ensures
            after_edit(
                old(self),
                final(self),
                if old(self).cursor_pos() > 0 {
                    cut(old(self).cur(), old(self).cursor_pos() - 1, old(self).cursor_pos() as int)
                } else {
                    old(self).cur()
                },
                if old(self).cursor_pos() > 0 { old(self).cursor_pos() - 1 } else { 0 },
            ),
    {
        if self.cursor > 0 {
            self.remove_range(self.cursor - 1, self.cursor, self.cursor - 1);
        } else {
            self.no_newline = true;
            self.display();
        }
    }

    /// Deletes the character after the cursor, if any.
    pub fn delete_after_cursor(&mut self)
        requires
            old(self).wf(),
        ensures
            old(self).cursor_pos() < old(self).cur().len() ==> final(self).cur_buf().actions()
                == old(self).cur_buf().actions().push(
                ActionV::Remove(old(self).cursor_pos(), seq![old(self).cur()[old(self).cursor_pos()]]),
            ),
            after_edit(
                old(self),
                final(self),
                if old(self).cursor_pos() < old(self).cur().len() {
                    cut(old(self).cur(), old(self).cursor_pos() as int, old(self).cursor_pos() + 1)
                } else {
                    old(self).cur()
                },
                old(self).cursor_pos() as int,
            ),
    {
        let n = self.current_buffer().num_chars();
        if self.cursor < n {
            assert(removed_spec(self.cur(), self.cursor as int, self.cursor + 1) =~= seq![self.cur()[self.cursor as int]]);
            self.remove_range(self.cursor, self.cursor + 1, self.cursor);
        } else {
            self.no_newline = true;
            self.display();
        }
    }

    /// Deletes everything before the cursor.
    pub fn delete_all_before_cursor(&mut self)
        requires
            old(self).wf(),
        ensures
            after_edit(old(self), final(self), old(self).cur().skip(old(self).cursor_pos() as int), 0),
    {
        proof {
            assert(remove_spec(self.cur(), 0, self.cursor as int) =~= self.cur().skip(self.cursor as int));
        }
        self.remove_range(0, self.cursor, 0);
    }

    /// Deletes everything after the cursor.
    pub fn delete_all_after_cursor(&mut self)
        requires
            old(self).wf(),
        ensures
            after_edit(
                old(self),
                final(self),
                old(self).cur().take(old(self).cursor_pos() as int),
                old(self).cursor_pos() as int,
            ),
    {
        let n = self.current_buffer().num_chars();
        proof {
            assert(remove_spec(self.cur(), self.cursor as int, n as int) =~= self.cur().take(self.cursor as int));
        }
        self.remove_range(self.cursor, n, self.cursor);
    }

    /// Deletes from the cursor to `position`, either way; the cursor ends at the lower end.
    pub fn delete_until(&mut self, position: usize)
        requires
            old(self).wf(),
        ensures
            after_edit(
                old(self),
                final(self),
                remove_spec(
                    old(self).cur(),
                    if old(self).cursor_pos() <= position { old(self).cursor_pos() as int } else { position as int },
                    if old(self).cursor_pos() <= position { position as int } else { old(self).cursor_pos() as int },
                ),
                if old(self).cursor_pos() <= position { old(self).cursor_pos() as int } else { position as int },
            ),
            final(self).cur_buf().actions() == old(self).cur_buf().actions().push(
                ActionV::Remove(
                    remove_lo(
                        old(self).cur().len() as int,
                        if old(self).cursor_pos() <= position { old(self).cursor_pos() as int } else { position as int },
                    ),
                    removed_spec(
                        old(self).cur(),
                        if old(self).cursor_pos() <= position { old(self).cursor_pos() as int } else { position as int },
                        if old(self).cursor_pos() <= position { position as int } else { old(self).cursor_pos() as int },
                    ),
                ),
            ),
    {
        let lo = if self.cursor <= position { self.cursor } else { position };
        let hi = if self.cursor <= position { position } else { self.cursor };
        self.remove_range(lo, hi, lo);
    }

    /// Deletes from the cursor to `position`, both ends included; the cursor ends at the
    /// lower end.
    pub fn delete_until_inclusive(&mut self, position: usize)
        requires
            old(self).wf(),
        ensures
            after_edit(
                old(self),
                final(self),
                remove_spec(
                    old(self).cur(),
                    if old(self).cursor_pos() <= position { old(self).cursor_pos() as int } else { position as int },
                    sat(if old(self).cursor_pos() <= position { position + 1 } else { old(self).cursor_pos() + 1 }),
                ),
                if old(self).cursor_pos() <= position { old(self).cursor_pos() as int } else { position as int },
            ),
    {
        let lo = if self.cursor <= position { self.cursor } else { position };
        let top = if self.cursor <= position { position } else { self.cursor };
        let hi = if top == usize::MAX { usize::MAX } else { top + 1 };
        self.remove_range(lo, hi, lo);
    }

    /// Moves the cursor left by `count`, stopping at the start. While completions are shown
    /// it only redraws.
    pub fn move_cursor_left(&mut self, count: usize)
        requires
            old(self).wf(),
        ensures
            final(self).cur_buf() == old(self).cur_buf(),
            after_edit(
                old(self),
                final(self),
                old(self).cur(),
                if old(self).hint_active() {
                    old(self).cursor_pos() as int
                } else if count > old(self).cursor_pos() {
                    0
                } else {
                    old(self).cursor_pos() - count
                },
            ),
            final(self).new_text() == old(self).new_text(),
            final(self).hist() == old(self).hist(),
    {
        if self.show_completions_hint.is_none() {
            let c = if count > self.cursor { self.cursor } else { count };
            self.cursor = self.cursor - c;
            self.no_newline = true;
        }
        self.display();
    }

    /// Moves the cursor right by `count`, stopping at the end. While completions are shown
    /// it only redraws.
    pub fn move_cursor_right(&mut self, count: usize)
        requires
            old(self).wf(),
        ensures
            final(self).cur_buf() == old(self).cur_buf(),
            after_edit(
                old(self),
                final(self),
                old(self).cur(),
                if old(self).hint_active() {
                    old(self).cursor_pos() as int
                } else if count > old(self).cur().len() - old(self).cursor_pos() {
                    old(self).cur().len() as int
                } else {
                    old(self).cursor_pos() + count
                },
            ),
            final(self).new_text() == old(self).new_text(),
            final(self).hist() == old(self).hist(),
    {
        if self.show_completions_hint.is_none() {
            let n = self.current_buffer().num_chars();
            let c = if count > n - self.cursor { n - self.cursor } else { count };
            self.cursor = self.cursor + c;
            self.no_newline = true;
        }
        self.display();
    }

    /// Moves the cursor to `pos`, clamped to the end.
    pub fn move_cursor_to(&mut self, pos: usize)
        requires
            old(self).wf(),
        ensures
            final(self).cur_buf() == old(self).cur_buf(),
            after_edit(
                old(self),
                final(self),
                old(self).cur(),
                if pos > old(self).cur().len() { old(self).cur().len() as int } else { pos as int },
            ),
            final(self).new_text() == old(self).new_text(),
            final(self).hist() == old(self).hist(),
    {
        let n = self.current_buffer().num_chars();
        self.cursor = if pos > n { n } else { pos };
        self.no_newline = true;
        self.display();
    }

    /// Moves the cursor to the start of the line.
    pub fn move_cursor_to_start_of_line(&mut self)
        requires
            old(self).wf(),
        ensures
            final(self).cur_buf() == old(self).cur_buf(),
            after_edit(old(self), final(self), old(self).cur(), 0),
            final(self).new_text() == old(self).new_text(),
            final(self).hist() == old(self).hist(),
    {
        self.cursor = 0;
        self.no_newline = true;
        self.display();
    }

    /// Moves the cursor to the end of the line.
    pub fn move_cursor_to_end_of_line(&mut self)
        requires
            old(self).wf(),
        ensures
            final(self).cur_buf() == old(self).cur_buf(),
            after_edit(old(self), final(self), old(self).cur(), old(self).cur().len() as int),
            final(self).new_text() == old(self).new_text(),
            final(self).hist() == old(self).hist(),
    {
        self.cursor = self.current_buffer().num_chars();
        self.no_newline = true;
        self.display();
    }

    /// The buffer being edited, with its undo record.
    pub closed spec fn cur_buf(&self) -> Buffer {
        match self.cur_history_loc {
            Some(i) => self.context.history.buffers@[i as int],
            None => self.new_buf,
        }
    }

    /// The span of the word before the cursor, under the given policy.
    pub open spec fn word_span(&self, ignore_space: bool) -> Option<(usize, usize)> {
        word_before(
            buffer_words(self.cur()),
            position_of(self.cursor_pos() as usize, buffer_words(self.cur())),
            ignore_space,
        )
    }

    /// Where word-wise deletion starts: the start of the word before the cursor (never past
    /// the cursor), or the cursor itself when there is no such word.
    pub open spec fn word_cut_start(&self, ignore_space: bool) -> int {
        match self.word_span(ignore_space) {
            Some((s, _)) => if s <= self.cursor_pos() { s as int } else { self.cursor_pos() },
            None => self.cursor_pos(),
        }
    }

    fn get_word_before_cursor(&self, ignore_space: bool) -> (r: Option<(usize, usize)>)
        requires
            self.wf(),
        ensures
            r == self.word_span(ignore_space),
    {
        let (words, pos) = self.get_words_and_cursor_position();
        match pos {
            CursorPosition::InWord(i) => if i < words.len() { Some(words[i]) } else { None },
            CursorPosition::InSpace(Some(i), _) => if ignore_space && i < words.len() {
                Some(words[i])
            } else {
                None
            },
            CursorPosition::InSpace(None, _) => None,
            CursorPosition::OnWordLeftEdge(i) => if ignore_space && i > 0 && i - 1 < words.len() {
                Some(words[i - 1])
            } else {
                None
            },
            CursorPosition::OnWordRightEdge(i) => if i < words.len() { Some(words[i]) } else { None },
        }
    }

    /// Deletes the word before the cursor. With `ignore_space_before_cursor`, space right
    /// before the cursor is skipped to reach the word; without it, nothing is deleted there.
    pub fn delete_word_before_cursor(&mut self, ignore_space_before_cursor: bool)
        requires
            old(self).wf(),
        ensures
            after_edit(
                old(self),
                final(self),
                cut(old(self).cur(), old(self).word_cut_start(ignore_space_before_cursor), old(self).cursor_pos()),
                old(self).word_cut_start(ignore_space_before_cursor),
            ),
    {
        match self.get_word_before_cursor(ignore_space_before_cursor) {
            Some((start, _)) => {
                let lo = if start <= self.cursor { start } else { self.cursor };
                proof {
                    assert(remove_spec(self.cur(), lo as int, self.cursor as int)
                        =~= cut(self.cur(), lo as int, self.cursor as int));
                }
                self.remove_range(lo, self.cursor, lo);
            },
            None => {
                assert(cut(self.cur(), self.cursor as int, self.cursor as int) =~= self.cur());
                self.no_newline = true;
                self.display();
            },
        }
    }

    /// Opens an undo group on the current buffer.
    pub fn start_undo_group(&mut self)
        requires
            old(self).wf(),
        ensures
            final(self).eol_blocked() == old(self).eol_blocked(),
            final(self).hint_active() == old(self).hint_active(),
            final(self).wf(),
            Self::kept(old(self), final(self)),
            final(self).loc() == old(self).loc(),
            final(self).cur() == old(self).cur(),
            final(self).hist() == old(self).hist(),
            final(self).new_text() == old(self).new_text(),
            final(self).cursor_pos() == old(self).cursor_pos(),
            final(self).cur_buf().actions() == old(self).cur_buf().actions().push(ActionV::StartGroup),
    {
        let mut b = self.take_cur();
        b.start_undo_group();
        self.put_cur(b);
        proof {
            old(self).context.history.lemma_view();
            Self::lemma_same_texts(old(self), self);
        }
    }

    /// Closes an undo group on the current buffer.
    pub fn end_undo_group(&mut self)
        requires
            old(self).wf(),
        ensures
            final(self).eol_blocked() == old(self).eol_blocked(),
            final(self).hint_active() == old(self).hint_active(),
            final(self).wf(),
            Self::kept(old(self), final(self)),
            final(self).loc() == old(self).loc(),
            final(self).cur() == old(self).cur(),
            final(self).hist() == old(self).hist(),
            final(self).new_text() == old(self).new_text(),
            final(self).cursor_pos() == old(self).cursor_pos(),
            final(self).cur_buf().actions() == old(self).cur_buf().actions().push(ActionV::EndGroup),
    {
        let mut b = self.take_cur();
        b.end_undo_group();
        self.put_cur(b);
        proof {
            old(self).context.history.lemma_view();
            Self::lemma_same_texts(old(self), self);
        }
    }

    fn clear_search(&mut self)
        requires
            old(self).wf(),
        ensures
            final(self).wf(),
            !final(self).searching(),
            final(self).history_subset_index@.len() == 0,
            final(self).history_subset_loc is None,
            final(self).prompt@ == old(self).prompt@,
            final(self).cursor == old(self).cursor,
            final(self).cur_history_loc == old(self).cur_history_loc,
            final(self).show_completions_hint == old(self).show_completions_hint,
            final(self).show_autosuggestions == old(self).show_autosuggestions,
            final(self).no_eol == old(self).no_eol,
            final(self).terminal_width == old(self).terminal_width,
            final(self).hist() == old(self).hist(),
            final(self).new_buf == old(self).new_buf,
            final(self).autosuggestion == old(self).autosuggestion,
            final(self).cur_buf() == old(self).cur_buf(),
            final(self).context.history.buffers@ == old(self).context.history.buffers@,
            final(self).term_cursor_line == old(self).term_cursor_line,
            final(self).no_newline == old(self).no_newline,
            final(self).buffer_changed == old(self).buffer_changed,
            final(self).output == old(self).output,
    {
        self.reverse_search = false;
        self.forward_search = false;
        self.history_subset_loc = None;
        self.history_subset_index.clear();
    }

    proof fn lemma_cursor_range(&self)
        requires
            self.wf(),
        ensures
            0 <= self.cursor_pos() <= self.cur().len(),
            self.cur().len() <= usize::MAX,
            self.hist().len() <= usize::MAX,
    {
        self.context.history.lemma_view();
        self.lemma_cur_buf();
        self.cur_buf().lemma_len_fits();
    }

    proof fn lemma_cur_buf(&self)
        requires
            self.wf(),
        ensures
            self.cur_buf()@ == self.cur(),
    {
        self.context.history.lemma_view();
    }

    /// Undoes the last group on the current buffer. When something was undone the cursor
    /// goes to the end of the line; else only a redraw happens. Returns whether anything was
    /// undone.
    pub fn undo(&mut self) -> (did: bool)
        requires
            old(self).wf(),
        ensures
            final(self).cur_buf().actions() == old(self).cur_buf().actions().take(
                undo_run(old(self).cur(), old(self).cur_buf().actions(), 0, false).1,
            ),
            did == (old(self).cur_buf().actions().len() > 0),
            after_edit(
                old(self),
                final(self),
                undo_run(old(self).cur(), old(self).cur_buf().actions(), 0, false).0,
                if did {
                    undo_run(old(self).cur(), old(self).cur_buf().actions(), 0, false).0.len() as int
                } else {
                    old(self).cursor_pos()
                },
            ),
    {
        proof {
            self.lemma_cur_buf();
        }
        let mut b = self.take_cur();
        let did = b.undo();
        if !did {
            assert(b@ == old(self).cur());
        }
        self.put_cur(b);
        self.buffer_changed = true;
        if did {
            self.move_cursor_to_end_of_line_after_edit();
        } else {
            self.no_newline = true;
            self.display();
        }
        did
    }

    /// Redoes the last undone group on the current buffer; like [`Editor::undo`] otherwise.
    pub fn redo(&mut self) -> (did: bool)
        requires
            old(self).wf(),
        ensures
            final(self).cur_buf().undone() == old(self).cur_buf().undone().take(
                redo_run(old(self).cur(), old(self).cur_buf().undone(), 0, false).1,
            ),
            did == (old(self).cur_buf().undone().len() > 0),
            after_edit(
                old(self),
                final(self),
                redo_run(old(self).cur(), old(self).cur_buf().undone(), 0, false).0,
                if did {
                    redo_run(old(self).cur(), old(self).cur_buf().undone(), 0, false).0.len() as int
                } else {
                    old(self).cursor_pos()
                },
            ),
    {
        proof {
            self.lemma_cur_buf();
        }
        let mut b = self.take_cur();
        let did = b.redo();
        self.put_cur(b);
        self.buffer_changed = true;
        if did {
            self.move_cursor_to_end_of_line_after_edit();
        } else {
            self.no_newline = true;
            self.display();
        }
        did
    }

    /// Undoes every recorded edit of the current buffer; like [`Editor::undo`] otherwise.
    pub fn revert(&mut self) -> (did: bool)
        requires
            old(self).wf(),
        ensures
            did == (old(self).cur_buf().actions().len() > 0),
            after_edit(
                old(self),
                final(self),
                if did { revert_run(old(self).cur(), old(self).cur_buf().actions()) } else { old(self).cur() },
                if did {
                    revert_run(old(self).cur(), old(self).cur_buf().actions()).len() as int
                } else {
                    old(self).cursor_pos()
                },
            ),
    {
        proof {
            self.lemma_cur_buf();
        }
        let mut b = self.take_cur();
        let did = b.revert();
        self.put_cur(b);
        self.buffer_changed = true;
        if did {
            self.move_cursor_to_end_of_line_after_edit();
        } else {
            self.no_newline = true;
            self.display();
        }
        did
    }

    /// Puts the cursor at the end of a buffer whose text may have changed, and redraws.
    fn move_cursor_to_end_of_line_after_edit(&mut self)
        requires
            old(self).cur_history_loc matches Some(i) ==> i < old(self).hist().len(),
            !(old(self).reverse_search && old(self).forward_search),
            old(self).history_subset_loc matches Some(l) ==> l < old(self).history_subset_index@.len(),
            forall|k: int| 0 <= k < old(self).history_subset_index@.len()
                ==> #[trigger] old(self).history_subset_index@[k] < old(self).hist().len(),
            old(self).searching() ==> old(self).cur_history_loc is None,
            1 <= old(self).terminal_width <= u16::MAX,
            old(self).show_completions_hint matches Some((c, h)) ==> c@.len() >= 1 && (h matches Some(i) ==> i < c@.len()),
        ensures
            final(self).held_suggestion() == final(self).suggestion(),
            final(self).cur_buf() == old(self).cur_buf(),
            !(old(self).searching() && old(self).buffer_changed) ==> final(self).subset() == old(self).subset() && final(self).subset_loc() == old(self).subset_loc(),
            after_edit(old(self), final(self), old(self).cur(), old(self).cur().len() as int),
            final(self).hist() == old(self).hist(),
            final(self).new_text() == old(self).new_text(),
    {
        proof {
            self.context.history.lemma_view();
        }
        self.cursor = self.current_buffer_unchecked().num_chars();
        self.no_newline = true;
        self.display();
    }

    fn current_buffer_unchecked(&self) -> (r: &Buffer)
        requires
            self.cur_history_loc matches Some(i) ==> i < self.hist().len(),
        ensures
            r@ == self.cur(),
    {
        match self.cur_history_loc {
            Some(i) => self.context.history.get(i),
            None => &self.new_buf,
        }
    }

    /// The history entry (or `None` for the new line) that moving up selects, outside
    /// search and with no completions shown. With a non-empty new line, up walks the
    /// entries that extend it, newest last; with an empty one, the whole history.
    pub closed spec fn up_target(&self) -> Option<usize> {
        if self.new_buf@.len() > 0 {
            match self.history_subset_loc {
                Some(i) => if i > 0 { Some(self.history_subset_index@[i - 1]) } else { self.cur_history_loc },
                None => {
                    let sub = matching_indices(self.hist(), self.new_buf@, true, self.hist().len() as int);
                    if sub.len() > 0 { Some(sub.last()) } else { self.cur_history_loc }
                },
            }
        } else {
            match self.cur_history_loc {
                Some(i) => if i > 0 { Some((i - 1) as usize) } else { self.cur_history_loc },
                None => if self.hist().len() > 0 { Some((self.hist().len() - 1) as usize) } else { None },
            }
        }
    }

    /// The history entry (or `None` for the new line) that moving down selects.
    pub closed spec fn down_target(&self) -> Option<usize> {
        if self.new_buf@.len() > 0 {
            match self.history_subset_loc {
                Some(i) => if i + 1 < self.history_subset_index@.len() {
                    Some(self.history_subset_index@[i + 1])
                } else {
                    None
                },
                None => self.cur_history_loc,
            }
        } else {
            match self.cur_history_loc {
                Some(i) => if i + 1 < self.hist().len() { Some((i + 1) as usize) } else { None },
                None => None,
            }
        }
    }

    /// Moves up (back) in history. Nothing happens while completions are shown; during a
    /// search it steps to the previous match.
    pub fn move_up(&mut self)
        requires
            old(self).wf(),
        ensures
            !old(self).hint_active() && !old(self).searching() && old(self).new_text().len() > 0 ==> (
                old(self).subset_loc() matches Some(k) ==> (if k > 0 {
                    final(self).subset_loc() == Some((k - 1) as usize) && final(self).subset() == old(self).subset()
                } else {
                    final(self).subset_loc() == old(self).subset_loc() && final(self).subset() == old(self).subset()
                })),
            old(self).hint_active() ==> final(self).pending() == old(self).pending(),
            final(self).settled() || old(self).hint_active() && final(self).cursor_pos() == old(self).cursor_pos() && final(self).cur() == old(self).cur(),
            final(self).wf(),
            final(self).hist() == old(self).hist(),
            final(self).new_text() == old(self).new_text(),
            final(self).eol_blocked() == old(self).eol_blocked(),
            final(self).hint_active() == old(self).hint_active(),
            old(self).hint_active() ==> final(self).loc() == old(self).loc() && final(self).cursor_pos() == old(self).cursor_pos(),
            !old(self).hint_active() && !old(self).searching() ==> final(self).loc() == old(self).up_target()
                && final(self).cursor_pos() == clamped(final(self).cur().len() as int, final(self).cur().len() as int, old(self).eol_blocked())
                && !final(self).searching(),
            old(self).searching() ==> final(self).searching() && final(self).loc() is None,
    {
        if self.show_completions_hint.is_some() {
            return;
        }
        if self.reverse_search || self.forward_search {
            self.search(false);
            return;
        }
        proof {
            self.context.history.lemma_view();
        }
        if self.new_buf.num_chars() > 0 {
            match self.history_subset_loc {
                Some(i) => {
                    if i > 0 {
                        self.history_subset_loc = Some(i - 1);
                        self.cur_history_loc = Some(self.history_subset_index[i - 1]);
                    }
                },
                None => {
                    let sub = self.context.history.get_history_subset(self.new_buf.chars());
                    proof {
                        lemma_matching_indices_bounded(self.hist(), self.new_buf@, true, self.hist().len() as int);
                    }
                    self.history_subset_index = sub;
                    let n = self.history_subset_index.len();
                    if n > 0 {
                        self.history_subset_loc = Some(n - 1);
                        self.cur_history_loc = Some(self.history_subset_index[n - 1]);
                    }
                },
            }
        } else {
            match self.cur_history_loc {
                Some(i) => {
                    if i > 0 {
                        self.cur_history_loc = Some(i - 1);
                    }
                },
                None => {
                    let n = self.context.history.len();
                    if n > 0 {
                        self.cur_history_loc = Some(n - 1);
                    }
                },
            }
        }
        self.move_cursor_to_end_of_line_after_edit();
    }

    /// Moves down (forward) in history, back to the new line past the newest entry.
    /// Nothing happens while completions are shown; during a search it steps to the next
    /// match.
    pub fn move_down(&mut self)
        requires
            old(self).wf(),
        ensures
            !old(self).hint_active() && !old(self).searching() && old(self).new_text().len() > 0 ==> (
                old(self).subset_loc() matches Some(k) ==> (if k + 1 < old(self).subset().len() {
                    final(self).subset_loc() == Some((k + 1) as usize) && final(self).subset() == old(self).subset()
                } else {
                    final(self).subset_loc() is None && final(self).subset().len() == 0
                })),
            old(self).hint_active() ==> final(self).pending() == old(self).pending(),
            final(self).settled() || old(self).hint_active() && final(self).cursor_pos() == old(self).cursor_pos() && final(self).cur() == old(self).cur(),
            final(self).wf(),
            final(self).hist() == old(self).hist(),
            final(self).new_text() == old(self).new_text(),
            final(self).eol_blocked() == old(self).eol_blocked(),
            final(self).hint_active() == old(self).hint_active(),
            old(self).hint_active() ==> final(self).loc() == old(self).loc() && final(self).cursor_pos() == old(self).cursor_pos(),
            !old(self).hint_active() && !old(self).searching() ==> final(self).loc() == old(self).down_target()
                && final(self).cursor_pos() == clamped(final(self).cur().len() as int, final(self).cur().len() as int, old(self).eol_blocked())
                && !final(self).searching(),
            old(self).searching() ==> final(self).searching() && final(self).loc() is None,
    {
        if self.show_completions_hint.is_some() {
            return;
        }
        if self.reverse_search || self.forward_search {
            self.search(true);
            return;
        }
        proof {
            self.context.history.lemma_view();
        }
        if self.new_buf.num_chars() > 0 {
            match self.history_subset_loc {
                Some(i) => {
                    let n = self.history_subset_index.len();
                    if i + 1 < n {
                        self.history_subset_loc = Some(i + 1);
                        self.cur_history_loc = Some(self.history_subset_index[i + 1]);
                    } else {
                        self.cur_history_loc = None;
                        self.history_subset_loc = None;
                        self.history_subset_index.clear();
                    }
                },
                None => {},
            }
        } else {
            let n = self.context.history.len();
            match self.cur_history_loc {
                Some(i) => {
                    if i + 1 < n {
                        self.cur_history_loc = Some(i + 1);
                    } else {
                        self.cur_history_loc = None;
                    }
                },
                None => {},
            }
        }
        self.move_cursor_to_end_of_line_after_edit();
    }

    /// Selects the oldest history entry (leaving any search), or the new line when the
    /// history is empty.
    pub fn move_to_start_of_history(&mut self)
        requires
            old(self).wf(),
        ensures
            final(self).settled(),
            final(self).eol_blocked() == old(self).eol_blocked(),
            final(self).wf(),
            final(self).hist() == old(self).hist(),
            final(self).new_text() == old(self).new_text(),
            final(self).loc() == (if old(self).hist().len() > 0 { Some(0usize) } else { None::<usize> }),
            old(self).hist().len() > 0 ==> final(self).cursor_pos() == clamped(
                final(self).cur().len() as int,
                final(self).cur().len() as int,
                old(self).eol_blocked(),
            ),
    {
        if self.context.history.len() > 0 {
            if self.reverse_search || self.forward_search {
                self.clear_search();
            }
            self.cur_history_loc = Some(0);
            self.move_cursor_to_end_of_line_after_edit();
        } else {
            self.cur_history_loc = None;
            self.no_newline = true;
            self.display();
        }
    }

    /// Returns to the new line.
    pub fn move_to_end_of_history(&mut self)
        requires
            old(self).wf(),
        ensures
            final(self).settled(),
            final(self).eol_blocked() == old(self).eol_blocked(),
            final(self).wf(),
            final(self).hist() == old(self).hist(),
            final(self).new_text() == old(self).new_text(),
            final(self).loc() is None,
            old(self).loc() is Some ==> final(self).cursor_pos() == clamped(
                final(self).cur().len() as int,
                final(self).cur().len() as int,
                old(self).eol_blocked(),
            ),
    {
        if self.cur_history_loc.is_some() {
            self.cur_history_loc = None;
            self.move_cursor_to_end_of_line_after_edit();
        } else {
            self.no_newline = true;
            self.display();
        }
    }

    /// Starts an incremental search over history for the new line's text (forward or back),
    /// or, when one is under way, steps to the next or previous match, wrapping around.
    pub fn search(&mut self, forward: bool)
        requires
            old(self).wf(),
        ensures
            !old(self).searching() ==> final(self).subset_loc() == refreshed_loc(
                final(self).subset(),
                if old(self).subset().len() > 0 && old(self).subset_loc() is Some {
                    Some(old(self).subset()[old(self).subset_loc()->0 as int])
                } else {
                    None::<usize>
                },
                forward,
            ),
            old(self).searching() ==> final(self).forward() == old(self).forward() && final(self).reverse() == old(self).reverse(),
            final(self).settled(),
            final(self).wf(),
            final(self).searching(),
            final(self).loc() is None,
            final(self).hist() == old(self).hist(),
            final(self).new_text() == old(self).new_text(),
            final(self).eol_blocked() == old(self).eol_blocked(),
            final(self).hint_active() == old(self).hint_active(),
            !old(self).searching() ==> final(self).forward() == forward && final(self).reverse() == !forward
                && final(self).subset() == matching_indices(old(self).hist(), old(self).new_text(), false, old(self).hist().len() as int),
            old(self).searching() && old(self).subset().len() > 0 && old(self).subset_loc() is Some
                && !old(self).query_changed() ==> final(self).subset() == old(self).subset()
                && final(self).subset_loc() == Some(
                    (if forward {
                        if old(self).subset_loc()->0 + 1 < old(self).subset().len() { old(self).subset_loc()->0 + 1 } else { 0 }
                    } else {
                        if old(self).subset_loc()->0 > 0 { old(self).subset_loc()->0 - 1 } else { old(self).subset().len() - 1 }
                    }) as usize,
                ),
    {
        if !(self.reverse_search || self.forward_search) {
            self.refresh_search(forward);
        } else if self.history_subset_index.len() > 0 {
            let n = self.history_subset_index.len();
            self.history_subset_loc = match self.history_subset_loc {
                Some(p) => if forward {
                    if p + 1 < n { Some(p + 1) } else { Some(0) }
                } else {
                    if p > 0 { Some(p - 1) } else { Some(n - 1) }
                },
                None => None,
            };
        }
        self.display_search();
    }

    /// Redraws during a search; a stale query is refreshed first.
    fn display_search(&mut self)
        requires
            old(self).wf(),
            old(self).searching(),
        ensures
            final(self).settled(),
            final(self).wf(),
            final(self).searching(),
            final(self).loc() is None,
            final(self).hist() == old(self).hist(),
            final(self).new_text() == old(self).new_text(),
            final(self).eol_blocked() == old(self).eol_blocked(),
            final(self).hint_active() == old(self).hint_active(),
            final(self).forward() == old(self).forward(),
            final(self).reverse() == old(self).reverse(),
            !old(self).buffer_changed ==> final(self).subset() == old(self).subset() && final(self).subset_loc() == old(self).subset_loc(),
    {
        self.no_newline = true;
        if self.buffer_changed {
            let forward = self.forward_search;
            self.refresh_search(forward);
        }
        self.autosuggestion = self.current_autosuggestion();
        self.redraw(true);
    }

    /// The text that accepting the autosuggestion gives: the suggestion itself while
    /// searching, else the line extended by the suggestion's tail.
    pub closed spec fn accepted(&self) -> Seq<char> {
        match self.autosuggestion {
            Some(x) => if !self.show_autosuggestions {
                self.cur()
            } else if self.searching() {
                x@
            } else if x@.len() > self.cur().len() && self.cur().len() + x@.len() <= usize::MAX {
                self.cur() + x@.skip(self.cur().len() as int)
            } else {
                self.cur()
            },
            None => self.cur(),
        }
    }

    /// Copies the autosuggestion into the current buffer, leaves any search, and moves the
    /// cursor to the end.
    pub fn accept_autosuggestion(&mut self)
        requires
            old(self).wf(),
        ensures
            final(self).settled(),
            final(self).wf(),
            !final(self).searching(),
            final(self).loc() == old(self).loc(),
            final(self).cur() == old(self).accepted(),
            final(self).cursor_pos() == clamped(
                old(self).accepted().len() as int,
                old(self).accepted().len() as int,
                old(self).eol_blocked(),
            ),
            final(self).eol_blocked() == old(self).eol_blocked(),
            final(self).hint_active() == old(self).hint_active(),
            final(self).hist().len() == old(self).hist().len(),
    {
        let searching = self.reverse_search || self.forward_search;
        self.clear_search();
        if self.show_autosuggestions {
            let mut sugg: Option<Vec<char>> = None;
            std::mem::swap(&mut sugg, &mut self.autosuggestion);
            match &sugg {
                Some(x) => {
                    let mut b = self.take_cur();
                    if searching {
                        b.copy_buffer(x);
                    } else if x.len() > b.num_chars() && b.num_chars() <= usize::MAX - x.len() {
                        b.insert_from_buffer(x);
                    }
                    self.put_cur(b);
                    self.buffer_changed = true;
                },
                None => {},
            }
            self.autosuggestion = sugg;
        }
        self.move_cursor_to_end_of_line_after_edit();
    }

    /// Clears the screen and draws prompt and buffer again, leaving any search.
    pub fn clear(&mut self)
        requires
            old(self).wf(),
        ensures
            final(self).settled(),
            final(self).wf(),
            !final(self).searching(),
            final(self).loc() == old(self).loc(),
            final(self).cur() == old(self).cur(),
            final(self).hist() == old(self).hist(),
            final(self).new_text() == old(self).new_text(),
            final(self).cursor_pos() == clamped(old(self).cursor_pos(), old(self).cur().len() as int, old(self).eol_blocked()),
            final(self).eol_blocked() == old(self).eol_blocked(),
            final(self).hint_active() == old(self).hint_active(),
            final(self).pending() == old(self).pending() + clear_all_seq() + goto_origin_seq()
                + old(self).cleared().redraw_output(old(self).cleared().suggestion(), true),
    {
        push_clear_all(&mut self.output);
        push_goto_origin(&mut self.output);
        self.term_cursor_line = 1;
        self.no_newline = true;
        self.clear_search();
        proof {
            let a = *self;
            let b = old(self).cleared();
            assert(a.cur() == b.cur());
            assert(a.shown_prompt() == b.shown_prompt());
            assert(a.suggestion() == b.suggestion());
            assert(a.cursor_prompt_width() == b.cursor_prompt_width());
            assert(a.redraw_output(a.suggestion(), true) == b.redraw_output(b.suggestion(), true));
        }
        self.display();
    }

    /// Handles Enter. During a search the selected match is taken first. A shown completion
    /// grid is only dismissed; a backslash before the cursor continues the line with a
    /// newline. Otherwise the line is finished: the cursor goes to its end, it is drawn once
    /// more and a line break follows. Returns whether the line is finished.
    #[verifier::rlimit(60)]
    pub fn handle_newline(&mut self) -> (done: bool)
        requires
            old(self).wf(),
        ensures
            !old(self).searching() && !done ==> final(self).cursor_pos() == (
                if old(self).hint_active() {
                    old(self).cursor_pos()
                } else if old(self).cur().len() + 1 <= usize::MAX {
                    clamped(old(self).cursor_pos() + 1, (old(self).cur().len() + 1) as int, old(self).eol_blocked())
                } else {
                    clamped(old(self).cursor_pos(), old(self).cur().len() as int, old(self).eol_blocked())
                }),
            !old(self).searching() && done ==> final(self).pending() == old(self).pending()
                + old(self).finishing().redraw_output(old(self).held_suggestion(), false) + seq!['\r', '\n'],
            old(self).settled() ==> final(self).settled(),
            final(self).wf(),
            !final(self).searching(),
            !final(self).hint_active(),
            final(self).eol_blocked() == old(self).eol_blocked(),
            !old(self).searching() ==> (done <==> !old(self).hint_active()
                && !(old(self).cursor_pos() > 0 && old(self).cur()[old(self).cursor_pos() - 1] == '\\')),
            !old(self).searching() ==> final(self).loc() == old(self).loc(),
            !old(self).searching() && !done ==> final(self).cur() == (
                if !old(self).hint_active() && old(self).cur().len() + 1 <= usize::MAX {
                    spliced(old(self).cur(), old(self).cursor_pos(), seq!['\n'])
                } else {
                    old(self).cur()
                }),
            !old(self).searching() && done ==> final(self).cur() == old(self).cur()
                && final(self).cursor_pos() == clamped(old(self).cur().len() as int, old(self).cur().len() as int, old(self).eol_blocked()),
    {
        if self.reverse_search || self.forward_search {
            self.accept_autosuggestion();
        }
        self.clear_search();
        if self.show_completions_hint.is_some() {
            self.show_completions_hint = None;
            return false;
        }
        let before = self.current_buffer().char_before(self.cursor);
        if before == Some('\\') {
            self.insert_after_cursor('\n');
            false
        } else {
            self.cursor = self.current_buffer().num_chars();
            self.no_newline = true;
            proof {
                let a = *self;
                let b = old(self).finishing();
                if !old(self).searching() {
                    assert(a.cur() == b.cur());
                    assert(a.shown_prompt() == b.shown_prompt());
                    assert(a.cursor_prompt_width() == b.cursor_prompt_width());
                    assert(a.redraw_output(a.held_suggestion(), false) == b.redraw_output(b.held_suggestion(), false));
                }
            }
            self.redraw(false);
            self.output.push('\r');
            self.output.push('\n');
            self.show_completions_hint = None;
            true
        }
    }

    /// The text with the word before the cursor replaced by `t` (when it fits in memory).
    pub open spec fn replaced_word(&self, t: Seq<char>) -> Seq<char> {
        let ws = self.word_cut_start(false);
        let rest = cut(self.cur(), ws, self.cursor_pos());
        if rest.len() + t.len() <= usize::MAX {
            spliced(rest, clamped(ws, rest.len() as int, self.eol_blocked()), t)
        } else {
            rest
        }
    }

    /// The cursor after the word before it is replaced by `t`: just past `t`.
    pub open spec fn replaced_cursor(&self, t: Seq<char>) -> int {
        let ws = self.word_cut_start(false);
        let rest = cut(self.cur(), ws, self.cursor_pos());
        let c1 = clamped(ws, rest.len() as int, self.eol_blocked());
        if rest.len() + t.len() <= usize::MAX {
            clamped(c1 + t.len(), (rest.len() + t.len()) as int, self.eol_blocked())
        } else {
            c1
        }
    }

    /// The highlighted candidate and the candidates of the completion grid, if shown.
    pub closed spec fn hint(&self) -> Option<(Seq<Seq<char>>, Option<usize>)> {
        match self.show_completions_hint {
            Some((c, h)) => Some((views(c@), h)),
            None => None,
        }
    }

    /// The column count of the grid drawn for `c`.
    pub closed spec fn grid_columns(&self, c: Seq<Seq<char>>) -> int {
        grid_cols(self.terminal_width as int, max_word(c))
    }

    /// The grid has at least one column.
    pub proof fn lemma_grid_columns(&self, c: Seq<Seq<char>>)
        ensures
            self.grid_columns(c) >= 1,
    {
    }

    /// Replaces the word before the cursor with `t`.
    fn replace_word(&mut self, t: &Vec<char>)
        requires
            old(self).wf(),
        ensures
            final(self).cursor_pos() == old(self).replaced_cursor(t@),
            final(self).settled(),
            final(self).wf(),
            Self::kept(old(self), final(self)),
            final(self).loc() == old(self).loc(),
            final(self).cur() == old(self).replaced_word(t@),
            final(self).hint() == old(self).hint(),
    {
        self.delete_word_before_cursor(false);
        self.insert_chars_after_cursor(t.as_slice());
    }

    /// Acts on the candidates found for `word`, the word before the cursor: none, nothing
    /// happens; one, it replaces the word; several, their longest common prefix replaces the
    /// word when it extends it, and otherwise they are shown as a grid.
    pub fn apply_completions(&mut self, word: &Vec<char>, cands: Vec<Vec<char>>)
        requires
            old(self).wf(),
        ensures
            old(self).settled() ==> final(self).settled(),
            final(self).eol_blocked() == old(self).eol_blocked(),
            final(self).wf(),
            final(self).loc() == old(self).loc(),
            cands@.len() == 0 ==> !final(self).hint_active() && final(self).cur() == old(self).cur()
                && final(self).cursor_pos() == old(self).cursor_pos(),
            cands@.len() == 1 ==> !final(self).hint_active() && final(self).cur() == old(self).replaced_word(cands@[0]@)
                && final(self).cursor_pos() == old(self).replaced_cursor(cands@[0]@),
            cands@.len() >= 2 ==> if lcp(views(cands@)).len() > word@.len() && is_prefix(word@, lcp(views(cands@))) {
                final(self).cur() == old(self).replaced_word(lcp(views(cands@))) && !final(self).hint_active()
                    && final(self).cursor_pos() == old(self).replaced_cursor(lcp(views(cands@)))
            } else {
                final(self).cur() == old(self).cur() && final(self).hint() == Some((views(cands@), None::<usize>))
                    && final(self).cursor_pos() == clamped(old(self).cursor_pos(), old(self).cur().len() as int, old(self).eol_blocked())
            },
    {
        self.show_completions_hint = None;
        if cands.len() == 0 {
        } else if cands.len() == 1 {
            self.replace_word(&cands[0]);
        } else {
            let ghost vc = views(cands@);
            let p = common_prefix(&cands);
            let mut extends = p.len() > word.len();
            if extends {
                let mut k: usize = 0;
                while k < word.len()
                    invariant
                        k <= word@.len(),
                        word@.len() < p@.len(),
                        extends == (forall|j: int| 0 <= j < k ==> word@[j] == p@[j]),
                    decreases word@.len() - k,
                {
                    if word[k] != p[k] {
                        extends = false;
                    }
                    k = k + 1;
                }
                proof {
                    if extends {
                        assert(p@.take(word@.len() as int) =~= word@);
                    } else {
                        let j = choose|j: int| 0 <= j < word@.len() && word@[j] != p@[j];
                        assert(p@.take(word@.len() as int)[j] == p@[j]);
                    }
                }
            }
            if extends {
                self.replace_word(&p);
            } else {
                self.show_completions_hint = Some((cands, None));
                self.no_newline = true;
                self.display();
            }
            assert(extends == (p@.len() > word@.len() && is_prefix(word@, p@)));
        }
    }

    /// Completes the word before the cursor. While a grid is shown, the highlight moves as
    /// `kind` says (the first candidate when none was highlighted) and the highlighted
    /// candidate replaces the word. Otherwise the completer is asked for candidates for the
    /// word, which are sorted, freed of duplicates and handed to
    /// [`Editor::apply_completions`].
    pub fn complete<C: Completer>(&mut self, completer: Option<&C>, kind: CompleteType)
        requires
            old(self).wf(),
        ensures
            old(self).hint() is None ==> (final(self).hint() matches Some((c, h)) ==> h is None && strictly_sorted(c)),
            old(self).settled() ==> final(self).settled(),
            final(self).eol_blocked() == old(self).eol_blocked(),
            final(self).wf(),
            final(self).loc() == old(self).loc(),
            old(self).hint() matches Some((c, h)) ==> ({
                let i = match h {
                    Some(i) => step_index(i as int, kind, c.len() as int, old(self).grid_columns(c)),
                    None => 0,
                };
                &&& final(self).hint() == Some((c, Some(i as usize)))
                &&& final(self).cur() == old(self).replaced_word(c[i])
                &&& final(self).cursor_pos() == old(self).replaced_cursor(c[i])
            }),
    {
        let mut hint: Option<(Vec<Vec<char>>, Option<usize>)> = None;
        std::mem::swap(&mut hint, &mut self.show_completions_hint);
        match hint {
            Some((completions, h)) => {
                let (_items, _col_width, cols) = Self::grid(self.terminal_width, &completions);
                let i = match h {
                    Some(i) => step_completion(i, kind, completions.len(), cols),
                    None => 0,
                };
                assert(views(completions@)[i as int] == completions@[i as int]@);
                self.replace_word(&completions[i]);
                self.show_completions_hint = Some((completions, Some(i)));
                self.no_newline = true;
                self.display();
                return;
            },
            None => {},
        }
        let word: Vec<char> = match self.get_word_before_cursor(false) {
            Some((start, end)) => {
                let b = self.current_buffer();
                if start <= end && end <= b.num_chars() {
                    b.range_chars(start, end)
                } else {
                    Vec::new()
                }
            },
            None => Vec::new(),
        };
        self.buffer_changed = true;
        match completer {
            Some(c) => {
                let found = c.completions(string_of(word.as_slice()).as_str());
                let mut cands: Vec<Vec<char>> = Vec::new();
                let mut k: usize = 0;
                while k < found.len()
                    decreases found@.len() - k,
                {
                    cands.push(chars_of(found[k].as_str()));
                    k = k + 1;
                }
                let cands = sort_dedup(cands);
                self.apply_completions(&word, cands);
            },
            None => {},
        }
    }
}

impl Editor {
    /// The text of the current buffer, for an editor in any state: a history location
    /// that is out of range reads as the new line.
    pub fn into_text(self) -> (r: String)
        ensures
            self.wf() ==> r@ == self.cur(),
    {
        proof {
            self.context.history.lemma_view();
        }
        match self.cur_history_loc {
            Some(i) => if i < self.context.history.len() {
                string_of(self.context.history.get(i).chars().as_slice())
            } else {
                string_of(self.new_buf.chars().as_slice())
            },
            None => string_of(self.new_buf.chars().as_slice()),
        }
    }
}

impl From<Editor> for String {
    fn from(ed: Editor) -> String {
        ed.into_text()
    }
}

impl vstd::std_specs::convert::FromSpecImpl<Editor> for String {
    open spec fn obeys_from_spec() -> bool {
        false
    }

    open spec fn from_spec(ed: Editor) -> String {
        arbitrary()
    }
}

} // verus!
