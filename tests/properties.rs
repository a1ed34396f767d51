use liner::Key::{Backspace, Char, Ctrl, Delete, Esc, Left, Right};
use liner::{
    get_buffer_words, lines_of, step_completion, widths_of, Buffer, CompleteType, Completer, Context,
    CursorPosition, Editor, History, Key, KeyError, Mode, ModeStack, Vi,
};

fn chars_of(s: &str) -> Vec<char> {
    s.chars().collect()
}

fn vi_with(history: &[&str]) -> Vi {
    let mut context = Context::new();
    for h in history {
        context.history.push(Buffer::from_text(h));
    }
    Vi::new(Editor::new("prompt".to_owned(), context))
}

fn keys(map: &mut Vi, ks: &[Key]) -> bool {
    let mut done = false;
    for k in ks {
        if map.handle_key(*k).unwrap() {
            done = true;
        }
    }
    done
}

struct Words(Vec<&'static str>);

impl Completer for Words {
    fn completions(&self, _start: &str) -> Vec<String> {
        self.0.iter().map(|s| s.to_string()).collect()
    }
}

#[test]
fn cursor_position_cases() {
    let words = [(0, 3), (4, 6), (8, 10)];
    assert_eq!(CursorPosition::get(0, &[]), CursorPosition::InSpace(None, None));
    assert_eq!(CursorPosition::get(0, &words), CursorPosition::OnWordLeftEdge(0));
    assert_eq!(CursorPosition::get(1, &words), CursorPosition::InWord(0));
    assert_eq!(CursorPosition::get(3, &words), CursorPosition::OnWordRightEdge(0));
    assert_eq!(CursorPosition::get(4, &words), CursorPosition::OnWordLeftEdge(1));
    assert_eq!(CursorPosition::get(7, &words), CursorPosition::InSpace(Some(1), Some(2)));
    assert_eq!(CursorPosition::get(12, &words), CursorPosition::InSpace(Some(2), None));
    assert_eq!(CursorPosition::get(0, &[(2, 4)]), CursorPosition::InSpace(None, Some(0)));
}

#[test]
fn buffer_words_split_on_unescaped_spaces() {
    let b = Buffer::from_text("ls  a\\ b c");
    assert_eq!(get_buffer_words(&b), vec![(0, 2), (4, 8), (9, 10)]);
}

#[test]
fn buffer_undo_redo_revert() {
    let mut b = Buffer::new();
    b.start_undo_group();
    b.insert(0, &['a', 'b', 'c']);
    b.end_undo_group();
    b.insert(3, &['d']);
    assert_eq!(b.to_text(), "abcd");
    assert!(b.undo());
    assert_eq!(b.to_text(), "abc");
    assert!(b.undo());
    assert_eq!(b.to_text(), "");
    assert!(!b.undo());
    assert!(b.redo());
    assert_eq!(b.to_text(), "abc");
    b.remove(1, 10);
    assert_eq!(b.to_text(), "a");
    assert!(!b.redo());
    assert!(b.revert());
    assert_eq!(b.to_text(), "");
    assert!(!b.revert());
}

#[test]
fn buffer_queries() {
    let b = Buffer::from_text("one\ntwo");
    assert_eq!(b.char_before(0), None);
    assert_eq!(b.char_before(3), Some('e'));
    assert_eq!(b.range(4, 7), "two");
    assert_eq!(b.lines(), vec![chars_of("one"), chars_of("two")]);
    assert_eq!(b.width(), vec![3, 3]);
    assert!(b.starts_with(&chars_of("one")));
    assert!(!b.starts_with(&chars_of("one\ntwo")));
    assert!(b.contains(&chars_of("e\nt")));
    assert!(!b.contains(&chars_of("")));
}

#[test]
fn wide_characters_take_two_columns() {
    assert_eq!(widths_of(&chars_of("\u{4e2d}a\nbc")), vec![3, 2]);
    assert_eq!(lines_of(&chars_of("a\n")), vec![chars_of("a"), vec![]]);
}

#[test]
fn history_matches() {
    let mut h = History::new();
    h.push(Buffer::from_text("git status"));
    h.push(Buffer::from_text("ls"));
    h.push(Buffer::from_text("git log"));
    assert_eq!(h.search_index(&chars_of("g")), vec![0, 2]);
    assert_eq!(h.search_index(&chars_of("s")), vec![0, 1]);
    assert_eq!(h.get_history_subset(&chars_of("git")), vec![0, 2]);
    assert_eq!(h.get_history_subset(&chars_of("ls")), Vec::<usize>::new());
    assert_eq!(h.get_newest_match(None, &chars_of("git")), Some(2));
    assert_eq!(h.get_newest_match(Some(2), &chars_of("git")), Some(0));
    assert_eq!(h.get_newest_match(None, &chars_of("")), None);
}

#[test]
fn mode_stack_defaults_to_normal() {
    let mut s = ModeStack::with_insert();
    assert_eq!(s.mode(), Mode::Insert);
    s.push(Mode::Delete(3));
    assert_eq!(s.pop(), Mode::Delete(3));
    assert_eq!(s.pop(), Mode::Insert);
    assert_eq!(s.pop(), Mode::Normal);
    s.push(Mode::Replace);
    s.clear();
    assert_eq!(s.mode(), Mode::Normal);
}

#[test]
fn boundary_movements_and_deletions() {
    let mut map = vi_with(&[]);
    keys(&mut map, &[Backspace, Delete, Left]);
    assert_eq!(map.editor().cursor(), 0);
    keys(&mut map, &[Esc, Char('$'), Char('x'), Char('0')]);
    assert_eq!(map.editor().cursor(), 0);
    let mut map = vi_with(&[]);
    map.editor().insert_str_after_cursor("ab");
    keys(&mut map, &[Right, Delete]);
    assert_eq!(map.editor().cursor(), 2);
    keys(&mut map, &[Left, Left, Left, Backspace]);
    assert_eq!(map.editor().cursor(), 0);
    assert_eq!(map.finish().0, "ab");
}

#[test]
fn count_zero_versus_start_of_line() {
    let mut map = vi_with(&[]);
    map.editor().insert_str_after_cursor("abcdefghijkl");
    keys(&mut map, &[Esc, Char('1'), Char('0'), Char('h')]);
    assert_eq!(map.editor().cursor(), 1);
    keys(&mut map, &[Char('0')]);
    assert_eq!(map.editor().cursor(), 0);
}

#[test]
fn insert_then_backspace_is_identity() {
    let mut ed = Editor::new("p".to_owned(), Context::new());
    ed.insert_str_after_cursor("abc");
    ed.move_cursor_left(1);
    ed.insert_after_cursor('x');
    ed.delete_before_cursor();
    assert_eq!(ed.cursor(), 2);
    assert_eq!(ed.text(), "abc");
}

#[test]
fn dot_repeat_with_count_matches_repeating() {
    let mut a = vi_with(&[]);
    a.editor().insert_str_after_cursor("abcdefgh");
    keys(&mut a, &[Esc, Char('0'), Char('x'), Char('3'), Char('.')]);
    let mut b = vi_with(&[]);
    b.editor().insert_str_after_cursor("abcdefgh");
    keys(&mut b, &[Esc, Char('0'), Char('x'), Char('x'), Char('x'), Char('x')]);
    assert_eq!(a.finish().0, "efgh");
    assert_eq!(b.finish().0, "efgh");
}

#[test]
fn completion_steps() {
    assert_eq!(step_completion(2, CompleteType::Next, 3, 2), 0);
    assert_eq!(step_completion(0, CompleteType::Prev, 3, 2), 2);
    assert_eq!(step_completion(1, CompleteType::Next, 3, 2), 2);
    let n = step_completion(1, CompleteType::Next, 5, 2);
    assert_eq!(step_completion(n, CompleteType::Prev, 5, 2), 1);
    assert_eq!(step_completion(3, CompleteType::Up, 5, 2), 1);
    assert_eq!(step_completion(1, CompleteType::Up, 5, 2), 1);
    assert_eq!(step_completion(1, CompleteType::Down, 5, 2), 3);
    assert_eq!(step_completion(3, CompleteType::Down, 5, 2), 3);
}

#[test]
fn completion_single_candidate_replaces_word() {
    let mut ed = Editor::new("p".to_owned(), Context::new());
    ed.insert_str_after_cursor("echo he");
    ed.complete(Some(&Words(vec!["hello"])), CompleteType::Next);
    assert_eq!(ed.text(), "echo hello");
    assert!(!ed.show_autosuggestions());
}

#[test]
fn completion_common_prefix_then_grid_then_cycle() {
    let words = Words(vec!["help", "hello", "help"]);
    let mut ed = Editor::new("p".to_owned(), Context::new());
    ed.insert_str_after_cursor("he");
    ed.complete(Some(&words), CompleteType::Next);
    assert_eq!(ed.text(), "hel");
    assert!(!ed.show_autosuggestions());
    ed.complete(Some(&words), CompleteType::Next);
    assert!(ed.show_autosuggestions());
    assert_eq!(ed.text(), "hel");
    ed.complete(Some(&words), CompleteType::Next);
    assert_eq!(ed.text(), "hello");
    ed.complete(Some(&words), CompleteType::Next);
    assert_eq!(ed.text(), "help");
    ed.complete(Some(&words), CompleteType::Prev);
    assert_eq!(ed.text(), "hello");
}

#[test]
fn completion_without_candidates_does_nothing() {
    let mut ed = Editor::new("p".to_owned(), Context::new());
    ed.insert_str_after_cursor("zz");
    ed.complete(Some(&Words(vec![])), CompleteType::Next);
    assert_eq!(ed.text(), "zz");
    assert_eq!(ed.cursor(), 2);
}

#[test]
fn delete_word_policies() {
    let mut ed = Editor::new("p".to_owned(), Context::new());
    ed.insert_str_after_cursor("one two ");
    ed.delete_word_before_cursor(false);
    assert_eq!(ed.text(), "one two ");
    ed.delete_word_before_cursor(true);
    assert_eq!(ed.text(), "one ");
    assert_eq!(ed.cursor(), 4);
}

#[test]
fn newline_continuation_and_done() {
    let mut map = vi_with(&[]);
    map.editor().insert_str_after_cursor("a\\");
    assert!(!keys(&mut map, &[Char('\n')]));
    assert_eq!(map.editor().text(), "a\\\n");
    assert!(keys(&mut map, &[Char('b'), Char('\n')]));
    assert_eq!(map.finish().0, "a\\\nb");
}

#[test]
fn ctrl_c_and_ctrl_d() {
    let mut map = vi_with(&[]);
    assert_eq!(map.handle_key(Ctrl('d')), Err(KeyError::EndOfInput));
    map.editor().insert_str_after_cursor("x");
    assert_eq!(map.handle_key(Ctrl('d')), Ok(false));
    assert_eq!(map.handle_key(Ctrl('c')), Err(KeyError::Interrupted));
}

#[test]
fn autosuggestion_is_accepted() {
    let mut map = vi_with(&["hello world"]);
    keys(&mut map, &[Char('h'), Char('e')]);
    assert!(map.editor().is_currently_showing_autosuggestion());
    keys(&mut map, &[Ctrl('f')]);
    assert_eq!(map.editor().text(), "hello world");
    assert_eq!(map.editor().cursor(), 11);
}

#[test]
fn history_walk_with_prefix() {
    let mut context = Context::new();
    context.history.push(Buffer::from_text("git a"));
    context.history.push(Buffer::from_text("ls"));
    context.history.push(Buffer::from_text("git b"));
    let mut ed = Editor::new("p".to_owned(), context);
    ed.insert_str_after_cursor("git");
    ed.move_up();
    assert_eq!(ed.current_history_location(), Some(2));
    ed.move_up();
    assert_eq!(ed.current_history_location(), Some(0));
    assert_eq!(ed.cursor(), 5);
    ed.move_down();
    assert_eq!(ed.current_history_location(), Some(2));
    ed.move_down();
    assert_eq!(ed.current_history_location(), None);
    assert_eq!(ed.text(), "git");
}

#[test]
fn history_walk_without_text() {
    let mut context = Context::new();
    context.history.push(Buffer::from_text("a"));
    context.history.push(Buffer::from_text("b"));
    let mut ed = Editor::new("p".to_owned(), context);
    ed.move_up();
    assert_eq!(ed.text(), "b");
    ed.move_up();
    ed.move_up();
    assert_eq!(ed.current_history_location(), Some(0));
    ed.move_to_end_of_history();
    assert_eq!(ed.current_history_location(), None);
    ed.move_to_start_of_history();
    assert_eq!(ed.current_history_location(), Some(0));
}

#[test]
fn incremental_search_selects_and_accepts() {
    let mut context = Context::new();
    context.history.push(Buffer::from_text("make all"));
    context.history.push(Buffer::from_text("ls"));
    context.history.push(Buffer::from_text("make test"));
    let mut ed = Editor::new("p".to_owned(), context);
    ed.insert_str_after_cursor("make");
    ed.search(false);
    assert!(ed.is_currently_showing_autosuggestion());
    ed.search(false);
    assert!(!ed.handle_newline() || ed.text() == "make all");
}

#[test]
fn search_wraps_forward() {
    let mut context = Context::new();
    context.history.push(Buffer::from_text("ab"));
    context.history.push(Buffer::from_text("cab"));
    let mut ed = Editor::new("p".to_owned(), context);
    ed.insert_str_after_cursor("ab");
    ed.search(true);
    ed.search(true);
    ed.search(true);
    assert!(ed.handle_newline());
    assert_eq!(ed.text(), "ab");
}

#[test]
fn redraw_output_places_cursor() {
    let mut ed = Editor::new("> ".to_owned(), Context::new());
    ed.set_terminal_width(10);
    ed.take_output();
    ed.insert_str_after_cursor("abc");
    let out = ed.take_output();
    assert!(out.contains("> abc"));
    assert!(out.contains("\x1b[J"));
    ed.move_cursor_left(2);
    let out = ed.take_output();
    assert!(out.ends_with("\x1b[2D"));
    ed.clear();
    let out = ed.take_output();
    assert!(out.starts_with("\x1b[2J\x1b[1;1H"));
}

#[test]
fn redraw_wraps_long_lines() {
    let mut ed = Editor::new("> ".to_owned(), Context::new());
    ed.set_terminal_width(4);
    ed.insert_str_after_cursor("abcdef");
    let out = ed.take_output();
    assert!(out.contains("> abcdef"));
    ed.move_cursor_to(0);
    let out = ed.take_output();
    assert!(out.ends_with("\x1b[2A\x1b[2C"));
}

#[test]
fn chars_and_strings_round_trip() {
    assert_eq!(Buffer::from_text("h\u{e9}").chars(), &vec!['h', '\u{e9}']);
    assert_eq!(Buffer::from_chars(vec!['o', 'k']).to_text(), "ok");
}

#[test]
fn empty_line_in_normal_mode_is_at_its_end() {
    let mut map = vi_with(&[]);
    keys(&mut map, &[Esc]);
    assert_eq!(map.mode(), Mode::Normal);
    assert!(map.editor().cursor_is_at_end_of_line());
    keys(&mut map, &[Backspace, Char('$'), Char('0'), Char('x')]);
    assert_eq!(map.editor().cursor(), 0);
    assert_eq!(map.count(), 0);
    assert_eq!(map.mode(), Mode::Normal);
    assert_eq!(String::from(map), "");
}

#[test]
fn bare_zero_moves_and_counted_zero_counts() {
    let mut map = vi_with(&[]);
    map.editor().insert_str_after_cursor("abc");
    keys(&mut map, &[Esc, Char('0')]);
    assert_eq!(map.editor().cursor(), 0);
    assert_eq!(map.count(), 0);
    keys(&mut map, &[Char('2'), Char('0')]);
    assert_eq!(map.count(), 20);
    assert_eq!(map.editor().cursor(), 0);
}

#[test]
fn clear_writes_clear_screen_first() {
    let mut ed = Editor::new("p".to_owned(), Context::new());
    ed.take_output();
    ed.clear();
    assert!(ed.take_output().starts_with("\x1b[2J\x1b[1;1H"));
}

#[test]
fn set_prompt_is_drawn() {
    let mut ed = Editor::new("p".to_owned(), Context::new());
    ed.set_prompt("new> ".to_owned());
    ed.take_output();
    ed.display();
    assert!(ed.take_output().contains("new> "));
}

#[test]
fn init_buffer_draws_once_with_cursor_at_end() {
    let ed = Editor::new_with_init_buffer("p".to_owned(), Context::new(), Buffer::from_text("abc"));
    assert_eq!(ed.cursor(), 3);
    let mut ed = ed;
    let out = ed.take_output();
    assert_eq!(out.matches("\x1b[J").count(), 1);
}

#[test]
fn current_buffer_mut_edits_the_line() {
    let mut ed = Editor::new("p".to_owned(), Context::new());
    ed.insert_str_after_cursor("ab");
    ed.current_buffer_mut().insert(2, &['c']);
    assert_eq!(ed.current_buffer().to_text(), "abc");
    assert!(ed.current_buffer_mut().undo());
    assert_eq!(String::from(ed), "ab");
}

#[test]
fn replace_with_count_then_undo() {
    let mut map = vi_with(&[]);
    map.editor().insert_str_after_cursor("abcd");
    keys(&mut map, &[Esc, Char('0'), Char('3'), Char('r'), Char('z')]);
    assert_eq!(map.editor().text(), "zzzd");
    assert_eq!(map.editor().cursor(), 2);
    keys(&mut map, &[Char('u')]);
    assert_eq!(String::from(map), "abcd");
}
