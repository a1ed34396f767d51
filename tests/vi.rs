use liner::Key::{Char, Ctrl, Delete, Down, Esc, Left, Right, Up};
use liner::{Buffer, Context, Editor, Key, Vi};

fn simulate_keys(map: &mut Vi, keys: &[Key]) -> bool {
    for k in keys {
        if map.handle_key(*k).unwrap() {
            return true;
        }
    }
    false
}

#[test]
fn enter_is_done() {
    let context = Context::new();
    let ed = Editor::new("prompt".to_owned(), context);
    let mut map = Vi::new(ed);
    map.editor().insert_str_after_cursor("done");
    assert_eq!(map.editor().cursor(), 4);

    assert!(simulate_keys(&mut map, &[
        Char('\n'),
    ]));

    assert_eq!(map.editor().cursor(), 4);
    assert_eq!(String::from(map), "done");
}

#[test]
fn vi_move_cursor_left() {
    let context = Context::new();
    let ed = Editor::new("prompt".to_owned(), context);
    let mut map = Vi::new(ed);
    map.editor().insert_str_after_cursor("let");
    assert_eq!(map.editor().cursor(), 3);

    simulate_keys(&mut map, &[
        Left,
        Char('f'),
    ]);

    assert_eq!(map.editor().cursor(), 3);
    assert_eq!(String::from(map), "left");
}

#[test]
fn vi_cursor_movement() {
    let context = Context::new();
    let ed = Editor::new("prompt".to_owned(), context);
    let mut map = Vi::new(ed);
    map.editor().insert_str_after_cursor("right");
    assert_eq!(map.editor().cursor(), 5);

    simulate_keys(&mut map, &[
        Left,
        Left,
        Right,
    ]);

    assert_eq!(map.editor().cursor(), 4);
}

#[test]
fn vi_initial_insert() {
    let context = Context::new();
    let ed = Editor::new("prompt".to_owned(), context);
    let mut map = Vi::new(ed);

    simulate_keys(&mut map, &[
        Char('i'),
        Char('n'),
        Char('s'),
        Char('e'),
        Char('r'),
        Char('t'),
    ]);

    assert_eq!(map.editor().cursor(), 6);
    assert_eq!(String::from(map), "insert");
}

#[test]
fn vi_left_right_movement() {
    let context = Context::new();
    let ed = Editor::new("prompt".to_owned(), context);
    let mut map = Vi::new(ed);
    map.editor().insert_str_after_cursor("data");
    assert_eq!(map.editor().cursor(), 4);

    simulate_keys(&mut map, &[Left]);
    assert_eq!(map.editor().cursor(), 3);
    simulate_keys(&mut map, &[Right]);
    assert_eq!(map.editor().cursor(), 4);

    // switching from insert mode moves the cursor left
    simulate_keys(&mut map, &[Esc, Left]);
    assert_eq!(map.editor().cursor(), 2);
    simulate_keys(&mut map, &[Right]);
    assert_eq!(map.editor().cursor(), 3);

    simulate_keys(&mut map, &[Char('h')]);
    assert_eq!(map.editor().cursor(), 2);
    simulate_keys(&mut map, &[Char('l')]);
    assert_eq!(map.editor().cursor(), 3);
}

#[test]
fn vi_no_eol() {
    let context = Context::new();
    let ed = Editor::new("prompt".to_owned(), context);
    let mut map = Vi::new(ed);
    map.editor().insert_str_after_cursor("data");
    assert_eq!(map.editor().cursor(), 4);

    simulate_keys(&mut map, &[Esc]);
    assert_eq!(map.editor().cursor(), 3);

    simulate_keys(&mut map, &[Right, Right]);
    assert_eq!(map.editor().cursor(), 3);

    // in insert mode, we can move past the last char, but no further
    simulate_keys(&mut map, &[Char('i'), Right, Right]);
    assert_eq!(map.editor().cursor(), 4);
}

#[test]
fn vi_switch_from_insert() {
    let context = Context::new();
    let ed = Editor::new("prompt".to_owned(), context);
    let mut map = Vi::new(ed);
    map.editor().insert_str_after_cursor("data");
    assert_eq!(map.editor().cursor(), 4);

    simulate_keys(&mut map, &[Esc]);
    assert_eq!(map.editor().cursor(), 3);

    simulate_keys(&mut map, &[
        Char('i'),
        Esc,
        Char('i'),
        Esc,
        Char('i'),
        Esc,
        Char('i'),
        Esc,
    ]);
    assert_eq!(map.editor().cursor(), 0);
}

#[test]
fn vi_normal_history_cursor_eol() {
    let mut context = Context::new();
    context.history.push(Buffer::from_text("history"));
    context.history.push(Buffer::from_text("history"));
    let ed = Editor::new("prompt".to_owned(), context);
    let mut map = Vi::new(ed);
    map.editor().insert_str_after_cursor("data");
    assert_eq!(map.editor().cursor(), 4);

    // with text typed, Up walks only the entries that extend it; none extends "data",
    // so the line stays and the cursor goes to its end
    simulate_keys(&mut map, &[Up]);
    assert_eq!(map.editor().cursor(), 4);

    // in normal mode, make sure we don't end up past the last char
    simulate_keys(&mut map, &[Esc, Up]);
    assert_eq!(map.editor().cursor(), 3);
}

#[test]
fn vi_normal_delete() {
    let mut context = Context::new();
    context.history.push(Buffer::from_text("history"));
    context.history.push(Buffer::from_text("history"));
    let ed = Editor::new("prompt".to_owned(), context);
    let mut map = Vi::new(ed);
    map.editor().insert_str_after_cursor("data");
    assert_eq!(map.editor().cursor(), 4);

    simulate_keys(&mut map, &[
        Esc,
        Char('0'),
        Delete,
        Char('x'),
    ]);
    assert_eq!(map.editor().cursor(), 0);
    assert_eq!(String::from(map), "ta");
}

#[test]
fn vi_substitute_command() {
    let context = Context::new();
    let ed = Editor::new("prompt".to_owned(), context);
    let mut map = Vi::new(ed);
    map.editor().insert_str_after_cursor("data");
    assert_eq!(map.editor().cursor(), 4);

    simulate_keys(&mut map, &[
        Esc,
        Char('0'),
        Char('s'),
        Char('s'),
    ]);
    assert_eq!(String::from(map), "sata");
}

#[test]
fn substitute_with_count() {
    let context = Context::new();
    let ed = Editor::new("prompt".to_owned(), context);
    let mut map = Vi::new(ed);
    map.editor().insert_str_after_cursor("data");
    assert_eq!(map.editor().cursor(), 4);

    simulate_keys(&mut map, &[
        Esc,
        Char('0'),
        Char('2'),
        Char('s'),
        Char('b'),
        Char('e'),
    ]);
    assert_eq!(String::from(map), "beta");
}

#[test]
fn substitute_with_count_repeat() {
    let context = Context::new();
    let ed = Editor::new("prompt".to_owned(), context);
    let mut map = Vi::new(ed);
    map.editor().insert_str_after_cursor("data data");

    simulate_keys(&mut map, &[
        Esc,
        Char('0'),
        Char('2'),
        Char('s'),
        Char('b'),
        Char('e'),
        Esc,
        Char('4'),
        Char('l'),
        Char('.'),
    ]);
    assert_eq!(String::from(map), "beta beta");
}

#[test]
fn vi_count() {
    let context = Context::new();
    let ed = Editor::new("prompt".to_owned(), context);
    let mut map = Vi::new(ed);

    simulate_keys(&mut map, &[
        Esc,
    ]);
    assert_eq!(map.count(), 0);

    simulate_keys(&mut map, &[
        Char('1'),
    ]);
    assert_eq!(map.count(), 1);

    simulate_keys(&mut map, &[
        Char('1'),
    ]);
    assert_eq!(map.count(), 11);

    // switching to insert mode and back to edit mode should reset the count
    simulate_keys(&mut map, &[
        Char('i'),
        Esc,
    ]);
    assert_eq!(map.count(), 0);

    assert_eq!(String::from(map), "");
}

#[test]
fn vi_count_overflow() {
    let context = Context::new();
    let ed = Editor::new("prompt".to_owned(), context);
    let mut map = Vi::new(ed);

    // make sure large counts don't overflow our u32
    simulate_keys(&mut map, &[
        Esc,
        Char('9'), Char('9'), Char('9'), Char('9'), Char('9'),
        Char('9'), Char('9'), Char('9'), Char('9'), Char('9'),
        Char('9'), Char('9'), Char('9'), Char('9'), Char('9'),
        Char('9'), Char('9'), Char('9'), Char('9'), Char('9'),
        Char('9'), Char('9'), Char('9'), Char('9'), Char('9'),
        Char('9'), Char('9'), Char('9'), Char('9'), Char('9'),
        Char('9'), Char('9'), Char('9'), Char('9'), Char('9'),
        Char('9'), Char('9'), Char('9'), Char('9'), Char('9'),
        Char('9'), Char('9'), Char('9'), Char('9'), Char('9'),
        Char('9'), Char('9'), Char('9'), Char('9'), Char('9'),
        Char('9'), Char('9'), Char('9'), Char('9'), Char('9'),
        Char('9'), Char('9'), Char('9'), Char('9'), Char('9'),
        Char('9'), Char('9'), Char('9'), Char('9'), Char('9'),
    ]);
    assert_eq!(String::from(map), "");
}

#[test]
fn vi_count_overflow_zero() {
    let context = Context::new();
    let ed = Editor::new("prompt".to_owned(), context);
    let mut map = Vi::new(ed);

    // make sure large counts don't overflow our u32
    simulate_keys(&mut map, &[
        Esc,
        Char('1'), Char('0'), Char('0'), Char('0'), Char('0'),
        Char('0'), Char('0'), Char('0'), Char('0'), Char('0'),
        Char('0'), Char('0'), Char('0'), Char('0'), Char('0'),
        Char('0'), Char('0'), Char('0'), Char('0'), Char('0'),
        Char('0'), Char('0'), Char('0'), Char('0'), Char('0'),
        Char('0'), Char('0'), Char('0'), Char('0'), Char('0'),
        Char('0'), Char('0'), Char('0'), Char('0'), Char('0'),
        Char('0'), Char('0'), Char('0'), Char('0'), Char('0'),
        Char('0'), Char('0'), Char('0'), Char('0'), Char('0'),
        Char('0'), Char('0'), Char('0'), Char('0'), Char('0'),
        Char('0'), Char('0'), Char('0'), Char('0'), Char('0'),
        Char('0'), Char('0'), Char('0'), Char('0'), Char('0'),
    ]);
    assert_eq!(String::from(map), "");
}

#[test]
fn vi_count_cancel() {
    let context = Context::new();
    let ed = Editor::new("prompt".to_owned(), context);
    let mut map = Vi::new(ed);

    simulate_keys(&mut map, &[
        Esc,
        Char('1'),
        Char('0'),
        Esc,
    ]);
    assert_eq!(map.count(), 0);
    assert_eq!(String::from(map), "");
}

#[test]
fn vi_count_simple() {
    let context = Context::new();
    let ed = Editor::new("prompt".to_owned(), context);
    let mut map = Vi::new(ed);

    simulate_keys(&mut map, &[
        Esc,
        Char('3'),
        Char('i'),
        Char('t'),
        Char('h'),
        Char('i'),
        Char('s'),
        Esc,
    ]);
    assert_eq!(String::from(map), "thisthisthis");
}

#[test]
fn vi_dot_command() {
    let context = Context::new();
    let ed = Editor::new("prompt".to_owned(), context);
    let mut map = Vi::new(ed);

    simulate_keys(&mut map, &[
        Char('i'),
        Char('f'),
        Esc,
        Char('.'),
        Char('.'),
    ]);
    assert_eq!(String::from(map), "iiifff");
}

#[test]
fn vi_dot_command_repeat() {
    let context = Context::new();
    let ed = Editor::new("prompt".to_owned(), context);
    let mut map = Vi::new(ed);

    simulate_keys(&mut map, &[
        Char('i'),
        Char('f'),
        Esc,
        Char('3'),
        Char('.'),
    ]);
    assert_eq!(String::from(map), "iifififf");
}

#[test]
fn vi_dot_command_repeat_multiple() {
    let context = Context::new();
    let ed = Editor::new("prompt".to_owned(), context);
    let mut map = Vi::new(ed);

    simulate_keys(&mut map, &[
        Char('i'),
        Char('f'),
        Esc,
        Char('3'),
        Char('.'),
        Char('.'),
    ]);
    assert_eq!(String::from(map), "iififiifififff");
}

#[test]
fn vi_dot_command_append() {
    let context = Context::new();
    let ed = Editor::new("prompt".to_owned(), context);
    let mut map = Vi::new(ed);

    simulate_keys(&mut map, &[
        Esc,
        Char('a'),
        Char('i'),
        Char('f'),
        Esc,
        Char('.'),
        Char('.'),
    ]);
    assert_eq!(String::from(map), "ififif");
}

#[test]
fn vi_dot_command_append_repeat() {
    let context = Context::new();
    let ed = Editor::new("prompt".to_owned(), context);
    let mut map = Vi::new(ed);

    simulate_keys(&mut map, &[
        Esc,
        Char('a'),
        Char('i'),
        Char('f'),
        Esc,
        Char('3'),
        Char('.'),
    ]);
    assert_eq!(String::from(map), "ifififif");
}

#[test]
fn vi_dot_command_movement() {
    let context = Context::new();
    let ed = Editor::new("prompt".to_owned(), context);
    let mut map = Vi::new(ed);

    simulate_keys(&mut map, &[
        Esc,
        Char('a'),
        Char('d'),
        Char('t'),
        Char(' '),
        Left,
        Left,
        Char('a'),
        Esc,
        Right,
        Right,
        Char('.'),
    ]);
    assert_eq!(String::from(map), "data ");
}

#[test]
fn move_count() {
    let context = Context::new();
    let ed = Editor::new("prompt".to_owned(), context);
    let mut map = Vi::new(ed);

    assert_eq!(map.move_count(), 1);
    map.set_count(1);
    assert_eq!(map.move_count(), 1);
    map.set_count(99);
    assert_eq!(map.move_count(), 99);
}

#[test]
fn vi_count_movement_reset() {
    let context = Context::new();
    let ed = Editor::new("prompt".to_owned(), context);
    let mut map = Vi::new(ed);

    simulate_keys(&mut map, &[
        Esc,
        Char('3'),
        Char('i'),
        Char('t'),
        Char('h'),
        Char('i'),
        Char('s'),
        Left,
        Esc,
    ]);
    assert_eq!(String::from(map), "this");
}

#[test]
fn movement_with_count() {
    let context = Context::new();
    let ed = Editor::new("prompt".to_owned(), context);
    let mut map = Vi::new(ed);
    map.editor().insert_str_after_cursor("right");
    assert_eq!(map.editor().cursor(), 5);

    simulate_keys(&mut map, &[
        Esc,
        Char('3'),
        Left,
    ]);

    assert_eq!(map.editor().cursor(), 1);
}

#[test]
fn movement_with_count_then_insert() {
    let context = Context::new();
    let ed = Editor::new("prompt".to_owned(), context);
    let mut map = Vi::new(ed);
    map.editor().insert_str_after_cursor("right");
    assert_eq!(map.editor().cursor(), 5);

    simulate_keys(&mut map, &[
        Esc,
        Char('3'),
        Left,
        Char('i'),
        Char(' '),
        Esc,
    ]);
    assert_eq!(String::from(map), "r ight");
}

#[test]
fn count_at_buffer_edge() {
    let context = Context::new();
    let ed = Editor::new("prompt".to_owned(), context);
    let mut map = Vi::new(ed);
    map.editor().insert_str_after_cursor("replace");
    assert_eq!(map.editor().cursor(), 7);

    simulate_keys(&mut map, &[
        Esc,
        Char('3'),
        Char('r'),
        Char('x'),
    ]);
    // the cursor should not have moved and no change should have occured
    assert_eq!(map.editor().cursor(), 6);
    assert_eq!(String::from(map), "replace");
}

#[test]
fn basic_replace() {
    let context = Context::new();
    let ed = Editor::new("prompt".to_owned(), context);
    let mut map = Vi::new(ed);
    map.editor().insert_str_after_cursor("replace");
    assert_eq!(map.editor().cursor(), 7);

    simulate_keys(&mut map, &[
        Esc,
        Char('r'),
        Char('x'),
    ]);
    assert_eq!(map.editor().cursor(), 6);
    assert_eq!(String::from(map), "replacx");
}

#[test]
fn replace_with_count() {
    let context = Context::new();
    let ed = Editor::new("prompt".to_owned(), context);
    let mut map = Vi::new(ed);
    map.editor().insert_str_after_cursor("replace");
    assert_eq!(map.editor().cursor(), 7);

    simulate_keys(&mut map, &[
        Esc,
        Char('0'),
        Char('3'),
        Char('r'),
        Char(' '),
    ]);
    // cursor should be on the last replaced char
    assert_eq!(map.editor().cursor(), 2);
    assert_eq!(String::from(map), "   lace");
}

#[test]
fn replace_with_count_eol() {
    let context = Context::new();
    let ed = Editor::new("prompt".to_owned(), context);
    let mut map = Vi::new(ed);
    map.editor().insert_str_after_cursor("replace");
    assert_eq!(map.editor().cursor(), 7);

    simulate_keys(&mut map, &[
        Esc,
        Char('3'),
        Char('r'),
        Char('x'),
    ]);
    // the cursor should not have moved and no change should have occured
    assert_eq!(map.editor().cursor(), 6);
    assert_eq!(String::from(map), "replace");
}

#[test]
fn replace_then_normal() {
    let context = Context::new();
    let ed = Editor::new("prompt".to_owned(), context);
    let mut map = Vi::new(ed);
    map.editor().insert_str_after_cursor("replace");
    assert_eq!(map.editor().cursor(), 7);

    simulate_keys(&mut map, &[
        Esc,
        Char('r'),
        Char('x'),
        Char('0'),
    ]);
    assert_eq!(map.editor().cursor(), 0);
    assert_eq!(String::from(map), "replacx");
}

#[test]
fn dot_replace() {
    let context = Context::new();
    let ed = Editor::new("prompt".to_owned(), context);
    let mut map = Vi::new(ed);
    map.editor().insert_str_after_cursor("replace");
    assert_eq!(map.editor().cursor(), 7);

    simulate_keys(&mut map, &[
        Esc,
        Char('0'),
        Char('r'),
        Char('x'),
        Char('.'),
        Char('.'),
        Char('7'),
        Char('.'),
    ]);
    assert_eq!(String::from(map), "xxxxxxx");
}

#[test]
fn dot_replace_count() {
    let context = Context::new();
    let ed = Editor::new("prompt".to_owned(), context);
    let mut map = Vi::new(ed);
    map.editor().insert_str_after_cursor("replace");
    assert_eq!(map.editor().cursor(), 7);

    simulate_keys(&mut map, &[
        Esc,
        Char('0'),
        Char('2'),
        Char('r'),
        Char('x'),
        Char('.'),
        Char('.'),
        Char('.'),
        Char('.'),
        Char('.'),
    ]);
    assert_eq!(String::from(map), "xxxxxxx");
}

#[test]
fn dot_replace_eol() {
    let context = Context::new();
    let ed = Editor::new("prompt".to_owned(), context);
    let mut map = Vi::new(ed);
    map.editor().insert_str_after_cursor("test");

    simulate_keys(&mut map, &[
        Esc,
        Char('0'),
        Char('3'),
        Char('r'),
        Char('x'),
        Char('.'),
        Char('.'),
    ]);
    assert_eq!(String::from(map), "xxxt");
}

#[test]
fn dot_replace_eol_multiple() {
    let context = Context::new();
    let ed = Editor::new("prompt".to_owned(), context);
    let mut map = Vi::new(ed);
    map.editor().insert_str_after_cursor("this is a test");

    simulate_keys(&mut map, &[
        Esc,
        Char('0'),
        Char('3'),
        Char('r'),
        Char('x'),
        Char('$'),
        Char('.'),
        Char('4'),
        Char('h'),
        Char('.'),
    ]);
    assert_eq!(String::from(map), "xxxs is axxxst");
}

#[test]
fn move_count_right() {
    let context = Context::new();
    let ed = Editor::new("prompt".to_owned(), context);
    let mut map = Vi::new(ed);
    map.editor().insert_str_after_cursor("replace");
    assert_eq!(map.editor().cursor(), 7);
    assert_eq!(map.move_count_right(), 0);
    map.set_count(10);
    assert_eq!(map.move_count_right(), 0);

    map.set_count(0);
    simulate_keys(&mut map, &[
        Esc,
        Left,
    ]);
    assert_eq!(map.move_count_right(), 1);
}

#[test]
fn move_count_left() {
    let context = Context::new();
    let ed = Editor::new("prompt".to_owned(), context);
    let mut map = Vi::new(ed);
    map.editor().insert_str_after_cursor("replace");
    assert_eq!(map.editor().cursor(), 7);
    assert_eq!(map.move_count_left(), 1);
    map.set_count(10);
    assert_eq!(map.move_count_left(), 7);

    map.set_count(0);
    simulate_keys(&mut map, &[
        Esc,
        Char('0'),
    ]);
    assert_eq!(map.move_count_left(), 0);
}

#[test]
fn dot_x_delete() {
    let context = Context::new();
    let ed = Editor::new("prompt".to_owned(), context);
    let mut map = Vi::new(ed);
    map.editor().insert_str_after_cursor("replace");
    assert_eq!(map.editor().cursor(), 7);

    simulate_keys(&mut map, &[
        Esc,
        Char('0'),
        Char('2'),
        Char('x'),
        Char('.'),
    ]);
    assert_eq!(String::from(map), "ace");
}

#[test]
fn delete_line() {
    let context = Context::new();
    let ed = Editor::new("prompt".to_owned(), context);
    let mut map = Vi::new(ed);
    map.editor().insert_str_after_cursor("delete");

    simulate_keys(&mut map, &[
        Esc,
        Char('d'),
        Char('d'),
    ]);
    assert_eq!(map.editor().cursor(), 0);
    assert_eq!(String::from(map), "");
}

#[test]
fn delete_line_normal() {
    let context = Context::new();
    let ed = Editor::new("prompt".to_owned(), context);
    let mut map = Vi::new(ed);
    map.editor().insert_str_after_cursor("delete");

    simulate_keys(&mut map, &[
        Esc,
        Char('d'),
        Char('d'),
        Char('i'),
        Char('n'),
        Char('e'),
        Char('w'),
        Esc,
    ]);
    assert_eq!(map.editor().cursor(), 2);
    assert_eq!(String::from(map), "new");
}

#[test]
fn delete_abort() {
    let context = Context::new();
    let ed = Editor::new("prompt".to_owned(), context);
    let mut map = Vi::new(ed);
    map.editor().insert_str_after_cursor("don't delete");

    simulate_keys(&mut map, &[
        Esc,
        Char('d'),
        Esc,
        Char('d'),
        Char('c'),
        Char('c'),
        Char('d'),
    ]);
    assert_eq!(map.editor().cursor(), 11);
    assert_eq!(String::from(map), "don't delete");
}

#[test]
fn delete_char_left() {
    let context = Context::new();
    let ed = Editor::new("prompt".to_owned(), context);
    let mut map = Vi::new(ed);
    map.editor().insert_str_after_cursor("delete");

    simulate_keys(&mut map, &[
        Esc,
        Char('d'),
        Char('h'),
    ]);
    assert_eq!(map.editor().cursor(), 4);
    assert_eq!(String::from(map), "delee");
}

#[test]
fn delete_chars_left() {
    let context = Context::new();
    let ed = Editor::new("prompt".to_owned(), context);
    let mut map = Vi::new(ed);
    map.editor().insert_str_after_cursor("delete");

    simulate_keys(&mut map, &[
        Esc,
        Char('3'),
        Char('d'),
        Char('h'),
    ]);
    assert_eq!(map.editor().cursor(), 2);
    assert_eq!(String::from(map), "dee");
}

#[test]
fn delete_char_right() {
    let context = Context::new();
    let ed = Editor::new("prompt".to_owned(), context);
    let mut map = Vi::new(ed);
    map.editor().insert_str_after_cursor("delete");

    simulate_keys(&mut map, &[
        Esc,
        Char('0'),
        Char('d'),
        Char('l'),
    ]);
    assert_eq!(map.editor().cursor(), 0);
    assert_eq!(String::from(map), "elete");
}

#[test]
fn delete_chars_right() {
    let context = Context::new();
    let ed = Editor::new("prompt".to_owned(), context);
    let mut map = Vi::new(ed);
    map.editor().insert_str_after_cursor("delete");

    simulate_keys(&mut map, &[
        Esc,
        Char('0'),
        Char('3'),
        Char('d'),
        Char('l'),
    ]);
    assert_eq!(map.editor().cursor(), 0);
    assert_eq!(String::from(map), "ete");
}

#[test]
fn delete_and_repeat() {
    let context = Context::new();
    let ed = Editor::new("prompt".to_owned(), context);
    let mut map = Vi::new(ed);
    map.editor().insert_str_after_cursor("delete");

    simulate_keys(&mut map, &[
        Esc,
        Char('0'),
        Char('d'),
        Char('l'),
        Char('.'),
    ]);
    assert_eq!(map.editor().cursor(), 0);
    assert_eq!(String::from(map), "lete");
}

#[test]
fn delete_until_end() {
    let context = Context::new();
    let ed = Editor::new("prompt".to_owned(), context);
    let mut map = Vi::new(ed);
    map.editor().insert_str_after_cursor("delete");

    simulate_keys(&mut map, &[
        Esc,
        Char('0'),
        Char('d'),
        Char('$'),
    ]);
    assert_eq!(map.editor().cursor(), 0);
    assert_eq!(String::from(map), "");
}

#[test]
fn delete_until_end_shift_d() {
    let context = Context::new();
    let ed = Editor::new("prompt".to_owned(), context);
    let mut map = Vi::new(ed);
    map.editor().insert_str_after_cursor("delete");

    simulate_keys(&mut map, &[
        Esc,
        Char('0'),
        Char('D'),
    ]);
    assert_eq!(map.editor().cursor(), 0);
    assert_eq!(String::from(map), "");
}

#[test]
fn delete_until_start() {
    let context = Context::new();
    let ed = Editor::new("prompt".to_owned(), context);
    let mut map = Vi::new(ed);
    map.editor().insert_str_after_cursor("delete");

    simulate_keys(&mut map, &[
        Esc,
        Char('$'),
        Char('d'),
        Char('0'),
    ]);
    assert_eq!(map.editor().cursor(), 0);
    assert_eq!(String::from(map), "e");
}

#[test]
fn delete_with_count() {
    let context = Context::new();
    let ed = Editor::new("prompt".to_owned(), context);
    let mut map = Vi::new(ed);
    map.editor().insert_str_after_cursor("delete");

    simulate_keys(&mut map, &[
        Esc,
        Char('0'),
        Char('2'),
        Char('d'),
        Char('2'),
        Char('l'),
    ]);
    assert_eq!(map.editor().cursor(), 0);
    assert_eq!(String::from(map), "te");
}

#[test]
fn delete_with_count_and_repeat() {
    let context = Context::new();
    let ed = Editor::new("prompt".to_owned(), context);
    let mut map = Vi::new(ed);
    map.editor().insert_str_after_cursor("delete delete");

    simulate_keys(&mut map, &[
        Esc,
        Char('0'),
        Char('2'),
        Char('d'),
        Char('2'),
        Char('l'),
        Char('.'),
    ]);
    assert_eq!(map.editor().cursor(), 0);
    assert_eq!(String::from(map), "elete");
}

#[test]
fn change_line() {
    let context = Context::new();
    let ed = Editor::new("prompt".to_owned(), context);
    let mut map = Vi::new(ed);
    map.editor().insert_str_after_cursor("change");

    simulate_keys(&mut map, &[
        Esc,
        Char('c'),
        Char('c'),
        Char('d'),
        Char('o'),
        Char('n'),
        Char('e'),
    ]);
    assert_eq!(map.editor().cursor(), 4);
    assert_eq!(String::from(map), "done");
}

#[test]
fn change_char_left() {
    let context = Context::new();
    let ed = Editor::new("prompt".to_owned(), context);
    let mut map = Vi::new(ed);
    map.editor().insert_str_after_cursor("change");

    simulate_keys(&mut map, &[
        Esc,
        Char('c'),
        Char('h'),
        Char('e'),
        Esc,
    ]);
    assert_eq!(map.editor().cursor(), 4);
    assert_eq!(String::from(map), "chanee");
}

#[test]
fn change_chars_left() {
    let context = Context::new();
    let ed = Editor::new("prompt".to_owned(), context);
    let mut map = Vi::new(ed);
    map.editor().insert_str_after_cursor("change");

    simulate_keys(&mut map, &[
        Esc,
        Char('3'),
        Char('c'),
        Char('h'),
        Char('e'),
    ]);
    assert_eq!(map.editor().cursor(), 3);
    assert_eq!(String::from(map), "chee");
}

#[test]
fn change_char_right() {
    let context = Context::new();
    let ed = Editor::new("prompt".to_owned(), context);
    let mut map = Vi::new(ed);
    map.editor().insert_str_after_cursor("change");

    simulate_keys(&mut map, &[
        Esc,
        Char('0'),
        Char('c'),
        Char('l'),
        Char('s'),
    ]);
    assert_eq!(map.editor().cursor(), 1);
    assert_eq!(String::from(map), "shange");
}

#[test]
fn change_chars_right() {
    let context = Context::new();
    let ed = Editor::new("prompt".to_owned(), context);
    let mut map = Vi::new(ed);
    map.editor().insert_str_after_cursor("change");

    simulate_keys(&mut map, &[
        Esc,
        Char('0'),
        Char('3'),
        Char('c'),
        Char('l'),
        Char('s'),
        Char('t'),
        Char('r'),
        Char('a'),
        Esc,
    ]);
    assert_eq!(map.editor().cursor(), 3);
    assert_eq!(String::from(map), "strange");
}

#[test]
fn change_and_repeat() {
    let context = Context::new();
    let ed = Editor::new("prompt".to_owned(), context);
    let mut map = Vi::new(ed);
    map.editor().insert_str_after_cursor("change");

    simulate_keys(&mut map, &[
        Esc,
        Char('0'),
        Char('c'),
        Char('l'),
        Char('s'),
        Esc,
        Char('l'),
        Char('.'),
        Char('l'),
        Char('.'),
    ]);
    assert_eq!(map.editor().cursor(), 2);
    assert_eq!(String::from(map), "sssnge");
}

#[test]
fn change_until_end() {
    let context = Context::new();
    let ed = Editor::new("prompt".to_owned(), context);
    let mut map = Vi::new(ed);
    map.editor().insert_str_after_cursor("change");

    simulate_keys(&mut map, &[
        Esc,
        Char('0'),
        Char('c'),
        Char('$'),
        Char('o'),
        Char('k'),
        Esc,
    ]);
    assert_eq!(map.editor().cursor(), 1);
    assert_eq!(String::from(map), "ok");
}

#[test]
fn change_until_end_shift_c() {
    let context = Context::new();
    let ed = Editor::new("prompt".to_owned(), context);
    let mut map = Vi::new(ed);
    map.editor().insert_str_after_cursor("change");

    simulate_keys(&mut map, &[
        Esc,
        Char('0'),
        Char('C'),
        Char('o'),
        Char('k'),
    ]);
    assert_eq!(map.editor().cursor(), 2);
    assert_eq!(String::from(map), "ok");
}

#[test]
fn change_until_end_from_middle_shift_c() {
    let context = Context::new();
    let ed = Editor::new("prompt".to_owned(), context);
    let mut map = Vi::new(ed);
    map.editor().insert_str_after_cursor("change");

    simulate_keys(&mut map, &[
        Esc,
        Char('0'),
        Char('2'),
        Char('l'),
        Char('C'),
        Char(' '),
        Char('o'),
        Char('k'),
        Esc,
    ]);
    assert_eq!(String::from(map), "ch ok");
}

#[test]
fn change_until_start() {
    let context = Context::new();
    let ed = Editor::new("prompt".to_owned(), context);
    let mut map = Vi::new(ed);
    map.editor().insert_str_after_cursor("change");

    simulate_keys(&mut map, &[
        Esc,
        Char('$'),
        Char('c'),
        Char('0'),
        Char('s'),
        Char('t'),
        Char('r'),
        Char('a'),
        Char('n'),
        Char('g'),
    ]);
    assert_eq!(map.editor().cursor(), 6);
    assert_eq!(String::from(map), "strange");
}

#[test]
fn change_with_count() {
    let context = Context::new();
    let ed = Editor::new("prompt".to_owned(), context);
    let mut map = Vi::new(ed);
    map.editor().insert_str_after_cursor("change");

    simulate_keys(&mut map, &[
        Esc,
        Char('0'),
        Char('2'),
        Char('c'),
        Char('2'),
        Char('l'),
        Char('s'),
        Char('t'),
        Char('r'),
        Char('a'),
        Char('n'),
        Esc,
    ]);
    assert_eq!(map.editor().cursor(), 4);
    assert_eq!(String::from(map), "strange");
}

#[test]
fn change_with_count_and_repeat() {
    let context = Context::new();
    let ed = Editor::new("prompt".to_owned(), context);
    let mut map = Vi::new(ed);
    map.editor().insert_str_after_cursor("change change");

    simulate_keys(&mut map, &[
        Esc,
        Char('0'),
        Char('2'),
        Char('c'),
        Char('2'),
        Char('l'),
        Char('o'),
        Esc,
        Char('.'),
    ]);
    assert_eq!(map.editor().cursor(), 0);
    assert_eq!(String::from(map), "ochange");
}

#[test]
fn test_undo_with_counts() {
    let context = Context::new();
    let ed = Editor::new("prompt".to_owned(), context);
    let mut map = Vi::new(ed);
    map.editor().insert_str_after_cursor("abcdefg");

    simulate_keys(&mut map, &[
        Esc,
        Char('x'),
        Char('x'),
        Char('x'),
        Char('3'),
        Char('u'),
    ]);
    assert_eq!(String::from(map), "abcdefg");
}

#[test]
fn test_redo_with_counts() {
    let context = Context::new();
    let ed = Editor::new("prompt".to_owned(), context);
    let mut map = Vi::new(ed);
    map.editor().insert_str_after_cursor("abcdefg");

    simulate_keys(&mut map, &[
        Esc,
        Char('x'),
        Char('x'),
        Char('x'),
        Char('u'),
        Char('u'),
        Char('u'),
        Char('2'),
        Ctrl('r'),
    ]);
    assert_eq!(String::from(map), "abcde");
}

#[test]
fn undo_insert() {
    let context = Context::new();
    let ed = Editor::new("prompt".to_owned(), context);
    let mut map = Vi::new(ed);

    simulate_keys(&mut map, &[
        Char('i'),
        Char('n'),
        Char('s'),
        Char('e'),
        Char('r'),
        Char('t'),
        Esc,
        Char('u'),
    ]);
    assert_eq!(String::from(map), "");
}

#[test]
fn undo_insert2() {
    let context = Context::new();
    let ed = Editor::new("prompt".to_owned(), context);
    let mut map = Vi::new(ed);

    simulate_keys(&mut map, &[
        Esc,
        Char('i'),
        Char('i'),
        Char('n'),
        Char('s'),
        Char('e'),
        Char('r'),
        Char('t'),
        Esc,
        Char('u'),
    ]);
    assert_eq!(String::from(map), "");
}

#[test]
fn undo_insert_with_history() {
    let mut context = Context::new();
    context.history.push(Buffer::from_text(""));
    let ed = Editor::new("prompt".to_owned(), context);
    let mut map = Vi::new(ed);

    simulate_keys(&mut map, &[
        Esc,
        Char('i'),
        Char('i'),
        Char('n'),
        Char('s'),
        Char('e'),
        Char('r'),
        Char('t'),
        Up,
        Char('h'),
        Char('i'),
        Char('s'),
        Char('t'),
        Char('o'),
        Char('r'),
        Char('y'),
        Down,
        Char(' '),
        Char('t'),
        Char('e'),
        Char('x'),
        Char('t'),
        Esc,
        Char('u'),
    ]);
    // the empty entry does not extend "insert", so Up and Down keep the new line, and
    // undo takes back only what was typed after the last movement
    assert_eq!(String::from(map), "inserthistory");
}

#[test]
fn undo_insert_with_history2() {
    let mut context = Context::new();
    context.history.push(Buffer::from_text(""));
    let ed = Editor::new("prompt".to_owned(), context);
    let mut map = Vi::new(ed);

    simulate_keys(&mut map, &[
        Esc,
        Char('i'),
        Char('i'),
        Char('n'),
        Char('s'),
        Char('e'),
        Char('r'),
        Char('t'),
        Up,
        Esc,
        Down,
        Char('u'),
    ]);
    assert_eq!(String::from(map), "");
}

#[test]
fn undo_insert_with_movement_reset() {
    let context = Context::new();
    let ed = Editor::new("prompt".to_owned(), context);
    let mut map = Vi::new(ed);

    simulate_keys(&mut map, &[
        Esc,
        Char('i'),
        Char('i'),
        Char('n'),
        Char('s'),
        Char('e'),
        Char('r'),
        Char('t'),
        // movement reset will get triggered here
        Left,
        Right,
        Char(' '),
        Char('t'),
        Char('e'),
        Char('x'),
        Char('t'),
        Esc,
        Char('u'),
    ]);
    assert_eq!(String::from(map), "insert");
}

#[test]
fn undo_3x() {
    let context = Context::new();
    let ed = Editor::new("prompt".to_owned(), context);
    let mut map = Vi::new(ed);
    map.editor().insert_str_after_cursor("rm some words");

    simulate_keys(&mut map, &[
        Esc,
        Char('0'),
        Char('3'),
        Char('x'),
        Char('u'),
    ]);
    assert_eq!(String::from(map), "rm some words");
}

#[test]
fn undo_insert_with_count() {
    let context = Context::new();
    let ed = Editor::new("prompt".to_owned(), context);
    let mut map = Vi::new(ed);

    simulate_keys(&mut map, &[
        Char('i'),
        Char('n'),
        Char('s'),
        Char('e'),
        Char('r'),
        Char('t'),
        Esc,
        Char('3'),
        Char('i'),
        Char('i'),
        Char('n'),
        Char('s'),
        Char('e'),
        Char('r'),
        Char('t'),
        Esc,
        Char('u'),
    ]);
    assert_eq!(String::from(map), "insert");
}

#[test]
fn undo_insert_with_repeat() {
    let context = Context::new();
    let ed = Editor::new("prompt".to_owned(), context);
    let mut map = Vi::new(ed);

    simulate_keys(&mut map, &[
        Char('i'),
        Char('n'),
        Char('s'),
        Char('e'),
        Char('r'),
        Char('t'),
        Esc,
        Char('3'),
        Char('.'),
        Esc,
        Char('u'),
    ]);
    assert_eq!(String::from(map), "insert");
}

#[test]
fn undo_s_with_count() {
    let context = Context::new();
    let ed = Editor::new("prompt".to_owned(), context);
    let mut map = Vi::new(ed);
    map.editor().insert_str_after_cursor("replace some words");

    simulate_keys(&mut map, &[
        Esc,
        Char('0'),
        Char('8'),
        Char('s'),
        Char('o'),
        Char('k'),
        Esc,
        Char('u'),
    ]);
    assert_eq!(String::from(map), "replace some words");
}

#[test]
fn undo_multiple_groups() {
    let context = Context::new();
    let ed = Editor::new("prompt".to_owned(), context);
    let mut map = Vi::new(ed);
    map.editor().insert_str_after_cursor("replace some words");

    simulate_keys(&mut map, &[
        Esc,
        Char('A'),
        Char(' '),
        Char('h'),
        Char('e'),
        Char('r'),
        Char('e'),
        Esc,
        Char('0'),
        Char('8'),
        Char('s'),
        Char('o'),
        Char('k'),
        Esc,
        Char('2'),
        Char('u'),
    ]);
    assert_eq!(String::from(map), "replace some words");
}

#[test]
fn undo_r_command_with_count() {
    let context = Context::new();
    let ed = Editor::new("prompt".to_owned(), context);
    let mut map = Vi::new(ed);
    map.editor().insert_str_after_cursor("replace some words");

    simulate_keys(&mut map, &[
        Esc,
        Char('0'),
        Char('8'),
        Char('r'),
        Char(' '),
        Char('u'),
    ]);
    assert_eq!(String::from(map), "replace some words");
}
