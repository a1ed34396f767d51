use liner::{Context, Editor};

fn new_editor() -> Editor {
    Editor::new("prompt".to_owned(), Context::new())
}

#[test]
fn delete_all_after_cursor_undo() {
    let mut ed = new_editor();
    ed.insert_str_after_cursor("delete all of this");
    ed.move_cursor_to_start_of_line();
    ed.delete_all_after_cursor();
    ed.undo();
    assert_eq!(String::from(ed), "delete all of this");
}

#[test]
fn editor_move_cursor_left() {
    let mut ed = new_editor();
    ed.insert_str_after_cursor("let");
    assert_eq!(ed.cursor(), 3);

    ed.move_cursor_left(1);
    assert_eq!(ed.cursor(), 2);

    ed.insert_after_cursor('f');
    assert_eq!(ed.cursor(), 3);
    assert_eq!(String::from(ed), "left");
}

#[test]
fn editor_cursor_movement() {
    let mut ed = new_editor();
    ed.insert_str_after_cursor("right");
    assert_eq!(ed.cursor(), 5);

    ed.move_cursor_left(2);
    ed.move_cursor_right(1);
    assert_eq!(ed.cursor(), 4);
}

#[test]
fn delete_until_backwards() {
    let mut ed = new_editor();
    ed.insert_str_after_cursor("right");
    assert_eq!(ed.cursor(), 5);

    ed.delete_until(0);
    assert_eq!(ed.cursor(), 0);
    assert_eq!(String::from(ed), "");
}

#[test]
fn delete_until_forwards() {
    let mut ed = new_editor();
    ed.insert_str_after_cursor("right");
    ed.move_cursor_to(0);

    ed.delete_until(5);
    assert_eq!(ed.cursor(), 0);
    assert_eq!(String::from(ed), "");
}

#[test]
fn delete_until() {
    let mut ed = new_editor();
    ed.insert_str_after_cursor("right");
    ed.move_cursor_to(4);

    ed.delete_until(1);
    assert_eq!(ed.cursor(), 1);
    assert_eq!(String::from(ed), "rt");
}

#[test]
fn delete_until_inclusive() {
    let mut ed = new_editor();
    ed.insert_str_after_cursor("right");
    ed.move_cursor_to(4);

    ed.delete_until_inclusive(1);
    assert_eq!(ed.cursor(), 1);
    assert_eq!(String::from(ed), "r");
}
