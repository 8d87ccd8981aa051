use ted::buffer::{Buffer, BufferName};
use ted::cursor::Cursor;

fn scratch() -> BufferName {
    BufferName::from_name("*scratch*")
}

#[test]
fn undo_1() {
    let mut buffer = Buffer::new(scratch());
    assert_eq!(buffer.to_string(), "");
    assert!(!buffer.undo().unwrap());
    assert_eq!(buffer.to_string(), "");
    buffer.insert_str(0, "Helllo World").unwrap();
    assert_eq!(buffer.to_string(), "Helllo World");
    buffer.delete(2).unwrap();
    assert_eq!(buffer.to_string(), "Hello World");
    assert!(buffer.undo().unwrap());
    assert_eq!(buffer.to_string(), "Helllo World");
    assert!(buffer.undo().unwrap());
    assert_eq!(buffer.to_string(), "");
    assert!(!buffer.undo().unwrap());
    assert_eq!(buffer.to_string(), "");
}

#[test]
fn undo_redo_1() {
    let mut buffer = Buffer::new(scratch());
    let mut cursor = Cursor::new();

    cursor.update(&buffer);
    assert_eq!(buffer.to_string(), "");
    assert_eq!(cursor.get(), 0);

    buffer.insert_str(0, "Helllo World").unwrap();
    cursor.update(&buffer);
    assert_eq!(buffer.to_string(), "Helllo World");
    assert_eq!(cursor.get(), 12);

    buffer.delete(2).unwrap();
    cursor.update(&buffer);
    assert_eq!(buffer.to_string(), "Hello World");
    assert_eq!(cursor.get(), 11);

    assert!(buffer.undo().unwrap());
    cursor.update(&buffer);
    assert_eq!(buffer.to_string(), "Helllo World");
    assert_eq!(cursor.get(), 12);

    assert!(buffer.redo().unwrap());
    cursor.update(&buffer);
    assert_eq!(buffer.to_string(), "Hello World");
    assert_eq!(cursor.get(), 11);

    assert!(!buffer.redo().unwrap());
    cursor.update(&buffer);
    assert_eq!(buffer.to_string(), "Hello World");
    assert_eq!(cursor.get(), 11);

    assert!(buffer.undo().unwrap());
    cursor.update(&buffer);
    assert_eq!(buffer.to_string(), "Helllo World");
    assert_eq!(cursor.get(), 12);

    assert!(buffer.undo().unwrap());
    cursor.update(&buffer);
    assert_eq!(buffer.to_string(), "");
    assert_eq!(cursor.get(), 0);

    assert!(!buffer.undo().unwrap());
    cursor.update(&buffer);
    assert_eq!(buffer.to_string(), "");
    assert_eq!(cursor.get(), 0);

    assert!(buffer.redo().unwrap());
    cursor.update(&buffer);
    assert_eq!(buffer.to_string(), "Helllo World");
    assert_eq!(cursor.get(), 12);
}

#[test]
fn undo_already_undone_all_changes() {
    let mut buffer = Buffer::new(scratch());
    let mut cursor = Cursor::new();

    cursor.update(&buffer);
    assert_eq!(buffer.to_string(), "");
    assert_eq!(cursor.get(), 0);

    buffer.insert_str(0, "Hi").unwrap();
    cursor.update(&buffer);
    assert_eq!(buffer.to_string(), "Hi");
    assert_eq!(cursor.get(), 2);

    assert!(buffer.undo().unwrap());
    cursor.update(&buffer);
    assert_eq!(buffer.to_string(), "");
    assert_eq!(cursor.get(), 0);

    assert!(!buffer.undo().unwrap());
    cursor.update(&buffer);
    assert_eq!(buffer.to_string(), "");
    assert_eq!(cursor.get(), 0);
}

#[test]
fn new_with_contents_redo_after_undo() {
    let mut buffer = Buffer::new_with_contents(scratch(), "Example text");

    assert_eq!(buffer.to_string(), "Example text");
    buffer.insert_str(0, "Some ").unwrap();
    assert_eq!(buffer.to_string(), "Some Example text");
    buffer.undo().unwrap();
    assert_eq!(buffer.to_string(), "Example text");
    buffer.redo().unwrap();
    assert_eq!(buffer.to_string(), "Some Example text");
}

#[test]
fn buffer_with_contents_cursor_movement_update() {
    let buffer = Buffer::new_with_contents(scratch(), "contents\n");
    let mut cursor = Cursor::new();
    assert_eq!(cursor.get(), 0);
    cursor.update(&buffer);
    assert_eq!(cursor.get(), 9);
    cursor.increment(&buffer, -3);
    assert_eq!(cursor.get(), 6);
}

#[test]
fn buffer_with_contents_cursor_movement_noupdate() {
    let buffer = Buffer::new_with_contents(scratch(), "contents\n");
    let mut cursor = Cursor::new();
    assert_eq!(cursor.get(), 0);
    cursor.increment(&buffer, -1);
    assert_eq!(cursor.get(), 8);
}

#[test]
fn cursor_set_then_insert_at_it_moves_past() {
    let mut buffer = Buffer::new(scratch());
    let mut cursor = Cursor::new();
    buffer.insert_str(0, "abef").unwrap();
    cursor.set(&buffer, 2);
    assert_eq!(cursor.get(), 2);
    buffer.insert_str(2, "cd").unwrap();
    cursor.update(&buffer);
    assert_eq!(cursor.get(), 4);
}

#[test]
fn cursor_before_delete_stays_and_after_moves_back() {
    let mut buffer = Buffer::new(scratch());
    buffer.insert_str(0, "abcdef").unwrap();
    let mut before = Cursor::new();
    let mut after = Cursor::new();
    before.set(&buffer, 1);
    after.set(&buffer, 5);
    buffer.delete_region(2, 4).unwrap();
    before.update(&buffer);
    after.update(&buffer);
    assert_eq!(buffer.to_string(), "abef");
    assert_eq!(before.get(), 1);
    assert_eq!(after.get(), 3);
}

#[test]
fn read_only_buffer_refuses_edits() {
    let mut buffer = Buffer::new(scratch());
    buffer.insert_str(0, "ab").unwrap();
    buffer.set_read_only(true);
    assert_eq!(buffer.insert(0, 'x'), Err("Error: Buffer is read only".to_string()));
    assert_eq!(buffer.delete(0), Err("Error: Buffer is read only".to_string()));
    assert_eq!(buffer.to_string(), "ab");
    buffer.set_read_only(false);
    buffer.insert(0, 'x').unwrap();
    assert_eq!(buffer.to_string(), "xab");
}

#[test]
fn buffer_edit_out_of_bounds_errors() {
    let mut buffer = Buffer::new(scratch());
    assert!(buffer.insert(1, 'x').is_err());
    assert!(buffer.delete(0).is_err());
    assert!(buffer.delete_region(1, 2).is_err());
    assert!(buffer.delete_region(0, 1).is_ok());
    assert_eq!(buffer.substring(0, 0).unwrap(), "");
    assert_eq!(buffer.substring(0, 1).unwrap(), "");
}

#[test]
fn buffer_name_from_path_and_parent() {
    let name = BufferName::from_path("/home/user/notes.txt".to_string());
    assert_eq!(name.name, "notes.txt");
    assert_eq!(name.parent(), Some("/home/user".to_string()));
    assert!(BufferName::try_from_path("/".to_string()).is_none());
    assert_eq!(BufferName::from_name("*scratch*").parent(), None);
}
