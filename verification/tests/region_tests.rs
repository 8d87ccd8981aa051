use ted::buffer::{Buffer, BufferName};
use ted::cursor::Cursor;
use ted::layout::Layout;
use ted::region::{copy_region, get_mark, insert_kill, is_mark_active, kill_region, paste, paste_pop, remove_mark, set_mark};
use ted::window::Window;

fn scratch() -> Buffer {
    Buffer::new(BufferName::from_name("*scratch*"))
}

#[test]
fn paste_nothing() {
    let window = Window::new(0);
    let mut buffer = scratch();
    paste(&window, &mut buffer);
    assert_eq!(buffer.to_string(), "");
}

#[test]
fn paste_end() {
    let mut window = Window::new(0);
    let mut buffer = scratch();
    window.insert_str(&mut buffer, "americaned").unwrap();
    insert_kill(&mut window, "abc".to_string());
    assert_eq!(window.cursor.get(), 10);

    paste(&window, &mut buffer);
    window.update_cursor(&buffer);

    assert_eq!(buffer.to_string(), "americanedabc");
    assert_eq!(window.cursor.get(), 13);
}

#[test]
fn paste_empty_buffer() {
    let mut window = Window::new(0);
    let mut buffer = scratch();
    window.insert_str(&mut buffer, "").unwrap();
    insert_kill(&mut window, "abc".to_string());
    insert_kill(&mut window, "def".to_string());
    assert_eq!(window.cursor.get(), 0);

    paste(&window, &mut buffer);
    window.update_cursor(&buffer);

    assert_eq!(buffer.to_string(), "def");
    assert_eq!(window.cursor.get(), 3);
}

#[test]
fn paste_empty_string() {
    let mut window = Window::new(0);
    let mut buffer = scratch();
    window.insert_str(&mut buffer, "").unwrap();
    insert_kill(&mut window, "abc".to_string());
    insert_kill(&mut window, "def".to_string());
    assert_eq!(window.cursor.get(), 0);

    paste(&window, &mut buffer);
    window.update_cursor(&buffer);

    assert_eq!(buffer.to_string(), "def");
    assert_eq!(window.cursor.get(), 3);
}

#[test]
fn paste_pop_goes_back_round_the_ring() {
    let mut window = Window::new(0);
    let mut buffer = scratch();
    insert_kill(&mut window, "abc".to_string());
    insert_kill(&mut window, "def".to_string());
    paste_pop(&mut window, 1);
    paste(&window, &mut buffer);
    assert_eq!(buffer.to_string(), "abc");
    paste_pop(&mut window, 1);
    paste(&window, &mut buffer);
    assert_eq!(buffer.to_string(), "abcdef");
}

#[test]
fn copy_then_paste_gives_the_region() {
    let mut window = Window::new(0);
    let mut buffer = scratch();
    window.insert_str(&mut buffer, "hello world").unwrap();
    window.set_cursor(&buffer, 0);
    let here = window.cursor;
    set_mark(&mut window, here);
    window.set_cursor(&buffer, 5);
    copy_region(&mut window, &buffer);
    window.set_cursor(&buffer, 11);
    paste(&window, &mut buffer);
    assert_eq!(buffer.to_string(), "hello worldhello");
}

#[test]
fn kill_region_removes_and_keeps_the_text() {
    let mut window = Window::new(0);
    let mut buffer = scratch();
    window.insert_str(&mut buffer, "hello world").unwrap();
    window.set_cursor(&buffer, 6);
    let here = window.cursor;
    set_mark(&mut window, here);
    window.set_cursor(&buffer, 11);
    kill_region(&mut window, &mut buffer);
    assert_eq!(buffer.to_string(), "hello ");
    window.update_cursor(&buffer);
    paste(&window, &mut buffer);
    assert_eq!(buffer.to_string(), "hello world");
}

#[test]
fn get_mark_with_set_is_correct() {
    let mut window = Window::new(0);
    let cursor = Cursor::new();
    set_mark(&mut window, cursor);
    assert_eq!(get_mark(&window).unwrap().get(), 0);
    assert!(is_mark_active(&window));
}

#[test]
fn get_mark_without_set_is_none() {
    let window = Window::new(0);
    assert!(get_mark(&window).is_none());
    assert!(!is_mark_active(&window));
}

#[test]
fn remove_mark_works() {
    let mut window = Window::new(0);
    let cursor = Cursor::new();
    set_mark(&mut window, cursor);
    assert!(get_mark(&window).is_some());
    assert!(is_mark_active(&window));
    remove_mark(&mut window);
    assert!(get_mark(&window).is_none());
    assert!(!is_mark_active(&window));
}

fn w(i: usize) -> Box<Layout> {
    Box::new(Layout::Window(i))
}

#[test]
fn first_window_vsplit_of_hsplits() {
    let layout = Layout::VSplit {
        left: Box::new(Layout::HSplit { top: w(7), bottom: w(1) }),
        right: Box::new(Layout::HSplit { top: w(2), bottom: w(3) }),
    };
    assert_eq!(layout.first_window(), 7);
}

#[test]
fn first_window_hsplit_of_vsplits() {
    let layout = Layout::HSplit {
        top: Box::new(Layout::VSplit { left: w(7), right: w(1) }),
        bottom: Box::new(Layout::VSplit { left: w(2), right: w(3) }),
    };
    assert_eq!(layout.first_window(), 7);
}

#[test]
fn last_window_vsplit_of_hsplits() {
    let layout = Layout::VSplit {
        left: Box::new(Layout::HSplit { top: w(1), bottom: w(2) }),
        right: Box::new(Layout::HSplit { top: w(3), bottom: w(7) }),
    };
    assert_eq!(layout.last_window(), 7);
}

#[test]
fn last_window_hsplit_of_vsplits() {
    let layout = Layout::HSplit {
        top: Box::new(Layout::VSplit { left: w(1), right: w(2) }),
        bottom: Box::new(Layout::VSplit { left: w(3), right: w(7) }),
    };
    assert_eq!(layout.last_window(), 7);
}

#[test]
fn replace_selected_window_puts_the_new_layout_in_place() {
    let mut layout = Layout::VSplit { left: w(0), right: w(1) };
    layout.replace_selected_window(1, Layout::HSplit { top: w(1), bottom: w(2) });
    assert!(layout.contains_window(2));
    assert_eq!(layout.last_window(), 2);
    assert_eq!(layout.first_window(), 0);
}
