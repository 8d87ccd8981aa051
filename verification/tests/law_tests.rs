use ted::buffer::{Buffer, BufferName};
use ted::layout::Layout;
use ted::logger::Logger;
use ted::messages::Messages;
use ted::movement::{begin_of_line, end_of_line};
use ted::region::{insert_kill, paste, paste_pop};
use ted::window::Window;
use ted::window_order::{close_window, other_window_clockwise, other_window_counter_clockwise};

fn b(l: Layout) -> Box<Layout> {
    Box::new(l)
}

/// Windows 0 | (1 over 2) | 3.
fn four() -> Layout {
    Layout::VSplit {
        left: b(Layout::Window(0)),
        right: b(Layout::VSplit {
            left: b(Layout::HSplit { top: b(Layout::Window(1)), bottom: b(Layout::Window(2)) }),
            right: b(Layout::Window(3)),
        }),
    }
}

#[test]
fn clockwise_goes_round_in_order() {
    let l = four();
    let mut w = 0;
    let mut seen = vec![];
    for _ in 0..5 {
        other_window_clockwise(&l, &mut w);
        seen.push(w);
    }
    assert_eq!(seen, vec![1, 2, 3, 0, 1]);
}

#[test]
fn counter_clockwise_goes_round_backwards() {
    let l = four();
    let mut w = 0;
    let mut seen = vec![];
    for _ in 0..5 {
        other_window_counter_clockwise(&l, &mut w);
        seen.push(w);
    }
    assert_eq!(seen, vec![3, 2, 1, 0, 3]);
}

#[test]
fn clockwise_then_counter_clockwise_comes_back() {
    let l = four();
    for start in 0..4 {
        let mut w = start;
        other_window_clockwise(&l, &mut w);
        other_window_counter_clockwise(&l, &mut w);
        assert_eq!(w, start);
        other_window_counter_clockwise(&l, &mut w);
        other_window_clockwise(&l, &mut w);
        assert_eq!(w, start);
    }
}

#[test]
fn closing_a_window_takes_it_out_of_the_order() {
    let mut l = four();
    let mut w = 1;
    assert!(!close_window(&mut l, &mut w));
    assert_eq!(w, 2);
    assert_eq!(l.first_window(), 0);
    assert!(!l.contains_window(1));
    let mut seen = vec![];
    let mut v = 0;
    for _ in 0..3 {
        other_window_clockwise(&l, &mut v);
        seen.push(v);
    }
    assert_eq!(seen, vec![2, 3, 0]);
}

#[test]
fn closing_the_only_window_leaves_it() {
    let mut l = Layout::Window(5);
    let mut w = 5;
    assert!(close_window(&mut l, &mut w));
    assert_eq!(w, 5);
    assert!(l.contains_window(5));
}

#[test]
fn popping_adds_up_and_comes_round() {
    let mut window = Window::new(0);
    insert_kill(&mut window, "a".to_string());
    insert_kill(&mut window, "b".to_string());
    insert_kill(&mut window, "c".to_string());
    paste_pop(&mut window, 2);
    paste_pop(&mut window, 2);
    let mut buffer = Buffer::new(BufferName::from_name("x"));
    paste(&window, &mut buffer);
    assert_eq!(buffer.to_string(), "b");

    let mut other = Window::new(0);
    insert_kill(&mut other, "a".to_string());
    insert_kill(&mut other, "b".to_string());
    insert_kill(&mut other, "c".to_string());
    paste_pop(&mut other, 3);
    let mut buffer = Buffer::new(BufferName::from_name("y"));
    paste(&other, &mut buffer);
    assert_eq!(buffer.to_string(), "c");
    paste_pop(&mut other, -1);
    paste(&other, &mut buffer);
    assert_eq!(buffer.to_string(), "ca");
}

#[test]
fn line_bounds_stay_put() {
    let buffer = Buffer::new_with_contents(BufferName::from_name("x"), "ab\ncde\n\nf");
    for c in 0..=buffer.len() {
        let s = begin_of_line(&buffer, c);
        let e = end_of_line(&buffer, c);
        assert_eq!(begin_of_line(&buffer, s), s);
        assert_eq!(end_of_line(&buffer, e), e);
        assert_eq!(begin_of_line(&buffer, e), s);
        assert_eq!(end_of_line(&buffer, s), e);
    }
    assert_eq!(begin_of_line(&buffer, 5), 3);
    assert_eq!(end_of_line(&buffer, 5), 6);
    assert_eq!(begin_of_line(&buffer, 7), 7);
    assert_eq!(end_of_line(&buffer, 7), 7);
}

#[test]
fn undo_then_redo_then_undo() {
    let mut buffer = Buffer::new(BufferName::from_name("x"));
    buffer.insert_str(0, "hello").unwrap();
    buffer.delete_region(1, 3).unwrap();
    assert_eq!(buffer.to_string(), "hlo");
    assert_eq!(buffer.undo(), Ok(true));
    assert_eq!(buffer.to_string(), "hello");
    assert_eq!(buffer.redo(), Ok(true));
    assert_eq!(buffer.to_string(), "hlo");
    assert_eq!(buffer.undo(), Ok(true));
    assert_eq!(buffer.undo(), Ok(true));
    assert_eq!(buffer.to_string(), "");
    assert_eq!(buffer.undo(), Ok(false));
}

#[test]
fn nothing_to_redo_after_an_edit() {
    let mut buffer = Buffer::new(BufferName::from_name("x"));
    buffer.insert(0, 'a').unwrap();
    assert_eq!(buffer.undo(), Ok(true));
    buffer.insert(0, 'b').unwrap();
    assert_eq!(buffer.redo(), Ok(false));
    assert_eq!(buffer.to_string(), "b");
}

#[test]
fn messages_come_in_order() {
    let mut m = Messages::new();
    assert_eq!(m.poll(), None);
    m.add("one".to_string());
    m.add("two".to_string());
    assert_eq!(m.poll(), Some("one".to_string()));
    assert_eq!(m.poll(), Some("one".to_string()));
}

#[test]
fn logger_keeps_debug_only_when_asked() {
    let mut quiet = Logger::new(false);
    quiet.log("a".to_string());
    quiet.log_debug("b".to_string());
    assert_eq!(quiet.len(), 1);
    assert_eq!(quiet.entry(0), "a");
    let mut loud = Logger::new(true);
    loud.log_debug("b".to_string());
    loud.log("c".to_string());
    assert_eq!(loud.len(), 2);
    assert_eq!(loud.entry(0), "b");
    assert_eq!(loud.entry(1), "c");
}

#[test]
fn a_message_gives_way_after_ten_seconds() {
    let now = std::time::Instant::now();
    let mut m = Messages::new();
    m.add("one".to_string());
    m.add("two".to_string());
    assert_eq!(m.poll_at(None, now), Some("one".to_string()));
    assert_eq!(m.poll_at(Some(10_000_000_000), now), Some("one".to_string()));
    assert_eq!(m.poll_at(Some(10_000_000_001), now), Some("two".to_string()));
    assert_eq!(m.poll_at(Some(10_000_000_001), now), None);
    assert_eq!(m.poll_at(None, now), None);
}

#[test]
fn debug_logging_can_be_turned_on() {
    let mut log = Logger::new(false);
    log.log_debug("dropped".to_string());
    log.set_debug(true);
    log.log_debug("kept".to_string());
    assert_eq!(log.len(), 1);
    assert_eq!(log.entry(0), "kept");
}
