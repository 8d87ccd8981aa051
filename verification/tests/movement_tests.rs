use ted::buffer::{Buffer, BufferName};
use ted::commands::{BeginOfLineCommand, EndOfLineCommand};
use ted::movement::{forward_group, forward_line, forward_word, up_group};
use ted::state::State;

fn scratch() -> BufferName {
    BufferName::from_name("*scratch*")
}

fn buffer_of(s: &str) -> Buffer {
    let mut buffer = Buffer::new(scratch());
    buffer.insert_str(0, s).unwrap();
    buffer
}

fn selected_cursor(state: &State) -> usize {
    state.windows[state.selected_window()].cursor.get()
}

fn set_selected_cursor(state: &mut State, location: usize) {
    let w = state.selected_window();
    let b = state.windows[w].buffer;
    state.windows[w].set_cursor(&state.buffers[b], location);
}

#[test]
fn begin_of_line_command_1() {
    let mut state = State::new();
    BeginOfLineCommand.execute(&mut state).unwrap();
    assert_eq!(selected_cursor(&state), 0);
    let b = state.selected_window_buffer();
    state.buffers[b].insert_str(0, "abcd\nefgh\nijkl\n").unwrap();
    set_selected_cursor(&mut state, 4);

    BeginOfLineCommand.execute(&mut state).unwrap();
    assert_eq!(selected_cursor(&state), 0);
    set_selected_cursor(&mut state, 7);

    BeginOfLineCommand.execute(&mut state).unwrap();
    assert_eq!(selected_cursor(&state), 5);
    set_selected_cursor(&mut state, 1000);

    BeginOfLineCommand.execute(&mut state).unwrap();
    assert_eq!(selected_cursor(&state), 15);
}

#[test]
fn end_of_line_command_1() {
    let mut state = State::new();
    EndOfLineCommand.execute(&mut state).unwrap();
    assert_eq!(selected_cursor(&state), 0);
    let b = state.selected_window_buffer();
    state.buffers[b].insert_str(0, "abcd\nefgh\nijkl\n").unwrap();
    set_selected_cursor(&mut state, 4);

    EndOfLineCommand.execute(&mut state).unwrap();
    assert_eq!(selected_cursor(&state), 4);
    set_selected_cursor(&mut state, 7);

    EndOfLineCommand.execute(&mut state).unwrap();
    assert_eq!(selected_cursor(&state), 9);

    EndOfLineCommand.execute(&mut state).unwrap();
    assert_eq!(selected_cursor(&state), 9);
    set_selected_cursor(&mut state, 0);

    EndOfLineCommand.execute(&mut state).unwrap();
    assert_eq!(selected_cursor(&state), 4);
    set_selected_cursor(&mut state, 1000);

    EndOfLineCommand.execute(&mut state).unwrap();
    assert_eq!(selected_cursor(&state), 15);
}

#[test]
fn forward_line_empty_buffer() {
    let buffer = Buffer::new(scratch());
    assert_eq!(forward_line(&buffer, 0, 1), 0);
    assert_eq!(forward_line(&buffer, 0, -1), 0);
}

#[test]
fn forward_line_two_lines_same_len() {
    let buffer = buffer_of("Hello\nWorld");
    assert_eq!(forward_line(&buffer, 0, 1), 6);
    assert_eq!(forward_line(&buffer, 2, 1), 8);
    assert_eq!(forward_line(&buffer, 8, 1), 8);

    assert_eq!(forward_line(&buffer, 0, -1), 0);
    assert_eq!(forward_line(&buffer, 2, -1), 2);
    assert_eq!(forward_line(&buffer, 6, -1), 0);
    assert_eq!(forward_line(&buffer, 8, -1), 2);
}

#[test]
fn forward_line_two_lines_bigger_first() {
    let buffer = buffer_of("Hello\nW");
    assert_eq!(forward_line(&buffer, 0, 1), 6);
    assert_eq!(forward_line(&buffer, 2, 1), 7);
    assert_eq!(forward_line(&buffer, 7, 1), 7);

    assert_eq!(forward_line(&buffer, 0, -1), 0);
    assert_eq!(forward_line(&buffer, 2, -1), 2);
    assert_eq!(forward_line(&buffer, 6, -1), 0);
    assert_eq!(forward_line(&buffer, 7, -1), 1);
}

#[test]
fn forward_line_two_lines_bigger_second() {
    let buffer = buffer_of("H\nWorld");
    assert_eq!(forward_line(&buffer, 0, 1), 2);
    assert_eq!(forward_line(&buffer, 1, 1), 3);
    assert_eq!(forward_line(&buffer, 3, 1), 3);

    assert_eq!(forward_line(&buffer, 0, -1), 0);
    assert_eq!(forward_line(&buffer, 1, -1), 1);
    assert_eq!(forward_line(&buffer, 3, -1), 1);
    assert_eq!(forward_line(&buffer, 5, -1), 1);
}

#[test]
fn forward_line_multiple_lines() {
    let mut buffer = Buffer::new(scratch());
    buffer.insert_str(0, "H\n").unwrap();
    buffer.insert_str(2, "ello\n").unwrap();
    buffer.insert_str(7, "\n").unwrap();
    buffer.insert_str(8, "World").unwrap();

    assert_eq!(forward_line(&buffer, 4, -3), 1);
    assert_eq!(forward_line(&buffer, 7, -3), 0);
    assert_eq!(forward_line(&buffer, 9, -3), 1);
    assert_eq!(forward_line(&buffer, 11, -2), 5);

    assert_eq!(forward_line(&buffer, 1, 2), 7);
    assert_eq!(forward_line(&buffer, 4, 3), 10);
    assert_eq!(forward_line(&buffer, 7, 3), 8);
    assert_eq!(forward_line(&buffer, 9, 3), 9);

    assert_eq!(forward_line(&buffer, 4, 0), 4);
    assert_eq!(forward_line(&buffer, 11, 0), 11);
}

#[test]
fn forward_word_empty_buffer() {
    let buffer = Buffer::new(scratch());
    assert_eq!(forward_word(&buffer, 0, 1), 0);
    assert_eq!(forward_word(&buffer, 0, 0), 0);
    assert_eq!(forward_word(&buffer, 0, -1), 0);
}

#[test]
fn forward_word_multiple_lines() {
    let mut buffer = Buffer::new(scratch());
    buffer.insert_str(0, "Hello\n").unwrap();
    buffer.insert_str(6, "\n").unwrap();
    buffer.insert_str(7, "World").unwrap();
    assert_eq!(forward_word(&buffer, 0, 1), 5);
    assert_eq!(forward_word(&buffer, 3, 1), 5);
    assert_eq!(forward_word(&buffer, 4, 1), 5);
    assert_eq!(forward_word(&buffer, 5, 1), 12);
    assert_eq!(forward_word(&buffer, 3, 2), 12);
    assert_eq!(forward_word(&buffer, 3, -1), 0);
    assert_eq!(forward_word(&buffer, 7, -1), 0);
    assert_eq!(forward_word(&buffer, 8, -1), 7);
}

#[test]
fn forward_word_multiple_lines_spaces() {
    let mut buffer = Buffer::new(scratch());
    buffer.insert_str(0, " Hello \n").unwrap();
    buffer.insert_str(8, " \n").unwrap();
    buffer.insert_str(10, " World ").unwrap();
    assert_eq!(forward_word(&buffer, 0, 1), 6);
    assert_eq!(forward_word(&buffer, 4, 1), 6);
    assert_eq!(forward_word(&buffer, 5, 1), 6);
    assert_eq!(forward_word(&buffer, 6, 1), 16);
    assert_eq!(forward_word(&buffer, 3, 2), 16);
    assert_eq!(forward_word(&buffer, 3, 3), 17);

    assert_eq!(forward_word(&buffer, 1, -1), 0);
    assert_eq!(forward_word(&buffer, 7, -1), 1);
    assert_eq!(forward_word(&buffer, 8, -1), 1);
    assert_eq!(forward_word(&buffer, 12, -1), 11);
}

#[test]
fn forward_group_parens() {
    let buffer = buffer_of(" (abc) ");
    assert_eq!(forward_group(&buffer, 0, 1), 6);
    assert_eq!(forward_group(&buffer, 1, 1), 6);
}

#[test]
fn backward_group_parens() {
    let buffer = buffer_of(" (abc) ");
    assert_eq!(forward_group(&buffer, 6, -1), 1);
    assert_eq!(forward_group(&buffer, 7, -1), 1);
}

#[test]
fn forward_group_identifier_underscores() {
    let buffer = buffer_of(" ab_cd ");
    assert_eq!(forward_group(&buffer, 0, 1), 6);
    assert_eq!(forward_group(&buffer, 1, 1), 6);
}

#[test]
fn backward_group_identifier_underscores() {
    let buffer = buffer_of(" ab_cd ");
    assert_eq!(forward_group(&buffer, 6, -1), 1);
    assert_eq!(forward_group(&buffer, 7, -1), 1);
}

#[test]
fn forward_group_nested_parens() {
    let buffer = buffer_of(" ((oh) [boy]) ");
    assert_eq!(forward_group(&buffer, 0, 1), 13);
    assert_eq!(forward_group(&buffer, 1, 1), 13);
    assert_eq!(forward_group(&buffer, 1, 2), 13);
    assert_eq!(forward_group(&buffer, 2, 1), 6);
    assert_eq!(forward_group(&buffer, 2, 2), 12);
}

#[test]
fn backward_group_nested_parens() {
    let buffer = buffer_of(" ((oh) [boy]) ");
    assert_eq!(forward_group(&buffer, 14, -1), 1);
    assert_eq!(forward_group(&buffer, 13, -1), 1);
    assert_eq!(forward_group(&buffer, 13, -2), 1);
    assert_eq!(forward_group(&buffer, 6, -1), 2);
    assert_eq!(forward_group(&buffer, 12, -2), 2);
}

#[test]
fn up_group_nested_parens() {
    let buffer = buffer_of("((oh man))");
    assert_eq!(up_group(&buffer, 5, 1), 1);
    assert_eq!(up_group(&buffer, 5, 2), 0);
}

#[test]
fn up_group_multiple_nested_parens() {
    let buffer = buffer_of("((oh) (man))");
    assert_eq!(up_group(&buffer, 7, 1), 6);
    assert_eq!(up_group(&buffer, 7, 2), 0);
}

#[test]
fn moving_forward_from_past_the_end() {
    let buffer = buffer_of("ab cd");
    assert_eq!(forward_word(&buffer, 9, 1), 5);
    assert_eq!(forward_word(&buffer, 9, 0), 9);
    assert_eq!(forward_group(&buffer, 9, 1), 9);
}
