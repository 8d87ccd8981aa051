use ted::command::{
    close_other_windows_command, close_window_command, delete_backward_char_command, delete_forward_char_command,
    horizontal_split_command, insert_command, other_window_clockwise_command, other_window_counter_clockwise_command,
    set_mark_command, vertical_split_command, with_other_window_clockwise, Command,
};
use ted::commands::{was_closed_successfully, CloseTedCommand};
use ted::debug_renderer::DebugRenderer;
use ted::layout::Layout;
use ted::state::State;
use ted::window::Window;

const B: &str = "                    ";
const S: &str = "          |         ";

/// A screen of 15 rows, each `fill` but those given.
fn screen(fill: &str, rows: &[(usize, &str)]) -> Vec<Vec<char>> {
    let mut g: Vec<Vec<char>> = (0..15).map(|_| fill.chars().collect()).collect();
    for (r, s) in rows {
        g[*r] = s.chars().collect();
    }
    g
}

fn selected_cursor(state: &State) -> usize {
    state.windows[state.selected_window()].cursor.get()
}

fn set_selected_cursor(state: &mut State, location: usize) {
    let w = state.selected_window();
    let b = state.windows[w].buffer;
    state.windows[w].set_cursor(&state.buffers[b], location);
}

fn selected_text(state: &State) -> String {
    state.buffers[state.selected_window_buffer()].to_string()
}

fn insert_in_selected_buffer(state: &mut State, s: &str) {
    let b = state.selected_window_buffer();
    state.buffers[b].insert_str(0, s).unwrap();
}

fn run(state: &mut State, command: Command) {
    command.execute(state).unwrap();
}

#[test]
fn insert_command_into_empty() {
    let mut state = State::new();
    run(&mut state, insert_command(' '));
    assert_eq!(selected_text(&state), " ");
    assert_eq!(selected_cursor(&state), 1);
}

#[test]
fn insert_command_at_end() {
    let mut state = State::new();
    let w = state.selected_window();
    let b = state.windows[w].buffer;
    state.windows[w].insert(&mut state.buffers[b], ' ').unwrap();
    assert_eq!(selected_cursor(&state), 1);
    run(&mut state, insert_command('x'));
    assert_eq!(selected_text(&state), " x");
    assert_eq!(selected_cursor(&state), 2);
}

#[test]
fn insert_command_at_beginning() {
    let mut state = State::new();
    let w = state.selected_window();
    let b = state.windows[w].buffer;
    state.windows[w].insert(&mut state.buffers[b], ' ').unwrap();
    set_selected_cursor(&mut state, 0);
    run(&mut state, insert_command('x'));
    assert_eq!(selected_text(&state), "x ");
    assert_eq!(selected_cursor(&state), 1);
}

#[test]
fn close_ted_command_test() {
    let mut state = State::new();
    assert!(!was_closed_successfully(&state));
    let r = CloseTedCommand.execute(&mut state);
    assert!(r.is_err());
    assert!(was_closed_successfully(&state));
}

#[test]
fn delete_backward_char_command_1() {
    let mut state = State::new();
    assert_eq!(selected_text(&state), "");
    run(&mut state, delete_backward_char_command());
    assert_eq!(selected_cursor(&state), 0);
    assert_eq!(selected_text(&state), "");
    insert_in_selected_buffer(&mut state, "abcd");
    assert_eq!(selected_text(&state), "abcd");
    run(&mut state, delete_backward_char_command());
    assert_eq!(selected_cursor(&state), 0);
    assert_eq!(selected_text(&state), "abcd");
    set_selected_cursor(&mut state, 2);
    run(&mut state, delete_backward_char_command());
    assert_eq!(selected_cursor(&state), 1);
    set_selected_cursor(&mut state, 3);
    assert_eq!(selected_text(&state), "acd");
    run(&mut state, delete_backward_char_command());
    assert_eq!(selected_cursor(&state), 2);
    assert_eq!(selected_text(&state), "ac");
}

#[test]
fn delete_forward_char_command_1() {
    let mut state = State::new();
    assert_eq!(selected_text(&state), "");
    run(&mut state, delete_forward_char_command());
    assert_eq!(selected_cursor(&state), 0);
    assert_eq!(selected_text(&state), "");
    insert_in_selected_buffer(&mut state, "abcd");
    assert_eq!(selected_text(&state), "abcd");
    set_selected_cursor(&mut state, 4);
    run(&mut state, delete_forward_char_command());
    assert_eq!(selected_cursor(&state), 4);
    assert_eq!(selected_text(&state), "abcd");
    set_selected_cursor(&mut state, 2);
    run(&mut state, delete_forward_char_command());
    assert_eq!(selected_cursor(&state), 2);
    set_selected_cursor(&mut state, 0);
    assert_eq!(selected_text(&state), "abd");
    run(&mut state, delete_forward_char_command());
    assert_eq!(selected_cursor(&state), 0);
    assert_eq!(selected_text(&state), "bd");
}

#[test]
fn vertical_split_command_1() {
    let mut state = State::new();
    run(&mut state, vertical_split_command());
    let f = &state.display.frames[state.display.selected_frame];
    match &f.layout {
        Layout::VSplit { left, right } => {
            let left = left.unwrap_window();
            let right = right.unwrap_window();
            assert_ne!(left, right);
            assert_eq!(state.windows[left].buffer, state.windows[right].buffer);
            assert_eq!(state.windows[left].window_modes, state.windows[right].window_modes);
            assert_eq!(state.windows[left].cursor, state.windows[right].cursor);
        },
        _ => unreachable!(),
    }
}

#[test]
fn horizontal_split_command_1() {
    let mut state = State::new();
    let mut renderer = DebugRenderer::new();
    run(&mut state, horizontal_split_command());
    {
        let f = &state.display.frames[state.display.selected_frame];
        match &f.layout {
            Layout::HSplit { top, bottom } => {
                let top = top.unwrap_window();
                let bottom = bottom.unwrap_window();
                assert_ne!(top, bottom);
                assert_eq!(state.windows[top].buffer, state.windows[bottom].buffer);
                assert_eq!(state.windows[top].window_modes, state.windows[bottom].window_modes);
                assert_eq!(state.windows[top].cursor, state.windows[bottom].cursor);
            },
            _ => unreachable!(),
        }
    }
    renderer.show_state(&mut state).unwrap();
    assert_eq!(
        renderer.buffer,
        screen(B, &[(6, "*scratch*           "), (7, "--------------------"), (14, "*scratch*           ")])
    );

    insert_in_selected_buffer(&mut state, "abcd");
    renderer.show_state(&mut state).unwrap();
    assert_eq!(
        renderer.buffer,
        screen(
            B,
            &[
                (0, "abcd                "),
                (6, "*scratch*           "),
                (7, "--------------------"),
                (8, "abcd                "),
                (14, "*scratch*           "),
            ]
        )
    );
}

fn split_screen() -> Vec<Vec<char>> {
    screen(
        S,
        &[
            (0, "abcd      |abcd     "),
            (6, "*scratch* |*scratch*"),
            (7, "--------------------"),
            (8, "abcd                "),
            (9, B),
            (10, B),
            (11, B),
            (12, B),
            (13, B),
            (14, "*scratch*           "),
        ],
    )
}

fn single_screen() -> Vec<Vec<char>> {
    screen(B, &[(0, "abcd                "), (14, "*scratch*           ")])
}

#[test]
fn close_window_command_1() {
    let mut state = State::new();
    let mut renderer = DebugRenderer::new();
    insert_in_selected_buffer(&mut state, "abcd");
    renderer.show_state(&mut state).unwrap();

    run(&mut state, horizontal_split_command());
    set_selected_cursor(&mut state, 2);
    renderer.show_state(&mut state).unwrap();

    run(&mut state, close_window_command());
    renderer.show_state(&mut state).unwrap();
    assert_eq!(renderer.buffer, single_screen());
    assert_eq!(renderer.selected_cursors, vec![(0, 4)]);
    assert_eq!(renderer.unselected_cursors, vec![]);
}

#[test]
fn close_window_command_2() {
    let mut state = State::new();
    let mut renderer = DebugRenderer::new();
    run(&mut state, horizontal_split_command());
    run(&mut state, vertical_split_command());
    insert_in_selected_buffer(&mut state, "abcd");
    ted::draw::update_window_cursors(&mut state);
    set_selected_cursor(&mut state, 2);
    renderer.show_state(&mut state).unwrap();
    assert_eq!(renderer.buffer, split_screen());
    assert_eq!(renderer.selected_cursors, vec![(0, 2)]);
    assert_eq!(renderer.unselected_cursors, vec![(0, 15), (8, 4)]);

    run(&mut state, close_window_command());
    renderer.show_state(&mut state).unwrap();
    assert_eq!(
        renderer.buffer,
        screen(
            B,
            &[
                (0, "abcd                "),
                (6, "*scratch*           "),
                (7, "--------------------"),
                (8, "abcd                "),
                (14, "*scratch*           "),
            ]
        )
    );
    assert_eq!(renderer.selected_cursors, vec![(0, 4)]);
    assert_eq!(renderer.unselected_cursors, vec![(8, 4)]);
}

#[test]
fn close_other_windows_command_1() {
    let mut state = State::new();
    let mut renderer = DebugRenderer::new();
    insert_in_selected_buffer(&mut state, "abcd");
    renderer.show_state(&mut state).unwrap();
    assert_eq!(renderer.buffer, single_screen());
    assert_eq!(renderer.selected_cursors, vec![(0, 4)]);
    assert_eq!(renderer.unselected_cursors, vec![]);

    set_selected_cursor(&mut state, 0);
    run(&mut state, horizontal_split_command());
    run(&mut state, vertical_split_command());
    set_selected_cursor(&mut state, 2);
    renderer.show_state(&mut state).unwrap();
    assert_eq!(renderer.buffer, split_screen());
    assert_eq!(renderer.selected_cursors, vec![(0, 2)]);
    assert_eq!(renderer.unselected_cursors, vec![(0, 11), (8, 0)]);

    run(&mut state, close_other_windows_command());
    renderer.show_state(&mut state).unwrap();
    assert_eq!(renderer.buffer, single_screen());
    assert_eq!(renderer.selected_cursors, vec![(0, 2)]);
    assert_eq!(renderer.unselected_cursors, vec![]);
}

#[test]
fn other_window_clockwise_command_1() {
    let mut state = State::new();
    let mut renderer = DebugRenderer::new();
    insert_in_selected_buffer(&mut state, "abcd");
    renderer.show_state(&mut state).unwrap();
    assert_eq!(renderer.buffer, single_screen());

    run(&mut state, horizontal_split_command());
    run(&mut state, vertical_split_command());
    renderer.show_state(&mut state).unwrap();
    assert_eq!(renderer.buffer, split_screen());
    assert_eq!(renderer.selected_cursors, vec![(0, 4)]);
    assert_eq!(renderer.unselected_cursors, vec![(0, 15), (8, 4)]);

    run(&mut state, other_window_clockwise_command());
    renderer.show_state(&mut state).unwrap();
    assert_eq!(renderer.buffer, split_screen());
    assert_eq!(renderer.selected_cursors, vec![(0, 15)]);
    assert_eq!(renderer.unselected_cursors, vec![(0, 4), (8, 4)]);

    run(&mut state, other_window_clockwise_command());
    renderer.show_state(&mut state).unwrap();
    assert_eq!(renderer.buffer, split_screen());
    assert_eq!(renderer.selected_cursors, vec![(8, 4)]);
    assert_eq!(renderer.unselected_cursors, vec![(0, 4), (0, 15)]);

    run(&mut state, other_window_clockwise_command());
    renderer.show_state(&mut state).unwrap();
    assert_eq!(renderer.buffer, split_screen());
    assert_eq!(renderer.selected_cursors, vec![(0, 4)]);
    assert_eq!(renderer.unselected_cursors, vec![(0, 15), (8, 4)]);
}

fn right_split_screen() -> Vec<Vec<char>> {
    screen(
        S,
        &[
            (0, "abcd      |abcd     "),
            (6, "          |*scratch*"),
            (7, "          |---------"),
            (8, "          |abcd     "),
            (14, "*scratch* |*scratch*"),
        ],
    )
}

#[test]
fn other_window_clockwise_command_2() {
    let mut state = State::new();
    let mut renderer = DebugRenderer::new();
    insert_in_selected_buffer(&mut state, "abcd");
    renderer.show_state(&mut state).unwrap();
    assert_eq!(renderer.buffer, single_screen());

    run(&mut state, vertical_split_command());
    run(&mut state, other_window_clockwise_command());
    run(&mut state, horizontal_split_command());
    set_selected_cursor(&mut state, 2);
    renderer.show_state(&mut state).unwrap();
    assert_eq!(renderer.buffer, right_split_screen());
    assert_eq!(renderer.selected_cursors, vec![(0, 13)]);
    assert_eq!(renderer.unselected_cursors, vec![(0, 4), (8, 15)]);

    run(&mut state, other_window_clockwise_command());
    renderer.show_state(&mut state).unwrap();
    assert_eq!(renderer.buffer, right_split_screen());
    assert_eq!(renderer.selected_cursors, vec![(8, 15)]);
    assert_eq!(renderer.unselected_cursors, vec![(0, 4), (0, 13)]);

    run(&mut state, other_window_clockwise_command());
    renderer.show_state(&mut state).unwrap();
    assert_eq!(renderer.buffer, right_split_screen());
    assert_eq!(renderer.selected_cursors, vec![(0, 4)]);
    assert_eq!(renderer.unselected_cursors, vec![(0, 13), (8, 15)]);

    run(&mut state, other_window_clockwise_command());
    renderer.show_state(&mut state).unwrap();
    assert_eq!(renderer.buffer, right_split_screen());
    assert_eq!(renderer.selected_cursors, vec![(0, 13)]);
    assert_eq!(renderer.unselected_cursors, vec![(0, 4), (8, 15)]);
}

#[test]
fn other_window_counter_clockwise_command_1() {
    let mut state = State::new();
    let mut renderer = DebugRenderer::new();
    insert_in_selected_buffer(&mut state, "abcd");
    run(&mut state, vertical_split_command());
    run(&mut state, other_window_counter_clockwise_command());
    run(&mut state, horizontal_split_command());
    renderer.show_state(&mut state).unwrap();
    assert_eq!(renderer.buffer, right_split_screen());
    assert_eq!(renderer.selected_cursors, vec![(0, 15)]);
    assert_eq!(renderer.unselected_cursors, vec![(0, 4), (8, 15)]);

    run(&mut state, other_window_counter_clockwise_command());
    renderer.show_state(&mut state).unwrap();
    assert_eq!(renderer.buffer, right_split_screen());
    assert_eq!(renderer.selected_cursors, vec![(0, 4)]);
    assert_eq!(renderer.unselected_cursors, vec![(0, 15), (8, 15)]);

    run(&mut state, other_window_counter_clockwise_command());
    renderer.show_state(&mut state).unwrap();
    assert_eq!(renderer.buffer, right_split_screen());
    assert_eq!(renderer.selected_cursors, vec![(8, 15)]);
    assert_eq!(renderer.unselected_cursors, vec![(0, 4), (0, 15)]);

    run(&mut state, other_window_counter_clockwise_command());
    renderer.show_state(&mut state).unwrap();
    assert_eq!(renderer.buffer, right_split_screen());
    assert_eq!(renderer.selected_cursors, vec![(0, 15)]);
    assert_eq!(renderer.unselected_cursors, vec![(0, 4), (8, 15)]);
}

#[test]
fn with_other_window_clockwise_no_other_window() {
    let mut state = State::new();
    let window = state.selected_window();
    run(&mut state, with_other_window_clockwise(set_mark_command()));
    assert!(state.windows[window].mark.is_some());
    assert_eq!(state.selected_window(), window);
}

#[test]
fn with_other_window_clockwise_two_windows() {
    let mut state = State::new();
    let window = state.selected_window();
    let other = state.add_window(Window::new(state.windows[window].buffer));
    state.display.frames[0].layout = Layout::VSplit {
        left: Box::new(Layout::Window(window)),
        right: Box::new(Layout::Window(other)),
    };
    run(&mut state, with_other_window_clockwise(set_mark_command()));
    assert!(state.windows[window].mark.is_none());
    assert!(state.windows[other].mark.is_some());
    assert_eq!(state.selected_window(), window);
}

#[test]
fn with_other_window_clockwise_three_windows() {
    let mut state = State::new();
    let this = state.selected_window();
    let other = state.add_window(Window::new(state.windows[this].buffer));
    let third = state.add_window(Window::new(state.windows[this].buffer));
    state.display.frames[0].layout = Layout::VSplit {
        left: Box::new(Layout::Window(this)),
        right: Box::new(Layout::HSplit {
            top: Box::new(Layout::Window(other)),
            bottom: Box::new(Layout::Window(third)),
        }),
    };
    run(&mut state, with_other_window_clockwise(set_mark_command()));
    assert!(state.windows[this].mark.is_none());
    assert!(state.windows[other].mark.is_some());
    assert!(state.windows[third].mark.is_none());
    assert_eq!(state.selected_window(), this);
}
