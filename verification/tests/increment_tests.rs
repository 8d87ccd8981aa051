use ted::run::{after_round, parse_parameters, ERROR_TOO_MANY_ARGUMENTS};
use std::collections::VecDeque;
use ted::command::close_ted_command;
use ted::commands::Request;
use ted::debug_renderer::DebugRenderer;
use ted::input::kbd;
use ted::key_map::KeyMap;
use ted::run::input_step;
use ted::state::State;

const B: &str = "                    ";

fn screen(first: &str) -> Vec<Vec<char>> {
    let mut g: Vec<Vec<char>> = (0..15).map(|_| B.chars().collect()).collect();
    g[0] = first.chars().collect();
    g[14] = "*scratch*           ".chars().collect();
    g
}

/// Reads keys from the renderer until they run a command (or run
/// nothing), drawing the screen as the editor's main loop does.
fn increment(state: &mut State, renderer: &mut DebugRenderer) -> Result<Option<Request>, String> {
    let mut inputs = VecDeque::new();
    loop {
        let input = renderer.getch().expect("the test ran out of keys");
        renderer.show_state(state).map_err(|()| "Error: cannot draw".to_string())?;
        if let Some(r) = input_step(state, &mut inputs, input) {
            renderer.show_state(state).unwrap();
            return r;
        }
    }
}

fn selected_cursor(state: &State) -> usize {
    state.windows[state.selected_window()].cursor.get()
}

fn selected_text(state: &State) -> String {
    state.buffers[state.selected_window_buffer()].to_string()
}

#[test]
fn increment_1() {
    let mut state = State::new();
    let mut renderer = DebugRenderer::from_inputs(vec![kbd("a"), kbd("b"), kbd("c"), kbd("q")]);
    assert_eq!(selected_cursor(&state), 0);

    increment(&mut state, &mut renderer).unwrap();
    assert_eq!(selected_cursor(&state), 1);
    assert_eq!(selected_text(&state), "a");
    assert_eq!(renderer.buffer, screen("a                   "));

    increment(&mut state, &mut renderer).unwrap();
    assert_eq!(selected_cursor(&state), 2);
    assert_eq!(selected_text(&state), "ab");
    assert_eq!(renderer.buffer, screen("ab                  "));

    increment(&mut state, &mut renderer).unwrap();
    assert_eq!(selected_cursor(&state), 3);
    assert_eq!(selected_text(&state), "abc");
    assert_eq!(renderer.buffer, screen("abc                 "));

    increment(&mut state, &mut renderer).unwrap();
    assert_eq!(selected_cursor(&state), 4);
    assert_eq!(selected_text(&state), "abcq");
    assert_eq!(renderer.buffer, screen("abcq                "));

    let d = state.default_key_map;
    KeyMap::bind(&mut state.key_maps, d, vec![kbd("q")], close_ted_command());
    renderer.inputs.push_back(kbd("q"));
    increment(&mut state, &mut renderer).unwrap_err();

    renderer.show_state(&mut state).unwrap();
    assert_eq!(renderer.buffer, screen("abcq                "));
}

#[test]
fn increment_new_line() {
    let mut state = State::new();
    let mut renderer = DebugRenderer::from_inputs(vec![kbd("\n")]);
    increment(&mut state, &mut renderer).unwrap();
    assert_eq!(selected_cursor(&state), 1);
    assert_eq!(selected_text(&state), "\n");
}

#[test]
fn increment_double_bind() {
    let mut state = State::new();
    let mut renderer = DebugRenderer::from_inputs(vec![kbd("a"), kbd("a"), kbd("b")]);
    let d = state.default_key_map;
    KeyMap::bind(&mut state.key_maps, d, vec![kbd("a"), kbd("b")], close_ted_command());

    increment(&mut state, &mut renderer).unwrap();
    assert_eq!(selected_text(&state), "");
    assert_eq!(selected_cursor(&state), 0);

    increment(&mut state, &mut renderer).unwrap();
    assert_eq!(selected_text(&state), "b");
    assert_eq!(selected_cursor(&state), 1);
}

#[test]
fn a_failed_round_leaves_a_message() {
    let mut state = State::new();
    assert!(after_round(&mut state, Ok(())));
    assert!(after_round(&mut state, Err("Error: oops".to_string())));
    let f = state.display.selected_frame;
    assert_eq!(state.display.frames[f].messages.poll(), Some("Error: oops".to_string()));
    state.closed_successfully = true;
    assert!(!after_round(&mut state, Err("Closed Successfully".to_string())));
}

#[test]
fn command_line_names_at_most_one_file() {
    let args = |v: &[&str]| v.iter().map(|s| s.to_string()).collect::<Vec<String>>();
    assert_eq!(parse_parameters(&args(&["ted"])), Ok(None));
    assert_eq!(parse_parameters(&args(&["ted", "notes.txt"])), Ok(Some("notes.txt".to_string())));
    assert_eq!(parse_parameters(&args(&["ted", "a", "b"])), Err(ERROR_TOO_MANY_ARGUMENTS.to_string()));
}

#[test]
fn a_key_that_runs_nothing_is_logged() {
    let mut state = State::new();
    assert!(state.lookups_end());
    let mut inputs = VecDeque::new();
    assert_eq!(input_step(&mut state, &mut inputs, kbd("C-q")), Some(Ok(None)));
    assert_eq!(state.logger.len(), 1);
    assert_eq!(state.logger.entry(0), "Invalid input C-q");
    assert_eq!(input_step(&mut state, &mut inputs, kbd("a")), Some(Ok(None)));
    assert_eq!(state.logger.len(), 1);
}

#[test]
fn a_key_that_stands_for_keys_is_noticed() {
    let mut state = State::new();
    let d = state.default_key_map;
    KeyMap::map(&mut state.key_maps, d, vec![kbd("C-q")], vec![kbd("a")]);
    assert!(!state.lookups_end());
}

#[test]
fn a_lookup_through_a_mapping_ends() {
    let mut state = State::new();
    let d = state.default_key_map;
    KeyMap::map(&mut state.key_maps, d, vec![kbd("C-q")], vec![kbd("a")]);
    let mut pending = VecDeque::new();
    pending.push_back(kbd("C-q"));
    assert!(state.lookup_ends_within(&pending, 10));
    assert!(!state.lookup_ends_within(&pending, 0));
}

#[test]
fn a_key_that_stands_for_itself_never_ends() {
    let mut state = State::new();
    let d = state.default_key_map;
    KeyMap::map(&mut state.key_maps, d, vec![kbd("C-q")], vec![kbd("C-q")]);
    let mut pending = VecDeque::new();
    pending.push_back(kbd("C-q"));
    assert!(!state.lookup_ends_within(&pending, 1000));
}
