use std::collections::VecDeque;
use ted::command::{blank_command, insert_command, Command};
use ted::config::setup_state;
use ted::input::kbd;
use ted::key_map::{KeyMap, LookupError};
use ted::run::input_step;
use ted::state::{FallthroughBehavior, State};

fn keys(v: Vec<&str>) -> VecDeque<ted::input::Input> {
    v.into_iter().map(kbd).collect()
}

#[test]
fn key_map_lookup_bound_key() {
    let mut maps = vec![KeyMap::new()];
    KeyMap::bind(&mut maps, 0, vec![kbd("g")], blank_command());
    let mut input = keys(vec!["g"]);
    assert!(KeyMap::lookup(&maps, 0, &mut input, true).is_ok());
    assert_eq!(input, keys(vec![]));
    let mut input = keys(vec!["g"]);
    assert!(KeyMap::lookup(&maps, 0, &mut input, false).is_ok());
    assert_eq!(input, keys(vec![]));
}

#[test]
fn key_map_lookup_unbound_key() {
    let maps = vec![KeyMap::new()];
    let mut input = keys(vec!["C-x"]);
    assert_eq!(
        KeyMap::lookup(&maps, 0, &mut input, true).unwrap_err(),
        LookupError::UnboundInput(Some(kbd("C-x")))
    );
    assert_eq!(input, keys(vec!["C-x"]));
    let mut input = keys(vec!["C-x"]);
    assert_eq!(
        KeyMap::lookup(&maps, 0, &mut input, false).unwrap_err(),
        LookupError::UnboundInput(Some(kbd("C-x")))
    );
    assert_eq!(input, keys(vec![]));
}

#[test]
fn lookup_basic() {
    let mut state = State::new();
    let d = state.default_key_map;
    KeyMap::bind(&mut state.key_maps, d, vec![kbd("a")], Command::Undo);
    assert!(state.lookup(&mut keys(vec![])).is_err());
    assert_eq!(state.lookup(&mut keys(vec!["a"])), Ok(Command::Undo));
}

#[test]
fn lookup_two_levels() {
    let mut state = State::new();
    let d = state.default_key_map;
    KeyMap::bind(&mut state.key_maps, d, vec![kbd("a"), kbd("b")], Command::Undo);
    assert!(state.lookup(&mut keys(vec![])).is_err());
    assert!(state.lookup(&mut keys(vec!["a"])).is_err());
    assert_eq!(state.lookup(&mut keys(vec!["a", "b"])), Ok(Command::Undo));
}

#[test]
fn lookup_two_same_key() {
    let mut state = State::new();
    let d = state.default_key_map;
    KeyMap::bind(&mut state.key_maps, d, vec![kbd("a"), kbd("a")], Command::Undo);
    assert!(state.lookup(&mut keys(vec![])).is_err());
    assert!(state.lookup(&mut keys(vec!["a"])).is_err());
    assert_eq!(state.lookup(&mut keys(vec!["a", "a"])), Ok(Command::Undo));
}

#[test]
fn lookup_with_mapping() {
    let mut state = State::new();
    let d = state.default_key_map;
    KeyMap::bind(&mut state.key_maps, d, vec![kbd("a"), kbd("b")], Command::Undo);
    KeyMap::map(&mut state.key_maps, d, vec![kbd("b")], vec![kbd("a"), kbd("b")]);
    assert!(state.lookup(&mut keys(vec![])).is_err());
    assert!(state.lookup(&mut keys(vec!["a"])).is_err());
    assert_eq!(state.lookup(&mut keys(vec!["a", "b"])), Ok(Command::Undo));
    assert_eq!(state.lookup(&mut keys(vec!["b"])), Ok(Command::Undo));
}

#[test]
fn lookup_multiple_modes() {
    let mut state = State::new();
    let m = state.add_mode(FallthroughBehavior::Continue);
    let mode_map = state.modes[m].key_map;
    KeyMap::bind(&mut state.key_maps, mode_map, vec![kbd("a")], Command::Redo);
    let d = state.default_key_map;
    KeyMap::bind(&mut state.key_maps, d, vec![kbd("a")], Command::Undo);
    assert_eq!(state.lookup(&mut keys(vec!["a"])), Ok(Command::Undo));
    state.global_modes.push(m);
    assert!(state.lookup(&mut keys(vec![])).is_err());
    assert_eq!(state.lookup(&mut keys(vec!["a"])), Ok(Command::Redo));
}

#[test]
fn lookup_get_insert() {
    let mut state = State::new();
    let insert = state.lookup(&mut keys(vec!["a"])).unwrap();
    assert_eq!(insert, insert_command('a'));
    insert.execute(&mut state).unwrap();
    let b = state.selected_window_buffer();
    assert_eq!(state.buffers[b].to_string(), "a");
}

#[test]
fn lookup_mode_stop_and_insert_key() {
    let mut state = State::new();
    let stop = state.add_mode(FallthroughBehavior::Stop);
    state.global_modes.push(stop);
    assert_eq!(state.lookup(&mut keys(vec!["a"])), Err(Err(())));
    state.global_modes.clear();
    let insert = state.add_mode(FallthroughBehavior::InsertKey);
    state.global_modes.push(insert);
    assert_eq!(state.lookup(&mut keys(vec!["z"])), Ok(insert_command('z')));
}

#[test]
fn lookup_control_key_runs_nothing() {
    let mut state = State::new();
    let mut pending = keys(vec!["C-q"]);
    assert_eq!(state.lookup(&mut pending), Err(Err(())));
}

#[test]
fn default_bindings_run_their_commands() {
    let mut state = State::new();
    setup_state(&mut state);
    assert_eq!(state.lookup(&mut keys(vec!["C-a"])), Ok(Command::BeginOfLine));
    assert_eq!(state.lookup(&mut keys(vec!["C-A-b"])), Ok(Command::BackwardGroup));
    assert_eq!(state.lookup(&mut keys(vec!["C-x", "2"])), Ok(Command::HorizontalSplit));
    assert_eq!(state.lookup(&mut keys(vec!["C-x", "C-o"])), Ok(Command::OtherWindowCounterClockwise));
    assert_eq!(state.lookup(&mut keys(vec!["Backspace"])), Ok(Command::DeleteBackwardChar));
    assert_eq!(state.lookup(&mut keys(vec!["C-@"])), Ok(Command::SetMark));
    let mut pending = keys(vec!["C-x"]);
    assert_eq!(state.lookup(&mut pending), Err(Ok(())));
    assert_eq!(pending, keys(vec!["C-x"]));
}

#[test]
fn input_step_waits_for_the_second_key() {
    let mut state = State::new();
    setup_state(&mut state);
    let mut pending = VecDeque::new();
    assert!(input_step(&mut state, &mut pending, kbd("C-x")).is_none());
    assert_eq!(pending, keys(vec!["C-x"]));
    assert_eq!(input_step(&mut state, &mut pending, kbd("3")), Some(Ok(None)));
    assert!(pending.is_empty());
    assert_eq!(state.windows.len(), 2);
}

#[test]
fn default_bindings_over_earlier_ones() {
    let mut state = State::new();
    let d = state.default_key_map;
    KeyMap::bind(&mut state.key_maps, d, vec![kbd("C-x")], Command::Undo);
    KeyMap::bind(&mut state.key_maps, d, vec![kbd("C-q")], Command::Redo);
    KeyMap::bind(&mut state.key_maps, d, vec![kbd("C-a")], Command::Paste);
    setup_state(&mut state);
    assert_eq!(state.lookup(&mut keys(vec!["C-q"])), Ok(Command::Redo));
    assert_eq!(state.lookup(&mut keys(vec!["C-a"])), Ok(Command::BeginOfLine));
    assert_eq!(state.lookup(&mut keys(vec!["C-x", "2"])), Ok(Command::HorizontalSplit));
    assert_eq!(state.key_maps.len(), 2);
}

#[test]
fn binding_through_a_mapping_ends() {
    let mut state = State::new();
    let d = state.default_key_map;
    KeyMap::map(&mut state.key_maps, d, vec![kbd("C-q")], vec![kbd("a")]);
    assert!(KeyMap::assign_ends_within(&state.key_maps, d, &vec![kbd("C-q"), kbd("x")], 5));
    assert!(!KeyMap::assign_ends_within(&state.key_maps, d, &vec![kbd("C-q"), kbd("x")], 1));
    assert!(KeyMap::assign_ends_within(&state.key_maps, d, &vec![kbd("C-q")], 1));
}

#[test]
fn binding_through_a_key_that_stands_for_itself_never_ends() {
    let mut state = State::new();
    let d = state.default_key_map;
    KeyMap::map(&mut state.key_maps, d, vec![kbd("C-q")], vec![kbd("C-q")]);
    assert!(!KeyMap::assign_ends_within(&state.key_maps, d, &vec![kbd("C-q"), kbd("x")], 1000));
}
