use ted::debug_renderer::DebugRenderer;
use ted::input::kbd;
use ted::layout::Layout;
use ted::state::State;
use ted::window::clone_window;

const B: &str = "                    ";

fn grid(rows: [&str; 15]) -> Vec<Vec<char>> {
    rows.iter().map(|r| r.chars().collect::<Vec<_>>()).collect()
}

fn selected_buffer(state: &State) -> usize {
    state.windows[state.selected_window()].buffer
}

#[test]
fn debug_renderer_new() {
    let renderer = DebugRenderer::new();
    assert_eq!(renderer.buffer, grid([B, B, B, B, B, B, B, B, B, B, B, B, B, B, B]));
}

#[test]
fn debug_renderer_insertion() {
    let mut state = State::new();
    let mut renderer = DebugRenderer::new();
    renderer.show_state(&mut state).unwrap();
    assert_eq!(
        renderer.buffer,
        grid([B, B, B, B, B, B, B, B, B, B, B, B, B, B, "*scratch*           "])
    );

    let b = selected_buffer(&state);
    state.buffers[b].insert_str(0, "abcd").unwrap();
    renderer.show_state(&mut state).unwrap();
    assert_eq!(renderer.selected_cursors, vec![(0, 4)]);
    assert_eq!(renderer.unselected_cursors, vec![]);
    assert_eq!(
        renderer.buffer,
        grid(["abcd                ", B, B, B, B, B, B, B, B, B, B, B, B, B, "*scratch*           "])
    );
}

#[test]
fn debug_renderer_hsplit_insertion() {
    let mut state = State::new();
    let mut renderer = DebugRenderer::new();
    let window = state.display.frames[0].layout.unwrap_window();
    let bottom = state.add_window(clone_window(&state.windows[window]));
    state.display.frames[0].layout = Layout::HSplit {
        top: Box::new(Layout::Window(window)),
        bottom: Box::new(Layout::Window(bottom)),
    };
    renderer.show_state(&mut state).unwrap();
    assert_eq!(renderer.selected_cursors, vec![(0, 0)]);
    assert_eq!(renderer.unselected_cursors, vec![(8, 0)]);
    assert_eq!(
        renderer.buffer,
        grid([
            B, B, B, B, B, B, "*scratch*           ", "--------------------", B, B, B, B, B, B,
            "*scratch*           ",
        ])
    );

    let b = selected_buffer(&state);
    state.buffers[b].insert_str(0, "abcd").unwrap();
    renderer.show_state(&mut state).unwrap();
    assert_eq!(renderer.selected_cursors, vec![(0, 4)]);
    assert_eq!(renderer.unselected_cursors, vec![(8, 4)]);
    assert_eq!(
        renderer.buffer,
        grid([
            "abcd                ", B, B, B, B, B, "*scratch*           ", "--------------------",
            "abcd                ", B, B, B, B, B, "*scratch*           ",
        ])
    );
}

#[test]
fn debug_renderer_vsplit_insertion() {
    let mut state = State::new();
    let mut renderer = DebugRenderer::new();
    let window = state.display.frames[0].layout.unwrap_window();
    let right = state.add_window(clone_window(&state.windows[window]));
    state.display.frames[0].layout = Layout::VSplit {
        left: Box::new(Layout::Window(window)),
        right: Box::new(Layout::Window(right)),
    };
    renderer.show_state(&mut state).unwrap();
    let s = "          |         ";
    assert_eq!(
        renderer.buffer,
        grid([s, s, s, s, s, s, s, s, s, s, s, s, s, s, "*scratch* |*scratch*"])
    );

    let b = selected_buffer(&state);
    state.buffers[b].insert_str(0, "abcd").unwrap();
    renderer.show_state(&mut state).unwrap();
    assert_eq!(renderer.selected_cursors, vec![(0, 4)]);
    assert_eq!(renderer.unselected_cursors, vec![(0, 15)]);
    assert_eq!(
        renderer.buffer,
        grid(["abcd      |abcd     ", s, s, s, s, s, s, s, s, s, s, s, s, s, "*scratch* |*scratch*"])
    );
}

#[test]
fn debug_renderer_vsplit_deletion() {
    let mut state = State::new();
    let mut renderer = DebugRenderer::new();
    let window = state.display.frames[0].layout.unwrap_window();
    state.display.frames[0].layout = Layout::VSplit {
        left: Box::new(Layout::Window(window)),
        right: Box::new(Layout::Window(window)),
    };
    let b = selected_buffer(&state);
    state.buffers[b].insert_str(0, "abcd").unwrap();
    renderer.show_state(&mut state).unwrap();
    state.buffers[b].delete_region(0, 2).unwrap();
    renderer.show_state(&mut state).unwrap();
    let s = "          |         ";
    assert_eq!(
        renderer.buffer,
        grid(["cd        |cd       ", s, s, s, s, s, s, s, s, s, s, s, s, s, "*scratch* |*scratch*"])
    );
}

#[test]
fn debug_renderer_multiple_lines() {
    let mut state = State::new();
    let mut renderer = DebugRenderer::new();
    let b = selected_buffer(&state);
    state.buffers[b].insert_str(0, "abc\ndef").unwrap();
    renderer.show_state(&mut state).unwrap();
    assert_eq!(
        renderer.buffer,
        grid([
            "abc                 ", "def                 ", B, B, B, B, B, B, B, B, B, B, B, B,
            "*scratch*           ",
        ])
    );
}

#[test]
fn debug_renderer_wrap() {
    let mut state = State::new();
    let mut renderer = DebugRenderer::new();
    let b = selected_buffer(&state);
    state.buffers[b].insert_str(0, "abcdefghijklmnopqrstuvwxyz").unwrap();
    renderer.show_state(&mut state).unwrap();
    assert_eq!(
        renderer.buffer,
        grid([
            "abcdefghijklmnopqrst", "uvwxyz              ", B, B, B, B, B, B, B, B, B, B, B, B,
            "*scratch*           ",
        ])
    );

    state.buffers[b].insert_str(26, "\nNow I know my ABCs.  Next time wont you sing with me.").unwrap();
    assert_eq!(
        state.buffers[b].to_string(),
        "abcdefghijklmnopqrstuvwxyz\nNow I know my ABCs.  Next time wont you sing with me."
    );
    renderer.show_state(&mut state).unwrap();
    assert_eq!(
        renderer.buffer,
        grid([
            "abcdefghijklmnopqrst", "uvwxyz              ", "Now I know my ABCs. ", " Next time wont you ",
            "sing with me.       ", B, B, B, B, B, B, B, B, B, "*scratch*           ",
        ])
    );
}

#[test]
fn debug_renderer_long_file() {
    let mut state = State::new();
    let mut renderer = DebugRenderer::new();
    let b = selected_buffer(&state);
    state.buffers[b].insert_str(0, "a\nb\nc\nd\ne\nf\ng\nh\ni\nj\nk\nl\nm\nn\no\np\nq\nr\ns\nt\nu\nv\nw\nx\ny\nz").unwrap();
    renderer.show_state(&mut state).unwrap();
    assert_eq!(
        renderer.buffer,
        grid([
            "a                   ", "b                   ", "c                   ", "d                   ",
            "e                   ", "f                   ", "g                   ", "h                   ",
            "i                   ", "j                   ", "k                   ", "l                   ",
            "m                   ", "n                   ", "*scratch*           ",
        ])
    );
}

#[test]
fn debug_renderer_getch_hands_out_keys_in_order() {
    let mut renderer = DebugRenderer::from_inputs(vec![kbd("a"), kbd("b")]);
    assert_eq!(renderer.getch(), Some(kbd("a")));
    assert_eq!(renderer.getch(), Some(kbd("b")));
    assert_eq!(renderer.getch(), None);
}
