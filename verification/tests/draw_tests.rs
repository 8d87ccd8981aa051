use ted::debug_renderer::{render, DebugRenderer};
use ted::draw::{draw, layout_fits, message_box, Attribute, Character, DrawOp};
use ted::state::State;

#[test]
fn message_box_frames_the_message() {
    let ops = message_box("hello", 15, 24);
    assert_eq!(ops.len(), 4 + 4 * 5 + 4 + 4);
    assert_eq!(ops[0], DrawOp::Mark { y: 12, x: 9, at: Attribute::Inverted });
    assert_eq!(ops[1], DrawOp::Put { y: 12, x: 9, ch: Character::Character('.') });
    assert_eq!(ops[3], DrawOp::Put { y: 13, x: 9, ch: Character::VLine });
    assert_eq!(ops[5], DrawOp::Put { y: 12, x: 10, ch: Character::HLine });
    assert_eq!(ops[7], DrawOp::Put { y: 13, x: 10, ch: Character::Character(' ') });
    assert_eq!(ops[25], DrawOp::Put { y: 12, x: 15, ch: Character::Character('.') });
    assert_eq!(ops[27], DrawOp::Put { y: 13, x: 15, ch: Character::VLine });
    let text: Vec<DrawOp> = ops[28..].to_vec();
    assert_eq!(
        text,
        vec![
            DrawOp::Put { y: 13, x: 10, ch: Character::Character('h') },
            DrawOp::Put { y: 13, x: 11, ch: Character::Character('e') },
            DrawOp::Put { y: 13, x: 12, ch: Character::Character('l') },
            DrawOp::Put { y: 13, x: 13, ch: Character::Character('l') },
        ]
    );
}

#[test]
fn message_box_on_the_debug_screen() {
    let state = State::new();
    let mut renderer = DebugRenderer::new();
    let mut ops = draw(&state, 15, 20);
    ops.extend(message_box("x", 15, 20));
    renderer.show(&ops).unwrap();
    assert_eq!(renderer.buffer[12].iter().collect::<String>(), "         .-.        ");
    assert_eq!(renderer.buffer[13].iter().collect::<String>(), "         | |        ");
    assert_eq!(renderer.buffer[14].iter().collect::<String>(), "*scratch*           ");
}

#[test]
fn draw_starts_by_clearing() {
    let state = State::new();
    let ops = draw(&state, 15, 20);
    assert_eq!(ops[0], DrawOp::Erase);
    assert_eq!(ops[1], DrawOp::Mark { y: 0, x: 0, at: Attribute::SelectedCursor });
    assert!(layout_fits(&state.display.frames[0].layout, 15, 20));
    assert!(!layout_fits(&state.display.frames[0].layout, 0, 20));
}

#[test]
fn render_draws_on_the_debug_screen() {
    let state = State::new();
    let ops = draw(&state, 15, 20);
    let mut a = DebugRenderer::new();
    let mut b = DebugRenderer::new();
    assert_eq!(render(&mut a, &ops), Ok(()));
    b.show(&ops).unwrap();
    assert_eq!(a.buffer, b.buffer);
    assert_eq!(a.buffer[14].iter().collect::<String>(), "*scratch*           ");
    assert_eq!(render(&mut a, &vec![DrawOp::Put { y: 15, x: 0, ch: Character::HLine }]), Err(()));
}
