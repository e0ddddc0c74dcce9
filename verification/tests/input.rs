use neo_granseal::engine::{KeyStates, MouseButtons, TEXTURE_SIZE};
use neo_granseal::events::{Key, KeyState, MouseButton};
use neo_granseal::main_loop::{LoopAction, LoopEvent, LoopState};
use neo_granseal::{vsync_mode, VSyncMode};

#[test]
fn unrecorded_keys_are_not_held() {
    let keys = KeyStates::new();
    assert!(!keys.key_held(Key::A));
    assert!(!keys.key_held(Key::NotImplemented));
}

#[test]
fn key_read_after_write() {
    let mut keys = KeyStates::new();
    keys.set_key(Key::W, true);
    assert!(keys.key_held(Key::W));
    assert!(!keys.key_held(Key::S));
    keys.set_key(Key::S, true);
    keys.set_key(Key::W, false);
    assert!(!keys.key_held(Key::W));
    assert!(keys.key_held(Key::S));
}

#[test]
fn key_codes_are_distinct_and_ordered() {
    assert_eq!(Key::Escape.code(), 0);
    assert_eq!(Key::F1.code(), 1);
    assert_eq!(Key::Q.code(), 28);
    assert_eq!(Key::NotImplemented.code(), 103);
    assert_ne!(Key::Num0.code(), Key::Key0.code());
}

#[test]
fn mouse_buttons_follow_their_events() {
    let mut b = MouseButtons::new();
    b.record(MouseButton::Left, KeyState::Pressed);
    assert_eq!(b, MouseButtons { left: true, right: false, middle: false });
    b.record(MouseButton::Middle, KeyState::Pressed);
    b.record(MouseButton::Other(7), KeyState::Pressed);
    b.record(MouseButton::Back, KeyState::Released);
    assert_eq!(b, MouseButtons { left: true, right: false, middle: true });
    b.record(MouseButton::Left, KeyState::Released);
    b.record(MouseButton::Right, KeyState::Pressed);
    assert_eq!(b, MouseButtons { left: false, right: true, middle: true });
}

#[test]
fn escape_key_ends_the_loop() {
    let mut state = LoopState::new();
    let a = state.step(LoopEvent::KeyboardInput { key: Key::A, state: KeyState::Pressed });
    assert_eq!(a, LoopAction::Continue);
    assert!(state.key_held(Key::A));
    let e = state.step(LoopEvent::KeyboardInput { key: Key::Escape, state: KeyState::Pressed });
    assert_eq!(e, LoopAction::Exit);
    assert!(state.key_held(Key::Escape));
    let r = state.step(LoopEvent::KeyboardInput { key: Key::Escape, state: KeyState::Released });
    assert_eq!(r, LoopAction::Exit);
    assert!(!state.key_held(Key::Escape));
}

#[test]
fn close_request_ends_the_loop() {
    let mut state = LoopState::new();
    assert_eq!(state.step(LoopEvent::CloseRequested), LoopAction::Exit);
    assert_eq!(state.step(LoopEvent::Other), LoopAction::Continue);
}

#[test]
fn frame_rate_is_the_frames_of_the_last_second() {
    let mut state = LoopState::new();
    for _ in 0..5 {
        let a = state.step(LoopEvent::RedrawRequested { second_elapsed: false });
        assert_eq!(a, LoopAction::Redraw { restart_timer: false });
    }
    assert_eq!(state.frames, 5);
    assert_eq!(state.fps, 0);
    let a = state.step(LoopEvent::RedrawRequested { second_elapsed: true });
    assert_eq!(a, LoopAction::Redraw { restart_timer: true });
    assert_eq!(state.fps, 5);
    assert_eq!(state.frames, 1);
    state.step(LoopEvent::RedrawRequested { second_elapsed: false });
    state.step(LoopEvent::RedrawRequested { second_elapsed: true });
    assert_eq!(state.fps, 2);
    assert_eq!(state.frames, 1);
}

#[test]
fn mouse_events_reach_the_loop_state() {
    let mut state = LoopState::new();
    let a = state.step(LoopEvent::MouseInput { button: MouseButton::Right, state: KeyState::Pressed });
    assert_eq!(a, LoopAction::Continue);
    assert!(state.buttons.right);
    assert!(!state.buttons.left);
}

#[test]
fn vsync_flag_selects_present_mode() {
    assert_eq!(vsync_mode(true), VSyncMode::AutoVsync);
    assert_eq!(vsync_mode(false), VSyncMode::AutoNoVsync);
}

#[test]
fn atlas_texture_size() {
    assert_eq!(TEXTURE_SIZE, 8192);
}

#[test]
fn newest_command_runs_first_and_bad_pipeline_is_dropped() {
    let mut queue = vec!["first", "second"];
    assert_eq!(neo_granseal::main_loop::next_command(&mut queue), Some("second"));
    queue.push("third");
    assert_eq!(neo_granseal::main_loop::next_command(&mut queue), Some("third"));
    assert_eq!(neo_granseal::main_loop::next_command(&mut queue), Some("first"));
    assert_eq!(neo_granseal::main_loop::next_command(&mut queue), None);
    assert_eq!(neo_granseal::main_loop::pipeline_for(0, 1), Some(0));
    assert_eq!(neo_granseal::main_loop::pipeline_for(1, 1), None);
}
