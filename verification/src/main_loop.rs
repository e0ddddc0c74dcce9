//! The decisions of the window loop: what each window event does to the
//! engine state, and what the loop must do next.
use crate::engine::{buttons_after, KeyStates, MouseButtons};
use crate::events::{key_code, Key, KeyState, MouseButton};
use vstd::prelude::*;

verus! {

/// A window event, as far as the loop's own state depends on it.
#[derive(Clone, Copy, Debug, PartialEq, Eq, Structural)]
pub enum LoopEvent {
    /// A key went down or up.
    KeyboardInput { key: Key, state: KeyState },
    /// A mouse button went down or up.
    MouseInput { button: MouseButton, state: KeyState },
    /// A frame is due; `second_elapsed` tells whether a second has passed
    /// since the frame counter last restarted.
    RedrawRequested { second_elapsed: bool },
    /// The window was asked to close.
    CloseRequested,
    /// Any other event.
    Other,
}

/// What the loop does after an event.
#[derive(Clone, Copy, Debug, PartialEq, Eq, Structural)]
pub enum LoopAction {
    /// Keep running.
    Continue,
    /// Leave the loop.
    Exit,
    /// A frame was drawn: ask for the next one, and restart the one-second
    /// frame timer when `restart_timer` holds.
    Redraw { restart_timer: bool },
}

/// The state that the window loop keeps between events.
pub struct LoopState {
    /// Last recorded state of each key.
    pub keys: KeyStates,
    /// Which mouse buttons are down.
    pub buttons: MouseButtons,
    /// Frames drawn in the last full second.
    pub fps: i32,
    /// Frames drawn since the frame timer last restarted.
    pub frames: i32,
}

/// The action that `event` calls for.
pub open spec fn action_for(event: LoopEvent) -> LoopAction {
    match event {
        LoopEvent::KeyboardInput { key, state } => {
            if key == Key::Escape {
                LoopAction::Exit
            } else {
                LoopAction::Continue
            }
        },
        LoopEvent::MouseInput { .. } => LoopAction::Continue,
        LoopEvent::RedrawRequested { second_elapsed } => LoopAction::Redraw {
            restart_timer: second_elapsed,
        },
        LoopEvent::CloseRequested => LoopAction::Exit,
        LoopEvent::Other => LoopAction::Continue,
    }
}

/// The frame count that a redraw leaves behind.
pub open spec fn frames_after(frames: int, second_elapsed: bool) -> int {
    if second_elapsed {
        1
    } else {
        frames + 1
    }
}

/// The frame rate that a redraw leaves behind.
pub open spec fn fps_after(fps: int, frames: int, second_elapsed: bool) -> int {
    if second_elapsed {
        frames
    } else {
        fps
    }
}

impl LoopState {
    /// The state before any event: no key held, no button down, no frame
    /// counted.
    pub fn new() -> (r: Self)
        ensures
            r.keys@ == Map::<u32, bool>::empty(),
            r.buttons == (MouseButtons { left: false, right: false, middle: false }),
            r.fps == 0,
            r.frames == 0,
    {
        LoopState { keys: KeyStates::new(), buttons: MouseButtons::new(), fps: 0, frames: 0 }
    }

    /// Applies `event` to the state and returns what the loop must do.
    pub fn step(&mut self, event: LoopEvent) -> (action: LoopAction)
        requires
            event == (LoopEvent::RedrawRequested { second_elapsed: false }) ==> old(self).frames
                < i32::MAX,
        ensures
            action == action_for(event),
            match event {
                LoopEvent::KeyboardInput { key, state } => {
                    &&& final(self).keys@ == old(self).keys@.insert(
                        key_code(key),
                        state == KeyState::Pressed,
                    )
                    &&& final(self).buttons == old(self).buttons
                    &&& final(self).fps == old(self).fps
                    &&& final(self).frames == old(self).frames
                },
                LoopEvent::MouseInput { button, state } => {
                    &&& final(self).keys@ == old(self).keys@
                    &&& final(self).buttons == buttons_after(old(self).buttons, button, state)
                    &&& final(self).fps == old(self).fps
                    &&& final(self).frames == old(self).frames
                },
                LoopEvent::RedrawRequested { second_elapsed } => {
                    &&& final(self).keys@ == old(self).keys@
                    &&& final(self).buttons == old(self).buttons
                    &&& final(self).fps == fps_after(
                        old(self).fps as int,
                        old(self).frames as int,
                        second_elapsed,
                    )
                    &&& final(self).frames == frames_after(old(self).frames as int, second_elapsed)
                },
                _ => {
                    &&& final(self).keys@ == old(self).keys@
                    &&& final(self).buttons == old(self).buttons
                    &&& final(self).fps == old(self).fps
                    &&& final(self).frames == old(self).frames
                },
            },
    {
        match event {
            LoopEvent::KeyboardInput { key, state } => {
                let pressed = match state {
                    KeyState::Pressed => true,
                    KeyState::Released => false,
                };
                self.keys.set_key(key, pressed);
                if key == Key::Escape {
                    LoopAction::Exit
                } else {
                    LoopAction::Continue
                }
            },
            LoopEvent::MouseInput { button, state } => {
                self.buttons.record(button, state);
                LoopAction::Continue
            },
            LoopEvent::RedrawRequested { second_elapsed } => {
                if second_elapsed {
                    self.fps = self.frames;
                    self.frames = 0;
                }
                self.frames = self.frames + 1;
                LoopAction::Redraw { restart_timer: second_elapsed }
            },
            LoopEvent::CloseRequested => LoopAction::Exit,
            LoopEvent::Other => LoopAction::Continue,
        }
    }

    /// Whether `key` is held, as last recorded.
    pub fn key_held(&self, key: Key) -> (held: bool)
        ensures
            held == crate::engine::held_in(self.keys@, key),
    {
        self.keys.key_held(key)
    }
}

/// Takes the command that runs next out of the queue: the one queued last,
/// so that a command queued while others wait runs before them.
pub fn next_command<C>(queue: &mut Vec<C>) -> (command: Option<C>)
    ensures
        match command {
            Some(c) => {
                &&& old(queue)@.len() > 0
                &&& c == old(queue)@.last()
                &&& final(queue)@ == old(queue)@.drop_last()
            },
            None => old(queue)@.len() == 0 && final(queue)@ == old(queue)@,
        },
{
    queue.pop()
}

/// The pipeline, among `count`, that a render command for pipeline `index`
/// goes to; `None` when there is no such pipeline and the command is
/// dropped.
pub fn pipeline_for(index: usize, count: usize) -> (target: Option<usize>)
    ensures
        target == (if index < count {
            Some(index)
        } else {
            None
        }),
{
    if index < count {
        Some(index)
    } else {
        None
    }
}

/// Frame count and frame rate after a run of redraws, `elapsed[i]` telling
/// whether a second had passed at the i-th redraw.
pub open spec fn counter_after_run(frames: int, fps: int, elapsed: Seq<bool>) -> (int, int)
    decreases elapsed.len(),
{
    if elapsed.len() == 0 {
        (frames, fps)
    } else {
        let (f, r) = counter_after_run(frames, fps, elapsed.drop_last());
        (frames_after(f, elapsed.last()), fps_after(r, f, elapsed.last()))
    }
}

/// A run of `n` redraws within the same second, with no restart of the
/// frame timer.
pub open spec fn same_second(n: nat) -> Seq<bool> {
    Seq::new(n, |i: int| false)
}

/// The frame rate that the loop reports when a second has passed is the
/// number of frames drawn since the frame timer last restarted: starting
/// from `frames` counted frames, `n` more redraws and then the one at which
/// the second has passed report `frames + n`, and the count starts again
/// at one.
pub proof fn law_fps_counts_frames(frames: int, fps: int, n: nat)
    ensures
        counter_after_run(frames, fps, same_second(n).push(true)) == (1int, frames + n),
        counter_after_run(frames, fps, same_second(n)) == (frames + n, fps),
    decreases n,
{
    if n > 0 {
        law_fps_counts_frames(frames, fps, (n - 1) as nat);
        assert(same_second(n).drop_last() =~= same_second((n - 1) as nat));
        assert(!same_second(n).last());
    }
    assert(counter_after_run(frames, fps, same_second(n)) == (frames + n, fps));
    assert(same_second(n).push(true).drop_last() =~= same_second(n));
    assert(same_second(n).push(true).last());
}

/// Only Escape and a close request end the loop: a key event ends it
/// exactly when the key is Escape, pressed or released; a redraw always asks
/// for the next frame and restarts the frame timer exactly when a second has
/// passed; every other event lets the loop run on.
pub proof fn law_only_escape_and_close_exit(event: LoopEvent)
    ensures
        (action_for(event) == LoopAction::Exit) <==> (event == LoopEvent::CloseRequested || (
        event matches LoopEvent::KeyboardInput { key, .. } && key == Key::Escape)),
        forall|key: Key, state: KeyState|
            key != Key::Escape ==> action_for(LoopEvent::KeyboardInput { key, state })
                == LoopAction::Continue,
        forall|second_elapsed: bool|
            action_for(LoopEvent::RedrawRequested { second_elapsed }) == (LoopAction::Redraw {
                restart_timer: second_elapsed,
            }),
        (action_for(event) is Redraw) <==> (event is RedrawRequested),
        forall|button: MouseButton, state: KeyState|
            action_for(LoopEvent::MouseInput { button, state }) == LoopAction::Continue,
        action_for(LoopEvent::Other) == LoopAction::Continue,
{
}

} // verus!
