//! The decisions of the window loop: how long to wait before the next turn,
//! when to leave, and when to run a frame. Reading the window's events and
//! running the frame belong to the caller.
use vstd::prelude::*;

verus! {

/// How the window loop goes on after an event.
#[derive(Debug, Clone, Copy, PartialEq, Eq)]
pub enum ControlFlow {
    /// Turn again at once.
    Poll,
    /// Wait until the next frame is due.
    WaitUntilNextFrame,
    /// Leave the loop.
    Exit,
}

/// The kinds of event the window loop tells apart.
#[derive(Debug, Clone, Copy, PartialEq, Eq)]
pub enum RunnerEvent {
    CloseRequested,
    Resized,
    KeyboardInput,
    MouseInput,
    CursorMoved,
    MouseWheel,
    MainEventsCleared,
    Other,
}

/// What the loop does with an event: how it goes on, and whether it runs a
/// frame of the app.
#[derive(Debug, Clone, Copy, PartialEq, Eq)]
pub struct RunnerStep {
    pub flow: ControlFlow,
    pub update: bool,
}

/// The loop's step for an event, `elapsed` nanoseconds after the last frame
/// when a frame lasts `frame_duration` nanoseconds: once a frame is due the
/// loop polls, else it waits for the next; a close request leaves the loop;
/// and when the events of a turn are done a due frame is run.
pub open spec fn spec_runner_step(elapsed: u64, frame_duration: u64, event: RunnerEvent) -> RunnerStep {
    let flow = if elapsed > frame_duration {
        ControlFlow::Poll
    } else {
        ControlFlow::WaitUntilNextFrame
    };
    match event {
        RunnerEvent::CloseRequested => RunnerStep { flow: ControlFlow::Exit, update: false },
        RunnerEvent::MainEventsCleared => RunnerStep { flow, update: flow == ControlFlow::Poll },
        _ => RunnerStep { flow, update: false },
    }
}

/// The loop's step for an event: see `spec_runner_step`.
pub fn runner_step(elapsed: u64, frame_duration: u64, event: RunnerEvent) -> (r: RunnerStep)
    ensures
        r == spec_runner_step(elapsed, frame_duration, event),
{
    let flow = if elapsed > frame_duration {
        ControlFlow::Poll
    } else {
        ControlFlow::WaitUntilNextFrame
    };
    match event {
        RunnerEvent::CloseRequested => RunnerStep { flow: ControlFlow::Exit, update: false },
        RunnerEvent::MainEventsCleared => {
            let update = match flow {
                ControlFlow::Poll => true,
                _ => false,
            };
            RunnerStep { flow, update }
        },
        _ => RunnerStep { flow, update: false },
    }
}

/// A frame runs only when one is due, and never as the loop is left.
pub proof fn lemma_update_only_when_due(elapsed: u64, frame_duration: u64, event: RunnerEvent)
    ensures
        spec_runner_step(elapsed, frame_duration, event).update ==> elapsed > frame_duration && event
            == RunnerEvent::MainEventsCleared,
        spec_runner_step(elapsed, frame_duration, event).flow == ControlFlow::Exit ==> !spec_runner_step(
            elapsed,
            frame_duration,
            event,
        ).update,
{
}

} // verus!
