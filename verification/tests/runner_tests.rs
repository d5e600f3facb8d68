use seija::runner::{runner_step, ControlFlow, RunnerEvent, RunnerStep};

#[test]
fn due_frames_poll_and_run() {
    assert_eq!(
        runner_step(20, 16, RunnerEvent::MainEventsCleared),
        RunnerStep { flow: ControlFlow::Poll, update: true }
    );
    assert_eq!(
        runner_step(10, 16, RunnerEvent::MainEventsCleared),
        RunnerStep { flow: ControlFlow::WaitUntilNextFrame, update: false }
    );
    assert_eq!(runner_step(16, 16, RunnerEvent::CursorMoved).flow, ControlFlow::WaitUntilNextFrame);
    assert_eq!(runner_step(17, 16, RunnerEvent::Resized), RunnerStep { flow: ControlFlow::Poll, update: false });
}

#[test]
fn close_request_leaves() {
    assert_eq!(runner_step(20, 16, RunnerEvent::CloseRequested), RunnerStep { flow: ControlFlow::Exit, update: false });
}
