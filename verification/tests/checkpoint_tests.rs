use braid::daemon::{checkpoint_step, CheckpointAction, CheckpointEvent, CheckpointSignal};

#[test]
fn tick_and_timeout_run_passive_checkpoint() {
    assert!(matches!(
        checkpoint_step(CheckpointEvent::Received(CheckpointSignal::Tick)),
        CheckpointAction::Passive
    ));
    assert!(matches!(checkpoint_step(CheckpointEvent::TimedOut), CheckpointAction::Passive));
}

#[test]
fn stop_and_disconnect_run_final_checkpoint() {
    assert!(matches!(
        checkpoint_step(CheckpointEvent::Received(CheckpointSignal::Stop)),
        CheckpointAction::PassiveThenStop
    ));
    assert!(matches!(
        checkpoint_step(CheckpointEvent::Disconnected),
        CheckpointAction::PassiveThenStop
    ));
}

#[test]
fn full_checkpoint_answers_on_the_given_channel() {
    let (tx, rx) = std::sync::mpsc::channel::<Result<(), String>>();
    match checkpoint_step(CheckpointEvent::Received(CheckpointSignal::Full(tx))) {
        CheckpointAction::Full(done) => {
            done.send(Ok(())).unwrap();
            assert_eq!(rx.recv().unwrap(), Ok(()));
        }
        _ => panic!("a full request must run a full checkpoint"),
    }
}
