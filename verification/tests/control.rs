use ripsync::control::{Checkpoint, RunControl};

#[test]
fn pause_resume_and_cancel() {
    let mut control = RunControl::default();
    control.pause();
    assert!(control.is_paused());
    control.resume();
    assert!(control.checkpoint().is_ok());
    control.cancel();
    assert!(control.checkpoint().is_err());
}

#[test]
fn cancel_wins_over_pause() {
    let mut control = RunControl::new();
    assert_eq!(control.poll(), Checkpoint::Proceed);
    control.pause();
    assert_eq!(control.poll(), Checkpoint::Wait);
    control.cancel();
    assert_eq!(control.poll(), Checkpoint::Cancel);
    control.resume();
    assert!(control.is_cancelled());
    assert_eq!(control.poll(), Checkpoint::Cancel);
    assert!(matches!(control.checkpoint(), Err(ripsync::error::Error::Cancelled)));
}
