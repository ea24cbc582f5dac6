use ripsync::report::{final_phase, phase_word, status_word, RunPhase, RunStatus, Stats};

#[test]
fn phase_and_status_words() {
    assert_eq!(phase_word(RunPhase::Planning), "planning");
    assert_eq!(phase_word(RunPhase::Review), "review");
    assert_eq!(phase_word(RunPhase::Copying), "copying");
    assert_eq!(phase_word(RunPhase::Deleting), "deleting");
    assert_eq!(phase_word(RunPhase::Verifying), "verifying");
    assert_eq!(phase_word(RunPhase::Finalizing), "finalizing");
    assert_eq!(phase_word(RunPhase::Done), "done");
    assert_eq!(phase_word(RunPhase::Cancelled), "cancelled");
    assert_eq!(phase_word(RunPhase::Failed), "failed");
    assert_eq!(status_word(RunStatus::Success), "success");
    assert_eq!(status_word(RunStatus::Cancelled), "cancelled");
    assert_eq!(status_word(RunStatus::Failed), "failed");
}

#[test]
fn each_status_ends_in_its_phase() {
    assert_eq!(final_phase(RunStatus::Success), RunPhase::Done);
    assert_eq!(final_phase(RunStatus::Cancelled), RunPhase::Cancelled);
    assert_eq!(final_phase(RunStatus::Failed), RunPhase::Failed);
}

#[test]
fn stats_start_at_zero() {
    let s = Stats::default();
    assert_eq!((s.copied, s.updated, s.skipped, s.deleted, s.errors, s.bytes), (0, 0, 0, 0, 0, 0));
}
