use cctop::model::ActivityState;
use cctop::seen::{Phase, Seen};

/// The whole life of the mark: armed by working, fired by stopping unwatched,
/// cleared by looking, and not fired again by the same stop.
#[test]
fn a_turn_that_ends_unwatched_is_marked_until_looked_at() {
    let mut seen = Seen::default();
    assert!(!seen.observe(&[("a", Phase::Working)], None));
    assert!(!seen.is_done("a"), "working is not done");

    assert!(seen.observe(&[("a", Phase::Stopped)], None), "no frame owed");
    assert!(seen.is_done("a"), "an unwatched stop was not marked");

    assert!(!seen.observe(&[("a", Phase::Stopped)], None));
    assert!(seen.is_done("a"));

    assert!(seen.observe(&[("a", Phase::Stopped)], Some("a")));
    assert!(!seen.is_done("a"), "looking did not clear it");

    seen.observe(&[("a", Phase::Stopped)], None);
    assert!(!seen.is_done("a"), "the same stop was marked twice");
}

/// A session already at its prompt has no turn anyone watched end.
#[test]
fn a_stop_nobody_saw_begin_is_not_marked() {
    let mut seen = Seen::default();
    seen.observe(&[("a", Phase::Stopped)], None);
    assert!(!seen.is_done("a"));
}

/// Watching a turn end is having seen it.
#[test]
fn a_turn_that_ends_while_watched_is_not_marked() {
    let mut seen = Seen::default();
    seen.observe(&[("a", Phase::Working)], Some("a"));
    seen.observe(&[("a", Phase::Stopped)], Some("a"));
    seen.observe(&[("a", Phase::Stopped)], None);
    assert!(!seen.is_done("a"));
}

/// Working again takes the mark down; the next stop puts it back.
#[test]
fn a_new_turn_clears_the_mark_until_it_ends() {
    let mut seen = Seen::default();
    seen.observe(&[("a", Phase::Working)], None);
    seen.observe(&[("a", Phase::Stopped)], None);
    assert!(seen.observe(&[("a", Phase::Working)], None));
    assert!(!seen.is_done("a"));
    seen.observe(&[("a", Phase::Stopped)], None);
    assert!(seen.is_done("a"));
}

/// A question mid-turn neither ends the turn nor forgets that it began.
#[test]
fn a_question_mid_turn_leaves_the_turn_armed() {
    let mut seen = Seen::default();
    seen.observe(&[("a", Phase::Working)], None);
    seen.observe(&[("a", Phase::Other)], None);
    assert!(!seen.is_done("a"), "a question is not a finished turn");
    seen.observe(&[("a", Phase::Stopped)], None);
    assert!(seen.is_done("a"));
}

/// A session that ends is forgotten, mark and all.
#[test]
fn an_ended_session_is_forgotten() {
    let mut seen = Seen::default();
    seen.observe(&[("a", Phase::Working), ("b", Phase::Working)], None);
    seen.observe(&[("a", Phase::Stopped), ("b", Phase::Working)], None);
    assert!(seen.is_done("a"));
    assert!(seen.observe(&[("b", Phase::Working)], None), "no frame owed");
    assert!(!seen.is_done("a"));
    seen.observe(&[("a", Phase::Stopped)], None);
    assert!(!seen.is_done("a"));
}

#[test]
fn a_row_reads_its_phase_off_its_dot() {
    assert_eq!(Phase::of(ActivityState::Working), Phase::Working);
    assert_eq!(Phase::of(ActivityState::WaitingForInput), Phase::Stopped);
    assert_eq!(Phase::of(ActivityState::Asking), Phase::Other);
    assert_eq!(Phase::of(ActivityState::ApiError), Phase::Other);
}
