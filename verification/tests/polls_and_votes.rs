//! Poll bookkeeping and vote validation, both on a poll by itself and
//! through the shared state.

use polls::models::{Poll, PollCreationRequest, Vote, VotingError};
use polls::state::{AddVoteError, AppState};

fn candidates(names: &[&str]) -> Vec<String> {
    names.iter().map(|n| String::from(*n)).collect()
}

#[test]
fn vote_of_wrong_length_is_rejected() {
    let mut poll = Poll::new(1, candidates(&["a", "b", "c"]), 0, 5);
    assert_eq!(
        poll.add_vote(Vote(vec![0, 1])),
        Err(VotingError::InvalidVoteLengthError)
    );
    assert_eq!(
        poll.add_vote(Vote(vec![0, 1, 2, 3])),
        Err(VotingError::InvalidVoteLengthError)
    );
    assert_eq!(poll.list_votes().len(), 0);
}

#[test]
fn vote_outside_the_score_range_is_rejected() {
    let mut poll = Poll::new(1, candidates(&["a", "b", "c"]), 0, 5);
    assert_eq!(
        poll.add_vote(Vote(vec![0, 6, 1])),
        Err(VotingError::OutsideScoreRangeError)
    );
    assert_eq!(poll.list_votes().len(), 0);
}

#[test]
fn vote_inside_the_score_range_is_accepted() {
    let mut poll = Poll::new(1, candidates(&["a", "b", "c"]), 0, 5);
    assert_eq!(poll.add_vote(Vote(vec![0, 5, 1])), Ok(()));
    let votes = poll.list_votes();
    assert_eq!(votes.len(), 1);
    assert_eq!(votes[0].0, vec![0, 5, 1]);
}

#[test]
fn bounds_are_inclusive_and_lower_bound_is_checked() {
    let mut poll = Poll::new(1, candidates(&["a", "b"]), 2, 4);
    assert_eq!(poll.add_vote(Vote(vec![2, 4])), Ok(()));
    assert_eq!(poll.add_vote(Vote(vec![1, 3])), Err(VotingError::OutsideScoreRangeError));
    assert_eq!(poll.add_vote(Vote(vec![3, 5])), Err(VotingError::OutsideScoreRangeError));
}

#[test]
fn poll_with_no_candidates_takes_only_empty_votes() {
    let mut poll = Poll::new(1, candidates(&[]), 0, 5);
    assert_eq!(poll.add_vote(Vote(vec![])), Ok(()));
    assert_eq!(poll.add_vote(Vote(vec![1])), Err(VotingError::InvalidVoteLengthError));
}

#[test]
fn next_poll_ids_are_distinct_and_gapless() {
    let mut state = AppState::restore(vec![0u8; 64], 0);
    let mut seen: Vec<usize> = Vec::new();
    for _ in 0..100 {
        let id = state.get_new_id();
        assert!(!seen.contains(&id), "no caller ever observes the same id twice");
        if let Some(last) = seen.last() {
            assert_eq!(id, last + 1, "ids move up by exactly one");
        }
        seen.push(id);
    }
    assert_eq!(seen.first(), Some(&1));
    assert_eq!(seen.last(), Some(&100));
}

#[test]
fn create_get_delete_poll_through_the_state() {
    let mut state = AppState::restore(vec![0u8; 64], 0);
    let id = state.create_poll(PollCreationRequest {
        candidates: candidates(&["x", "y"]),
        min_score: 0,
        max_score: 3,
    });
    assert_eq!(id, 1);
    let poll = state.get_poll(id).unwrap();
    assert_eq!(poll.metadata.id, 1);
    assert_eq!(poll.metadata.candidates, vec!["x", "y"]);
    assert_eq!(poll.metadata.min_score, 0);
    assert_eq!(poll.metadata.max_score, 3);
    assert!(state.get_poll(2).is_none());
    assert!(state.delete_poll(id).is_some());
    assert!(state.get_poll(id).is_none());
    assert!(state.delete_poll(id).is_none());
}

#[test]
fn listing_polls_shows_each_stored_poll_once() {
    let mut state = AppState::restore(vec![0u8; 64], 0);
    state.create_poll(PollCreationRequest {
        candidates: candidates(&["x"]),
        min_score: 0,
        max_score: 1,
    });
    state.create_poll(PollCreationRequest {
        candidates: candidates(&["y", "z"]),
        min_score: 1,
        max_score: 9,
    });
    let listed = state.list_polls();
    assert_eq!(listed.len(), 2);
    assert_eq!(listed[0].id, 1);
    assert_eq!(listed[0].candidates, vec!["x"]);
    assert_eq!(listed[1].id, 2);
    assert_eq!(listed[1].max_score, 9);
}

#[test]
fn adding_votes_through_the_state() {
    let mut state = AppState::restore(vec![0u8; 64], 0);
    let id = state.create_poll(PollCreationRequest {
        candidates: candidates(&["a", "b", "c"]),
        min_score: 0,
        max_score: 5,
    });
    assert_eq!(state.add_vote(id + 1, Vote(vec![0, 0, 0])), Err(AddVoteError::PollNotFound));
    assert_eq!(
        state.add_vote(id, Vote(vec![0, 1])),
        Err(AddVoteError::Vote(VotingError::InvalidVoteLengthError))
    );
    assert_eq!(
        state.add_vote(id, Vote(vec![0, 6, 1])),
        Err(AddVoteError::Vote(VotingError::OutsideScoreRangeError))
    );
    assert_eq!(state.add_vote(id, Vote(vec![0, 5, 1])), Ok(()));
    let votes = state.list_votes(id).unwrap();
    assert_eq!(votes.len(), 1);
    assert_eq!(votes[0].0, vec![0, 5, 1]);
    assert!(state.list_votes(id + 1).is_none());
}

#[test]
fn restoring_a_poll_rechecks_every_stored_ballot() {
    let mut state = AppState::restore(vec![0u8; 64], 7);
    let ok = state.restore_poll(
        3,
        candidates(&["a", "b"]),
        0,
        5,
        vec![Vote(vec![0, 5]), Vote(vec![2, 2])],
    );
    assert_eq!(ok, Ok(()));
    assert_eq!(state.list_votes(3).unwrap().len(), 2);

    let bad_length = state.restore_poll(4, candidates(&["a", "b"]), 0, 5, vec![Vote(vec![1])]);
    assert_eq!(bad_length, Err(VotingError::InvalidVoteLengthError));
    assert!(state.get_poll(4).is_none());

    let bad_range = state.restore_poll(5, candidates(&["a", "b"]), 0, 5, vec![Vote(vec![1, 6])]);
    assert_eq!(bad_range, Err(VotingError::OutsideScoreRangeError));
    assert!(state.get_poll(5).is_none());
}
