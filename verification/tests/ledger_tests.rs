use vote_program::VoteError;
use vote_program::ledger::Ledger;
use vote_program::records::{CreatePoll, Vote};

fn key(b: u8) -> Vec<u8> {
    vec![b; 32]
}

fn program_id() -> Vec<u8> {
    key(7)
}

fn strings(items: &[&str]) -> Vec<String> {
    items.iter().map(|s| s.to_string()).collect()
}

fn make_poll(ledger: &mut Ledger, creator: u8, question: &str, options: &[&str]) -> Vec<u8> {
    ledger
        .create_poll(
            CreatePoll { creator: key(creator) },
            question.to_string(),
            strings(options),
        )
        .unwrap()
}

#[test]
fn scenario_create_then_vote_then_reject() {
    let mut ledger = Ledger::new(program_id());
    let poll = make_poll(&mut ledger, 1, "Color?", &["Red", "Blue"]);
    {
        let p = ledger.get_poll(&poll).unwrap();
        assert_eq!(p.vote_counts, vec![0, 0]);
        assert_eq!(p.total_votes, 0);
        assert_eq!(p.creator, key(1));
        assert_eq!(p.question, "Color?".to_string());
        assert_eq!(p.options, strings(&["Red", "Blue"]));
    }

    let voter_b = key(2);
    let r = ledger.vote(Vote { poll: poll.clone(), voter: voter_b.clone() }, 1);
    assert_eq!(r, Ok(()));
    {
        let p = ledger.get_poll(&poll).unwrap();
        assert_eq!(p.vote_counts, vec![0, 1]);
        assert_eq!(p.total_votes, 1);
    }

    let r = ledger.vote(Vote { poll: poll.clone(), voter: voter_b.clone() }, 0);
    assert_eq!(r, Err(VoteError::AlreadyVoted));
    {
        let p = ledger.get_poll(&poll).unwrap();
        assert_eq!(p.vote_counts, vec![0, 1]);
        assert_eq!(p.total_votes, 1);
    }

    let r = ledger.vote(Vote { poll: poll.clone(), voter: key(3) }, 5);
    assert_eq!(r, Err(VoteError::InvalidOption));
    {
        let p = ledger.get_poll(&poll).unwrap();
        assert_eq!(p.vote_counts, vec![0, 1]);
        assert_eq!(p.total_votes, 1);
    }
}

#[test]
fn create_poll_twice_same_creator_rejected() {
    let mut ledger = Ledger::new(program_id());
    let poll = make_poll(&mut ledger, 1, "First?", &["Yes", "No"]);

    let r = ledger.create_poll(
        CreatePoll { creator: key(1) },
        "Second?".to_string(),
        strings(&["A", "B", "C"]),
    );
    assert_eq!(r, Err(VoteError::AlreadyExists));

    let p = ledger.get_poll(&poll).unwrap();
    assert_eq!(p.question, "First?".to_string());
    assert_eq!(p.options, strings(&["Yes", "No"]));
    assert_eq!(p.total_votes, 0);
}

#[test]
fn invalid_option_leaves_no_trace() {
    let mut ledger = Ledger::new(program_id());
    let poll = make_poll(&mut ledger, 1, "Pick one", &["a", "b"]);
    let voter = key(9);

    let r = ledger.vote(Vote { poll: poll.clone(), voter: voter.clone() }, 2);
    assert_eq!(r, Err(VoteError::InvalidOption));

    let p = ledger.get_poll(&poll).unwrap();
    assert_eq!(p.vote_counts, vec![0, 0]);
    assert_eq!(p.total_votes, 0);
    assert!(ledger.get_vote_record(&poll, &voter).is_none());

    let r = ledger.vote(Vote { poll: poll.clone(), voter: voter.clone() }, 0);
    assert_eq!(r, Ok(()));
    let rec = ledger.get_vote_record(&poll, &voter).unwrap();
    assert_eq!(rec.option_index, 0);
    assert_eq!(rec.voter, voter);
    assert_eq!(rec.poll, poll);
}

#[test]
fn double_vote_rejected_and_counts_kept() {
    let mut ledger = Ledger::new(program_id());
    let poll = make_poll(&mut ledger, 1, "Best letter?", &["x", "y", "z"]);
    let voter = key(4);

    let r = ledger.vote(Vote { poll: poll.clone(), voter: voter.clone() }, 0);
    assert_eq!(r, Ok(()));
    assert_eq!(ledger.get_poll(&poll).unwrap().vote_counts, vec![1, 0, 0]);

    let r = ledger.vote(Vote { poll: poll.clone(), voter: voter.clone() }, 1);
    assert_eq!(r, Err(VoteError::AlreadyVoted));
    let p = ledger.get_poll(&poll).unwrap();
    assert_eq!(p.vote_counts, vec![1, 0, 0]);
    assert_eq!(p.total_votes, 1);
}

#[test]
fn totals_follow_many_voters() {
    let mut ledger = Ledger::new(program_id());
    let poll = make_poll(&mut ledger, 1, "Count us", &["left", "right"]);
    for voter in 10..20u8 {
        let idx = voter % 2;
        let r = ledger.vote(Vote { poll: poll.clone(), voter: key(voter) }, idx);
        assert_eq!(r, Ok(()));
    }
    let p = ledger.get_poll(&poll).unwrap();
    assert_eq!(p.vote_counts, vec![5, 5]);
    assert_eq!(p.total_votes, 10);
}

#[test]
fn empty_options_rejected() {
    let mut ledger = Ledger::new(program_id());
    let r = ledger.create_poll(CreatePoll { creator: key(1) }, "No choices".to_string(), vec![]);
    assert_eq!(r, Err(VoteError::CapacityExceeded));
}

#[test]
fn too_many_options_rejected() {
    let mut ledger = Ledger::new(program_id());
    let options: Vec<String> = (0..11).map(|i| format!("option {}", i)).collect();
    let r = ledger.create_poll(CreatePoll { creator: key(1) }, "Crowded".to_string(), options);
    assert_eq!(r, Err(VoteError::CapacityExceeded));
}

#[test]
fn oversized_question_rejected() {
    let mut ledger = Ledger::new(program_id());
    let question: String = std::iter::repeat('q').take(201).collect();
    let r = ledger.create_poll(CreatePoll { creator: key(1) }, question, strings(&["a", "b"]));
    assert_eq!(r, Err(VoteError::CapacityExceeded));
}

#[test]
fn oversized_options_rejected() {
    let mut ledger = Ledger::new(program_id());
    let long: String = std::iter::repeat('o').take(251).collect();
    let r = ledger.create_poll(
        CreatePoll { creator: key(1) },
        "Long".to_string(),
        vec![long.clone(), long],
    );
    assert_eq!(r, Err(VoteError::CapacityExceeded));
}

#[test]
fn largest_fitting_input_accepted() {
    let mut ledger = Ledger::new(program_id());
    let question: String = std::iter::repeat('q').take(200).collect();
    let option: String = std::iter::repeat('o').take(50).collect();
    let options: Vec<String> = (0..10).map(|_| option.clone()).collect();
    let r = ledger.create_poll(CreatePoll { creator: key(1) }, question, options);
    assert!(r.is_ok());
    let p = ledger.get_poll(&r.unwrap()).unwrap();
    assert_eq!(p.vote_counts, vec![0; 10]);
}

#[test]
fn vote_on_missing_poll_rejected() {
    let mut ledger = Ledger::new(program_id());
    let r = ledger.vote(Vote { poll: key(42), voter: key(2) }, 0);
    assert_eq!(r, Err(VoteError::PollNotFound));
}

#[test]
fn derived_addresses_are_deterministic() {
    let mut first = Ledger::new(program_id());
    let mut second = Ledger::new(program_id());
    let a1 = make_poll(&mut first, 1, "Same?", &["y", "n"]);
    let a2 = make_poll(&mut second, 1, "Other question", &["a", "b", "c"]);
    assert_eq!(a1, a2);
}

#[test]
fn derived_addresses_differ_by_creator() {
    let mut ledger = Ledger::new(program_id());
    let a1 = make_poll(&mut ledger, 1, "Mine", &["y", "n"]);
    let a2 = make_poll(&mut ledger, 2, "Yours", &["y", "n"]);
    assert_ne!(a1, a2);
    assert_ne!(a1, key(1));
    assert_ne!(a2, key(2));
}

#[test]
fn lookups_miss_cleanly() {
    let mut ledger = Ledger::new(program_id());
    assert!(ledger.get_poll(&key(1)).is_none());
    let poll = make_poll(&mut ledger, 1, "Q", &["a"]);
    assert!(ledger.get_poll(&key(1)).is_none());
    assert!(ledger.get_vote_record(&poll, &key(2)).is_none());
    let r = ledger.vote(Vote { poll: poll.clone(), voter: key(2) }, 0);
    assert_eq!(r, Ok(()));
    assert!(ledger.get_vote_record(&poll, &key(3)).is_none());
    assert!(ledger.get_vote_record(&key(9), &key(2)).is_none());
}
