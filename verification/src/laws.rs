use vstd::prelude::*;

use crate::VoteError;
use crate::ledger::{LedgerView, create_poll_post, vote_post};
use crate::records::poll_fits;

verus! {

/// Law: rejection of a repeated creation is idempotent.  When a creation
/// by some creator succeeds, a second creation by the same creator — with
/// any question and options that fit — fails with `AlreadyExists` and
/// leaves the ledger unchanged.
pub proof fn lemma_create_poll_idempotent_rejection(
    pre: LedgerView,
    mid: LedgerView,
    post: LedgerView,
    creator: Seq<u8>,
    question1: Seq<char>,
    options1: Seq<Seq<char>>,
    question2: Seq<char>,
    options2: Seq<Seq<char>>,
    r1: Result<Seq<u8>, VoteError>,
    r2: Result<Seq<u8>, VoteError>,
)
    requires
        create_poll_post(pre, mid, creator, question1, options1, r1),
        r1 is Ok,
        poll_fits(question2, options2),
        create_poll_post(mid, post, creator, question2, options2, r2),
    ensures
        r2 == Err::<Seq<u8>, VoteError>(VoteError::AlreadyExists),
        post.polls == mid.polls,
        post.votes == mid.votes,
{
    let a = derived_of_creator(pre, creator);
    assert(mid.polls.contains_key(a));
}

spec fn derived_of_creator(pre: LedgerView, creator: Seq<u8>) -> Seq<u8> {
    crate::addr::derived_of(crate::addr::poll_seeds(creator), pre.program).unwrap()
}

/// Law: a vote with an out-of-range option index has no effect.  The call
/// reports `InvalidOption` and leaves both stores exactly as they were.
pub proof fn lemma_invalid_option_no_effect(
    pre: LedgerView,
    post: LedgerView,
    poll: Seq<u8>,
    voter: Seq<u8>,
    option_index: u8,
    r: Result<(), VoteError>,
)
    requires
        vote_post(pre, post, poll, voter, option_index, r),
        pre.polls.contains_key(poll),
        option_index as int >= pre.polls[poll].options.len(),
    ensures
        r == Err::<(), VoteError>(VoteError::InvalidOption),
        post.polls == pre.polls,
        post.votes == pre.votes,
{
}

/// Law: a voter votes at most once per poll.  After a voter's vote on a
/// poll succeeds, a second vote by the same voter on the same poll — for
/// any in-range option — fails with `AlreadyVoted` and leaves the ledger
/// unchanged, counters included.
pub proof fn lemma_double_vote_rejected(
    pre: LedgerView,
    mid: LedgerView,
    post: LedgerView,
    poll: Seq<u8>,
    voter: Seq<u8>,
    option_index1: u8,
    option_index2: u8,
    r2: Result<(), VoteError>,
)
    requires
        vote_post(pre, mid, poll, voter, option_index1, Ok(())),
        vote_post(mid, post, poll, voter, option_index2, r2),
        (option_index2 as int) < mid.polls[poll].options.len(),
    ensures
        r2 == Err::<(), VoteError>(VoteError::AlreadyVoted),
        post.polls == mid.polls,
        post.votes == mid.votes,
{
    let a = crate::addr::derived_of(crate::addr::vote_seeds(poll, voter), pre.program).unwrap();
    assert(mid.votes.contains_key(a));
    assert(mid.polls.contains_key(poll));
}

} // verus!

