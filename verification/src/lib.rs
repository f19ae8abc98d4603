//! A minimal decentralized polling ledger: anyone may create a poll with a
//! question and a fixed set of options, and anyone may cast exactly one vote
//! per poll.  Records are keyed by addresses derived deterministically from
//! a namespace tag and identity keys — creating a record at an occupied
//! address fails, which is the sole guard against duplicate polls and
//! double votes.

pub mod addr;
pub mod laws;
pub mod ledger;
pub mod records;

use vstd::prelude::*;

verus! {

/// Errors that the polling operations report.
#[derive(Clone, Copy, Debug, PartialEq, Eq, Structural)]
pub enum VoteError {
    /// The question or the options do not fit the storage reserved for a poll.
    CapacityExceeded,
    /// A poll already lives at the derived address.
    AlreadyExists,
    /// No poll lives at the given address.
    PollNotFound,
    /// The option index is out of range for the poll.
    InvalidOption,
    /// The voter already holds a record for this poll.
    AlreadyVoted,
    /// The address space yielded no usable address for these inputs.
    AddressUnavailable,
}

} // verus!
