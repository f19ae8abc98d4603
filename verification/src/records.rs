use vstd::prelude::*;
use vstd::utf8::encode_utf8;

verus! {

/// Storage reserved for a poll's question, in encoded bytes.
pub const MAX_QUESTION_BYTES: usize = 200;

/// The largest number of options a poll may offer.
pub const MAX_OPTIONS: usize = 10;

/// Storage reserved for all of a poll's options together, in encoded bytes.
pub const MAX_OPTIONS_BYTES: usize = 500;

/// An identity key or a derived address: exactly 32 bytes.
pub open spec fn is_key(k: Seq<u8>) -> bool {
    k.len() == 32
}

/// A poll record: who created it, what it asks, its options and the tally.
pub struct Poll {
    /// Identity key of the account that created the poll.
    pub creator: Vec<u8>,
    /// The question put to the voters.
    pub question: String,
    /// The options a vote may pick, in order.
    pub options: Vec<String>,
    /// One counter per option, index-aligned with `options`.
    pub vote_counts: Vec<u64>,
    /// Total number of votes cast on this poll.
    pub total_votes: u64,
}

/// The mathematical value of a `Poll`.
pub struct PollView {
    pub creator: Seq<u8>,
    pub question: Seq<char>,
    pub options: Seq<Seq<char>>,
    pub vote_counts: Seq<u64>,
    pub total_votes: u64,
}

impl View for Poll {
    type V = PollView;

    open spec fn view(&self) -> PollView {
        PollView {
            creator: self.creator@,
            question: self.question@,
            options: self.options.deep_view(),
            vote_counts: self.vote_counts@,
            total_votes: self.total_votes,
        }
    }
}

/// A vote record: the tombstone proving that a voter has voted on a poll.
pub struct VoteRecord {
    /// Identity key of the voting account.
    pub voter: Vec<u8>,
    /// Address of the poll voted on.
    pub poll: Vec<u8>,
    /// Index of the option chosen.
    pub option_index: u8,
}

/// The mathematical value of a `VoteRecord`.
pub struct RecordView {
    pub voter: Seq<u8>,
    pub poll: Seq<u8>,
    pub option_index: u8,
}

impl View for VoteRecord {
    type V = RecordView;

    open spec fn view(&self) -> RecordView {
        RecordView { voter: self.voter@, poll: self.poll@, option_index: self.option_index }
    }
}

/// The capabilities a poll creation consumes: the creator's identity key.
pub struct CreatePoll {
    /// Identity key of the account creating the poll.
    pub creator: Vec<u8>,
}

/// The capabilities a vote consumes: the poll's address and the voter's key.
pub struct Vote {
    /// Address of the poll voted on.
    pub poll: Vec<u8>,
    /// Identity key of the voting account.
    pub voter: Vec<u8>,
}

/// Encoded size of a list of options, in bytes.
pub open spec fn options_bytes(options: Seq<Seq<char>>) -> int
    decreases options.len(),
{
    if options.len() == 0 {
        0
    } else {
        options_bytes(options.drop_last()) + encode_utf8(options.last()).len()
    }
}

/// Whether a question and its options fit the storage reserved for a poll:
/// at least one option, and the encoded texts within their budgets.
pub open spec fn poll_fits(question: Seq<char>, options: Seq<Seq<char>>) -> bool {
    &&& 1 <= options.len() <= MAX_OPTIONS
    &&& encode_utf8(question).len() <= MAX_QUESTION_BYTES
    &&& options_bytes(options) <= MAX_OPTIONS_BYTES
}

proof fn lemma_options_bytes_take_step(options: Seq<Seq<char>>, i: int)
    requires
        0 <= i < options.len(),
    ensures
        options_bytes(options.take(i + 1)) == options_bytes(options.take(i)) + encode_utf8(
            options[i],
        ).len(),
{
    assert(options.take(i + 1).drop_last() =~= options.take(i));
    assert(options.take(i + 1).last() == options[i]);
}

proof fn lemma_options_bytes_take_le(options: Seq<Seq<char>>, i: int)
    requires
        0 <= i <= options.len(),
    ensures
        options_bytes(options.take(i)) <= options_bytes(options),
    decreases options.len() - i,
{
    if i < options.len() {
        lemma_options_bytes_take_step(options, i);
        lemma_options_bytes_take_le(options, i + 1);
    } else {
        assert(options.take(i) =~= options);
    }
}

/// Decide whether a question and its options fit a poll's storage.
pub fn check_capacity(question: &String, options: &Vec<String>) -> (r: bool)
    ensures
        r == poll_fits(question@, options.deep_view()),
{
    let ghost opts = options.deep_view();
    if options.len() < 1 || options.len() > MAX_OPTIONS {
        return false;
    }
    if question.as_str().as_bytes().len() > MAX_QUESTION_BYTES {
        return false;
    }
    let mut total: usize = 0;
    let mut i: usize = 0;
    while i < options.len()
        invariant
            i <= opts.len(),
            opts.len() <= MAX_OPTIONS,
            opts == options.deep_view(),
            total == options_bytes(opts.take(i as int)),
            total <= MAX_OPTIONS_BYTES,
        decreases opts.len() - i,
    {
        let opt = &options[i];
        let len = opt.as_str().as_bytes().len();
        proof {
            assert(opts[i as int] == options@[i as int]@);
            assert(len == encode_utf8(opts[i as int]).len());
            lemma_options_bytes_take_step(opts, i as int);
        }
        if len > MAX_OPTIONS_BYTES - total {
            proof {
                lemma_options_bytes_take_le(opts, i as int + 1);
            }
            return false;
        }
        total = total + len;
        i = i + 1;
    }
    proof {
        assert(opts.take(opts.len() as int) =~= opts);
    }
    true
}

} // verus!
