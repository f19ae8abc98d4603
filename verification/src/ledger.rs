use vstd::prelude::*;

use crate::VoteError;
use crate::addr::{derive_address, derived_of, poll_seeds, poll_tag, poll_tag_bytes, vote_seeds,
    vote_tag, vote_tag_bytes};
use crate::records::{CreatePoll, Poll, PollView, RecordView, Vote, VoteRecord, check_capacity,
    is_key, poll_fits};

verus! {

/// A poll record together with the address it lives at.
struct PollSlot {
    address: Vec<u8>,
    record: Poll,
}

/// A vote record together with the address it lives at.
struct VoteSlot {
    address: Vec<u8>,
    record: VoteRecord,
}

/// The address-keyed ledger state: every poll and every vote record,
/// each at its derived address, under one program id.
pub struct Ledger {
    program_id: Vec<u8>,
    polls: Vec<PollSlot>,
    votes: Vec<VoteSlot>,
}

/// The mathematical value of a `Ledger`: two address-keyed stores.
pub struct LedgerView {
    pub program: Seq<u8>,
    pub polls: Map<Seq<u8>, PollView>,
    pub votes: Map<Seq<u8>, RecordView>,
}

spec fn map_of_polls(s: Seq<PollSlot>) -> Map<Seq<u8>, PollView>
    decreases s.len(),
{
    if s.len() == 0 {
        Map::empty()
    } else {
        map_of_polls(s.drop_last()).insert(s.last().address@, s.last().record@)
    }
}

spec fn map_of_votes(s: Seq<VoteSlot>) -> Map<Seq<u8>, RecordView>
    decreases s.len(),
{
    if s.len() == 0 {
        Map::empty()
    } else {
        map_of_votes(s.drop_last()).insert(s.last().address@, s.last().record@)
    }
}

impl View for Ledger {
    type V = LedgerView;

    closed spec fn view(&self) -> LedgerView {
        LedgerView {
            program: self.program_id@,
            polls: map_of_polls(self.polls@),
            votes: map_of_votes(self.votes@),
        }
    }
}

/// The sum of a sequence of counters.
pub open spec fn sum_votes(s: Seq<u64>) -> int
    decreases s.len(),
{
    if s.len() == 0 {
        0
    } else {
        sum_votes(s.drop_last()) + s.last()
    }
}

/// What always holds of a poll record: its creator is a key, its texts fit
/// the reserved storage, its counters align with its options, and its
/// total is the sum of its counters.
pub open spec fn poll_view_wf(p: PollView) -> bool {
    &&& is_key(p.creator)
    &&& poll_fits(p.question, p.options)
    &&& p.vote_counts.len() == p.options.len()
    &&& p.total_votes == sum_votes(p.vote_counts)
}

spec fn poll_slot_wf(s: PollSlot, program: Seq<u8>) -> bool {
    &&& is_key(s.address@)
    &&& derived_of(poll_seeds(s.record.creator@), program) == Some(s.address@)
    &&& poll_view_wf(s.record@)
}

spec fn vote_slot_wf(s: VoteSlot, program: Seq<u8>) -> bool {
    &&& is_key(s.address@)
    &&& is_key(s.record.voter@)
    &&& is_key(s.record.poll@)
    &&& derived_of(vote_seeds(s.record.poll@, s.record.voter@), program) == Some(s.address@)
}

spec fn distinct_polls(s: Seq<PollSlot>) -> bool {
    forall|i: int, j: int| 0 <= i < j < s.len() ==> s[i].address@ != s[j].address@
}

spec fn distinct_votes(s: Seq<VoteSlot>) -> bool {
    forall|i: int, j: int| 0 <= i < j < s.len() ==> s[i].address@ != s[j].address@
}

/// How many vote records name the poll at address `a`.
spec fn votes_for(s: Seq<VoteSlot>, a: Seq<u8>) -> int
    decreases s.len(),
{
    if s.len() == 0 {
        0
    } else {
        votes_for(s.drop_last(), a) + if s.last().record.poll@ == a {
            1int
        } else {
            0int
        }
    }
}

/// The fresh record of a poll: the given texts, all counters zero.
pub open spec fn new_poll_view(creator: Seq<u8>, question: Seq<char>, options: Seq<Seq<char>>)
    -> PollView {
    PollView {
        creator,
        question,
        options,
        vote_counts: Seq::new(options.len(), |i: int| 0u64),
        total_votes: 0,
    }
}

/// A poll record after one vote for `option_index`: that counter and the
/// total each one higher, everything else unchanged.
pub open spec fn updated_poll_view(p: PollView, option_index: u8) -> PollView {
    PollView {
        creator: p.creator,
        question: p.question,
        options: p.options,
        vote_counts: p.vote_counts.update(
            option_index as int,
            (p.vote_counts[option_index as int] + 1) as u64,
        ),
        total_votes: (p.total_votes + 1) as u64,
    }
}

/// Exactly how `create_poll` relates the ledger before the call, the
/// ledger after it and the result, for the given inputs.
pub open spec fn create_poll_post(
    pre: LedgerView,
    post: LedgerView,
    creator: Seq<u8>,
    question: Seq<char>,
    options: Seq<Seq<char>>,
    r: Result<Seq<u8>, VoteError>,
) -> bool {
    &&& post.program == pre.program
    &&& post.votes == pre.votes
    &&& if !poll_fits(question, options) {
        r == Err::<Seq<u8>, VoteError>(VoteError::CapacityExceeded) && post.polls == pre.polls
    } else {
        match derived_of(poll_seeds(creator), pre.program) {
            Option::None => r == Err::<Seq<u8>, VoteError>(VoteError::AddressUnavailable)
                && post.polls == pre.polls,
            Option::Some(a) => if pre.polls.contains_key(a) {
                r == Err::<Seq<u8>, VoteError>(VoteError::AlreadyExists) && post.polls == pre.polls
            } else {
                r == Ok::<Seq<u8>, VoteError>(a) && post.polls == pre.polls.insert(
                    a,
                    new_poll_view(creator, question, options),
                )
            },
        }
    }
}

/// Exactly how `vote` relates the ledger before the call, the ledger
/// after it and the result, for the given inputs.
pub open spec fn vote_post(
    pre: LedgerView,
    post: LedgerView,
    poll: Seq<u8>,
    voter: Seq<u8>,
    option_index: u8,
    r: Result<(), VoteError>,
) -> bool {
    &&& post.program == pre.program
    &&& if !pre.polls.contains_key(poll) {
        r == Err::<(), VoteError>(VoteError::PollNotFound) && post.polls == pre.polls
            && post.votes == pre.votes
    } else if option_index as int >= pre.polls[poll].options.len() {
        r == Err::<(), VoteError>(VoteError::InvalidOption) && post.polls == pre.polls
            && post.votes == pre.votes
    } else {
        match derived_of(vote_seeds(poll, voter), pre.program) {
            Option::None => r == Err::<(), VoteError>(VoteError::AddressUnavailable)
                && post.polls == pre.polls && post.votes == pre.votes,
            Option::Some(a) => if pre.votes.contains_key(a) {
                r == Err::<(), VoteError>(VoteError::AlreadyVoted) && post.polls == pre.polls
                    && post.votes == pre.votes
            } else {
                &&& r == Ok::<(), VoteError>(())
                &&& post.votes == pre.votes.insert(
                    a,
                    RecordView { voter, poll, option_index },
                )
                &&& post.polls == pre.polls.insert(
                    poll,
                    updated_poll_view(pre.polls[poll], option_index),
                )
            },
        }
    }
}

/// The view of a result that carries an address.
pub open spec fn addr_result_view(r: Result<Vec<u8>, VoteError>) -> Result<Seq<u8>, VoteError> {
    match r {
        Ok(a) => Ok(a@),
        Err(e) => Err(e),
    }
}

proof fn lemma_polls_map_contains(s: Seq<PollSlot>, a: Seq<u8>)
    ensures
        map_of_polls(s).contains_key(a) <==> exists|i: int|
            0 <= i < s.len() && s[i].address@ == a,
    decreases s.len(),
{
    if s.len() > 0 {
        lemma_polls_map_contains(s.drop_last(), a);
        if map_of_polls(s).contains_key(a) && s.last().address@ != a {
            let i = choose|i: int| 0 <= i < s.drop_last().len() && s.drop_last()[i].address@ == a;
            assert(s[i].address@ == a);
        }
        if exists|i: int| 0 <= i < s.len() && s[i].address@ == a {
            let i = choose|i: int| 0 <= i < s.len() && s[i].address@ == a;
            if i < s.len() - 1 {
                assert(s.drop_last()[i].address@ == a);
            }
        }
    }
}

proof fn lemma_polls_map_index(s: Seq<PollSlot>, i: int)
    requires
        distinct_polls(s),
        0 <= i < s.len(),
    ensures
        map_of_polls(s).contains_key(s[i].address@),
        map_of_polls(s)[s[i].address@] == s[i].record@,
    decreases s.len(),
{
    if i < s.len() - 1 {
        assert(distinct_polls(s.drop_last()));
        lemma_polls_map_index(s.drop_last(), i);
        assert(s.drop_last()[i] == s[i]);
    }
}

proof fn lemma_polls_map_push(s: Seq<PollSlot>, x: PollSlot)
    ensures
        map_of_polls(s.push(x)) == map_of_polls(s).insert(x.address@, x.record@),
{
    assert(s.push(x).drop_last() =~= s);
    assert(s.push(x).last() == x);
}

proof fn lemma_polls_map_update(s: Seq<PollSlot>, i: int, x: PollSlot)
    requires
        distinct_polls(s),
        0 <= i < s.len(),
        x.address@ == s[i].address@,
    ensures
        map_of_polls(s.update(i, x)) == map_of_polls(s).insert(x.address@, x.record@),
    decreases s.len(),
{
    if i == s.len() - 1 {
        assert(s.update(i, x).drop_last() =~= s.drop_last());
        assert(s.update(i, x).last() == x);
        assert(map_of_polls(s.update(i, x)) =~= map_of_polls(s).insert(x.address@, x.record@));
    } else {
        assert(distinct_polls(s.drop_last()));
        assert(s.update(i, x).drop_last() =~= s.drop_last().update(i, x));
        assert(s.update(i, x).last() == s.last());
        lemma_polls_map_update(s.drop_last(), i, x);
        assert(s.last().address@ != x.address@);
        assert(map_of_polls(s.update(i, x)) =~= map_of_polls(s).insert(x.address@, x.record@));
    }
}

proof fn lemma_votes_map_contains(s: Seq<VoteSlot>, a: Seq<u8>)
    ensures
        map_of_votes(s).contains_key(a) <==> exists|i: int|
            0 <= i < s.len() && s[i].address@ == a,
    decreases s.len(),
{
    if s.len() > 0 {
        lemma_votes_map_contains(s.drop_last(), a);
        if map_of_votes(s).contains_key(a) && s.last().address@ != a {
            let i = choose|i: int| 0 <= i < s.drop_last().len() && s.drop_last()[i].address@ == a;
            assert(s[i].address@ == a);
        }
        if exists|i: int| 0 <= i < s.len() && s[i].address@ == a {
            let i = choose|i: int| 0 <= i < s.len() && s[i].address@ == a;
            if i < s.len() - 1 {
                assert(s.drop_last()[i].address@ == a);
            }
        }
    }
}

proof fn lemma_votes_map_index(s: Seq<VoteSlot>, i: int)
    requires
        distinct_votes(s),
        0 <= i < s.len(),
    ensures
        map_of_votes(s).contains_key(s[i].address@),
        map_of_votes(s)[s[i].address@] == s[i].record@,
    decreases s.len(),
{
    if i < s.len() - 1 {
        assert(distinct_votes(s.drop_last()));
        lemma_votes_map_index(s.drop_last(), i);
        assert(s.drop_last()[i] == s[i]);
    }
}

proof fn lemma_votes_map_push(s: Seq<VoteSlot>, x: VoteSlot)
    ensures
        map_of_votes(s.push(x)) == map_of_votes(s).insert(x.address@, x.record@),
{
    assert(s.push(x).drop_last() =~= s);
    assert(s.push(x).last() == x);
}

proof fn lemma_votes_for_push(s: Seq<VoteSlot>, x: VoteSlot, a: Seq<u8>)
    ensures
        votes_for(s.push(x), a) == votes_for(s, a) + if x.record.poll@ == a {
            1int
        } else {
            0int
        },
{
    assert(s.push(x).drop_last() =~= s);
    assert(s.push(x).last() == x);
}

proof fn lemma_votes_for_le_len(s: Seq<VoteSlot>, a: Seq<u8>)
    ensures
        0 <= votes_for(s, a) <= s.len(),
    decreases s.len(),
{
    if s.len() > 0 {
        lemma_votes_for_le_len(s.drop_last(), a);
    }
}

proof fn lemma_votes_for_absent(s: Seq<VoteSlot>, a: Seq<u8>)
    requires
        forall|i: int| 0 <= i < s.len() ==> s[i].record.poll@ != a,
    ensures
        votes_for(s, a) == 0,
    decreases s.len(),
{
    if s.len() > 0 {
        assert(forall|i: int| 0 <= i < s.drop_last().len() ==> s.drop_last()[i] == s[i]);
        lemma_votes_for_absent(s.drop_last(), a);
        assert(s.last() == s[s.len() - 1]);
    }
}

proof fn lemma_sum_zeros(n: nat)
    ensures
        sum_votes(Seq::new(n, |i: int| 0u64)) == 0,
    decreases n,
{
    if n > 0 {
        assert(Seq::new(n, |i: int| 0u64).drop_last() =~= Seq::new((n - 1) as nat, |i: int| 0u64));
        lemma_sum_zeros((n - 1) as nat);
    }
}

proof fn lemma_sum_nonneg(s: Seq<u64>)
    ensures
        sum_votes(s) >= 0,
    decreases s.len(),
{
    if s.len() > 0 {
        lemma_sum_nonneg(s.drop_last());
    }
}

proof fn lemma_element_le_sum(s: Seq<u64>, i: int)
    requires
        0 <= i < s.len(),
    ensures
        s[i] <= sum_votes(s),
    decreases s.len(),
{
    if i == s.len() - 1 {
        lemma_sum_nonneg(s.drop_last());
    } else {
        lemma_element_le_sum(s.drop_last(), i);
    }
}

proof fn lemma_sum_update(s: Seq<u64>, i: int, v: u64)
    requires
        0 <= i < s.len(),
    ensures
        sum_votes(s.update(i, v)) == sum_votes(s) - s[i] + v,
    decreases s.len(),
{
    if i == s.len() - 1 {
        assert(s.update(i, v).drop_last() =~= s.drop_last());
    } else {
        assert(s.update(i, v).drop_last() =~= s.drop_last().update(i, v));
        assert(s.update(i, v).last() == s.last());
        lemma_sum_update(s.drop_last(), i, v);
    }
}

/// Decide whether two byte strings are equal.
fn bytes_eq(a: &Vec<u8>, b: &Vec<u8>) -> (r: bool)
    ensures
        r <==> a@ == b@,
{
    if a.len() != b.len() {
        return false;
    }
    let mut i: usize = 0;
    while i < a.len()
        invariant
            i <= a@.len(),
            a@.len() == b@.len(),
            forall|j: int| 0 <= j < i ==> a@[j] == b@[j],
        decreases a@.len() - i,
    {
        if a[i] != b[i] {
            return false;
        }
        i = i + 1;
    }
    proof {
        assert(a@ =~= b@);
    }
    true
}

/// Copy a byte string.
fn copy_bytes(v: &Vec<u8>) -> (r: Vec<u8>)
    ensures
        r@ == v@,
{
    let mut r: Vec<u8> = Vec::new();
    let mut i: usize = 0;
    while i < v.len()
        invariant
            i <= v@.len(),
            r@ =~= v@.take(i as int),
        decreases v@.len() - i,
    {
        r.push(v[i]);
        i = i + 1;
    }
    proof {
        assert(v@.take(v@.len() as int) =~= v@);
    }
    r
}

/// A counter per option, all zero.
fn zero_counts(n: usize) -> (r: Vec<u64>)
    ensures
        r@ == Seq::new(n as nat, |i: int| 0u64),
{
    let mut r: Vec<u64> = Vec::new();
    let mut i: usize = 0;
    while i < n
        invariant
            i <= n,
            r@ =~= Seq::new(i as nat, |j: int| 0u64),
        decreases n - i,
    {
        r.push(0);
        i = i + 1;
    }
    proof {
        assert(r@ =~= Seq::new(n as nat, |i: int| 0u64));
    }
    r
}

impl Ledger {
    /// What always holds of a ledger: records live at their derived
    /// addresses, addresses are unique, every poll's counters are
    /// consistent, and every counted vote has its record.
    pub closed spec fn wf(self) -> bool {
        &&& is_key(self.program_id@)
        &&& distinct_polls(self.polls@)
        &&& forall|i: int|
            0 <= i < self.polls@.len() ==> poll_slot_wf(#[trigger] self.polls@[i], self.program_id@)
        &&& forall|i: int|
            0 <= i < self.polls@.len() ==> (#[trigger] self.polls@[i]).record.total_votes
                == votes_for(self.votes@, self.polls@[i].address@)
        &&& distinct_votes(self.votes@)
        &&& forall|i: int|
            0 <= i < self.votes@.len() ==> vote_slot_wf(#[trigger] self.votes@[i], self.program_id@)
        &&& forall|i: int|
            0 <= i < self.votes@.len() ==> exists|j: int|
                0 <= j < self.polls@.len() && (#[trigger] self.votes@[i]).record.poll@
                    == self.polls@[j].address@
    }

    /// An empty ledger under the given program id.
    pub fn new(program_id: Vec<u8>) -> (r: Ledger)
        requires
            is_key(program_id@),
        ensures
            r.wf(),
            r@.program == program_id@,
            r@.polls == Map::<Seq<u8>, PollView>::empty(),
            r@.votes == Map::<Seq<u8>, RecordView>::empty(),
    {
        Ledger { program_id, polls: Vec::new(), votes: Vec::new() }
    }

    fn find_poll_index(&self, address: &Vec<u8>) -> (r: Option<usize>)
        ensures
            match r {
                Some(i) => i < self.polls@.len() && self.polls@[i as int].address@ == address@,
                None => forall|j: int|
                    0 <= j < self.polls@.len() ==> (#[trigger] self.polls@[j]).address@
                        != address@,
            },
    {
        let mut i: usize = 0;
        while i < self.polls.len()
            invariant
                i <= self.polls@.len(),
                forall|j: int| 0 <= j < i ==> (#[trigger] self.polls@[j]).address@ != address@,
            decreases self.polls@.len() - i,
        {
            if bytes_eq(&self.polls[i].address, address) {
                return Some(i);
            }
            i = i + 1;
        }
        None
    }

    fn find_vote_index(&self, address: &Vec<u8>) -> (r: Option<usize>)
        ensures
            match r {
                Some(i) => i < self.votes@.len() && self.votes@[i as int].address@ == address@,
                None => forall|j: int|
                    0 <= j < self.votes@.len() ==> (#[trigger] self.votes@[j]).address@
                        != address@,
            },
    {
        let mut i: usize = 0;
        while i < self.votes.len()
            invariant
                i <= self.votes@.len(),
                forall|j: int| 0 <= j < i ==> (#[trigger] self.votes@[j]).address@ != address@,
            decreases self.votes@.len() - i,
        {
            if bytes_eq(&self.votes[i].address, address) {
                return Some(i);
            }
            i = i + 1;
        }
        None
    }

    /// Create a poll for the creator in `ctx`: derive its address from the
    /// creator's key alone, reject an oversized input or an occupied
    /// address, and otherwise persist the new record with all counters
    /// zero, returning its address.
    pub fn create_poll(&mut self, ctx: CreatePoll, question: String, options: Vec<String>) -> (r:
        Result<Vec<u8>, VoteError>)
        requires
            old(self).wf(),
            is_key(ctx.creator@),
        ensures
            final(self).wf(),
            create_poll_post(
                old(self)@,
                final(self)@,
                ctx.creator@,
                question@,
                options.deep_view(),
                addr_result_view(r),
            ),
    {
        if !check_capacity(&question, &options) {
            return Err(VoteError::CapacityExceeded);
        }
        let mut components: Vec<Vec<u8>> = Vec::new();
        components.push(copy_bytes(&ctx.creator));
        proof {
            assert(seq![poll_tag()] + components.deep_view() =~~= poll_seeds(ctx.creator@));
        }
        match derive_address(poll_tag_bytes(), components, &self.program_id) {
            None => Err(VoteError::AddressUnavailable),
            Some(address) => {
                match self.find_poll_index(&address) {
                    Some(_) => {
                        proof {
                            lemma_polls_map_contains(self.polls@, address@);
                        }
                        Err(VoteError::AlreadyExists)
                    },
                    None => {
                        proof {
                            lemma_polls_map_contains(self.polls@, address@);
                        }
                        let n = options.len();
                        let record = Poll {
                            creator: ctx.creator,
                            question,
                            options,
                            vote_counts: zero_counts(n),
                            total_votes: 0,
                        };
                        let slot_address = copy_bytes(&address);
                        let ghost old_polls = self.polls@;
                        self.polls.push(PollSlot { address: slot_address, record });
                        proof {
                            lemma_polls_map_push(old_polls, self.polls@.last());
                            lemma_sum_zeros(n as nat);
                            assert forall|i: int|
                                0 <= i < self.votes@.len() implies (#[trigger] self.votes@[
                            i]).record.poll@ != address@ by {
                                let j = choose|j: int|
                                    0 <= j < old_polls.len() && self.votes@[i].record.poll@
                                        == old_polls[j].address@;
                            }
                            lemma_votes_for_absent(self.votes@, address@);
                            assert forall|i: int|
                                0 <= i < self.votes@.len() implies exists|j: int|
                                0 <= j < self.polls@.len() && (#[trigger] self.votes@[
                            i]).record.poll@ == self.polls@[j].address@ by {
                                let j = choose|j: int|
                                    0 <= j < old_polls.len() && self.votes@[i].record.poll@
                                        == old_polls[j].address@;
                                assert(self.polls@[j].address@ == old_polls[j].address@);
                            }
                        }
                        Ok(address)
                    },
                }
            },
        }
    }

    /// Cast the vote in `ctx`: find the poll, validate the option, create
    /// the vote record at its derived address — the double-vote guard —
    /// and only then count the vote.
    pub fn vote(&mut self, ctx: Vote, option_index: u8) -> (r: Result<(), VoteError>)
        requires
            old(self).wf(),
            is_key(ctx.voter@),
        ensures
            final(self).wf(),
            vote_post(old(self)@, final(self)@, ctx.poll@, ctx.voter@, option_index, r),
    {
        let pi = match self.find_poll_index(&ctx.poll) {
            None => {
                proof {
                    lemma_polls_map_contains(self.polls@, ctx.poll@);
                }
                return Err(VoteError::PollNotFound);
            },
            Some(pi) => pi,
        };
        proof {
            lemma_polls_map_index(self.polls@, pi as int);
        }
        let n_opts = self.polls[pi].record.options.len();
        if option_index as usize >= n_opts {
            return Err(VoteError::InvalidOption);
        }
        let mut components: Vec<Vec<u8>> = Vec::new();
        components.push(copy_bytes(&ctx.poll));
        components.push(copy_bytes(&ctx.voter));
        proof {
            assert(seq![vote_tag()] + components.deep_view() =~~= vote_seeds(
                ctx.poll@,
                ctx.voter@,
            ));
        }
        match derive_address(vote_tag_bytes(), components, &self.program_id) {
            None => Err(VoteError::AddressUnavailable),
            Some(address) => {
                match self.find_vote_index(&address) {
                    Some(_) => {
                        proof {
                            lemma_votes_map_contains(self.votes@, address@);
                        }
                        Err(VoteError::AlreadyVoted)
                    },
                    None => {
                        proof {
                            lemma_votes_map_contains(self.votes@, address@);
                        }
                        let ghost old_votes = self.votes@;
                        let ghost old_polls = self.polls@;
                        let record = VoteRecord {
                            voter: ctx.voter,
                            poll: copy_bytes(&ctx.poll),
                            option_index,
                        };
                        self.votes.push(VoteSlot { address, record });
                        let nv = self.votes.len();
                        let idx = option_index as usize;
                        let c = self.polls[pi].record.vote_counts[idx];
                        let t = self.polls[pi].record.total_votes;
                        proof {
                            lemma_votes_map_push(old_votes, self.votes@.last());
                            lemma_votes_for_push(old_votes, self.votes@.last(), ctx.poll@);
                            lemma_votes_for_le_len(old_votes, ctx.poll@);
                            assert(usize::MAX <= u64::MAX);
                            assert(t < u64::MAX);
                            lemma_element_le_sum(old_polls[pi as int].record.vote_counts@,
                                idx as int);
                            assert(c < u64::MAX);
                        }
                        let slot = &mut self.polls[pi];
                        slot.record.vote_counts[idx] = c + 1;
                        slot.record.total_votes = t + 1;
                        proof {
                            let new_slot = self.polls@[pi as int];
                            assert(self.polls@ =~= old_polls.update(pi as int, new_slot));
                            lemma_polls_map_update(old_polls, pi as int, new_slot);
                            lemma_sum_update(
                                old_polls[pi as int].record.vote_counts@,
                                idx as int,
                                (c + 1) as u64,
                            );
                            assert forall|i: int|
                                0 <= i < self.polls@.len() implies (#[trigger] self.polls@[
                            i]).record.total_votes == votes_for(
                                self.votes@,
                                self.polls@[i].address@,
                            ) by {
                                lemma_votes_for_push(old_votes, self.votes@.last(),
                                    self.polls@[i].address@);
                            }
                            assert forall|i: int|
                                0 <= i < self.votes@.len() implies exists|j: int|
                                0 <= j < self.polls@.len() && (#[trigger] self.votes@[
                            i]).record.poll@ == self.polls@[j].address@ by {
                                if i < old_votes.len() {
                                    let j = choose|j: int|
                                        0 <= j < old_polls.len() && old_votes[i].record.poll@
                                            == old_polls[j].address@;
                                    assert(self.polls@[j].address@ == old_polls[j].address@);
                                } else {
                                    assert(self.votes@[i].record.poll@
                                        == self.polls@[pi as int].address@);
                                }
                            }
                        }
                        Ok(())
                    },
                }
            },
        }
    }

    /// Fetch the poll at an address, if one exists.
    pub fn get_poll(&self, address: &Vec<u8>) -> (r: Option<&Poll>)
        requires
            self.wf(),
        ensures
            match r {
                Some(p) => self@.polls.contains_key(address@) && p@ == self@.polls[address@],
                None => !self@.polls.contains_key(address@),
            },
    {
        match self.find_poll_index(address) {
            Some(i) => {
                proof {
                    lemma_polls_map_index(self.polls@, i as int);
                }
                Some(&self.polls[i].record)
            },
            None => {
                proof {
                    lemma_polls_map_contains(self.polls@, address@);
                }
                None
            },
        }
    }

    /// Fetch the vote record for a (poll, voter) pair, if one exists: its
    /// address is derived from the pair, never searched for.
    pub fn get_vote_record(&self, poll: &Vec<u8>, voter: &Vec<u8>) -> (r: Option<&VoteRecord>)
        requires
            self.wf(),
        ensures
            match derived_of(vote_seeds(poll@, voter@), self@.program) {
                Option::None => r is None,
                Option::Some(a) => match r {
                    Some(rec) => self@.votes.contains_key(a) && rec@ == self@.votes[a],
                    None => !self@.votes.contains_key(a),
                },
            },
    {
        let mut components: Vec<Vec<u8>> = Vec::new();
        components.push(copy_bytes(poll));
        components.push(copy_bytes(voter));
        proof {
            assert(seq![vote_tag()] + components.deep_view() =~~= vote_seeds(poll@, voter@));
        }
        match derive_address(vote_tag_bytes(), components, &self.program_id) {
            None => None,
            Some(address) => {
                match self.find_vote_index(&address) {
                    Some(i) => {
                        proof {
                            lemma_votes_map_index(self.votes@, i as int);
                        }
                        Some(&self.votes[i].record)
                    },
                    None => {
                        proof {
                            lemma_votes_map_contains(self.votes@, address@);
                        }
                        None
                    },
                }
            },
        }
    }

    /// Every poll record in a well-formed ledger is itself well-formed;
    /// in particular its total equals the sum of its per-option counters.
    pub proof fn lemma_poll_records_wf(&self)
        requires
            self.wf(),
        ensures
            forall|a: Seq<u8>| #[trigger]
                self@.polls.contains_key(a) ==> poll_view_wf(self@.polls[a]),
    {
        assert forall|a: Seq<u8>| #[trigger]
            self@.polls.contains_key(a) implies poll_view_wf(self@.polls[a]) by {
            lemma_polls_map_contains(self.polls@, a);
            let i = choose|i: int| 0 <= i < self.polls@.len() && self.polls@[i].address@ == a;
            lemma_polls_map_index(self.polls@, i);
        }
    }

    /// No two vote records in a well-formed ledger name the same
    /// (poll, voter) pair: the derived address is the double-vote guard.
    pub proof fn lemma_vote_records_unique(&self)
        requires
            self.wf(),
        ensures
            forall|a1: Seq<u8>, a2: Seq<u8>|
                #![trigger self@.votes[a1], self@.votes[a2]]
                self@.votes.contains_key(a1) && self@.votes.contains_key(a2) && a1 != a2
                    ==> !(self@.votes[a1].poll == self@.votes[a2].poll && self@.votes[a1].voter
                    == self@.votes[a2].voter),
    {
        assert forall|a1: Seq<u8>, a2: Seq<u8>|
            #![trigger self@.votes[a1], self@.votes[a2]]
            self@.votes.contains_key(a1) && self@.votes.contains_key(a2) && a1 != a2 implies !(
        self@.votes[a1].poll == self@.votes[a2].poll && self@.votes[a1].voter
            == self@.votes[a2].voter) by {
            lemma_votes_map_contains(self.votes@, a1);
            lemma_votes_map_contains(self.votes@, a2);
            let i1 = choose|i: int| 0 <= i < self.votes@.len() && self.votes@[i].address@ == a1;
            let i2 = choose|i: int| 0 <= i < self.votes@.len() && self.votes@[i].address@ == a2;
            lemma_votes_map_index(self.votes@, i1);
            lemma_votes_map_index(self.votes@, i2);
        }
    }

    /// No two polls in a well-formed ledger share a creator: a creator's
    /// poll address is derived from the creator's key alone.
    pub proof fn lemma_one_poll_per_creator(&self)
        requires
            self.wf(),
        ensures
            forall|a1: Seq<u8>, a2: Seq<u8>|
                #![trigger self@.polls[a1], self@.polls[a2]]
                self@.polls.contains_key(a1) && self@.polls.contains_key(a2) && a1 != a2
                    ==> self@.polls[a1].creator != self@.polls[a2].creator,
    {
        assert forall|a1: Seq<u8>, a2: Seq<u8>|
            #![trigger self@.polls[a1], self@.polls[a2]]
            self@.polls.contains_key(a1) && self@.polls.contains_key(a2) && a1 != a2 implies self@
            .polls[a1].creator != self@.polls[a2].creator by {
            lemma_polls_map_contains(self.polls@, a1);
            lemma_polls_map_contains(self.polls@, a2);
            let i1 = choose|i: int| 0 <= i < self.polls@.len() && self.polls@[i].address@ == a1;
            let i2 = choose|i: int| 0 <= i < self.polls@.len() && self.polls@[i].address@ == a2;
            lemma_polls_map_index(self.polls@, i1);
            lemma_polls_map_index(self.polls@, i2);
        }
    }
}

} // verus!
