//! The votes that have come in, round by round.

use crate::codec::{encode_pair, item_of, rlp_list};
use crate::error::DecodeError;
use crate::message::{is_understood, lemma_message_item, message_rlp, same_block, ConsensusMessage, VoteStep};
use crate::primitives::{strings_of, Address, BlockHash, H520};
use crate::step::Step;
use vstd::prelude::*;

verus! {

/// A vote, who cast it, and whether it counts: of each voter only the first vote of a round does.
#[derive(Debug, Clone, Copy)]
pub struct Vote {
    pub message: ConsensusMessage,
    pub voter: Address,
    pub counted: bool,
}

/// Two different votes of one validator in one round.
#[derive(Debug, Clone, Copy)]
pub struct DoubleVote {
    pub author: Address,
    pub vote_one: ConsensusMessage,
    pub vote_two: ConsensusMessage,
}

/// All votes that have not been thrown out, earlier rounds first, and within a round in the order
/// in which they came.
#[derive(Debug)]
pub struct VoteCollector {
    votes: Vec<Vote>,
    /// No round has been thrown out yet: the first round of all is the oldest.
    pristine: bool,
}

/// The model of a [`VoteCollector`].
pub struct Record {
    pub votes: Seq<Vote>,
    pub pristine: bool,
}

impl View for VoteCollector {
    type V = Record;

    closed spec fn view(&self) -> Record {
        Record { votes: self.votes@, pristine: self.pristine }
    }
}

/// The vote `m` has been recorded.
pub open spec fn is_known(votes: Seq<Vote>, m: ConsensusMessage) -> bool {
    exists|i: int| 0 <= i < votes.len() && (#[trigger] votes[i]).message == m
}

/// No round on record is earlier than `round`.
pub open spec fn is_oldest(votes: Seq<Vote>, pristine: bool, round: VoteStep) -> bool {
    &&& pristine ==> !VoteStep::spec_first().spec_before(round)
    &&& forall|i: int| 0 <= i < votes.len() ==> !(#[trigger] votes[i]).message.vote_step.spec_before(round)
}

/// The votes that count in the round of `m` and are for the same block.
pub open spec fn aligned_votes(votes: Seq<Vote>, m: ConsensusMessage) -> Seq<Vote> {
    votes.filter(
        |v: Vote| v.counted && v.message.vote_step == m.vote_step && v.message.block_hash == m.block_hash,
    )
}

/// The votes that count in a round.
pub open spec fn round_votes(votes: Seq<Vote>, round: VoteStep) -> Seq<Vote> {
    votes.filter(|v: Vote| v.counted && v.message.vote_step == round)
}

/// The votes that count in a round for a block.
pub open spec fn block_votes(votes: Seq<Vote>, round: VoteStep, block_hash: BlockHash) -> Seq<Vote> {
    votes.filter(
        |v: Vote| v.counted && v.message.vote_step == round && v.message.block_hash == Some(block_hash),
    )
}

/// The signatures of the votes that count in a round for a block.
pub open spec fn block_signatures(votes: Seq<Vote>, round: VoteStep, block_hash: BlockHash) -> Seq<H520> {
    block_votes(votes, round, block_hash).map_values(|v: Vote| v.message.signature)
}

/// The votes of the voting steps up to and with a round.
pub open spec fn messages_up_to(votes: Seq<Vote>, round: VoteStep) -> Seq<ConsensusMessage> {
    votes.filter(
        |v: Vote| !round.spec_before(v.message.vote_step) && v.message.spec_is_broadcastable(),
    ).map_values(|v: Vote| v.message)
}

/// The votes of a round and of the rounds after it.
pub open spec fn votes_from(votes: Seq<Vote>, round: VoteStep) -> Seq<Vote> {
    votes.filter(|v: Vote| !v.message.vote_step.spec_before(round))
}

/// The latest vote of `voter` in a round.
pub open spec fn latest_vote(votes: Seq<Vote>, round: VoteStep, voter: Address) -> Option<ConsensusMessage>
    decreases votes.len(),
{
    if votes.len() == 0 {
        None
    } else if votes.last().message.vote_step == round && votes.last().voter == voter {
        Some(votes.last().message)
    } else {
        latest_vote(votes.drop_last(), round, voter)
    }
}

/// The votes with `vote` put behind those of its round and of the rounds before it.
pub open spec fn placed(votes: Seq<Vote>, vote: Vote) -> Seq<Vote>
    decreases votes.len(),
{
    if votes.len() == 0 || !vote.message.vote_step.spec_before(votes.last().message.vote_step) {
        votes.push(vote)
    } else {
        placed(votes.drop_last(), vote).push(votes.last())
    }
}

/// The votes after `voter` has cast `m`.
pub open spec fn recorded(votes: Seq<Vote>, m: ConsensusMessage, voter: Address) -> Seq<Vote> {
    if is_known(votes, m) {
        votes
    } else {
        placed(votes, Vote { message: m, voter, counted: latest_vote(votes, m.vote_step, voter) is None })
    }
}

/// The double vote that `voter` is guilty of when casting `m`.
pub open spec fn double_vote(votes: Seq<Vote>, m: ConsensusMessage, voter: Address) -> Option<DoubleVote> {
    if is_known(votes, m) {
        None
    } else {
        match latest_vote(votes, m.vote_step, voter) {
            Some(previous) => Some(DoubleVote { author: voter, vote_one: previous, vote_two: m }),
            None => None,
        }
    }
}

/// The voter whose counted vote is `m`.
pub open spec fn voter_of(votes: Seq<Vote>, m: ConsensusMessage) -> Option<Address> {
    if exists|i: int| 0 <= i < votes.len() && (#[trigger] votes[i]).counted && votes[i].message == m {
        let i = choose|i: int| 0 <= i < votes.len() && (#[trigger] votes[i]).counted && votes[i].message == m;
        Some(votes[i].voter)
    } else {
        None
    }
}

/// Rounds stand in their order.
pub open spec fn in_order(votes: Seq<Vote>) -> bool {
    forall|i: int, j: int|
        0 <= i < j < votes.len() ==> !(#[trigger] votes[j]).message.vote_step.spec_before(
            (#[trigger] votes[i]).message.vote_step,
        )
}

/// No message is on record twice.
pub open spec fn all_distinct(votes: Seq<Vote>) -> bool {
    forall|i: int, j: int|
        0 <= i < j < votes.len() ==> (#[trigger] votes[i]).message != (#[trigger] votes[j]).message
}

/// Nobody counts twice in a round.
pub open spec fn none_counts_twice(votes: Seq<Vote>) -> bool {
    forall|i: int, j: int|
        0 <= i < j < votes.len() && votes[i].counted && votes[j].counted && votes[i].message.vote_step
            == votes[j].message.vote_step ==> (#[trigger] votes[i]).voter != (#[trigger] votes[j]).voter
}

/// `i` is the vote by which the voter of `votes[j]` counts in its round.
pub open spec fn counts_for(votes: Seq<Vote>, i: int, j: int) -> bool {
    &&& 0 <= i < votes.len()
    &&& votes[i].counted
    &&& votes[i].message.vote_step == votes[j].message.vote_step
    &&& votes[i].voter == votes[j].voter
}

/// The voter of `votes[j]` counts in its round.
pub open spec fn is_represented(votes: Seq<Vote>, j: int) -> bool {
    exists|i: int| #[trigger] counts_for(votes, i, j)
}

/// Whoever voted in a round counts in it.
pub open spec fn all_count(votes: Seq<Vote>) -> bool {
    forall|j: int| 0 <= j < votes.len() ==> #[trigger] is_represented(votes, j)
}

/// What holds of the votes on record at all times.
pub open spec fn is_record(votes: Seq<Vote>) -> bool {
    &&& in_order(votes)
    &&& all_distinct(votes)
    &&& none_counts_twice(votes)
    &&& all_count(votes)
}

/// The place that `placed` gives to a vote.
spec fn place_index(votes: Seq<Vote>, round: VoteStep) -> int
    decreases votes.len(),
{
    if votes.len() == 0 || !round.spec_before(votes.last().message.vote_step) {
        votes.len() as int
    } else {
        place_index(votes.drop_last(), round)
    }
}

/// Placing a vote inserts it, and the rounds behind it are later ones.
proof fn lemma_placed(votes: Seq<Vote>, vote: Vote)
    requires
        in_order(votes),
    ensures
        0 <= place_index(votes, vote.message.vote_step) <= votes.len(),
        placed(votes, vote) == votes.insert(place_index(votes, vote.message.vote_step), vote),
        forall|i: int|
            0 <= i < place_index(votes, vote.message.vote_step) ==> !vote.message.vote_step.spec_before(
                (#[trigger] votes[i]).message.vote_step,
            ),
        forall|i: int|
            place_index(votes, vote.message.vote_step) <= i < votes.len() ==> vote.message.vote_step.spec_before(
                (#[trigger] votes[i]).message.vote_step,
            ),
    decreases votes.len(),
{
    let round = vote.message.vote_step;
    if votes.len() == 0 || !round.spec_before(votes.last().message.vote_step) {
        assert(placed(votes, vote) =~= votes.insert(votes.len() as int, vote));
        assert forall|i: int| 0 <= i < votes.len() implies !round.spec_before((#[trigger] votes[i]).message.vote_step) by {
            if i < votes.len() - 1 {
                assert(!votes[votes.len() - 1].message.vote_step.spec_before(votes[i].message.vote_step));
            }
        }
    } else {
        let front = votes.drop_last();
        assert(in_order(front)) by {
            assert forall|i: int, j: int| 0 <= i < j < front.len() implies !(#[trigger] front[j]).message.vote_step.spec_before(
                (#[trigger] front[i]).message.vote_step,
            ) by {
                assert(!votes[j].message.vote_step.spec_before(votes[i].message.vote_step));
            }
        }
        lemma_placed(front, vote);
        let p = place_index(front, round);
        assert(placed(votes, vote) =~= votes.insert(p, vote));
        assert forall|i: int| 0 <= i < p implies !round.spec_before((#[trigger] votes[i]).message.vote_step) by {
            assert(!round.spec_before(front[i].message.vote_step));
        }
        assert forall|i: int| p <= i < votes.len() implies round.spec_before((#[trigger] votes[i]).message.vote_step) by {
            if i < front.len() {
                assert(round.spec_before(front[i].message.vote_step));
            }
        }
    }
}

/// The latest vote is one of the votes, and is there if there is any.
proof fn lemma_latest_vote(votes: Seq<Vote>, round: VoteStep, voter: Address)
    ensures
        latest_vote(votes, round, voter) is None ==> forall|i: int|
            0 <= i < votes.len() ==> !((#[trigger] votes[i]).message.vote_step == round && votes[i].voter == voter),
        latest_vote(votes, round, voter) matches Some(m) ==> exists|i: int|
            0 <= i < votes.len() && (#[trigger] votes[i]).message == m && m.vote_step == round && votes[i].voter == voter,
    decreases votes.len(),
{
    if votes.len() == 0 {
    } else if votes.last().message.vote_step == round && votes.last().voter == voter {
        assert(votes[votes.len() - 1].message == votes.last().message);
    } else {
        let front = votes.drop_last();
        lemma_latest_vote(front, round, voter);
        if latest_vote(front, round, voter) is None {
            assert forall|i: int| 0 <= i < votes.len() implies !((#[trigger] votes[i]).message.vote_step == round
                && votes[i].voter == voter) by {
                if i < front.len() {
                    assert(front[i] == votes[i]);
                }
            }
        } else {
            let m = latest_vote(front, round, voter)->0;
            let i = choose|i: int| 0 <= i < front.len() && (#[trigger] front[i]).message == m && m.vote_step == round
                && front[i].voter == voter;
            assert(votes[i].message == m);
        }
    }
}

/// With one vote more, which counts unless its voter has voted in the round before, it still holds
/// that whoever voted in a round counts in it.
proof fn lemma_all_count_with(votes: Seq<Vote>, p: int, v: Vote)
    requires
        all_count(votes),
        0 <= p <= votes.len(),
        !v.counted ==> exists|i: int|
            0 <= i < votes.len() && (#[trigger] votes[i]).message.vote_step == v.message.vote_step && votes[i].voter
                == v.voter,
    ensures
        all_count(votes.insert(p, v)),
{
    let w = votes.insert(p, v);
    assert(w[p] == v);
    assert forall|j: int| 0 <= j < w.len() implies #[trigger] is_represented(w, j) by {
        if j == p && v.counted {
            assert(counts_for(w, p, p));
        } else {
            let b = if j != p {
                if j < p { j } else { j - 1 }
            } else {
                choose|i: int| 0 <= i < votes.len() && (#[trigger] votes[i]).message.vote_step == v.message.vote_step
                    && votes[i].voter == v.voter
            };
            assert(is_represented(votes, b));
            let a = choose|a: int| #[trigger] counts_for(votes, a, b);
            let i = if a < p { a } else { a + 1 };
            assert(w[i] == votes[a]);
            assert(counts_for(w, i, j));
        }
    }
}

/// Recording a vote keeps the record in shape.
pub proof fn lemma_recorded(votes: Seq<Vote>, m: ConsensusMessage, voter: Address)
    requires
        is_record(votes),
    ensures
        is_record(recorded(votes, m, voter)),
        is_known(recorded(votes, m, voter), m),
{
    if !is_known(votes, m) {
        let round = m.vote_step;
        let v = Vote { message: m, voter, counted: latest_vote(votes, round, voter) is None };
        lemma_placed(votes, v);
        lemma_latest_vote(votes, round, voter);
        let p = place_index(votes, round);
        let w = votes.insert(p, v);
        assert(w[p] == v);
        assert forall|i: int, j: int| 0 <= i < j < w.len() implies !(#[trigger] w[j]).message.vote_step.spec_before(
            (#[trigger] w[i]).message.vote_step,
        ) by {
            let a = if i < p { i } else { i - 1 };
            let b = if j < p { j } else { j - 1 };
            if i != p {
                assert(w[i] == votes[a]);
            }
            if j != p {
                assert(w[j] == votes[b]);
            }
        }
        assert(all_distinct(w)) by {
            assert forall|i: int, j: int| 0 <= i < j < w.len() implies (#[trigger] w[i]).message != (#[trigger] w[j]).message by {
                if i != p && j != p {
                    let a = if i < p { i } else { i - 1 };
                    let b = if j < p { j } else { j - 1 };
                    assert(votes[a].message != votes[b].message);
                } else {
                    let k = if i != p { if i < p { i } else { i - 1 } } else { j - 1 };
                    assert(votes[k].message != m);
                }
            }
        }
        assert(none_counts_twice(w)) by {
            assert forall|i: int, j: int|
                0 <= i < j < w.len() && w[i].counted && w[j].counted && w[i].message.vote_step
                    == w[j].message.vote_step implies (#[trigger] w[i]).voter != (#[trigger] w[j]).voter by {
                if i != p && j != p {
                    let a = if i < p { i } else { i - 1 };
                    let b = if j < p { j } else { j - 1 };
                    assert(votes[a].voter != votes[b].voter);
                } else {
                    let k = if i != p { if i < p { i } else { i - 1 } } else { j - 1 };
                    assert(!(votes[k].message.vote_step == round && votes[k].voter == voter));
                }
            }
        }
        lemma_all_count_with(votes, p, v);
    }
}

/// Where the votes that `pred` keeps are those from `k` on, filtering cuts off the others.
proof fn lemma_filter_suffix(votes: Seq<Vote>, k: int, pred: spec_fn(Vote) -> bool)
    requires
        0 <= k <= votes.len(),
        forall|i: int| 0 <= i < k ==> !pred(#[trigger] votes[i]),
        forall|i: int| k <= i < votes.len() ==> pred(#[trigger] votes[i]),
    ensures
        votes.filter(pred) == votes.subrange(k, votes.len() as int),
    decreases votes.len(),
{
    reveal(Seq::filter);
    if votes.len() > 0 {
        let front = votes.drop_last();
        if k < votes.len() {
            lemma_filter_suffix(front, k, pred);
            assert(pred(votes[votes.len() - 1]));
            assert(front.subrange(k, front.len() as int).push(votes.last()) =~= votes.subrange(k, votes.len() as int));
        } else {
            lemma_filter_suffix(front, k - 1, pred);
            assert(!pred(votes[votes.len() - 1]));
            assert(front.subrange(k - 1, front.len() as int) =~= votes.subrange(k, votes.len() as int));
        }
    } else {
        assert(votes.subrange(0, 0) =~= votes);
    }
}

/// Throwing out the rounds before `round` keeps the record in shape: it cuts off the votes before
/// the first one that stays.
proof fn lemma_votes_from(votes: Seq<Vote>, round: VoteStep, k: int)
    requires
        is_record(votes),
        0 <= k <= votes.len(),
        forall|i: int| 0 <= i < k ==> (#[trigger] votes[i]).message.vote_step.spec_before(round),
        k < votes.len() ==> !votes[k].message.vote_step.spec_before(round),
    ensures
        votes_from(votes, round) == votes.subrange(k, votes.len() as int),
        is_record(votes_from(votes, round)),
{
    let pred = |v: Vote| !v.message.vote_step.spec_before(round);
    assert forall|i: int| k <= i < votes.len() implies pred(#[trigger] votes[i]) by {
        if i > k {
            assert(!votes[i].message.vote_step.spec_before(votes[k].message.vote_step));
        }
    }
    lemma_filter_suffix(votes, k, pred);
    let w = votes.subrange(k, votes.len() as int);
    assert forall|j: int| 0 <= j < w.len() implies #[trigger] is_represented(w, j) by {
        assert(is_represented(votes, j + k));
        let a = choose|a: int| #[trigger] counts_for(votes, a, j + k);
        assert(pred(votes[j + k]));
        assert(counts_for(w, a - k, j));
    }
    assert(none_counts_twice(w));
}

/// Throwing out old rounds keeps the record in shape.
pub proof fn lemma_votes_from_is_record(votes: Seq<Vote>, round: VoteStep)
    requires
        is_record(votes),
    ensures
        is_record(votes_from(votes, round)),
{
    let k = first_from(votes, round, 0);
    lemma_first_from(votes, round, 0);
    lemma_votes_from(votes, round, k);
}

/// The index of the first vote, from `k` on, that is not of a round before `round`.
spec fn first_from(votes: Seq<Vote>, round: VoteStep, k: int) -> int
    decreases votes.len() - k,
{
    if 0 <= k < votes.len() && votes[k].message.vote_step.spec_before(round) {
        first_from(votes, round, k + 1)
    } else {
        k
    }
}

proof fn lemma_first_from(votes: Seq<Vote>, round: VoteStep, k: int)
    requires
        0 <= k <= votes.len(),
    ensures
        k <= first_from(votes, round, k) <= votes.len(),
        forall|i: int| k <= i < first_from(votes, round, k) ==> (#[trigger] votes[i]).message.vote_step.spec_before(round),
        first_from(votes, round, k) < votes.len() ==> !votes[first_from(
            votes,
            round,
            k,
        )].message.vote_step.spec_before(round),
    decreases votes.len() - k,
{
    if k < votes.len() && votes[k].message.vote_step.spec_before(round) {
        lemma_first_from(votes, round, k + 1);
    }
}

/// The encoding of a double vote: the two votes.
pub open spec fn double_vote_rlp(double: DoubleVote) -> Seq<u8> {
    rlp_list(seq![message_rlp(double.vote_one), message_rlp(double.vote_two)])
}

impl DoubleVote {
    /// The proof of the double vote: both votes, with their signatures, which are understood.
    pub fn encode(&self) -> (r: Vec<u8>)
        ensures
            r@ == double_vote_rlp(*self),
            item_of(r@, 0) == Ok::<_, DecodeError>(message_rlp(self.vote_one)),
            item_of(r@, 1) == Ok::<_, DecodeError>(message_rlp(self.vote_two)),
            is_understood(self.vote_one),
            is_understood(self.vote_two),
    {
        let one = self.vote_one.encode();
        let two = self.vote_two.encode();
        proof {
            lemma_message_item(self.vote_one);
            lemma_message_item(self.vote_two);
        }
        encode_pair(&one, &two)
    }
}

impl VoteCollector {
    pub open spec fn wf(&self) -> bool {
        is_record(self@.votes)
    }

    /// A record without votes.
    pub fn new() -> (r: VoteCollector)
        ensures
            r.wf(),
            r@.votes == Seq::<Vote>::empty(),
            r@.pristine,
    {
        VoteCollector { votes: Vec::new(), pristine: true }
    }

    /// The votes on record.
    pub fn votes(&self) -> (r: &Vec<Vote>)
        ensures
            r@ == self@.votes,
    {
        &self.votes
    }

    /// The index of the vote `message`, if it is on record.
    fn find(&self, message: &ConsensusMessage) -> (r: Option<usize>)
        ensures
            r is Some <==> is_known(self@.votes, *message),
            r matches Some(i) ==> i < self@.votes.len() && self@.votes[i as int].message == *message,
    {
        let mut i: usize = 0;
        while i < self.votes.len()
            invariant
                i <= self.votes@.len(),
                forall|j: int| 0 <= j < i ==> (#[trigger] self.votes@[j]).message != *message,
            decreases self.votes@.len() - i,
        {
            if self.votes[i].message == *message {
                return Some(i);
            }
            i = i + 1;
        }
        None
    }

    /// The latest vote of `voter` in a round.
    fn latest(&self, round: &VoteStep, voter: &Address) -> (r: Option<ConsensusMessage>)
        ensures
            r == latest_vote(self@.votes, *round, *voter),
    {
        let mut i: usize = self.votes.len();
        assert(self.votes@.take(i as int) =~= self.votes@);
        while i > 0
            invariant
                i <= self.votes@.len(),
                latest_vote(self.votes@, *round, *voter) == latest_vote(self.votes@.take(i as int), *round, *voter),
            decreases i,
        {
            let vote = self.votes[i - 1];
            assert(self.votes@.take(i as int).drop_last() =~= self.votes@.take(i - 1));
            if vote.message.vote_step == *round && vote.voter == *voter {
                return Some(vote.message);
            }
            i = i - 1;
        }
        None
    }

    /// Records the vote `message` of `voter`. A vote that is on record already changes nothing; a
    /// second vote in a round is recorded, does not count, and is reported.
    pub fn vote(&mut self, message: ConsensusMessage, voter: Address) -> (r: Option<DoubleVote>)
        requires
            old(self).wf(),
        ensures
            final(self).wf(),
            final(self)@.votes == recorded(old(self)@.votes, message, voter),
            final(self)@.pristine == old(self)@.pristine,
            r == double_vote(old(self)@.votes, message, voter),
    {
        proof {
            lemma_recorded(self.votes@, message, voter);
        }
        if self.find(&message).is_some() {
            return None;
        }
        let round = message.vote_step;
        let previous = self.latest(&round, &voter);
        let vote = Vote { message, voter, counted: previous.is_none() };
        let mut place: usize = self.votes.len();
        assert(self.votes@.take(place as int) =~= self.votes@);
        while place > 0 && round.is_before(&self.votes[place - 1].message.vote_step)
            invariant
                place <= self.votes@.len(),
                place_index(self.votes@, round) == place_index(self.votes@.take(place as int), round),
            decreases place,
        {
            assert(self.votes@.take(place as int).drop_last() =~= self.votes@.take(place - 1));
            place = place - 1;
        }
        proof {
            lemma_placed(self.votes@, vote);
        }
        self.votes.insert(place, vote);
        match previous {
            Some(vote_one) => Some(DoubleVote { author: voter, vote_one, vote_two: message }),
            None => None,
        }
    }

    /// Whether a message needs no handling: it is on record, or its round is not later than the
    /// oldest one.
    pub fn is_old_or_known(&self, message: &ConsensusMessage) -> (r: bool)
        ensures
            r == (is_known(self@.votes, *message) || is_oldest(self@.votes, self@.pristine, message.vote_step)),
    {
        if self.find(message).is_some() {
            return true;
        }
        let first = VoteStep::new(0, 0, Step::Propose);
        if self.pristine && first.is_before(&message.vote_step) {
            return false;
        }
        let mut i: usize = 0;
        while i < self.votes.len()
            invariant
                i <= self.votes@.len(),
                !is_known(self.votes@, *message),
                self.pristine ==> !VoteStep::spec_first().spec_before(message.vote_step),
                forall|j: int|
                    0 <= j < i ==> !(#[trigger] self.votes@[j]).message.vote_step.spec_before(message.vote_step),
            decreases self.votes@.len() - i,
        {
            if self.votes[i].message.vote_step.is_before(&message.vote_step) {
                assert(self.votes@[i as int].message.vote_step.spec_before(message.vote_step));
                return false;
            }
            i = i + 1;
        }
        true
    }

    /// Throws out the rounds before `round`, which is then the oldest.
    pub fn throw_out_old(&mut self, round: &VoteStep)
        requires
            old(self).wf(),
        ensures
            final(self).wf(),
            final(self)@.votes == votes_from(old(self)@.votes, *round),
            final(self)@.pristine == (old(self)@.pristine && !VoteStep::spec_first().spec_before(*round)),
    {
        let first = VoteStep::new(0, 0, Step::Propose);
        if first.is_before(round) {
            self.pristine = false;
        }
        let mut k: usize = 0;
        while k < self.votes.len() && self.votes[k].message.vote_step.is_before(round)
            invariant
                k <= self.votes@.len(),
                forall|j: int| 0 <= j < k ==> (#[trigger] self.votes@[j]).message.vote_step.spec_before(*round),
            decreases self.votes@.len() - k,
        {
            k = k + 1;
        }
        proof {
            lemma_votes_from(self.votes@, *round, k as int);
        }
        let kept = self.votes.split_off(k);
        self.votes = kept;
    }

    /// The signatures of the votes that count in a round for a block.
    pub fn round_signatures(&self, round: &VoteStep, block_hash: &BlockHash) -> (r: Vec<H520>)
        ensures
            r@ == block_signatures(self@.votes, *round, *block_hash),
    {
        let ghost pred = |v: Vote|
            v.counted && v.message.vote_step == *round && v.message.block_hash == Some(*block_hash);
        let ghost sign = |v: Vote| v.message.signature;
        let wanted = Some(*block_hash);
        let mut r: Vec<H520> = Vec::new();
        let mut i: usize = 0;
        assert(self.votes@.take(0).filter(pred).map_values(sign) =~= Seq::<H520>::empty()) by {
            reveal(Seq::filter);
        }
        while i < self.votes.len()
            invariant
                i <= self.votes@.len(),
                wanted == Some(*block_hash),
                pred == (|v: Vote|
                    v.counted && v.message.vote_step == *round && v.message.block_hash == Some(*block_hash)),
                sign == (|v: Vote| v.message.signature),
                r@ == self.votes@.take(i as int).filter(pred).map_values(sign),
            decreases self.votes@.len() - i,
        {
            let vote = self.votes[i];
            let ghost before = self.votes@.take(i as int);
            if vote.counted && vote.message.vote_step == *round && same_block(&vote.message.block_hash, &wanted) {
                r.push(vote.message.signature);
            }
            i = i + 1;
            proof {
                lemma_filter_step(self.votes@, i - 1, pred);
                if pred(vote) {
                    assert(before.filter(pred).push(vote).map_values(sign) =~= before.filter(pred).map_values(sign).push(
                        vote.message.signature,
                    ));
                }
            }
        }
        assert(self.votes@.take(i as int) =~= self.votes@);
        r
    }

    /// The number of votes that count in the round of `message` and are for the same block.
    pub fn count_aligned_votes(&self, message: &ConsensusMessage) -> (r: usize)
        ensures
            r == aligned_votes(self@.votes, *message).len(),
    {
        let ghost pred = |v: Vote|
            v.counted && v.message.vote_step == message.vote_step && v.message.block_hash == message.block_hash;
        let mut n: usize = 0;
        let mut i: usize = 0;
        assert(self.votes@.take(0).filter(pred).len() == 0) by {
            reveal(Seq::filter);
        }
        while i < self.votes.len()
            invariant
                n <= i <= self.votes@.len(),
                pred == (|v: Vote|
                    v.counted && v.message.vote_step == message.vote_step && v.message.block_hash
                        == message.block_hash),
                n == self.votes@.take(i as int).filter(pred).len(),
            decreases self.votes@.len() - i,
        {
            let vote = self.votes[i];
            if vote.counted && vote.message.vote_step == message.vote_step && same_block(
                &vote.message.block_hash,
                &message.block_hash,
            ) {
                n = n + 1;
            }
            i = i + 1;
            proof {
                lemma_filter_step(self.votes@, i - 1, pred);
            }
        }
        assert(self.votes@.take(i as int) =~= self.votes@);
        n
    }

    /// The number of votes that count in a round.
    pub fn count_round_votes(&self, round: &VoteStep) -> (r: usize)
        ensures
            r == round_votes(self@.votes, *round).len(),
    {
        let ghost pred = |v: Vote| v.counted && v.message.vote_step == *round;
        let mut n: usize = 0;
        let mut i: usize = 0;
        assert(self.votes@.take(0).filter(pred).len() == 0) by {
            reveal(Seq::filter);
        }
        while i < self.votes.len()
            invariant
                n <= i <= self.votes@.len(),
                pred == (|v: Vote| v.counted && v.message.vote_step == *round),
                n == self.votes@.take(i as int).filter(pred).len(),
            decreases self.votes@.len() - i,
        {
            let vote = self.votes[i];
            if vote.counted && vote.message.vote_step == *round {
                n = n + 1;
            }
            i = i + 1;
            proof {
                lemma_filter_step(self.votes@, i - 1, pred);
            }
        }
        assert(self.votes@.take(i as int) =~= self.votes@);
        n
    }

    /// The encodings of the votes of the voting steps up to and with a round.
    pub fn get_up_to(&self, round: &VoteStep) -> (r: Vec<Vec<u8>>)
        ensures
            strings_of(r@) == messages_up_to(self@.votes, *round).map_values(
                |m: ConsensusMessage| message_rlp(m),
            ),
            forall|i: int| 0 <= i < r@.len() ==> is_understood(#[trigger] messages_up_to(self@.votes, *round)[i]),
    {
        let ghost pred = |v: Vote| !round.spec_before(v.message.vote_step) && v.message.spec_is_broadcastable();
        let ghost message = |v: Vote| v.message;
        let ghost wire = |m: ConsensusMessage| message_rlp(m);
        let mut r: Vec<Vec<u8>> = Vec::new();
        let mut i: usize = 0;
        assert(strings_of(r@) =~= self.votes@.take(0).filter(pred).map_values(message).map_values(wire)) by {
            reveal(Seq::filter);
        }
        while i < self.votes.len()
            invariant
                i <= self.votes@.len(),
                pred == (|v: Vote| !round.spec_before(v.message.vote_step) && v.message.spec_is_broadcastable()),
                message == (|v: Vote| v.message),
                wire == (|m: ConsensusMessage| message_rlp(m)),
                strings_of(r@) == self.votes@.take(i as int).filter(pred).map_values(message).map_values(wire),
                forall|j: int|
                    0 <= j < r@.len() ==> is_understood((#[trigger] self.votes@.take(i as int).filter(pred)[j]).message),
            decreases self.votes@.len() - i,
        {
            let vote = self.votes[i];
            let ghost before = self.votes@.take(i as int).filter(pred);
            let ghost sent = r@;
            if !round.is_before(&vote.message.vote_step) && vote.message.is_broadcastable() {
                r.push(vote.message.encode());
            }
            i = i + 1;
            proof {
                lemma_filter_step(self.votes@, i - 1, pred);
                if pred(vote) {
                    assert(sent.len() == strings_of(sent).len() == before.len());
                    assert(strings_of(r@) =~= strings_of(sent).push(message_rlp(vote.message)));
                    assert(before.push(vote).map_values(message).map_values(wire) =~= before.map_values(message).map_values(
                        wire,
                    ).push(message_rlp(vote.message)));
                }
            }
        }
        assert(self.votes@.take(i as int) =~= self.votes@);
        r
    }

    /// The voter whose counted vote is `message`.
    pub fn get(&self, message: &ConsensusMessage) -> (r: Option<Address>)
        requires
            self.wf(),
        ensures
            r == voter_of(self@.votes, *message),
    {
        match self.find(message) {
            Some(i) => {
                proof {
                    assert forall|j: int| 0 <= j < self.votes@.len() && (#[trigger] self.votes@[j]).message
                        == *message implies j == i by {
                        if j < i {
                            assert(self.votes@[j].message != self.votes@[i as int].message);
                        } else if j > i {
                            assert(self.votes@[i as int].message != self.votes@[j].message);
                        }
                    }
                }
                if self.votes[i].counted {
                    Some(self.votes[i].voter)
                } else {
                    None
                }
            },
            None => None,
        }
    }
}

/// Filtering one vote more.
pub(crate) proof fn lemma_filter_step(votes: Seq<Vote>, i: int, pred: spec_fn(Vote) -> bool)
    requires
        0 <= i < votes.len(),
    ensures
        votes.take(i + 1).filter(pred) == if pred(votes[i]) {
            votes.take(i).filter(pred).push(votes[i])
        } else {
            votes.take(i).filter(pred)
        },
{
    reveal(Seq::filter);
    assert(votes.take(i + 1).drop_last() =~= votes.take(i));
}

} // verus!
