//! What is on record, who supports what, and when that is enough.

use super::voters_of;
use crate::message::{ConsensusMessage, VoteStep};
use crate::primitives::{Address, BlockHash, H520};
use crate::step::Step;
use crate::validators::{is_quorum, threshold_of};
use crate::votes::{
    aligned_votes, block_signatures, counts_for, double_vote, in_order, is_known, is_oldest,
    is_record, is_represented, latest_vote, messages_up_to, none_counts_twice, placed, recorded, round_votes, voter_of,
    votes_from, Vote,
};
use vstd::prelude::*;

verus! {

// ---------------------------------------------------------------------------------------------
// Rounds
// ---------------------------------------------------------------------------------------------

/// The place of a step within a view.
pub open spec fn rank(step: Step) -> int {
    match step {
        Step::Propose => 0,
        Step::Prevote => 1,
        Step::Precommit => 2,
        Step::Commit => 3,
    }
}

/// One round comes before another: at a lower height, or in an earlier view of the height, or in an
/// earlier step of the view.
pub open spec fn is_earlier(a: VoteStep, b: VoteStep) -> bool {
    if a.height != b.height {
        a.height < b.height
    } else if a.view != b.view {
        a.view < b.view
    } else {
        rank(a.step) < rank(b.step)
    }
}

/// Rounds stand in the order of their heights, then of their views, then of their steps.
pub proof fn law_order_of_rounds(a: VoteStep, b: VoteStep)
    ensures
        a.spec_before(b) <==> is_earlier(a, b),
{
}

/// Validators vote in two steps of a view: they prevote, and then they precommit.
pub proof fn law_voting_steps(step: Step)
    ensures
        step.spec_is_pre() <==> rank(step) == 1 || rank(step) == 2,
        step.spec_number() == rank(step),
{
}

// ---------------------------------------------------------------------------------------------
// Enough
// ---------------------------------------------------------------------------------------------

/// So many decide: more than two thirds of all.
pub open spec fn is_enough(count: nat, validators: nat) -> bool {
    3 * count > 2 * validators
}

/// A quorum is more than two thirds, and the threshold is the largest number that is none.
pub proof fn law_quorum_is_more_than_two_thirds(count: nat, validators: nat)
    ensures
        is_quorum(count, validators) <==> is_enough(count, validators),
        is_enough(threshold_of(validators) + 1, validators),
        !is_enough(threshold_of(validators), validators),
{
}

// ---------------------------------------------------------------------------------------------
// Supporters
// ---------------------------------------------------------------------------------------------

/// The vote of `a` that counts in the round is for `block`.
pub open spec fn supports(votes: Seq<Vote>, round: VoteStep, block: Option<BlockHash>, a: Address) -> bool {
    exists|i: int|
        0 <= i < votes.len() && (#[trigger] votes[i]).counted && votes[i].voter == a && votes[i].message.vote_step == round
            && votes[i].message.block_hash == block
}

/// `a` has voted in the round.
pub open spec fn participates(votes: Seq<Vote>, round: VoteStep, a: Address) -> bool {
    exists|i: int| 0 <= i < votes.len() && (#[trigger] votes[i]).voter == a && votes[i].message.vote_step == round
}

/// Those whose vote in the round is for `block`.
pub open spec fn supporters(votes: Seq<Vote>, round: VoteStep, block: Option<BlockHash>) -> Set<Address> {
    Set::new(|a: Address| supports(votes, round, block, a))
}

/// Those who have voted in the round.
pub open spec fn participants(votes: Seq<Vote>, round: VoteStep) -> Set<Address> {
    Set::new(|a: Address| participates(votes, round, a))
}

/// More than two thirds of the validators are for `block` in the round.
pub open spec fn is_decided(votes: Seq<Vote>, round: VoteStep, block: Option<BlockHash>, validators: nat) -> bool {
    is_enough(supporters(votes, round, block).len(), validators)
}

/// More than two thirds of the validators have voted in the round.
pub open spec fn has_turned_out(votes: Seq<Vote>, round: VoteStep, validators: nat) -> bool {
    is_enough(participants(votes, round).len(), validators)
}

/// Those behind the counted votes that `pred` keeps.
proof fn lemma_voters_kept(votes: Seq<Vote>, round: VoteStep, pred: spec_fn(Vote) -> bool)
    requires
        none_counts_twice(votes),
        forall|v: Vote| #[trigger] pred(v) ==> v.counted && v.message.vote_step == round,
    ensures
        voters_of(votes.filter(pred)).no_duplicates(),
        votes.filter(pred).len() == voters_of(votes.filter(pred)).to_set().len(),
        forall|a: Address| #[trigger]
            voters_of(votes.filter(pred)).to_set().contains(a) <==> exists|i: int|
                0 <= i < votes.len() && pred(#[trigger] votes[i]) && votes[i].voter == a,
{
    super::lemma_counted_voters_differ(votes, round, pred);
    let kept = votes.filter(pred);
    voters_of(kept).unique_seq_to_set();
    assert forall|a: Address| #[trigger]
        voters_of(kept).to_set().contains(a) <==> exists|i: int|
            0 <= i < votes.len() && pred(#[trigger] votes[i]) && votes[i].voter == a by {
        if voters_of(kept).contains(a) {
            let k = choose|k: int| 0 <= k < kept.len() && voters_of(kept)[k] == a;
            votes.lemma_filter_pred(pred, k);
            votes.lemma_filter_contains_rev(pred, kept[k]);
            let i = choose|i: int| 0 <= i < votes.len() && votes[i] == kept[k];
            assert(pred(votes[i]) && votes[i].voter == a);
        }
        if exists|i: int| 0 <= i < votes.len() && pred(#[trigger] votes[i]) && votes[i].voter == a {
            let i = choose|i: int| 0 <= i < votes.len() && pred(#[trigger] votes[i]) && votes[i].voter == a;
            votes.lemma_filter_contains(pred, i);
            let k = choose|k: int| 0 <= k < kept.len() && kept[k] == votes[i];
            assert(voters_of(kept)[k] == a);
        }
    }
}

/// The votes that agree with a message are as many as the validators that are for its block in its
/// round.
pub proof fn law_aligned_votes_count_supporters(votes: Seq<Vote>, m: ConsensusMessage)
    requires
        is_record(votes),
    ensures
        aligned_votes(votes, m).len() == supporters(votes, m.vote_step, m.block_hash).len(),
{
    let pred = |v: Vote|
        v.counted && v.message.vote_step == m.vote_step && v.message.block_hash == m.block_hash;
    lemma_voters_kept(votes, m.vote_step, pred);
    assert forall|a: Address| #[trigger]
        voters_of(votes.filter(pred)).to_set().contains(a) <==> supporters(votes, m.vote_step, m.block_hash).contains(
            a,
        ) by {
        if supports(votes, m.vote_step, m.block_hash, a) {
            let i = choose|i: int|
                0 <= i < votes.len() && (#[trigger] votes[i]).counted && votes[i].voter == a
                    && votes[i].message.vote_step == m.vote_step && votes[i].message.block_hash == m.block_hash;
            assert(pred(votes[i]));
        }
    }
    assert(voters_of(votes.filter(pred)).to_set() =~= supporters(votes, m.vote_step, m.block_hash));
}

/// The votes that count in a round are as many as the validators that have voted in it.
pub proof fn law_round_votes_count_participants(votes: Seq<Vote>, round: VoteStep)
    requires
        is_record(votes),
    ensures
        round_votes(votes, round).len() == participants(votes, round).len(),
{
    let pred = |v: Vote| v.counted && v.message.vote_step == round;
    lemma_voters_kept(votes, round, pred);
    assert forall|a: Address| #[trigger]
        voters_of(votes.filter(pred)).to_set().contains(a) <==> participants(votes, round).contains(a) by {
        if participates(votes, round, a) {
            let j = choose|j: int|
                0 <= j < votes.len() && (#[trigger] votes[j]).voter == a && votes[j].message.vote_step == round;
            assert(is_represented(votes, j));
            let i = choose|i: int| #[trigger] counts_for(votes, i, j);
            assert(pred(votes[i]) && votes[i].voter == a);
        }
    }
    assert(voters_of(votes.filter(pred)).to_set() =~= participants(votes, round));
}

/// The signatures of a seal are those of the validators that are for the block in the round: as
/// many, and each of them and no other.
pub proof fn law_seal_signatures_are_the_supporters(votes: Seq<Vote>, round: VoteStep, block_hash: BlockHash)
    requires
        is_record(votes),
    ensures
        block_signatures(votes, round, block_hash).len() == supporters(votes, round, Some(block_hash)).len(),
        forall|s: H520| #[trigger]
            block_signatures(votes, round, block_hash).contains(s) <==> exists|i: int|
                0 <= i < votes.len() && (#[trigger] votes[i]).counted && votes[i].message == (ConsensusMessage {
                    vote_step: round,
                    block_hash: Some(block_hash),
                    signature: s,
                }),
{
    let pred = |v: Vote|
        v.counted && v.message.vote_step == round && v.message.block_hash == Some(block_hash);
    let kept = votes.filter(pred);
    let signatures = block_signatures(votes, round, block_hash);
    lemma_voters_kept(votes, round, pred);
    assert(voters_of(kept).to_set() =~= supporters(votes, round, Some(block_hash))) by {
        assert forall|a: Address| #[trigger]
            voters_of(kept).to_set().contains(a) <==> supporters(votes, round, Some(block_hash)).contains(a) by {
            if supports(votes, round, Some(block_hash), a) {
                let i = choose|i: int|
                    0 <= i < votes.len() && (#[trigger] votes[i]).counted && votes[i].voter == a
                        && votes[i].message.vote_step == round && votes[i].message.block_hash == Some(block_hash);
                assert(pred(votes[i]));
            }
        }
    }
    assert forall|s: H520| #[trigger]
        signatures.contains(s) <==> exists|i: int|
            0 <= i < votes.len() && (#[trigger] votes[i]).counted && votes[i].message == (ConsensusMessage {
                vote_step: round,
                block_hash: Some(block_hash),
                signature: s,
            }) by {
        let m = ConsensusMessage { vote_step: round, block_hash: Some(block_hash), signature: s };
        if signatures.contains(s) {
            let k = choose|k: int| 0 <= k < kept.len() && signatures[k] == s;
            votes.lemma_filter_pred(pred, k);
            votes.lemma_filter_contains_rev(pred, kept[k]);
            let i = choose|i: int| 0 <= i < votes.len() && votes[i] == kept[k];
            assert(votes[i].counted && votes[i].message == m);
        }
        if exists|i: int| 0 <= i < votes.len() && (#[trigger] votes[i]).counted && votes[i].message == m {
            let i = choose|i: int| 0 <= i < votes.len() && (#[trigger] votes[i]).counted && votes[i].message == m;
            assert(pred(votes[i]));
            votes.lemma_filter_contains(pred, i);
            let k = choose|k: int| 0 <= k < kept.len() && kept[k] == votes[i];
            assert(signatures[k] == s);
        }
    }
}

// ---------------------------------------------------------------------------------------------
// The record
// ---------------------------------------------------------------------------------------------

/// What was voted in a round, and by whom, in the order in which it came.
pub open spec fn log(votes: Seq<Vote>, round: VoteStep) -> Seq<(ConsensusMessage, Address)> {
    votes.filter(|v: Vote| v.message.vote_step == round).map_values(|v: Vote| (v.message, v.voter))
}

/// The votes of a round after one more vote has been put in place.
proof fn lemma_placed_log(votes: Seq<Vote>, vote: Vote, round: VoteStep)
    requires
        in_order(votes),
    ensures
        log(placed(votes, vote), round) == if vote.message.vote_step == round {
            log(votes, round).push((vote.message, vote.voter))
        } else {
            log(votes, round)
        },
    decreases votes.len(),
{
    reveal(Seq::filter);
    let pred = |v: Vote| v.message.vote_step == round;
    let f = |v: Vote| (v.message, v.voter);
    if votes.len() == 0 || !vote.message.vote_step.spec_before(votes.last().message.vote_step) {
        assert(votes.push(vote).drop_last() =~= votes);
        if pred(vote) {
            assert(votes.filter(pred).push(vote).map_values(f) =~= votes.filter(pred).map_values(f).push(f(vote)));
        }
    } else {
        let front = votes.drop_last();
        let last = votes.last();
        assert(in_order(front)) by {
            assert forall|i: int, j: int| 0 <= i < j < front.len() implies !(#[trigger] front[j]).message.vote_step.spec_before(
                (#[trigger] front[i]).message.vote_step,
            ) by {
                assert(!votes[j].message.vote_step.spec_before(votes[i].message.vote_step));
            }
        }
        lemma_placed_log(front, vote, round);
        let more = placed(front, vote);
        assert(more.push(last).drop_last() =~= more);
        // The vote is of an earlier round than the last one, so that at most one of them is of
        // the round in question.
        if pred(last) {
            assert(!pred(vote));
            assert(more.filter(pred).push(last).map_values(f) =~= more.filter(pred).map_values(f).push(f(last)));
            assert(front.filter(pred).push(last).map_values(f) =~= front.filter(pred).map_values(f).push(f(last)));
        }
    }
}

/// Recording a vote that is not on record yet adds it behind what was voted in its round, and
/// changes no other round. Recording one that is on record changes nothing.
pub proof fn law_recording_adds_the_vote(votes: Seq<Vote>, m: ConsensusMessage, voter: Address, round: VoteStep)
    requires
        is_record(votes),
    ensures
        log(recorded(votes, m, voter), round) == if m.vote_step == round && !(exists|i: int|
            0 <= i < votes.len() && (#[trigger] votes[i]).message == m) {
            log(votes, round).push((m, voter))
        } else {
            log(votes, round)
        },
{
    if !is_known(votes, m) {
        lemma_placed_log(
            votes,
            Vote { message: m, voter, counted: latest_vote(votes, m.vote_step, voter) is None },
            round,
        );
    }
}

/// A vote that has been put in place is there, and all others stay as they are.
proof fn lemma_placed_contains(votes: Seq<Vote>, vote: Vote, v: Vote)
    ensures
        placed(votes, vote).contains(v) <==> v == vote || votes.contains(v),
    decreases votes.len(),
{
    let all = placed(votes, vote);
    if votes.len() == 0 || !vote.message.vote_step.spec_before(votes.last().message.vote_step) {
        assert(all == votes.push(vote));
        assert(all[votes.len() as int] == vote);
        if votes.contains(v) {
            let i = choose|i: int| 0 <= i < votes.len() && votes[i] == v;
            assert(all[i] == v);
        }
    } else {
        let front = votes.drop_last();
        let last = votes.last();
        lemma_placed_contains(front, vote, v);
        let more = placed(front, vote);
        assert(all == more.push(last));
        assert(all[more.len() as int] == last);
        assert(votes[votes.len() - 1] == last);
        if more.contains(v) {
            let i = choose|i: int| 0 <= i < more.len() && more[i] == v;
            assert(all[i] == v);
        }
        if front.contains(v) {
            let i = choose|i: int| 0 <= i < front.len() && front[i] == v;
            assert(votes[i] == v);
        }
        if all.contains(v) && v != last {
            let i = choose|i: int| 0 <= i < all.len() && all[i] == v;
            assert(more[i] == v);
        }
        if votes.contains(v) && v != last {
            let i = choose|i: int| 0 <= i < votes.len() && votes[i] == v;
            assert(front[i] == v);
        }
    }
}

/// Of each voter the first vote of a round counts, and no later one: a vote that is recorded counts
/// if and only if its voter had not voted in the round before. What is on record stays there, and
/// counts or not as before.
pub proof fn law_first_vote_counts(votes: Seq<Vote>, m: ConsensusMessage, voter: Address, v: Vote)
    requires
        !(exists|i: int| 0 <= i < votes.len() && (#[trigger] votes[i]).message == m),
    ensures
        recorded(votes, m, voter).contains(v) <==> votes.contains(v) || v == (Vote {
            message: m,
            voter,
            counted: !participates(votes, m.vote_step, voter),
        }),
{
    lemma_latest(votes, m.vote_step, voter);
    lemma_placed_contains(
        votes,
        Vote { message: m, voter, counted: latest_vote(votes, m.vote_step, voter) is None },
        v,
    );
}

/// The latest vote of a voter in a round is on record with none of theirs behind it in the round.
proof fn lemma_latest(votes: Seq<Vote>, round: VoteStep, voter: Address)
    ensures
        latest_vote(votes, round, voter) is Some <==> participates(votes, round, voter),
        latest_vote(votes, round, voter) matches Some(m) ==> exists|j: int|
            {
                &&& 0 <= j < votes.len()
                &&& (#[trigger] votes[j]).message == m
                &&& votes[j].voter == voter
                &&& m.vote_step == round
                &&& forall|i: int|
                    j < i < votes.len() ==> !((#[trigger] votes[i]).voter == voter && votes[i].message.vote_step == round)
            },
    decreases votes.len(),
{
    if votes.len() > 0 {
        let front = votes.drop_last();
        let n = votes.len() - 1;
        lemma_latest(front, round, voter);
        if votes.last().message.vote_step == round && votes.last().voter == voter {
            assert(votes[n].voter == voter && votes[n].message.vote_step == round);
        } else {
            if participates(front, round, voter) {
                let m = latest_vote(front, round, voter)->0;
                let j = choose|j: int|
                    {
                        &&& 0 <= j < front.len()
                        &&& (#[trigger] front[j]).message == m
                        &&& front[j].voter == voter
                        &&& m.vote_step == round
                        &&& forall|i: int|
                            j < i < front.len() ==> !((#[trigger] front[i]).voter == voter && front[i].message.vote_step
                                == round)
                    };
                assert(votes[j].message == m && votes[j].voter == voter);
                assert forall|i: int| j < i < votes.len() implies !((#[trigger] votes[i]).voter == voter
                    && votes[i].message.vote_step == round) by {
                    if i < n {
                        assert(front[i] == votes[i]);
                    }
                }
            }
            if participates(votes, round, voter) {
                let i = choose|i: int|
                    0 <= i < votes.len() && (#[trigger] votes[i]).voter == voter && votes[i].message.vote_step == round;
                assert(front[i] == votes[i]);
            }
        }
    }
}

/// `one` is what `voter` voted last in its round.
pub open spec fn is_latest(votes: Seq<Vote>, one: ConsensusMessage, voter: Address) -> bool {
    exists|j: int|
        {
            &&& 0 <= j < votes.len()
            &&& (#[trigger] votes[j]).message == one
            &&& votes[j].voter == voter
            &&& forall|i: int|
                j < i < votes.len() ==> !((#[trigger] votes[i]).voter == voter && votes[i].message.vote_step
                    == one.vote_step)
        }
}

/// A vote is a double vote if and only if it is not on record and its voter has voted in its round
/// before. The offence names the voter, what they voted last, and what they vote now.
pub proof fn law_double_votes(votes: Seq<Vote>, m: ConsensusMessage, voter: Address)
    ensures
        double_vote(votes, m, voter) is Some <==> participates(votes, m.vote_step, voter) && !(exists|i: int|
            0 <= i < votes.len() && (#[trigger] votes[i]).message == m),
        double_vote(votes, m, voter) matches Some(double) ==> {
            &&& double.author == voter
            &&& double.vote_two == m
            &&& double.vote_one.vote_step == m.vote_step
            &&& is_latest(votes, double.vote_one, voter)
        },
{
    lemma_latest(votes, m.vote_step, voter);
}

/// A message needs no handling if and only if it is on record, or its round is not later than any
/// round on record, of which the very first one is one until rounds have been thrown out.
pub proof fn law_old_messages(votes: Seq<Vote>, pristine: bool, m: ConsensusMessage)
    ensures
        is_known(votes, m) <==> exists|i: int| 0 <= i < votes.len() && (#[trigger] votes[i]).message == m,
        is_oldest(votes, pristine, m.vote_step) <==> {
            &&& forall|i: int| 0 <= i < votes.len() ==> !is_earlier((#[trigger] votes[i]).message.vote_step, m.vote_step)
            &&& pristine ==> m.vote_step == (VoteStep { height: 0, view: 0, step: Step::Propose })
        },
{
    if is_oldest(votes, pristine, m.vote_step) {
        assert forall|i: int| 0 <= i < votes.len() implies !is_earlier(
            (#[trigger] votes[i]).message.vote_step,
            m.vote_step,
        ) by {
            law_order_of_rounds(votes[i].message.vote_step, m.vote_step);
        }
    }
}

/// Throwing out old rounds keeps the votes of a round and of all later ones, as they are and in
/// their order, and no others.
pub proof fn law_throwing_out(votes: Seq<Vote>, round: VoteStep, other: VoteStep, v: Vote)
    ensures
        votes_from(votes, round).contains(v) <==> votes.contains(v) && !is_earlier(v.message.vote_step, round),
        log(votes_from(votes, round), other) == if is_earlier(other, round) {
            Seq::<(ConsensusMessage, Address)>::empty()
        } else {
            log(votes, other)
        },
{
    let pred = |v: Vote| !v.message.vote_step.spec_before(round);
    if votes_from(votes, round).contains(v) {
        let k = choose|k: int| 0 <= k < votes_from(votes, round).len() && votes_from(votes, round)[k] == v;
        votes.lemma_filter_pred(pred, k);
        votes.lemma_filter_contains_rev(pred, v);
    }
    if votes.contains(v) && !is_earlier(v.message.vote_step, round) {
        let i = choose|i: int| 0 <= i < votes.len() && votes[i] == v;
        votes.lemma_filter_contains(pred, i);
    }
    lemma_votes_from_log(votes, round, other);
}

proof fn lemma_votes_from_log(votes: Seq<Vote>, round: VoteStep, other: VoteStep)
    ensures
        log(votes_from(votes, round), other) == if is_earlier(other, round) {
            Seq::<(ConsensusMessage, Address)>::empty()
        } else {
            log(votes, other)
        },
    decreases votes.len(),
{
    reveal(Seq::filter);
    let f = |v: Vote| (v.message, v.voter);
    let pred = |v: Vote| v.message.vote_step == other;
    if votes.len() > 0 {
        let front = votes.drop_last();
        let last = votes.last();
        lemma_votes_from_log(front, round, other);
        let kept = votes_from(front, round);
        assert(kept.push(last).drop_last() =~= kept);
        if pred(last) {
            assert(kept.filter(pred).push(last).map_values(f) =~= kept.filter(pred).map_values(f).push(f(last)));
            assert(front.filter(pred).push(last).map_values(f) =~= front.filter(pred).map_values(f).push(f(last)));
        }
    } else {
        assert(votes.filter(pred).map_values(f) =~= Seq::<(ConsensusMessage, Address)>::empty());
        assert(votes_from(votes, round) =~= votes);
    }
}

/// The voter behind a message is known if and only if the message is on record as a vote that
/// counts, and is who cast it.
pub proof fn law_known_voters(votes: Seq<Vote>, m: ConsensusMessage, a: Address)
    requires
        is_record(votes),
    ensures
        voter_of(votes, m) == Some(a) <==> exists|i: int|
            0 <= i < votes.len() && (#[trigger] votes[i]).counted && votes[i].message == m && votes[i].voter == a,
{
    if exists|i: int| 0 <= i < votes.len() && (#[trigger] votes[i]).counted && votes[i].message == m {
        let i = choose|i: int| 0 <= i < votes.len() && (#[trigger] votes[i]).counted && votes[i].message == m;
        super::lemma_voter_of_counted(votes, i);
        assert forall|j: int| 0 <= j < votes.len() && (#[trigger] votes[j]).counted && votes[j].message == m implies votes[j].voter
            == votes[i].voter by {
            super::lemma_voter_of_counted(votes, j);
        }
    }
}

/// A vote that peers are told of again: a prevote or a precommit of a round that is not later than
/// `round`, of whatever view and height.
pub open spec fn is_resent(votes: Seq<Vote>, round: VoteStep, x: ConsensusMessage) -> bool {
    &&& exists|i: int| 0 <= i < votes.len() && (#[trigger] votes[i]).message == x
    &&& rank(x.vote_step.step) == 1 || rank(x.vote_step.step) == 2
    &&& !is_earlier(round, x.vote_step)
}

/// Every prevote and every precommit on record up to and with a round is sent again, whatever its
/// view, once, whether it counts or not; nothing else is; and earlier rounds come first.
pub proof fn law_old_votes_are_sent_again(votes: Seq<Vote>, round: VoteStep, x: ConsensusMessage)
    requires
        is_record(votes),
    ensures
        messages_up_to(votes, round).contains(x) <==> is_resent(votes, round, x),
        messages_up_to(votes, round).no_duplicates(),
        forall|i: int, j: int|
            0 <= i < j < messages_up_to(votes, round).len() ==> !is_earlier(
                (#[trigger] messages_up_to(votes, round)[j]).vote_step,
                (#[trigger] messages_up_to(votes, round)[i]).vote_step,
            ),
{
    let pred = |v: Vote| !round.spec_before(v.message.vote_step) && v.message.spec_is_broadcastable();
    let kept = votes.filter(pred);
    let sent = messages_up_to(votes, round);
    if sent.contains(x) {
        let k = choose|k: int| 0 <= k < kept.len() && sent[k] == x;
        votes.lemma_filter_pred(pred, k);
        votes.lemma_filter_contains_rev(pred, kept[k]);
        let i = choose|i: int| 0 <= i < votes.len() && votes[i] == kept[k];
        assert(votes[i].message == x);
        law_order_of_rounds(round, x.vote_step);
    }
    if is_resent(votes, round, x) {
        let i = choose|i: int| 0 <= i < votes.len() && (#[trigger] votes[i]).message == x;
        law_order_of_rounds(round, x.vote_step);
        assert(pred(votes[i]));
        votes.lemma_filter_contains(pred, i);
        let k = choose|k: int| 0 <= k < kept.len() && kept[k] == votes[i];
        assert(sent[k] == x);
    }
    lemma_filter_in_order(votes, pred);
    assert forall|i: int, j: int| 0 <= i < j < sent.len() implies sent[i] != sent[j] && !is_earlier(
        (#[trigger] sent[j]).vote_step,
        (#[trigger] sent[i]).vote_step,
    ) by {
        assert(sent[i] == kept[i].message && sent[j] == kept[j].message);
        law_order_of_rounds(sent[j].vote_step, sent[i].vote_step);
    }
}

/// What a filter keeps is in order, and holds no message twice.
proof fn lemma_filter_in_order(votes: Seq<Vote>, pred: spec_fn(Vote) -> bool)
    requires
        is_record(votes),
    ensures
        forall|i: int, j: int|
            0 <= i < j < votes.filter(pred).len() ==> {
                &&& (#[trigger] votes.filter(pred)[i]).message != (#[trigger] votes.filter(pred)[j]).message
                &&& !votes.filter(pred)[j].message.vote_step.spec_before(votes.filter(pred)[i].message.vote_step)
            },
{
    lemma_filter_in_order_up_to(votes, pred, votes.len() as int);
    assert(votes.take(votes.len() as int) =~= votes);
}

proof fn lemma_filter_in_order_up_to(votes: Seq<Vote>, pred: spec_fn(Vote) -> bool, n: int)
    requires
        is_record(votes),
        0 <= n <= votes.len(),
    ensures
        forall|i: int, j: int|
            0 <= i < j < votes.take(n).filter(pred).len() ==> {
                &&& (#[trigger] votes.take(n).filter(pred)[i]).message != (#[trigger] votes.take(n).filter(
                    pred,
                )[j]).message
                &&& !votes.take(n).filter(pred)[j].message.vote_step.spec_before(
                    votes.take(n).filter(pred)[i].message.vote_step,
                )
            },
    decreases n,
{
    reveal(Seq::filter);
    if n > 0 {
        lemma_filter_in_order_up_to(votes, pred, n - 1);
        let front = votes.take(n - 1);
        assert(votes.take(n).drop_last() =~= front);
        let kept = front.filter(pred);
        let last = votes[n - 1];
        if pred(last) {
            let all = kept.push(last);
            assert forall|i: int, j: int| 0 <= i < j < all.len() implies (#[trigger] all[i]).message != (
            #[trigger] all[j]).message && !all[j].message.vote_step.spec_before(all[i].message.vote_step) by {
                if j == kept.len() {
                    front.lemma_filter_contains_rev(pred, kept[i]);
                    let k = choose|k: int| 0 <= k < front.len() && front[k] == kept[i];
                    assert(votes[k].message != votes[n - 1].message);
                    assert(!votes[n - 1].message.vote_step.spec_before(votes[k].message.vote_step));
                } else {
                    assert(all[i] == kept[i] && all[j] == kept[j]);
                }
            }
        }
    }
}

// ---------------------------------------------------------------------------------------------
// Order
// ---------------------------------------------------------------------------------------------

/// `places` are the places of all votes that are wanted, from the first to the last.
pub open spec fn are_places_of(votes: Seq<Vote>, wanted: spec_fn(Vote) -> bool, places: Seq<int>) -> bool {
    &&& forall|k: int, l: int| 0 <= k < l < places.len() ==> (#[trigger] places[k]) < (#[trigger] places[l])
    &&& forall|k: int| 0 <= k < places.len() ==> 0 <= #[trigger] places[k] < votes.len() && wanted(votes[places[k]])
    &&& forall|i: int| 0 <= i < votes.len() && wanted(#[trigger] votes[i]) ==> places.contains(i)
}

/// A filter leaves the votes that it keeps in their order.
proof fn lemma_places(votes: Seq<Vote>, pred: spec_fn(Vote) -> bool) -> (places: Seq<int>)
    ensures
        are_places_of(votes, pred, places),
        votes.filter(pred).len() == places.len(),
        forall|k: int| 0 <= k < places.len() ==> #[trigger] votes.filter(pred)[k] == votes[places[k]],
    decreases votes.len(),
{
    reveal(Seq::filter);
    if votes.len() == 0 {
        Seq::empty()
    } else {
        let front = votes.drop_last();
        let n = votes.len() - 1;
        let before = lemma_places(front, pred);
        assert forall|k: int| 0 <= k < before.len() implies #[trigger] votes[before[k]] == front[before[k]] by {}
        let places = if pred(votes[n]) {
            before.push(n)
        } else {
            before
        };
        assert forall|i: int| 0 <= i < votes.len() && pred(#[trigger] votes[i]) implies places.contains(i) by {
            if i < n {
                assert(pred(front[i]));
                let k = choose|k: int| 0 <= k < before.len() && before[k] == i;
                assert(places[k] == i);
            } else {
                assert(places[before.len() as int] == i);
            }
        }
        assert forall|k: int| 0 <= k < places.len() implies #[trigger] votes.filter(pred)[k] == votes[places[k]] by {
            if k < before.len() {
                assert(front.filter(pred)[k] == front[before[k]]);
            }
        }
        places
    }
}

/// The signatures of a seal stand in the order in which the votes came.
pub proof fn law_seal_signatures_stand_in_order(votes: Seq<Vote>, round: VoteStep, block_hash: BlockHash) -> (places:
    Seq<int>)
    ensures
        are_places_of(
            votes,
            |v: Vote| v.counted && v.message.vote_step == round && v.message.block_hash == Some(block_hash),
            places,
        ),
        block_signatures(votes, round, block_hash).len() == places.len(),
        forall|k: int|
            0 <= k < places.len() ==> #[trigger] block_signatures(votes, round, block_hash)[k]
                == votes[places[k]].message.signature,
{
    lemma_places(
        votes,
        |v: Vote| v.counted && v.message.vote_step == round && v.message.block_hash == Some(block_hash),
    )
}

/// Votes are sent again in the order of the record.
pub proof fn law_old_votes_are_sent_again_in_order(votes: Seq<Vote>, round: VoteStep) -> (places: Seq<int>)
    ensures
        are_places_of(
            votes,
            |v: Vote|
                (v.message.vote_step.step == Step::Prevote || v.message.vote_step.step == Step::Precommit) && !is_earlier(
                    round,
                    v.message.vote_step,
                ),
            places,
        ),
        messages_up_to(votes, round).len() == places.len(),
        forall|k: int|
            0 <= k < places.len() ==> #[trigger] messages_up_to(votes, round)[k] == votes[places[k]].message,
{
    let pred = |v: Vote| !round.spec_before(v.message.vote_step) && v.message.spec_is_broadcastable();
    let wanted = |v: Vote|
        (v.message.vote_step.step == Step::Prevote || v.message.vote_step.step == Step::Precommit) && !is_earlier(
            round,
            v.message.vote_step,
        );
    assert forall|v: Vote| #[trigger] pred(v) == wanted(v) by {
        law_order_of_rounds(round, v.message.vote_step);
    }
    let places = lemma_places(votes, pred);
    assert forall|k: int| 0 <= k < places.len() implies 0 <= #[trigger] places[k] < votes.len() && wanted(
        votes[places[k]],
    ) by {
        assert(pred(votes[places[k]]));
    }
    assert forall|i: int| 0 <= i < votes.len() && wanted(#[trigger] votes[i]) implies places.contains(i) by {
        assert(pred(votes[i]));
    }
    places
}

} // verus!
