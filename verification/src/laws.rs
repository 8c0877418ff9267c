//! What holds of the engine as a whole.

use crate::codec::{items_of, signature_of};
use crate::engine::{proposer_of, Tendermint};
use crate::epoch::light_verdict;
use crate::error::{DecodeError, Error, KeyError};
use crate::message::{info_rlp, ConsensusMessage, Height, ViewNumber, VoteStep};
use crate::primitives::{strings_of, Address, BlockHash, H520};
use crate::seal::{
    commit_seal, fits_seal, proposal_of, reads_as_commit, reads_as_proposal, seal_signatures, seal_view, Header,
};
use crate::engine::sealing::{
    after_proposal, are_origins, commit_round, has_proposer, is_origin, origins_verdict, precommit_of, proposal_verdict,
};
use crate::state::{ActionView, EngineState, Outcome};
use crate::step::Step;
use crate::validators::{is_quorum, ValidatorSet};
use crate::votes::{
    aligned_votes, block_signatures, block_votes, counts_for, double_vote, is_known, is_oldest, is_record,
    is_represented, lemma_recorded, lemma_votes_from_is_record, none_counts_twice, placed, recorded, round_votes,
    voter_of, votes_from, Vote,
};
use vstd::prelude::*;

pub mod counting;
pub mod judging;
pub mod voting;
pub mod wire;

verus! {

// ---------------------------------------------------------------------------------------------
// Rounds
// ---------------------------------------------------------------------------------------------

/// Rounds stand in a strict order, in which any two different ones can be compared.
pub proof fn law_rounds_are_ordered(a: VoteStep, b: VoteStep, c: VoteStep)
    ensures
        !a.spec_before(a),
        a.spec_before(b) && b.spec_before(c) ==> a.spec_before(c),
        a == b || a.spec_before(b) || b.spec_before(a),
{
}

/// No two steps have the same number.
pub proof fn law_step_numbers_differ(a: Step, b: Step)
    ensures
        a.spec_number() == b.spec_number() ==> a == b,
{
}

// ---------------------------------------------------------------------------------------------
// Counting votes
// ---------------------------------------------------------------------------------------------

/// The voters of votes.
pub open spec fn voters_of(votes: Seq<Vote>) -> Seq<Address> {
    votes.map_values(|v: Vote| v.voter)
}

/// Everybody who voted in a round.
pub open spec fn voted_in(votes: Seq<Vote>, round: VoteStep) -> Set<Address> {
    voters_of(votes.filter(|v: Vote| v.message.vote_step == round)).to_set()
}

/// Votes of one round that all count are by different voters.
proof fn lemma_counted_voters_differ(votes: Seq<Vote>, round: VoteStep, pred: spec_fn(Vote) -> bool)
    requires
        none_counts_twice(votes),
        forall|v: Vote| #[trigger] pred(v) ==> v.counted && v.message.vote_step == round,
    ensures
        voters_of(votes.filter(pred)).no_duplicates(),
    decreases votes.len(),
{
    reveal(Seq::filter);
    if votes.len() > 0 {
        let front = votes.drop_last();
        assert(none_counts_twice(front)) by {
            assert forall|i: int, j: int|
                0 <= i < j < front.len() && front[i].counted && front[j].counted && front[i].message.vote_step
                    == front[j].message.vote_step implies (#[trigger] front[i]).voter != (#[trigger] front[j]).voter by {
                assert(votes[i].voter != votes[j].voter);
            }
        }
        lemma_counted_voters_differ(front, round, pred);
        let kept = front.filter(pred);
        if pred(votes.last()) {
            let last = votes.last();
            assert forall|i: int| 0 <= i < kept.len() implies (#[trigger] kept[i]).voter != last.voter by {
                front.lemma_filter_pred(pred, i);
                front.lemma_filter_contains_rev(pred, kept[i]);
                let j = choose|j: int| 0 <= j < front.len() && front[j] == kept[i];
                assert(votes[j].voter != votes[votes.len() - 1].voter);
            }
            let all = kept.push(last);
            assert forall|i: int, j: int| 0 <= i < all.len() && 0 <= j < all.len() && i != j implies voters_of(all)[i]
                != voters_of(all)[j] by {
                if i < kept.len() && j < kept.len() {
                    assert(voters_of(kept)[i] != voters_of(kept)[j]);
                }
            }
        }
    }
}

/// Everybody who voted in a round counts in it exactly once, however often they voted.
pub proof fn law_everybody_counts_once(votes: Seq<Vote>, round: VoteStep)
    requires
        is_record(votes),
    ensures
        voters_of(round_votes(votes, round)).no_duplicates(),
        voters_of(round_votes(votes, round)).to_set() == voted_in(votes, round),
        round_votes(votes, round).len() == voted_in(votes, round).len(),
{
    let pred = |v: Vote| v.counted && v.message.vote_step == round;
    let any = |v: Vote| v.message.vote_step == round;
    lemma_counted_voters_differ(votes, round, pred);
    let counted = votes.filter(pred);
    let cast = votes.filter(any);
    voters_of(counted).unique_seq_to_set();
    assert forall|a: Address| voters_of(counted).to_set().contains(a) <==> voted_in(votes, round).contains(a) by {
        if voters_of(counted).contains(a) {
            let i = choose|i: int| 0 <= i < counted.len() && voters_of(counted)[i] == a;
            votes.lemma_filter_pred(pred, i);
            votes.lemma_filter_contains_rev(pred, counted[i]);
            let j = choose|j: int| 0 <= j < votes.len() && votes[j] == counted[i];
            votes.lemma_filter_contains(any, j);
            let k = choose|k: int| 0 <= k < cast.len() && cast[k] == votes[j];
            assert(voters_of(cast)[k] == a);
        }
        if voters_of(cast).contains(a) {
            let i = choose|i: int| 0 <= i < cast.len() && voters_of(cast)[i] == a;
            votes.lemma_filter_pred(any, i);
            votes.lemma_filter_contains_rev(any, cast[i]);
            let j = choose|j: int| 0 <= j < votes.len() && votes[j] == cast[i];
            assert(is_represented(votes, j));
            let c = choose|c: int| #[trigger] counts_for(votes, c, j);
            votes.lemma_filter_contains(pred, c);
            let k = choose|k: int| 0 <= k < counted.len() && counted[k] == votes[c];
            assert(voters_of(counted)[k] == a);
        }
    }
    assert(voters_of(counted).to_set() =~= voted_in(votes, round));
}

/// Counting after one more vote has been put in place.
proof fn lemma_placed_count(votes: Seq<Vote>, vote: Vote, pred: spec_fn(Vote) -> bool)
    ensures
        placed(votes, vote).filter(pred).len() == votes.filter(pred).len() + if pred(vote) {
            1nat
        } else {
            0nat
        },
    decreases votes.len(),
{
    reveal(Seq::filter);
    if votes.len() == 0 || !vote.message.vote_step.spec_before(votes.last().message.vote_step) {
        assert(votes.push(vote).drop_last() =~= votes);
    } else {
        lemma_placed_count(votes.drop_last(), vote, pred);
        let front = placed(votes.drop_last(), vote);
        assert(front.push(votes.last()).drop_last() =~= front);
    }
}

/// A second vote in a round adds to no count.
pub proof fn law_double_vote_adds_nothing(
    votes: Seq<Vote>,
    m: ConsensusMessage,
    voter: Address,
    other: ConsensusMessage,
    round: VoteStep,
)
    requires
        double_vote(votes, m, voter) is Some,
    ensures
        aligned_votes(recorded(votes, m, voter), other).len() == aligned_votes(votes, other).len(),
        round_votes(recorded(votes, m, voter), round).len() == round_votes(votes, round).len(),
{
    let v = Vote { message: m, voter, counted: false };
    lemma_placed_count(
        votes,
        v,
        |v: Vote| v.counted && v.message.vote_step == other.vote_step && v.message.block_hash == other.block_hash,
    );
    lemma_placed_count(votes, v, |v: Vote| v.counted && v.message.vote_step == round);
}

/// A first vote in a round adds one to the count of the votes that agree with it, and to that of
/// its round.
pub proof fn law_first_vote_adds_one(votes: Seq<Vote>, m: ConsensusMessage, voter: Address)
    requires
        !is_known(votes, m),
        double_vote(votes, m, voter) is None,
    ensures
        aligned_votes(recorded(votes, m, voter), m).len() == aligned_votes(votes, m).len() + 1,
        round_votes(recorded(votes, m, voter), m.vote_step).len() == round_votes(votes, m.vote_step).len() + 1,
{
    let v = Vote { message: m, voter, counted: true };
    lemma_placed_count(
        votes,
        v,
        |v: Vote| v.counted && v.message.vote_step == m.vote_step && v.message.block_hash == m.block_hash,
    );
    lemma_placed_count(votes, v, |v: Vote| v.counted && v.message.vote_step == m.vote_step);
}

// ---------------------------------------------------------------------------------------------
// Quorums
// ---------------------------------------------------------------------------------------------

/// Any two quorums have more than a third of the validators in common.
pub proof fn law_quorums_overlap(validators: Set<Address>, a: Set<Address>, b: Set<Address>)
    requires
        validators.finite(),
        a.subset_of(validators),
        b.subset_of(validators),
        is_quorum(a.len(), validators.len()),
        is_quorum(b.len(), validators.len()),
    ensures
        3 * a.intersect(b).len() > validators.len(),
{
    vstd::set_lib::lemma_len_subset(a, validators);
    vstd::set_lib::lemma_len_subset(b, validators);
    vstd::set_lib::lemma_set_intersect_union_lens(a, b);
    assert((a + b).subset_of(validators));
    vstd::set_lib::lemma_len_subset(a + b, validators);
}

/// Everybody who counts in a round is a validator.
pub open spec fn are_validators(votes: Seq<Vote>, round: VoteStep, members: Seq<Address>) -> bool {
    forall|i: int|
        0 <= i < votes.len() && votes[i].counted && votes[i].message.vote_step == round ==> members.contains(
            (#[trigger] votes[i]).voter,
        )
}

/// Two different blocks are never both decided on in one round, nor a block and none.
pub proof fn law_one_decision_per_round(
    votes: Seq<Vote>,
    members: Seq<Address>,
    m1: ConsensusMessage,
    m2: ConsensusMessage,
)
    requires
        is_record(votes),
        m1.vote_step == m2.vote_step,
        are_validators(votes, m1.vote_step, members),
        is_quorum(aligned_votes(votes, m1).len(), members.len()),
        is_quorum(aligned_votes(votes, m2).len(), members.len()),
    ensures
        m1.block_hash == m2.block_hash,
{
    let round = m1.vote_step;
    if m1.block_hash != m2.block_hash {
        let both = |v: Vote| v.counted && v.message.vote_step == round;
        let first = |v: Vote| v.counted && v.message.vote_step == m1.vote_step && v.message.block_hash == m1.block_hash;
        let second = |v: Vote|
            v.counted && v.message.vote_step == m2.vote_step && v.message.block_hash == m2.block_hash;
        lemma_disjoint_counts(votes, both, first, second);
        lemma_counted_voters_differ(votes, round, both);
        let all = votes.filter(both);
        voters_of(all).unique_seq_to_set();
        assert(voters_of(all).to_set().subset_of(members.to_set())) by {
            assert forall|a: Address| voters_of(all).to_set().contains(a) implies members.to_set().contains(a) by {
                let i = choose|i: int| 0 <= i < all.len() && voters_of(all)[i] == a;
                votes.lemma_filter_pred(both, i);
                votes.lemma_filter_contains_rev(both, all[i]);
                let j = choose|j: int| 0 <= j < votes.len() && votes[j] == all[i];
                assert(members.contains(votes[j].voter));
            }
        }
        vstd::seq_lib::seq_to_set_is_finite(members);
        vstd::set_lib::lemma_len_subset(voters_of(all).to_set(), members.to_set());
        members.lemma_cardinality_of_set();
        assert(false);
    }
}

/// Two disjoint kinds of votes are together at most all votes.
proof fn lemma_disjoint_counts(
    votes: Seq<Vote>,
    both: spec_fn(Vote) -> bool,
    first: spec_fn(Vote) -> bool,
    second: spec_fn(Vote) -> bool,
)
    requires
        forall|v: Vote| #[trigger] first(v) ==> both(v) && !second(v),
        forall|v: Vote| #[trigger] second(v) ==> both(v) && !first(v),
    ensures
        votes.filter(first).len() + votes.filter(second).len() <= votes.filter(both).len(),
    decreases votes.len(),
{
    reveal(Seq::filter);
    if votes.len() > 0 {
        lemma_disjoint_counts(votes.drop_last(), both, first, second);
        let last = votes.last();
        assert(first(last) ==> both(last) && !second(last));
        assert(second(last) ==> both(last));
    }
}

// ---------------------------------------------------------------------------------------------
// Proposers
// ---------------------------------------------------------------------------------------------

/// The proposer of a view is a validator.
pub proof fn law_proposer_is_a_validator(members: Seq<Address>, height: Height, view: ViewNumber)
    requires
        members.len() > 0,
    ensures
        members.contains(proposer_of(members, height, view)),
{
    let n = members.len() as int;
    assert(0 <= (height + view) % n < n) by (nonlinear_arith)
        requires
            n > 0,
    ;
    assert(members[(height + view) % n] == proposer_of(members, height, view));
}

/// Validators propose in turn: the next view is the turn of the next validator in the list, and
/// after the last it is that of the first.
pub proof fn law_proposers_take_turns(members: Seq<Address>, height: Height, view: ViewNumber, turn: int)
    requires
        0 <= turn < members.len(),
        view < usize::MAX,
        (height + view) % members.len() as int == turn,
    ensures
        proposer_of(members, height, view) == members[turn],
        proposer_of(members, height, (view + 1) as usize) == if turn + 1 < members.len() {
            members[turn + 1]
        } else {
            members[0]
        },
{
    let n = members.len() as int;
    let x = (height + view) as int;
    assert((x + 1) % n == if x % n + 1 < n { x % n + 1 } else { 0 }) by (nonlinear_arith)
        requires
            n > 0,
    ;
}

/// Who proposes depends on the sum of height and view alone: the next view of a height and the
/// same view of the next height are the turn of the same validator.
pub proof fn law_proposer_goes_by_the_sum(
    members: Seq<Address>,
    height: Height,
    view: ViewNumber,
    other_height: Height,
    other_view: ViewNumber,
)
    requires
        height + view == other_height + other_view,
    ensures
        proposer_of(members, height, view) == proposer_of(members, other_height, other_view),
{
}

// ---------------------------------------------------------------------------------------------
// Progress
// ---------------------------------------------------------------------------------------------

/// `b` is at the height and the view of `a`, or further.
pub open spec fn is_not_behind(b: EngineState, a: EngineState) -> bool {
    b.height > a.height || b.height == a.height && b.view >= a.view
}

/// No vote leads back to an earlier height or view.
pub proof fn law_votes_lead_forward(s: EngineState, validators: nat, m: ConsensusMessage)
    requires
        s.height < usize::MAX,
        s.view < usize::MAX,
    ensures
        is_not_behind(s.handled(validators, m).state, s),
{
}

/// No message leads back to an earlier height or view, whoever sent it.
pub proof fn law_messages_lead_forward(
    s: EngineState,
    members: Seq<Address>,
    m: ConsensusMessage,
    rlp: Seq<u8>,
    sender: Result<Address, KeyError>,
)
    requires
        s.height < usize::MAX,
        s.view < usize::MAX,
    ensures
        is_not_behind(s.delivered(members, m, rlp, sender).state, s),
{
    if let Ok(sender) = sender {
        law_votes_lead_forward(
            EngineState { votes: recorded(s.votes, m, sender), ..s },
            members.len(),
            m,
        );
    }
}

/// No vote of this node leads back to an earlier height or view.
pub proof fn law_own_votes_lead_forward(s: EngineState, validators: nat, signature: Option<H520>)
    requires
        s.height < usize::MAX,
        s.view < usize::MAX,
    ensures
        is_not_behind(s.answered(validators, signature).state, s),
{
}

/// No timeout leads back to an earlier view, and none changes the height.
pub proof fn law_timeouts_lead_forward(s: EngineState, validators: nat, proposer: Address)
    requires
        s.view < usize::MAX,
    ensures
        s.timed_out(validators, proposer).state.height == s.height,
        s.timed_out(validators, proposer).state.view >= s.view,
{
}

/// The height changes only while this node is in the precommit step, by a vote of the height for a
/// block that enough votes of the same round agree with. Of which step that round is is not looked
/// at: prevotes that come late decide as well as precommits. The next height then begins without
/// proposal and without lock.
pub proof fn law_height_changes_by_commit(s: EngineState, validators: nat, m: ConsensusMessage)
    requires
        s.height < usize::MAX,
        s.handled(validators, m).state.height != s.height,
    ensures
        s.step == Step::Precommit,
        m.vote_step.height == s.height,
        m.block_hash is Some,
        s.has_aligned_quorum(validators, m),
        ({
            let t = s.handled(validators, m).state;
            &&& t.height == s.height + 1
            &&& t.view == 0
            &&& t.step == Step::Commit
            &&& t.last_lock == 0
            &&& t.lock_change is None
            &&& t.proposal is None
        }),
{
}

/// One event makes this node vote at most twice, for what it prevotes and for what it precommits:
/// after a prevote there can only be a precommit, and after a precommit nothing.
pub proof fn law_own_votes_come_to_an_end(s: EngineState, validators: nat, signature: Option<H520>)
    requires
        s.wf(),
        s.ballot is Some,
    ensures
        s.answered(validators, signature).state.ballot matches Some(next) ==> {
            &&& s.ballot matches Some(ballot)
            &&& ballot.vote_step.step == Step::Prevote
            &&& next.vote_step.step == Step::Precommit
        },
{
}

/// What this node signs is about the round that it is in, and it never signs without a signer.
pub proof fn law_node_votes_in_its_round(s: EngineState, step: Step)
    requires
        s.wf(),
        s.is_idle(),
    ensures
        s.entered(step).state.ballot matches Some(ballot) ==> {
            &&& ballot.vote_step == s.entered(step).state.round()
            &&& ballot.vote_step.height == s.height
            &&& ballot.vote_step.view == s.view
            &&& ballot.vote_step.step == step
            &&& step.spec_is_pre()
            &&& s.signer is Some
        },
{
}

// ---------------------------------------------------------------------------------------------
// Locks
// ---------------------------------------------------------------------------------------------

/// The lock changes only to a newer one, by enough prevotes for a block.
pub proof fn law_lock_needs_a_quorum(s: EngineState, validators: nat, m: ConsensusMessage)
    ensures
        s.handled(validators, m).state.lock_change matches Some(lock) ==> s.lock_change == Some(lock) || {
            &&& lock == m
            &&& m.vote_step.step == Step::Prevote
            &&& m.block_hash is Some
            &&& s.has_aligned_quorum(validators, m)
            &&& s.lock_change matches Some(previous) ==> previous.vote_step.spec_before(m.vote_step)
        },
{
}

/// A locked node prevotes for the block that it is locked on, whatever was proposed, unless the
/// lock came in a view that is over and is newer than what it has precommitted to.
pub proof fn law_locked_node_prevotes_its_lock(s: EngineState, lock: ConsensusMessage)
    requires
        s.lock_change == Some(lock),
        s.signer is Some,
    ensures
        s.entered(Step::Prevote).state.ballot matches Some(ballot) && ballot.block_hash == if s.last_lock
            < lock.vote_step.view < s.view {
            s.proposal
        } else {
            lock.block_hash
        },
{
}

/// A node precommits to a block only if it is locked on it in the current view, and remembers
/// that view.
pub proof fn law_precommit_needs_a_lock(s: EngineState)
    requires
        s.wf(),
        s.is_idle(),
    ensures
        s.entered(Step::Precommit).state.ballot matches Some(ballot) ==> ballot.block_hash is Some ==> {
            &&& s.lock_change matches Some(lock)
            &&& lock.vote_step == (VoteStep { height: s.height, view: s.view, step: Step::Prevote })
            &&& lock.block_hash == ballot.block_hash
            &&& s.entered(Step::Precommit).state.last_lock == s.view
        },
{
}

// ---------------------------------------------------------------------------------------------
// Proposals
// ---------------------------------------------------------------------------------------------

/// As long as the height has not ended, height and proposal are the same. If it has, the next one
/// begins without proposal. What this node proposed last, and after which block, is the same in
/// any case.
pub open spec fn keeps_proposal(s: EngineState, t: EngineState, ended: bool) -> bool {
    &&& !ended ==> t.height == s.height && t.proposal == s.proposal
    &&& ended && s.height < usize::MAX ==> t.height == s.height + 1 && t.proposal is None
    &&& t.last_proposed == s.last_proposed
    &&& t.proposal_parent == s.proposal_parent
}

/// Votes change the proposal only by ending the height, so that as long as the height is the same
/// the proposal is.
pub proof fn law_votes_keep_the_proposal(s: EngineState, validators: nat, m: ConsensusMessage)
    ensures
        keeps_proposal(s, s.handled(validators, m).state, s.commits(validators, m)),
{
}

/// Own votes change the proposal only by ending the height.
pub proof fn law_own_votes_keep_the_proposal(s: EngineState, validators: nat, signature: Option<H520>)
    ensures
        keeps_proposal(s, s.answered(validators, signature).state, s.answer_commits(validators, signature)),
{
    if let (Some(ballot), Some(signer), Some(signature)) = (s.ballot, s.signer, signature) {
        let m = ballot.with_signature(signature);
        law_votes_keep_the_proposal(s.with_own_vote(m, signer), validators, m);
    }
}

/// Messages change the proposal only by ending the height, whoever sent them.
pub proof fn law_messages_keep_the_proposal(
    s: EngineState,
    members: Seq<Address>,
    m: ConsensusMessage,
    rlp: Seq<u8>,
    sender: Result<Address, KeyError>,
)
    ensures
        keeps_proposal(s, s.delivered(members, m, rlp, sender).state, s.delivery_commits(members, m, sender)),
{
    if let Ok(sender) = sender {
        law_votes_keep_the_proposal(s.with_vote(m, sender), members.len(), m);
    }
}

/// Neither the beginning of a step nor a timeout changes the proposal.
pub proof fn law_steps_keep_the_proposal(s: EngineState, step: Step, validators: nat, proposer: Address)
    ensures
        keeps_proposal(s, s.entered(step).state, false),
        keeps_proposal(s, s.timed_out(validators, proposer).state, false),
{
}

/// What can happen to an engine.
pub enum Event {
    /// A message was delivered.
    Message { members: Seq<Address>, message: ConsensusMessage, rlp: Seq<u8>, sender: Result<Address, KeyError> },
    /// The signature of an own vote came, or was refused.
    Signature { validators: nat, signature: Option<H520> },
    /// A step lasted too long.
    Timeout { validators: nat, proposer: Address },
    /// A signer was set.
    Signer(Address),
    /// A client was registered, with the number of the best block of its chain.
    Client(Option<u64>),
    /// A block was to be proposed, where it was or was not the turn of this node.
    Proposal { turn: bool, header: Header, signature: Option<H520> },
}

/// The state after an event.
#[verifier::opaque]
pub open spec fn after_event(s: EngineState, event: Event) -> EngineState {
    match event {
        Event::Message { members, message, rlp, sender } => s.delivered(members, message, rlp, sender).state,
        Event::Signature { validators, signature } => s.answered(validators, signature).state,
        Event::Timeout { validators, proposer } => s.timed_out(validators, proposer).state,
        Event::Signer(address) => s.with_signer(address).state,
        Event::Client(best_block_number) => s.registered(best_block_number),
        Event::Proposal { turn, header, signature } => match signature {
            Some(signature) => if turn && s.proposal is None {
                after_proposal(s, header, signature)
            } else {
                s
            },
            None => s,
        },
    }
}

/// The event ends the height.
pub open spec fn ends_height(s: EngineState, event: Event) -> bool {
    match event {
        Event::Message { members, message, rlp, sender } => s.delivery_commits(members, message, sender),
        Event::Signature { validators, signature } => s.answer_commits(validators, signature),
        _ => false,
    }
}

/// The state after events, of which the first is the oldest.
pub open spec fn after_events(s: EngineState, events: Seq<Event>) -> EngineState
    decreases events.len(),
{
    if events.len() == 0 {
        s
    } else {
        after_event(after_events(s, events.drop_last()), events.last())
    }
}

/// None of the events ends the height.
pub open spec fn no_height_ends(s: EngineState, events: Seq<Event>) -> bool {
    forall|i: int| 0 <= i < events.len() ==> !#[trigger] ends_height(after_events(s, events.take(i)), events[i])
}

/// A height has one proposal: from the moment that there is one, nothing replaces it before the
/// height ends, neither another event nor another proposal of this node.
pub proof fn law_one_proposal_per_height(s: EngineState, events: Seq<Event>)
    requires
        s.proposal is Some,
        no_height_ends(s, events),
    ensures
        after_events(s, events).proposal == s.proposal,
        after_events(s, events).last_proposed == s.last_proposed,
        after_events(s, events).proposal_parent == s.proposal_parent,
    decreases events.len(),
{
    if events.len() > 0 {
        let front = events.drop_last();
        let last = events.len() - 1;
        assert forall|i: int| 0 <= i < front.len() implies !#[trigger] ends_height(
            after_events(s, front.take(i)),
            front[i],
        ) by {
            assert(front.take(i) =~= events.take(i));
            assert(!ends_height(after_events(s, events.take(i)), events[i]));
        }
        law_one_proposal_per_height(s, front);
        assert(events.take(last) =~= front);
        assert(!ends_height(after_events(s, events.take(last)), events[last]));
        lemma_event_keeps_proposal(after_events(s, front), events.last());
    }
}

/// Where there is a proposal, no event but the end of the height replaces it.
proof fn lemma_event_keeps_proposal(s: EngineState, event: Event)
    requires
        s.proposal is Some,
        !ends_height(s, event),
    ensures
        after_event(s, event).proposal == s.proposal,
        after_event(s, event).last_proposed == s.last_proposed,
        after_event(s, event).proposal_parent == s.proposal_parent,
{
    reveal(after_event);
    match event {
        Event::Message { members, message, rlp, sender } => {
            law_messages_keep_the_proposal(s, members, message, rlp, sender);
        },
        Event::Signature { validators, signature } => {
            law_own_votes_keep_the_proposal(s, validators, signature);
        },
        Event::Timeout { validators, proposer } => {
            law_steps_keep_the_proposal(s, Step::Propose, validators, proposer);
        },
        Event::Signer(address) => {
            law_steps_keep_the_proposal(
                EngineState { signer: Some(address), ..s },
                Step::Propose,
                0,
                address,
            );
        },
        Event::Client(best_block_number) => {},
        Event::Proposal { turn, header, signature } => {},
    }
}

/// Until the height ends, a node that has proposed proposes nothing more, whatever the block:
/// [`Tendermint::generate_seal`] gives no seal then and changes nothing.
pub proof fn law_no_second_proposal<V: ValidatorSet>(
    before: Tendermint<V>,
    header: Header,
    signature: H520,
    events: Seq<Event>,
    engine: Tendermint<V>,
    parent_hash: BlockHash,
)
    requires
        before.may_propose(header.parent_hash),
        no_height_ends(after_proposal(before@, header, signature), events),
        engine@ == after_events(after_proposal(before@, header, signature), events),
    ensures
        !engine.may_propose(parent_hash),
        engine@.proposal == Some(header.bare_hash),
        engine@.last_proposed == header.bare_hash,
        engine@.proposal_parent == header.parent_hash,
{
    let proposed = after_proposal(before@, header, signature);
    law_one_proposal_per_height(proposed, events);
    assert(engine@.proposal == proposed.proposal);
}

// ---------------------------------------------------------------------------------------------
// Requests for signatures
// ---------------------------------------------------------------------------------------------

/// The engine waits for a signature if and only if the last action asks for it, over the vote that
/// waits. No other action asks for one.
pub open spec fn asks_last(o: Outcome) -> bool {
    &&& forall|i: int| 0 <= i < o.actions.len() - 1 ==> !((#[trigger] o.actions[i]) is Sign)
    &&& o.state.ballot is Some <==> o.actions.len() > 0 && o.actions.last() is Sign
    &&& o.state.ballot matches Some(ballot) ==> o.actions.last() == ActionView::Sign(
        info_rlp(ballot.vote_step, ballot.block_hash),
    )
}

/// A step that begins asks for a signature last, if it asks for one.
pub proof fn law_steps_ask_last(s: EngineState, step: Step)
    requires
        s.is_idle(),
    ensures
        asks_last(s.entered(step)),
{
    lemma_flushed_asks_nothing(EngineState { step, ..s });
}

/// What is sent asks for nothing.
proof fn lemma_flushed_asks_nothing(s: EngineState)
    ensures
        forall|i: int| 0 <= i < s.flushed().actions.len() ==> !((#[trigger] s.flushed().actions[i]) is Sign),
{
}

/// Actions that ask for nothing can come first.
proof fn lemma_asks_last_after(o: Outcome, first: Seq<ActionView>)
    requires
        asks_last(o),
        forall|i: int| 0 <= i < first.len() ==> !((#[trigger] first[i]) is Sign),
    ensures
        asks_last(o.after(first)),
{
    let all = first + o.actions;
    assert forall|i: int| 0 <= i < all.len() - 1 implies !((#[trigger] all[i]) is Sign) by {
        if i >= first.len() {
            assert(all[i] == o.actions[i - first.len()]);
        }
    }
    if o.actions.len() == 0 && first.len() > 0 {
        assert(all.last() == first.last());
    }
}

/// A vote that is handled makes the engine ask for a signature last, if for any.
pub proof fn law_votes_ask_last(s: EngineState, validators: nat, m: ConsensusMessage)
    requires
        s.is_idle(),
    ensures
        asks_last(s.handled(validators, m)),
{
    let t = s.relocked(validators, m);
    lemma_flushed_asks_nothing(t);
    law_steps_ask_last(t, Step::Precommit);
    law_steps_ask_last(EngineState { view: t.view_after(1), ..t }, Step::Propose);
    law_steps_ask_last(EngineState { view: m.vote_step.view, ..t }, s.step);
    if let Some(block_hash) = m.block_hash {
        let next = t.at_next_height();
        let sealed = EngineState {
            votes: votes_from(t.votes, m.vote_step),
            pristine: t.pristine && !VoteStep::spec_first().spec_before(m.vote_step),
            ..next
        };
        law_steps_ask_last(next, Step::Commit);
        law_steps_ask_last(sealed, Step::Commit);
        lemma_asks_last_after(
            sealed.entered(Step::Commit),
            seq![
                ActionView::SubmitSeal {
                    block_hash,
                    seal: commit_seal(m.vote_step.view, block_signatures(t.votes, m.vote_step, block_hash)),
                },
            ],
        );
    }
}

/// An own vote makes the engine ask for a signature last, if for any.
pub proof fn law_own_votes_ask_last(s: EngineState, validators: nat, signature: Option<H520>)
    ensures
        asks_last(s.answered(validators, signature)),
{
    lemma_flushed_asks_nothing(EngineState { ballot: None, ..s });
    if let (Some(ballot), Some(signer), Some(signature)) = (s.ballot, s.signer, signature) {
        let m = ballot.with_signature(signature);
        law_votes_ask_last(s.with_own_vote(m, signer), validators, m);
    }
}

/// A message makes the engine ask for a signature last, if for any.
pub proof fn law_messages_ask_last(
    s: EngineState,
    members: Seq<Address>,
    m: ConsensusMessage,
    rlp: Seq<u8>,
    sender: Result<Address, KeyError>,
)
    requires
        s.is_idle(),
    ensures
        asks_last(s.delivered(members, m, rlp, sender)),
{
    if let Ok(sender) = sender {
        let t = s.with_vote(m, sender);
        law_votes_ask_last(t, members.len(), m);
        lemma_asks_last_after(t.handled(members.len(), m), seq![ActionView::Broadcast(rlp)]);
    }
}

/// A timeout makes the engine ask for a signature last, if for any.
pub proof fn law_timeouts_ask_last(s: EngineState, validators: nat, proposer: Address)
    requires
        s.is_idle(),
    ensures
        asks_last(s.timed_out(validators, proposer)),
{
    law_steps_ask_last(s, Step::Propose);
    law_steps_ask_last(s, Step::Prevote);
    law_steps_ask_last(s, Step::Precommit);
    law_steps_ask_last(EngineState { view: s.view_after(1), ..s }, Step::Propose);
    let old = s.old_messages();
    assert forall|i: int| 0 <= i < old.len() implies !((#[trigger] old[i]) is Sign) by {}
    lemma_asks_last_after(s.entered(Step::Prevote), old);
    lemma_asks_last_after(s.entered(Step::Precommit), old);
    lemma_asks_last_after(
        s.entered(Step::Prevote),
        seq![
            ActionView::ReportBenign {
                validator: proposer,
                set_block: s.height as u64,
                block: s.height as u64,
            },
        ],
    );
}

// ---------------------------------------------------------------------------------------------
// Messages
// ---------------------------------------------------------------------------------------------

/// Throwing out older rounds leaves the votes of the round itself.
proof fn lemma_kept_known(votes: Seq<Vote>, m: ConsensusMessage)
    requires
        is_known(votes, m),
    ensures
        is_known(votes_from(votes, m.vote_step), m),
{
    let pred = |v: Vote| !v.message.vote_step.spec_before(m.vote_step);
    let i = choose|i: int| 0 <= i < votes.len() && (#[trigger] votes[i]).message == m;
    assert(pred(votes[i]));
    votes.lemma_filter_contains(pred, i);
    let kept = votes_from(votes, m.vote_step);
    let k = choose|k: int| 0 <= k < kept.len() && kept[k] == votes[i];
    assert(kept[k].message == m);
}

/// A message is handled once: when a validator's message has been handled it is known, so that it
/// is ignored when it comes again.
pub proof fn law_message_is_handled_once(
    s: EngineState,
    members: Seq<Address>,
    m: ConsensusMessage,
    rlp: Seq<u8>,
    sender: Address,
)
    requires
        s.wf(),
        members.contains(sender),
    ensures
        s.delivered(members, m, rlp, Ok(sender)).state.is_old_or_known(m),
{
    lemma_recorded(s.votes, m, sender);
    lemma_kept_known(recorded(s.votes, m, sender), m);
}

/// Votes of the rounds up to one that older ones have been thrown out before are ignored.
pub proof fn law_thrown_out_rounds_are_old(votes: Seq<Vote>, pristine: bool, round: VoteStep, other: VoteStep)
    requires
        !round.spec_before(other),
    ensures
        is_oldest(votes_from(votes, round), pristine && !VoteStep::spec_first().spec_before(round), other),
{
    let pred = |v: Vote| !v.message.vote_step.spec_before(round);
    let kept = votes_from(votes, round);
    assert forall|i: int| 0 <= i < kept.len() implies !(#[trigger] kept[i]).message.vote_step.spec_before(other) by {
        votes.lemma_filter_pred(pred, i);
        law_rounds_are_ordered(kept[i].message.vote_step, other, round);
        law_rounds_are_ordered(kept[i].message.vote_step, round, other);
    }
}

/// Throwing out older rounds leaves the votes of a round for a block as they are.
pub proof fn law_throwing_out_keeps_the_round(votes: Seq<Vote>, round: VoteStep, block_hash: BlockHash)
    ensures
        block_votes(votes_from(votes, round), round, block_hash) == block_votes(votes, round, block_hash),
    decreases votes.len(),
{
    reveal(Seq::filter);
    if votes.len() > 0 {
        let front = votes.drop_last();
        law_throwing_out_keeps_the_round(front, round, block_hash);
        let kept = votes_from(front, round);
        assert(kept.push(votes.last()).drop_last() =~= kept);
    }
}

// ---------------------------------------------------------------------------------------------
// Seals
// ---------------------------------------------------------------------------------------------

/// The node that proposed a block is asked to seal it exactly when a vote for it, whatever its
/// step, ends the height, and before anything else.
pub proof fn law_proposer_seals_its_block(s: EngineState, validators: nat, m: ConsensusMessage)
    ensures
        match (s.completed_seal(validators, m), m.block_hash) {
            (Some((view, signatures)), Some(block_hash)) => s.handled(validators, m).actions.len() > 0 && s.handled(
                validators,
                m,
            ).actions[0] == (ActionView::SubmitSeal { block_hash, seal: commit_seal(view, signatures) }),
            _ => forall|i: int|
                0 <= i < s.handled(validators, m).actions.len() ==> !((#[trigger] s.handled(validators, m).actions[i])
                    is SubmitSeal),
        },
{
    let actions = s.handled(validators, m).actions;
    if s.completed_seal(validators, m) is None {
        assert forall|i: int| 0 <= i < actions.len() implies !((#[trigger] actions[i]) is SubmitSeal) by {}
    }
}

/// As many signatures as votes that agree, so that the seal of a decided block has enough.
pub proof fn law_seal_holds_the_quorum(s: EngineState, validators: nat, m: ConsensusMessage)
    ensures
        s.completed_seal(validators, m) matches Some((view, signatures)) ==> signatures.len() == aligned_votes(
            s.votes,
            m,
        ).len() && is_quorum(signatures.len(), validators),
{
    if let Some(block_hash) = m.block_hash {
        assert(block_votes(s.votes, m.vote_step, block_hash) == aligned_votes(s.votes, m)) by {
            lemma_filter_agrees(
                s.votes,
                |v: Vote| v.counted && v.message.vote_step == m.vote_step && v.message.block_hash == Some(block_hash),
                |v: Vote| v.counted && v.message.vote_step == m.vote_step && v.message.block_hash == m.block_hash,
            );
        }
    }
}

/// Conditions that agree keep the same votes.
proof fn lemma_filter_agrees(votes: Seq<Vote>, p: spec_fn(Vote) -> bool, q: spec_fn(Vote) -> bool)
    requires
        forall|v: Vote| #[trigger] p(v) == q(v),
    ensures
        votes.filter(p) == votes.filter(q),
    decreases votes.len(),
{
    reveal(Seq::filter);
    if votes.len() > 0 {
        lemma_filter_agrees(votes.drop_last(), p, q);
        assert(p(votes.last()) == q(votes.last()));
    }
}

/// From the index `i` on every signature can be read and comes from a validator that is new.
pub open spec fn are_new_validators(
    members: Seq<Address>,
    signatures: Seq<Result<H520, DecodeError>>,
    origins: Seq<Result<Address, KeyError>>,
    i: int,
    seen: Seq<Address>,
) -> bool {
    &&& signatures.len() <= origins.len()
    &&& forall|k: int| i <= k < signatures.len() ==> (#[trigger] signatures[k]) is Ok
    &&& forall|k: int|
        i <= k < signatures.len() ==> ((#[trigger] origins[k]) matches Ok(a) && members.contains(a) && !seen.contains(a))
    &&& forall|k: int, l: int|
        i <= k < l < signatures.len() ==> (#[trigger] origins[k]) != (#[trigger] origins[l])
}

proof fn lemma_accepted_from(
    members: Seq<Address>,
    validators: nat,
    signatures: Seq<Result<H520, DecodeError>>,
    origins: Seq<Result<Address, KeyError>>,
    i: int,
    seen: Seq<Address>,
)
    requires
        0 <= i <= signatures.len(),
        i <= origins.len(),
    ensures
        origins_verdict(members, validators, signatures, origins, i, seen) == Some(Ok::<(), Error>(()))
            <==> are_new_validators(members, signatures, origins, i, seen) && is_quorum(
            (seen.len() + signatures.len() - i) as nat,
            validators,
        ),
    decreases signatures.len() - i,
{
    if i < signatures.len() {
        if signatures[i] is Ok && i < origins.len() && origins[i] is Ok {
            let a = origins[i]->Ok_0;
            let more = seen.push(a);
            lemma_accepted_from(members, validators, signatures, origins, i + 1, more);
            if members.contains(a) && !seen.contains(a) {
                if are_new_validators(members, signatures, origins, i + 1, more) {
                    assert forall|k: int| i <= k < signatures.len() implies ((#[trigger] origins[k]) matches Ok(b)
                        && members.contains(b) && !seen.contains(b)) by {
                        if k > i {
                            let b = origins[k]->Ok_0;
                            if seen.contains(b) {
                                let j = choose|j: int| 0 <= j < seen.len() && seen[j] == b;
                                assert(more[j] == b);
                            }
                        }
                    }
                    assert forall|k: int, l: int| i <= k < l < signatures.len() implies (#[trigger] origins[k])
                        != (#[trigger] origins[l]) by {
                        if k == i {
                            assert(more[seen.len() as int] == a);
                            assert(origins[l] is Ok && !more.contains(origins[l]->Ok_0));
                        }
                    }
                }
                if are_new_validators(members, signatures, origins, i, seen) {
                    assert forall|k: int| i + 1 <= k < signatures.len() implies ((#[trigger] origins[k]) matches Ok(b)
                        && members.contains(b) && !more.contains(b)) by {
                        let b = origins[k]->Ok_0;
                        if more.contains(b) {
                            let j = choose|j: int| 0 <= j < more.len() && more[j] == b;
                            if j < seen.len() {
                                assert(seen[j] == b);
                            } else {
                                assert(origins[i] == origins[k]);
                            }
                        }
                    }
                }
            }
        }
    }
}

/// The seal of a committed block is accepted if and only if every signature can be read and comes
/// from a validator, no validator has signed twice, and they are enough.
pub proof fn law_commit_is_accepted_iff(
    members: Seq<Address>,
    validators: nat,
    signatures: Seq<Result<H520, DecodeError>>,
    origins: Seq<Result<Address, KeyError>>,
)
    requires
        origins.len() <= signatures.len(),
    ensures
        origins_verdict(members, validators, signatures, origins, 0, seq![]) == Some(Ok::<(), Error>(())) <==> {
            &&& origins.len() == signatures.len()
            &&& forall|k: int| 0 <= k < signatures.len() ==> (#[trigger] signatures[k]) is Ok
            &&& forall|k: int|
                0 <= k < signatures.len() ==> ((#[trigger] origins[k]) matches Ok(a) && members.contains(a))
            &&& forall|k: int, l: int|
                0 <= k < l < signatures.len() ==> (#[trigger] origins[k]) != (#[trigger] origins[l])
            &&& is_quorum(signatures.len(), validators)
        },
{
    lemma_accepted_from(members, validators, signatures, origins, 0, seq![]);
}

/// The order of the signatures does not matter: a seal whose signatures, and with them their
/// origins, stand in another order is accepted if and only if this one is.
pub proof fn law_order_of_signatures_does_not_matter(
    members: Seq<Address>,
    validators: nat,
    signatures: Seq<Result<H520, DecodeError>>,
    origins: Seq<Result<Address, KeyError>>,
    other_signatures: Seq<Result<H520, DecodeError>>,
    other_origins: Seq<Result<Address, KeyError>>,
)
    requires
        origins.len() <= signatures.len(),
        signatures.to_multiset() == other_signatures.to_multiset(),
        origins.to_multiset() == other_origins.to_multiset(),
    ensures
        origins_verdict(members, validators, signatures, origins, 0, seq![]) == Some(Ok::<(), Error>(()))
            <==> origins_verdict(members, validators, other_signatures, other_origins, 0, seq![]) == Some(
            Ok::<(), Error>(()),
        ),
{
    signatures.to_multiset_ensures();
    other_signatures.to_multiset_ensures();
    origins.to_multiset_ensures();
    other_origins.to_multiset_ensures();
    law_commit_is_accepted_iff(members, validators, signatures, origins);
    law_commit_is_accepted_iff(members, validators, other_signatures, other_origins);
    if origins_verdict(members, validators, signatures, origins, 0, seq![]) == Some(Ok::<(), Error>(())) {
        lemma_reordered(members, signatures, origins, other_signatures, other_origins);
    }
    if origins_verdict(members, validators, other_signatures, other_origins, 0, seq![]) == Some(Ok::<(), Error>(())) {
        lemma_reordered(members, other_signatures, other_origins, signatures, origins);
    }
}

/// In any order the signatures can be read, and the origins are different validators.
proof fn lemma_reordered(
    members: Seq<Address>,
    signatures: Seq<Result<H520, DecodeError>>,
    origins: Seq<Result<Address, KeyError>>,
    other_signatures: Seq<Result<H520, DecodeError>>,
    other_origins: Seq<Result<Address, KeyError>>,
)
    requires
        signatures.to_multiset() == other_signatures.to_multiset(),
        origins.to_multiset() == other_origins.to_multiset(),
        forall|k: int| 0 <= k < signatures.len() ==> (#[trigger] signatures[k]) is Ok,
        forall|k: int| 0 <= k < origins.len() ==> ((#[trigger] origins[k]) matches Ok(a) && members.contains(a)),
        forall|k: int, l: int| 0 <= k < l < origins.len() ==> (#[trigger] origins[k]) != (#[trigger] origins[l]),
    ensures
        forall|k: int| 0 <= k < other_signatures.len() ==> (#[trigger] other_signatures[k]) is Ok,
        forall|k: int|
            0 <= k < other_origins.len() ==> ((#[trigger] other_origins[k]) matches Ok(a) && members.contains(a)),
        forall|k: int, l: int|
            0 <= k < l < other_origins.len() ==> (#[trigger] other_origins[k]) != (#[trigger] other_origins[l]),
{
    assert forall|k: int| 0 <= k < other_signatures.len() implies (#[trigger] other_signatures[k]) is Ok by {
        lemma_found_again(other_signatures, signatures, k);
    }
    assert forall|k: int| 0 <= k < other_origins.len() implies ((#[trigger] other_origins[k]) matches Ok(a)
        && members.contains(a)) by {
        lemma_found_again(other_origins, origins, k);
    }
    assert(origins.no_duplicates());
    origins.lemma_multiset_has_no_duplicates();
    other_origins.lemma_multiset_has_no_duplicates_conv();
}

/// In another order, every element is still there.
proof fn lemma_found_again<A>(a: Seq<A>, b: Seq<A>, k: int)
    requires
        a.to_multiset() == b.to_multiset(),
        0 <= k < a.len(),
    ensures
        exists|j: int| 0 <= j < b.len() && #[trigger] b[j] == a[k],
{
    a.to_multiset_ensures();
    b.to_multiset_ensures();
    assert(a.contains(a[k]));
    assert(b.to_multiset().count(a[k]) > 0);
    assert(b.contains(a[k]));
}

/// What is in another order still is when `f` is applied to each element.
proof fn lemma_map_reordered<A, B>(a: Seq<A>, b: Seq<A>, f: spec_fn(A) -> B)
    requires
        a.to_multiset() == b.to_multiset(),
    ensures
        a.map_values(f).to_multiset() == b.map_values(f).to_multiset(),
    decreases a.len(),
{
    a.to_multiset_ensures();
    b.to_multiset_ensures();
    if a.len() > 0 {
        let front = a.drop_last();
        let n = a.len() - 1;
        lemma_found_again(a, b, n);
        let j = choose|j: int| 0 <= j < b.len() && #[trigger] b[j] == a[n];
        let rest = b.remove(j);
        assert(a.remove(n) =~= front);
        lemma_map_reordered(front, rest, f);
        let fa = a.map_values(f);
        let fb = b.map_values(f);
        fa.to_multiset_ensures();
        fb.to_multiset_ensures();
        assert(fa.remove(n) =~= front.map_values(f));
        assert(fb.remove(j) =~= rest.map_values(f));
        assert(fa.contains(fa[n]) && fb.contains(fb[j]));
        assert(fa.to_multiset() =~= fa.remove(n).to_multiset().insert(fa[n]));
        assert(fb.to_multiset() =~= fb.remove(j).to_multiset().insert(fb[j]));
    } else {
        assert(a.map_values(f) =~= b.map_values(f));
    }
}

/// `recover` finds one signer behind a signature over given bytes.
pub open spec fn recovers_one_signer<F: Fn(&H520, &[u8]) -> Result<Address, KeyError>>(recover: &F) -> bool {
    forall|signature: &H520, a: &[u8], b: &[u8], x: Result<Address, KeyError>, y: Result<Address, KeyError>|
        a@ == b@ && #[trigger] call_ensures(recover, (signature, a), x) && #[trigger] call_ensures(
            recover,
            (signature, b),
            y,
        ) ==> x == y
}

/// Two headers of one block, committed in one view, that differ in the order of the signatures.
pub open spec fn differ_in_order(a: Header, b: Header) -> bool {
    let x = strings_of(a.seal@);
    let y = strings_of(b.seal@);
    &&& a.number == b.number
    &&& a.parent_hash == b.parent_hash
    &&& a.bare_hash == b.bare_hash
    &&& x[0] == y[0]
    &&& x[1] == y[1]
    &&& items_of(x[2]).to_multiset() == items_of(y[2]).to_multiset()
}

/// A committed block verifies or not whatever the order of the signatures in its seal.
pub proof fn law_reordered_seal_verifies_alike<V: ValidatorSet, F: Fn(&H520, &[u8]) -> Result<Address, KeyError>>(
    engine: Tendermint<V>,
    a: Header,
    b: Header,
    recover: &F,
    x: Result<(), Error>,
    y: Result<(), Error>,
)
    requires
        proposal_of(a) is Err,
        differ_in_order(a, b),
        recovers_one_signer(recover),
        engine.is_external_verdict(a, recover, Some(x)),
        engine.is_external_verdict(b, recover, Some(y)),
    ensures
        x is Ok <==> y is Ok,
{
    if x is Ok {
        lemma_reordered_seal_verifies(engine, a, b, recover, x, y);
    }
    if y is Ok {
        lemma_reordered_seal_verifies(engine, b, a, recover, y, x);
    }
}

proof fn lemma_reordered_seal_verifies<V: ValidatorSet, F: Fn(&H520, &[u8]) -> Result<Address, KeyError>>(
    engine: Tendermint<V>,
    a: Header,
    b: Header,
    recover: &F,
    x: Result<(), Error>,
    y: Result<(), Error>,
)
    requires
        proposal_of(a) is Err,
        differ_in_order(a, b),
        recovers_one_signer(recover),
        engine.is_external_verdict(a, recover, Some(x)),
        engine.is_external_verdict(b, recover, Some(y)),
        x is Ok,
    ensures
        y is Ok,
{
    let view = seal_view(strings_of(a.seal@))->Ok_0;
    let round = commit_round(a, view);
    let votes = engine@.votes;
    let hash = a.bare_hash;
    let members = engine.set().members(a.parent_hash);
    let n = engine.validator_count();
    let first = seal_signatures(strings_of(a.seal@));
    let second = seal_signatures(strings_of(b.seal@));
    lemma_map_reordered(
        items_of(strings_of(a.seal@)[2]),
        items_of(strings_of(b.seal@)[2]),
        |item: Seq<u8>| signature_of(item),
    );
    first.to_multiset_ensures();
    second.to_multiset_ensures();
    let (signed_a, origins_a) = choose|signed: &[u8], origins: Seq<Result<Address, KeyError>>|
        {
            &&& #[trigger] are_origins(recover, votes, round, hash, first, signed, origins)
            &&& origins_verdict(members, n, first, origins, 0, seq![]) == Some(x)
        };
    let (signed_b, origins_b) = choose|signed: &[u8], origins: Seq<Result<Address, KeyError>>|
        {
            &&& #[trigger] are_origins(recover, votes, round, hash, second, signed, origins)
            &&& origins_verdict(members, n, second, origins, 0, seq![]) == Some(y)
        };
    assert(x->Ok_0 == ());
    law_commit_is_accepted_iff(members, n, first, origins_a);
    // Whoever is behind a signature of the one seal is behind it in the other.
    assert forall|j: int, k: int|
        0 <= j < origins_a.len() && 0 <= k < origins_b.len() && first[j] == second[k] implies #[trigger] origins_a[j]
        == #[trigger] origins_b[k] by {
        assert(is_origin(recover, votes, round, hash, first[j], signed_a, origins_a[j]));
        assert(is_origin(recover, votes, round, hash, second[k], signed_b, origins_b[k]));
    }
    assert(first.no_duplicates()) by {
        assert forall|j: int, k: int| 0 <= j < first.len() && 0 <= k < first.len() && j != k implies first[j]
            != first[k] by {
            assert(is_origin(recover, votes, round, hash, first[j], signed_a, origins_a[j]));
            assert(is_origin(recover, votes, round, hash, first[k], signed_a, origins_a[k]));
            if j < k {
                assert(origins_a[j] != origins_a[k]);
            } else {
                assert(origins_a[k] != origins_a[j]);
            }
        }
    }
    first.lemma_multiset_has_no_duplicates();
    second.lemma_multiset_has_no_duplicates_conv();
    let place = |k: int| choose|j: int| 0 <= j < first.len() && #[trigger] first[j] == second[k];
    let voters = Seq::new(second.len(), |k: int| origins_a[place(k)]->Ok_0);
    assert forall|k: int| 0 <= k < second.len() implies 0 <= #[trigger] place(k) < first.len() && first[place(k)]
        == second[k] by {
        lemma_found_again(second, first, k);
    }
    assert forall|k: int| 0 <= k < second.len() implies (#[trigger] second[k]) is Ok by {
        assert(first[place(k)] is Ok);
    }
    assert forall|k: int| 0 <= k < voters.len() implies members.contains(#[trigger] voters[k]) by {
        assert(origins_a[place(k)] is Ok);
    }
    assert forall|k: int| 0 <= k < origins_b.len() implies (#[trigger] origins_b[k]) == Ok::<Address, KeyError>(
        voters[k],
    ) by {
        assert(origins_a[place(k)] == origins_b[k]);
        assert(origins_a[place(k)] is Ok);
    }
    assert(voters.no_duplicates()) by {
        assert forall|k: int, l: int| 0 <= k < voters.len() && 0 <= l < voters.len() && k != l implies voters[k]
            != voters[l] by {
            assert(second[k] != second[l]);
            assert(origins_a[place(k)] is Ok && origins_a[place(l)] is Ok);
            if place(k) < place(l) {
                assert(origins_a[place(k)] != origins_a[place(l)]);
            } else {
                assert(origins_a[place(l)] != origins_a[place(k)]);
            }
        }
    }
    assert(voters.take(0) =~= seq![]);
    lemma_verdict_of_voters(members, n, second, origins_b, voters, 0, seq![]);
}

/// A block that enough different validators have committed to verifies, whatever node checks it:
/// `voters` are who signed.
pub proof fn law_committed_block_verifies<V: ValidatorSet, F: Fn(&H520, &[u8]) -> Result<Address, KeyError>>(
    engine: Tendermint<V>,
    header: Header,
    view: ViewNumber,
    signatures: Seq<H520>,
    voters: Seq<Address>,
    recover: &F,
    r: Result<(), Error>,
)
    requires
        reads_as_commit(strings_of(header.seal@), view, signatures),
        fits_seal(signatures.len()),
        voters.len() == signatures.len(),
        voters.no_duplicates(),
        forall|k: int| 0 <= k < voters.len() ==> engine.set().members(header.parent_hash).contains(#[trigger] voters[k]),
        is_quorum(voters.len(), engine.validator_count()),
        forall|k: int, signed: &[u8], origin: Result<Address, KeyError>|
            0 <= k < signatures.len() && signed@ == info_rlp(commit_round(header, view), Some(header.bare_hash))
                && #[trigger] is_origin(
                recover,
                engine@.votes,
                commit_round(header, view),
                header.bare_hash,
                Ok(signatures[k]),
                signed,
                origin,
            ) ==> origin == Ok::<Address, KeyError>(voters[k]),
        engine.is_external_verdict(header, recover, Some(r)),
    ensures
        r is Ok,
{
    let seal = strings_of(header.seal@);
    let round = commit_round(header, view);
    let found = seal_signatures(seal);
    let members = engine.set().members(header.parent_hash);
    let (signed, origins) = choose|signed: &[u8], origins: Seq<Result<Address, KeyError>>|
        {
            &&& #[trigger] are_origins(recover, engine@.votes, round, header.bare_hash, found, signed, origins)
            &&& origins_verdict(members, engine.validator_count(), found, origins, 0, seq![]) == Some(r)
        };
    assert forall|k: int| 0 <= k < origins.len() implies (#[trigger] origins[k]) == Ok::<Address, KeyError>(voters[k]) by {
        assert(found[k] == Ok::<H520, DecodeError>(signatures[k]));
        assert(is_origin(recover, engine@.votes, round, header.bare_hash, found[k], signed, origins[k]));
    }
    assert(voters.take(0) =~= seq![]);
    lemma_verdict_of_voters(members, engine.validator_count(), found, origins, voters, 0, seq![]);
}

/// Where the origins so far are different validators, there is a verdict only if they are all
/// there, and then it is good.
proof fn lemma_verdict_of_voters(
    members: Seq<Address>,
    validators: nat,
    signatures: Seq<Result<H520, DecodeError>>,
    origins: Seq<Result<Address, KeyError>>,
    voters: Seq<Address>,
    i: int,
    seen: Seq<Address>,
)
    requires
        0 <= i <= signatures.len(),
        origins.len() <= signatures.len(),
        voters.len() == signatures.len(),
        seen == voters.take(i),
        forall|k: int| 0 <= k < signatures.len() ==> (#[trigger] signatures[k]) is Ok,
        forall|k: int| 0 <= k < origins.len() ==> (#[trigger] origins[k]) == Ok::<Address, KeyError>(voters[k]),
        forall|k: int| 0 <= k < voters.len() ==> members.contains(#[trigger] voters[k]),
        voters.no_duplicates(),
        is_quorum(voters.len(), validators),
    ensures
        origins_verdict(members, validators, signatures, origins, i, seen) matches Some(r) ==> r is Ok,
    decreases signatures.len() - i,
{
    if i < origins.len() {
        assert(signatures[i] is Ok);
        assert(origins[i] == Ok::<Address, KeyError>(voters[i]));
        assert(members.contains(voters[i]));
        assert(!seen.contains(voters[i]));
        assert(seen.push(voters[i]) =~= voters.take(i + 1));
        lemma_verdict_of_voters(members, validators, signatures, origins, voters, i + 1, seen.push(voters[i]));
    } else if i < signatures.len() {
        assert(signatures[i] is Ok);
    }
}

/// The voter behind a vote that counts is known from the vote.
proof fn lemma_voter_of_counted(votes: Seq<Vote>, i: int)
    requires
        is_record(votes),
        0 <= i < votes.len(),
        votes[i].counted,
    ensures
        voter_of(votes, votes[i].message) == Some(votes[i].voter),
{
    let m = votes[i].message;
    assert(votes[i].counted && votes[i].message == m);
    let j = choose|j: int| 0 <= j < votes.len() && (#[trigger] votes[j]).counted && votes[j].message == m;
    if i < j {
        assert(votes[i].message != votes[j].message);
    } else if j < i {
        assert(votes[j].message != votes[i].message);
    }
}

/// A block sealed with the votes on record verifies at the node that has these votes, as long as
/// they are by validators.
pub proof fn law_sealed_block_verifies<V: ValidatorSet, F: Fn(&H520, &[u8]) -> Result<Address, KeyError>>(
    engine: Tendermint<V>,
    header: Header,
    view: ViewNumber,
    recover: &F,
    r: Result<(), Error>,
)
    requires
        is_record(engine@.votes),
        reads_as_commit(
            strings_of(header.seal@),
            view,
            block_signatures(engine@.votes, commit_round(header, view), header.bare_hash),
        ),
        fits_seal(block_signatures(engine@.votes, commit_round(header, view), header.bare_hash).len()),
        is_quorum(
            block_signatures(engine@.votes, commit_round(header, view), header.bare_hash).len(),
            engine.validator_count(),
        ),
        are_validators(
            engine@.votes,
            commit_round(header, view),
            engine.set().members(header.parent_hash),
        ),
        engine.is_external_verdict(header, recover, Some(r)),
    ensures
        r is Ok,
{
    let votes = engine@.votes;
    let round = commit_round(header, view);
    let members = engine.set().members(header.parent_hash);
    let pred = |v: Vote|
        v.counted && v.message.vote_step == round && v.message.block_hash == Some(header.bare_hash);
    let cast = votes.filter(pred);
    let signatures = block_signatures(votes, round, header.bare_hash);
    let voters = voters_of(cast);
    lemma_counted_voters_differ(votes, round, pred);
    assert forall|k: int| 0 <= k < voters.len() implies members.contains(#[trigger] voters[k]) && voter_of(
        votes,
        precommit_of(round, header.bare_hash, signatures[k]),
    ) == Some(voters[k]) by {
        votes.lemma_filter_pred(pred, k);
        votes.lemma_filter_contains_rev(pred, cast[k]);
        let j = choose|j: int| 0 <= j < votes.len() && votes[j] == cast[k];
        assert(members.contains(votes[j].voter));
        lemma_voter_of_counted(votes, j);
        assert(votes[j].message == precommit_of(round, header.bare_hash, signatures[k]));
    }
    assert forall|k: int, signed: &[u8], origin: Result<Address, KeyError>|
        0 <= k < signatures.len() && signed@ == info_rlp(round, Some(header.bare_hash)) && #[trigger] is_origin(
            recover,
            votes,
            round,
            header.bare_hash,
            Ok(signatures[k]),
            signed,
            origin,
        ) implies origin == Ok::<Address, KeyError>(voters[k]) by {
        assert(members.contains(voters[k]));
    }
    law_committed_block_verifies(engine, header, view, signatures, voters, recover, r);
}

/// What a node seals verifies with the node itself: `engine` is the node after a precommit `m` has
/// completed the seal that `header` carries.
pub proof fn law_seal_of_a_commit_verifies<V: ValidatorSet, F: Fn(&H520, &[u8]) -> Result<Address, KeyError>>(
    before: EngineState,
    m: ConsensusMessage,
    engine: Tendermint<V>,
    header: Header,
    recover: &F,
    r: Result<(), Error>,
)
    requires
        before.wf(),
        engine@ == before.handled(engine.validator_count(), m).state,
        before.seals_readably(engine.validator_count(), m),
        before.completed_seal(engine.validator_count(), m) matches Some((view, signatures)) && strings_of(header.seal@)
            == commit_seal(view, signatures) && fits_seal(signatures.len()),
        m.vote_step == commit_round(header, m.vote_step.view),
        m.block_hash == Some(header.bare_hash),
        are_validators(before.votes, m.vote_step, engine.set().members(header.parent_hash)),
        engine.is_external_verdict(header, recover, Some(r)),
    ensures
        r is Ok,
{
    let round = m.vote_step;
    let kept = votes_from(before.votes, round);
    let pred = |v: Vote| !v.message.vote_step.spec_before(round);
    lemma_votes_from_is_record(before.votes, round);
    law_throwing_out_keeps_the_round(before.votes, round, header.bare_hash);
    law_seal_holds_the_quorum(before, engine.validator_count(), m);
    assert(engine@.votes == kept);
    let members = engine.set().members(header.parent_hash);
    assert forall|i: int| 0 <= i < kept.len() && kept[i].counted && kept[i].message.vote_step == round implies members.contains(
        (#[trigger] kept[i]).voter,
    ) by {
        before.votes.lemma_filter_contains_rev(pred, kept[i]);
        let j = choose|j: int| 0 <= j < before.votes.len() && before.votes[j] == kept[i];
        assert(members.contains(before.votes[j].voter));
    }
    law_sealed_block_verifies(engine, header, round.view, recover, r);
}

/// A proposal is accepted if and only if the proposer of its view signed it and may vote now.
pub proof fn law_proposal_is_accepted_iff(
    authorities: Seq<Address>,
    members: Seq<Address>,
    round: VoteStep,
    proposer: Result<Address, KeyError>,
)
    ensures
        proposal_verdict(authorities, members, round, proposer) == Some(Ok::<(), Error>(())) <==> {
            &&& has_proposer(members, round)
            &&& proposer == Ok::<Address, KeyError>(proposer_of(members, round.height, round.view))
            &&& authorities.contains(proposer_of(members, round.height, round.view))
        },
{
}

/// What a node proposes verifies with the node itself, as long as its signature can be told from
/// others: `engine` is the node after the proposal, and the block has the height that the node is
/// at.
pub proof fn law_own_proposal_verifies<V: ValidatorSet, F: Fn(&H520, &[u8]) -> Result<Address, KeyError>>(
    before: Tendermint<V>,
    engine: Tendermint<V>,
    header: Header,
    signature: H520,
    recover: &F,
    r: Result<(), Error>,
)
    requires
        before.may_propose(header.parent_hash),
        has_proposer(
            before.set().members(header.parent_hash),
            VoteStep { height: before@.height, view: before@.view, step: Step::Propose },
        ),
        header.number as usize == before@.height,
        engine.set() == before.set(),
        engine@ == after_proposal(before@, header, signature),
        reads_as_proposal(strings_of(header.seal@), before@.view, signature),
        forall|signed: &[u8], who: Result<Address, KeyError>|
            signed@ == info_rlp(
                VoteStep { height: before@.height, view: before@.view, step: Step::Propose },
                Some(header.bare_hash),
            ) && #[trigger] call_ensures(recover, (&signature, signed), who) ==> who == Ok::<Address, KeyError>(
                proposer_of(before.set().members(header.parent_hash), before@.height, before@.view),
            ),
        engine.is_external_verdict(header, recover, Some(r)),
    ensures
        r is Ok,
{
    let members = before.set().members(header.parent_hash);
    assert(engine@.proposal_parent == header.parent_hash);
    assert(members.contains(proposer_of(members, before@.height, before@.view))) by {
        law_proposer_is_a_validator(members, before@.height, before@.view);
    }
}

/// Those whose signatures could be told.
pub open spec fn signers(origins: Seq<Result<Address, KeyError>>) -> Set<Address>
    decreases origins.len(),
{
    if origins.len() == 0 {
        Set::empty()
    } else {
        match origins.last() {
            Ok(a) => signers(origins.drop_last()).insert(a),
            Err(_) => signers(origins.drop_last()),
        }
    }
}

/// Every signature from the index `i` on can be read and comes from a validator.
pub open spec fn are_by_validators(
    members: Seq<Address>,
    signatures: Seq<Result<H520, DecodeError>>,
    origins: Seq<Result<Address, KeyError>>,
    i: int,
) -> bool {
    &&& origins.len() == signatures.len()
    &&& forall|k: int| i <= k < signatures.len() ==> (#[trigger] signatures[k]) is Ok
    &&& forall|k: int| i <= k < signatures.len() ==> ((#[trigger] origins[k]) matches Ok(a) && members.contains(a))
}

proof fn lemma_light_from(
    members: Seq<Address>,
    signatures: Seq<Result<H520, DecodeError>>,
    origins: Seq<Result<Address, KeyError>>,
    i: int,
    seen: Seq<Address>,
)
    requires
        0 <= i <= origins.len() <= signatures.len(),
        seen.no_duplicates(),
        seen.to_set() == signers(origins.take(i)),
    ensures
        light_verdict(members, signatures, origins, i, seen) == Some(Ok::<(), Error>(())) <==> are_by_validators(
            members,
            signatures,
            origins,
            i,
        ) && is_quorum(signers(origins).len(), members.len()),
    decreases signatures.len() - i,
{
    seen.unique_seq_to_set();
    if i < signatures.len() {
        if signatures[i] is Ok && i < origins.len() && origins[i] is Ok {
            let a = origins[i]->Ok_0;
            assert(origins.take(i + 1).drop_last() =~= origins.take(i));
            if seen.contains(a) {
                assert(signers(origins.take(i + 1)) =~= seen.to_set());
                lemma_light_from(members, signatures, origins, i + 1, seen);
            } else {
                let more = seen.push(a);
                assert(more.to_set() =~= seen.to_set().insert(a)) by {
                    seen.lemma_push_to_set_commute(a);
                }
                lemma_light_from(members, signatures, origins, i + 1, more);
            }
        }
    } else {
        assert(origins.take(i) =~= origins);
    }
}

/// A header is accepted if and only if every signature can be read and comes from a validator, and
/// the validators that have signed are enough. Signing twice is no offence here and counts once.
pub proof fn law_header_is_accepted_iff(
    members: Seq<Address>,
    signatures: Seq<Result<H520, DecodeError>>,
    origins: Seq<Result<Address, KeyError>>,
)
    requires
        origins.len() <= signatures.len(),
    ensures
        light_verdict(members, signatures, origins, 0, seq![]) == Some(Ok::<(), Error>(())) <==> {
            &&& origins.len() == signatures.len()
            &&& forall|k: int| 0 <= k < signatures.len() ==> (#[trigger] signatures[k]) is Ok
            &&& forall|k: int|
                0 <= k < signatures.len() ==> ((#[trigger] origins[k]) matches Ok(a) && members.contains(a))
            &&& is_quorum(signers(origins).len(), members.len())
        },
{
    assert(Seq::<Address>::empty().to_set() =~= signers(origins.take(0)));
    lemma_light_from(members, signatures, origins, 0, seq![]);
}

} // verus!
