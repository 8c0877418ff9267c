//! What votes, timeouts and signatures lead to.

use super::counting::{
    has_turned_out, is_decided, is_earlier, is_latest, is_resent, law_aligned_votes_count_supporters, law_double_votes,
    law_old_messages, law_old_votes_are_sent_again, law_order_of_rounds, law_quorum_is_more_than_two_thirds,
    law_round_votes_count_participants, participates, rank,
};
use crate::codec::item_of;
use crate::engine::Tendermint;
use crate::error::{DecodeError, EngineError, KeyError, Malformation};
use crate::message::{info_rlp, message_of, message_rlp, ConsensusMessage, ViewNumber, VoteStep};
use crate::primitives::{Address, BlockHash, H520};
use crate::seal::{commit_seal, reads_as_commit};
use crate::state::{ActionView, Ballot, EngineState, Outcome};
use crate::step::Step;
use crate::validators::ValidatorSet;
use crate::votes::{
    block_signatures, double_vote_rlp, is_record, messages_up_to, recorded, votes_from, DoubleVote, Vote,
};
use vstd::prelude::*;

verus! {

/// Whether enough votes agree, or have been cast, said of voters.
proof fn lemma_enough(s: EngineState, validators: nat, m: ConsensusMessage)
    requires
        is_record(s.votes),
    ensures
        s.has_aligned_quorum(validators, m) <==> is_decided(s.votes, m.vote_step, m.block_hash, validators),
        s.has_any_quorum(validators) <==> has_turned_out(
            s.votes,
            VoteStep { height: s.height, view: s.view, step: s.step },
            validators,
        ),
        s.has_future_quorum(validators, m.vote_step) <==> m.vote_step.view > s.view && has_turned_out(
            s.votes,
            m.vote_step,
            validators,
        ),
{
    let here = VoteStep { height: s.height, view: s.view, step: s.step };
    law_aligned_votes_count_supporters(s.votes, m);
    law_round_votes_count_participants(s.votes, here);
    law_round_votes_count_participants(s.votes, m.vote_step);
    law_quorum_is_more_than_two_thirds(crate::votes::aligned_votes(s.votes, m).len(), validators);
    law_quorum_is_more_than_two_thirds(crate::votes::round_votes(s.votes, here).len(), validators);
    law_quorum_is_more_than_two_thirds(crate::votes::round_votes(s.votes, m.vote_step).len(), validators);
}

// ---------------------------------------------------------------------------------------------
// The beginning of a step
// ---------------------------------------------------------------------------------------------

/// What a node prevotes: the block that it is locked on, unless the lock came after what the node
/// has precommitted to and in a view that is over; otherwise what was proposed.
pub open spec fn to_prevote(t: EngineState) -> Option<BlockHash> {
    if t.lock_change matches Some(lock) && !(t.last_lock < lock.vote_step.view && lock.vote_step.view < t.view) {
        t.lock_change->0.block_hash
    } else {
        t.proposal
    }
}

/// The node is locked on a block in the view that it is in.
pub open spec fn is_locked_here(t: EngineState) -> bool {
    &&& t.lock_change matches Some(lock)
    &&& lock.vote_step.height == t.height
    &&& lock.vote_step.view == t.view
    &&& lock.block_hash is Some
}

/// What a node precommits to: the block that it is locked on in the view, or none.
pub open spec fn to_precommit(t: EngineState) -> Option<BlockHash> {
    if is_locked_here(t) {
        t.lock_change->0.block_hash
    } else {
        None
    }
}

/// From the index `at` on the actions are those of the beginning of the step of `t`, where `kept`
/// had been kept back: the step is announced; in the propose step a block is asked for; in the
/// voting steps a node with a signer asks for the signature of its vote and keeps back what it
/// kept back; and otherwise what was kept back is sent, the latest first.
pub open spec fn has_begun(kept: Seq<Seq<u8>>, t: EngineState, actions: Seq<ActionView>, at: int) -> bool {
    let round = VoteStep { height: t.height, view: t.view, step: t.step };
    let choice = if t.step == Step::Prevote {
        to_prevote(t)
    } else {
        to_precommit(t)
    };
    &&& 0 <= at < actions.len()
    &&& actions[at] == ActionView::Step(t.step)
    &&& if (t.step == Step::Prevote || t.step == Step::Precommit) && t.signer is Some {
        &&& t.ballot == Some(Ballot { vote_step: round, block_hash: choice })
        &&& t.outbox == kept
        &&& actions.len() == at + 2
        &&& actions[at + 1] == ActionView::Sign(info_rlp(round, choice))
    } else {
        &&& t.step == Step::Propose ==> at + 1 < actions.len() && actions[at + 1] == ActionView::UpdateSealing
        &&& are_sent(
            kept,
            t,
            actions,
            if t.step == Step::Propose {
                at + 2
            } else {
                at + 1
            },
        )
    }
}

/// From the index `at` on the actions send what had been kept back, the latest first, and there
/// is nothing left to wait for.
pub open spec fn are_sent(kept: Seq<Seq<u8>>, t: EngineState, actions: Seq<ActionView>, at: int) -> bool {
    &&& t.ballot is None
    &&& t.outbox.len() == 0
    &&& actions.len() == at + kept.len()
    &&& forall|k: int|
        0 <= k < kept.len() ==> #[trigger] actions[at + k] == ActionView::Broadcast(kept[kept.len() - 1 - k])
}

/// What no step, vote or timeout changes.
pub open spec fn is_same_node(s: EngineState, t: EngineState) -> bool {
    &&& t.signer == s.signer
    &&& t.last_proposed == s.last_proposed
    &&& t.proposal_parent == s.proposal_parent
}

/// What is kept back when a node has nothing more to wait for is sent.
proof fn lemma_flushed(s: EngineState)
    requires
        s.is_idle(),
    ensures
        are_sent(s.outbox, s.flushed().state, s.flushed().actions, 0),
        s.flushed().state == (EngineState { outbox: seq![], ..s }),
{
    let actions = s.flushed().actions;
    assert forall|k: int| 0 <= k < s.outbox.len() implies #[trigger] actions[0 + k] == ActionView::Broadcast(
        s.outbox[s.outbox.len() - 1 - k],
    ) by {
        assert(s.outbox.reverse()[k] == s.outbox[s.outbox.len() - 1 - k]);
    }
}

/// What happens behind other actions.
proof fn lemma_begun_after(kept: Seq<Seq<u8>>, o: Outcome, first: Seq<ActionView>)
    requires
        has_begun(kept, o.state, o.actions, 0),
    ensures
        has_begun(kept, o.state, first + o.actions, first.len() as int),
        forall|i: int| 0 <= i < first.len() ==> #[trigger] (first + o.actions)[i] == first[i],
{
    let all = first + o.actions;
    let n = first.len() as int;
    assert(all[n] == o.actions[0]);
    if o.actions.len() > 1 {
        assert(all[n + 1] == o.actions[1]);
    }
    assert forall|at: int| are_sent(kept, o.state, o.actions, at) && at >= 0 implies #[trigger] are_sent(
        kept,
        o.state,
        all,
        n + at,
    ) by {
        assert forall|k: int| 0 <= k < kept.len() implies #[trigger] all[n + at + k] == ActionView::Broadcast(
            kept[kept.len() - 1 - k],
        ) by {
            assert(all[n + at + k] == o.actions[at + k]);
        }
    }
    assert(are_sent(kept, o.state, o.actions, 1) ==> are_sent(kept, o.state, all, n + 1));
    assert(are_sent(kept, o.state, o.actions, 2) ==> are_sent(kept, o.state, all, n + 2));
}

/// What the beginning of a step does: it is announced; in the propose step a block is asked for; in
/// the prevote step the node votes for the block that it is locked on or else for the proposal, and
/// in the precommit step for the block that it is locked on in this view or else for none, and then
/// remembers this view. Nothing else changes.
pub proof fn law_beginning_of_a_step(s: EngineState, step: Step)
    requires
        s.is_idle(),
    ensures
        has_begun(s.outbox, s.entered(step).state, s.entered(step).actions, 0),
        s.entered(step).state.step == step,
        s.entered(step).state.height == s.height,
        s.entered(step).state.view == s.view,
        s.entered(step).state.votes == s.votes,
        s.entered(step).state.pristine == s.pristine,
        s.entered(step).state.lock_change == s.lock_change,
        s.entered(step).state.proposal == s.proposal,
        s.entered(step).state.last_lock == if step == Step::Precommit && is_locked_here(s) {
            s.view
        } else {
            s.last_lock
        },
        is_same_node(s, s.entered(step).state),
{
    let t = EngineState { step, ..s };
    lemma_flushed(t);
    lemma_flushed(EngineState { last_lock: s.view, ..t });
    let o = s.entered(step);
    assert forall|first: Seq<ActionView>, r: EngineState|
        r.is_idle() && r.outbox == s.outbox && o.actions == first + #[trigger] r.flushed().actions && o.state
            == r.flushed().state implies #[trigger] are_sent(s.outbox, o.state, o.actions, first.len() as int) by {
        lemma_flushed(r);
        assert forall|k: int| 0 <= k < s.outbox.len() implies #[trigger] o.actions[first.len() + k]
            == ActionView::Broadcast(s.outbox[s.outbox.len() - 1 - k]) by {
            assert(r.flushed().actions[0 + k] == ActionView::Broadcast(s.outbox[s.outbox.len() - 1 - k]));
        }
    }
    let one = seq![ActionView::Step(step)];
    let two = seq![ActionView::Step(step), ActionView::UpdateSealing];
    if step == Step::Propose {
        assert(o.actions == two + t.flushed().actions);
        assert(are_sent(s.outbox, o.state, o.actions, two.len() as int));
    } else if step == Step::Commit {
        assert(o.actions == one + t.flushed().actions);
        assert(are_sent(s.outbox, o.state, o.actions, one.len() as int));
    } else if s.signer is None {
        let r = if step == Step::Precommit && is_locked_here(s) {
            EngineState { last_lock: s.view, ..t }
        } else {
            t
        };
        assert(o.actions == one + r.flushed().actions);
        assert(are_sent(s.outbox, o.state, o.actions, one.len() as int));
    }
}

// ---------------------------------------------------------------------------------------------
// Votes
// ---------------------------------------------------------------------------------------------

/// The vote can end a step: it is of the height, and the node is in a voting step.
pub open spec fn is_heeded(s: EngineState, m: ConsensusMessage) -> bool {
    m.vote_step.height == s.height && (rank(s.step) == 1 || rank(s.step) == 2)
}

/// The vote ends the height: the node is in the precommit step, and more than two thirds are for the
/// block in the round of the vote.
pub open spec fn is_ended_by(s: EngineState, validators: nat, m: ConsensusMessage) -> bool {
    &&& m.vote_step.height == s.height
    &&& s.step == Step::Precommit
    &&& m.block_hash is Some
    &&& is_decided(s.votes, m.vote_step, m.block_hash, validators)
}

/// More than two thirds have voted in the round of the vote, and it is of a later view.
pub open spec fn is_overtaken_by(s: EngineState, validators: nat, m: ConsensusMessage) -> bool {
    m.vote_step.view > s.view && has_turned_out(s.votes, m.vote_step, validators)
}

/// The vote makes a step begin.
pub open spec fn moves_on_by(s: EngineState, validators: nat, m: ConsensusMessage) -> bool {
    is_heeded(s, m) && (is_decided(s.votes, m.vote_step, m.block_hash, validators) || is_overtaken_by(s, validators, m))
}

/// The vote locks the node: it is a prevote for a block that more than two thirds prevote for in
/// its round, and there is no lock, or the lock is of an earlier round.
pub open spec fn is_locked_by(s: EngineState, validators: nat, m: ConsensusMessage) -> bool {
    &&& m.vote_step.step == Step::Prevote
    &&& m.block_hash is Some
    &&& is_decided(s.votes, m.vote_step, m.block_hash, validators)
    &&& s.lock_change is None || is_earlier(s.lock_change->0.vote_step, m.vote_step)
}

/// The newest lock holds: if a prevote for a block is handled whose round has enough prevotes for
/// the block, and there is no lock or an older one, the lock is that vote afterwards, and otherwise
/// it is what it was. Only the end of the height takes the lock away.
pub proof fn law_newest_lock_holds(s: EngineState, validators: nat, m: ConsensusMessage)
    requires
        is_record(s.votes),
        s.is_idle(),
    ensures
        s.handled(validators, m).state.lock_change == if is_ended_by(s, validators, m) {
            None
        } else if is_locked_by(s, validators, m) {
            Some(m)
        } else {
            s.lock_change
        },
{
    lemma_enough(s, validators, m);
    if s.lock_change is Some {
        law_order_of_rounds(s.lock_change->0.vote_step, m.vote_step);
    }
}

/// The view after a view. The number after the last one is the first.
pub open spec fn next_view(view: ViewNumber) -> ViewNumber {
    if view == usize::MAX {
        0
    } else {
        (view + 1) as usize
    }
}

/// Moving on by some views adds their number to that of the view, once around at most.
pub proof fn law_views_follow_each_other(s: EngineState, n: ViewNumber)
    ensures
        s.view_after(n) == s.view + n || s.view_after(n) + usize::MAX + 1 == s.view + n,
        s.view_after(1) == next_view(s.view),
        s.view_after(0) == s.view,
{
}

/// Where a vote leads. Votes of other heights, and votes outside of the voting steps, lead nowhere.
/// In the prevote step enough votes of a round for one block, or for none, lead to the precommit
/// step; in the precommit step they end the height if they are for a block, and the view if they
/// are for none. Without that, enough votes of a round of a later view lead to the same step of
/// that view.
pub proof fn law_where_votes_lead(s: EngineState, validators: nat, m: ConsensusMessage)
    requires
        is_record(s.votes),
        s.is_idle(),
        is_ended_by(s, validators, m) ==> s.height < usize::MAX,
    ensures
        ({
            let t = s.handled(validators, m).state;
            if is_ended_by(s, validators, m) {
                t.height == s.height + 1 && t.view == 0 && t.step == Step::Commit
            } else if !moves_on_by(s, validators, m) {
                t.height == s.height && t.view == s.view && t.step == s.step
            } else if is_decided(s.votes, m.vote_step, m.block_hash, validators) {
                &&& t.height == s.height
                &&& s.step == Step::Prevote ==> t.view == s.view && t.step == Step::Precommit
                &&& s.step == Step::Precommit ==> t.view == next_view(s.view) && t.step == Step::Propose
            } else {
                t.height == s.height && t.view == m.vote_step.view && t.step == s.step
            }
        }),
{
    lemma_enough(s, validators, m);
}

/// What else a vote changes: the end of the height takes the proposal away and begins to count locks
/// anew; a precommit to a block remembers the view; and only a node that seals its own block throws
/// votes out, namely those of the rounds before that of the vote.
pub proof fn law_what_votes_change(s: EngineState, validators: nat, m: ConsensusMessage)
    requires
        is_record(s.votes),
        s.is_idle(),
    ensures
        ({
            let t = s.handled(validators, m).state;
            let ended = is_ended_by(s, validators, m);
            let sealed = ended && m.block_hash == Some(s.last_proposed);
            &&& is_same_node(s, t)
            &&& t.proposal == if ended {
                None
            } else {
                s.proposal
            }
            &&& t.last_lock == if ended {
                0
            } else if moves_on_by(s, validators, m) && t.step == Step::Precommit && is_locked_here(t) {
                t.view
            } else {
                s.last_lock
            }
            &&& t.votes == if sealed {
                votes_from(s.votes, m.vote_step)
            } else {
                s.votes
            }
            &&& t.pristine == (s.pristine && (!sealed || m.vote_step == VoteStep { height: 0, view: 0, step: Step::Propose }))
        }),
{
    lemma_enough(s, validators, m);
    if s.lock_change is Some {
        law_order_of_rounds(s.lock_change->0.vote_step, m.vote_step);
    }
}

/// What a vote makes the node do. If it leads nowhere, what was kept back is sent. Otherwise the
/// step that it leads to begins; and before that, the node that proposed a block that is decided
/// seals it, with the view of the vote and the signatures of those who are for it.
pub proof fn law_what_votes_make_the_node_do(s: EngineState, validators: nat, m: ConsensusMessage)
    requires
        is_record(s.votes),
        s.is_idle(),
    ensures
        ({
            let o = s.handled(validators, m);
            let sealed = is_ended_by(s, validators, m) && m.block_hash == Some(s.last_proposed);
            if !moves_on_by(s, validators, m) {
                are_sent(s.outbox, o.state, o.actions, 0)
            } else if sealed {
                &&& o.actions[0] == ActionView::SubmitSeal {
                    block_hash: s.last_proposed,
                    seal: commit_seal(
                        m.vote_step.view,
                        block_signatures(s.votes, m.vote_step, s.last_proposed),
                    ),
                }
                &&& has_begun(s.outbox, o.state, o.actions, 1)
            } else {
                has_begun(s.outbox, o.state, o.actions, 0)
            }
        }),
{
    lemma_enough(s, validators, m);
    let t = s.relocked(validators, m);
    lemma_flushed(t);
    law_beginning_of_a_step(t, Step::Precommit);
    law_beginning_of_a_step(EngineState { view: t.view_after(1), ..t }, Step::Propose);
    law_beginning_of_a_step(EngineState { view: m.vote_step.view, ..t }, s.step);
    if let Some(block_hash) = m.block_hash {
        let next = t.at_next_height();
        let sealed = EngineState {
            votes: votes_from(t.votes, m.vote_step),
            pristine: t.pristine && !VoteStep::spec_first().spec_before(m.vote_step),
            ..next
        };
        law_beginning_of_a_step(next, Step::Commit);
        law_beginning_of_a_step(sealed, Step::Commit);
        lemma_begun_after(
            s.outbox,
            sealed.entered(Step::Commit),
            seq![
                ActionView::SubmitSeal {
                    block_hash,
                    seal: commit_seal(m.vote_step.view, block_signatures(t.votes, m.vote_step, block_hash)),
                },
            ],
        );
    }
}

/// Which votes end the height, and which seal they complete: whoever proposed the block that is
/// decided seals it, with the view of the vote and the signatures of those who are for it.
pub proof fn law_end_of_a_height(s: EngineState, validators: nat, m: ConsensusMessage)
    requires
        is_record(s.votes),
    ensures
        s.commits(validators, m) <==> is_ended_by(s, validators, m),
        s.completed_seal(validators, m) == if is_ended_by(s, validators, m) && m.block_hash == Some(s.last_proposed) {
            Some((m.vote_step.view, block_signatures(s.votes, m.vote_step, s.last_proposed)))
        } else {
            None
        },
{
    lemma_enough(s, validators, m);
}

/// The seal that a vote completes is read as that of a committed block, with the view of the vote and
/// the signatures of those who are for the block.
pub proof fn law_completed_seals_are_read(s: EngineState, validators: nat, m: ConsensusMessage)
    requires
        is_record(s.votes),
        s.seals_readably(validators, m),
        is_ended_by(s, validators, m),
        m.block_hash == Some(s.last_proposed),
    ensures
        ({
            let signatures = block_signatures(s.votes, m.vote_step, s.last_proposed);
            reads_as_commit(commit_seal(m.vote_step.view, signatures), m.vote_step.view, signatures)
        }),
{
    lemma_enough(s, validators, m);
}

// ---------------------------------------------------------------------------------------------
// Timeouts
// ---------------------------------------------------------------------------------------------

/// More than two thirds have voted in the round that the node is in.
pub open spec fn is_concluded(s: EngineState, validators: nat) -> bool {
    has_turned_out(s.votes, VoteStep { height: s.height, view: s.view, step: s.step }, validators)
}

/// Where a timeout leads. From the propose step it leads to the prevote step, and from the commit
/// step to the propose step. The voting steps begin again, unless more than two thirds have voted
/// in the very round: the prevote step then leads to the precommit step, and the precommit step to
/// the next view. Nothing else changes.
pub proof fn law_where_timeouts_lead(s: EngineState, validators: nat, proposer: Address)
    requires
        is_record(s.votes),
        s.is_idle(),
    ensures
        ({
            let t = s.timed_out(validators, proposer).state;
            let prevotes = VoteStep { height: s.height, view: s.view, step: Step::Prevote };
            let precommits = VoteStep { height: s.height, view: s.view, step: Step::Precommit };
            &&& match s.step {
                Step::Propose => t.step == Step::Prevote && t.view == s.view,
                Step::Prevote => t.view == s.view && t.step == if has_turned_out(s.votes, prevotes, validators) {
                    Step::Precommit
                } else {
                    Step::Prevote
                },
                Step::Precommit => if has_turned_out(s.votes, precommits, validators) {
                    t.step == Step::Propose && t.view == next_view(s.view)
                } else {
                    t.step == Step::Precommit && t.view == s.view
                },
                Step::Commit => t.step == Step::Propose && t.view == s.view,
            }
            &&& t.height == s.height
            &&& t.votes == s.votes
            &&& t.pristine == s.pristine
            &&& t.lock_change == s.lock_change
            &&& t.proposal == s.proposal
            &&& t.last_lock == if t.step == Step::Precommit && is_locked_here(s) {
                s.view
            } else {
                s.last_lock
            }
            &&& is_same_node(s, t)
        }),
{
    let any = ConsensusMessage { vote_step: s.round(), block_hash: None, signature: arbitrary() };
    lemma_enough(s, validators, any);
}

/// `sent` tells the peers of every prevote and every precommit on record up to and with `round`,
/// of whatever view, each once, those of earlier rounds first, and of nothing else: `messages` are
/// the votes.
pub open spec fn are_sent_again(
    votes: Seq<Vote>,
    round: VoteStep,
    messages: Seq<ConsensusMessage>,
    sent: Seq<ActionView>,
) -> bool {
    &&& forall|x: ConsensusMessage| #[trigger] messages.contains(x) <==> is_resent(votes, round, x)
    &&& messages.no_duplicates()
    &&& forall|i: int, j: int|
        0 <= i < j < messages.len() ==> !is_earlier((#[trigger] messages[j]).vote_step, (#[trigger] messages[i]).vote_step)
    &&& sent.len() == messages.len()
    &&& forall|i: int|
        0 <= i < sent.len() ==> #[trigger] sent[i] == ActionView::Broadcast(message_rlp(messages[i]))
}

/// The peers are brought up to speed with all prevotes and precommits on record that are not later
/// than the precommits of the view.
pub proof fn law_peers_are_brought_up_to_speed(s: EngineState) -> (messages: Seq<ConsensusMessage>)
    requires
        is_record(s.votes),
    ensures
        are_sent_again(
            s.votes,
            VoteStep { height: s.height, view: s.view, step: Step::Precommit },
            messages,
            s.old_messages(),
        ),
{
    let round = VoteStep { height: s.height, view: s.view, step: Step::Precommit };
    let messages = messages_up_to(s.votes, round);
    assert forall|x: ConsensusMessage| #[trigger] messages.contains(x) <==> is_resent(s.votes, round, x) by {
        law_old_votes_are_sent_again(s.votes, round, x);
    }
    law_old_votes_are_sent_again(s.votes, round, arbitrary());
    messages
}

/// What a timeout makes the node do. Without a proposal, the proposer is reported first. If not
/// enough have voted in a voting step, the peers are brought up to speed first. The step that the
/// timeout leads to begins in any case.
pub proof fn law_what_timeouts_make_the_node_do(s: EngineState, validators: nat, proposer: Address)
    requires
        is_record(s.votes),
        s.is_idle(),
    ensures
        ({
            let o = s.timed_out(validators, proposer);
            if s.step == Step::Propose && s.proposal is None {
                &&& o.actions[0] == ActionView::ReportBenign {
                    validator: proposer,
                    set_block: s.height as u64,
                    block: s.height as u64,
                }
                &&& has_begun(s.outbox, o.state, o.actions, 1)
            } else if (s.step == Step::Prevote || s.step == Step::Precommit) && !is_concluded(s, validators) {
                exists|messages: Seq<ConsensusMessage>|
                    {
                        &&& messages.len() <= o.actions.len()
                        &&& #[trigger] are_sent_again(
                            s.votes,
                            VoteStep { height: s.height, view: s.view, step: Step::Precommit },
                            messages,
                            o.actions.take(messages.len() as int),
                        )
                        &&& has_begun(s.outbox, o.state, o.actions, messages.len() as int)
                    }
            } else {
                has_begun(s.outbox, o.state, o.actions, 0)
            }
        }),
{
    let any = ConsensusMessage { vote_step: s.round(), block_hash: None, signature: arbitrary() };
    lemma_enough(s, validators, any);
    let o = s.timed_out(validators, proposer);
    law_beginning_of_a_step(s, Step::Propose);
    law_beginning_of_a_step(s, Step::Prevote);
    law_beginning_of_a_step(s, Step::Precommit);
    law_beginning_of_a_step(EngineState { view: s.view_after(1), ..s }, Step::Propose);
    if s.step == Step::Propose {
        let report = ActionView::ReportBenign {
            validator: proposer,
            set_block: s.height as u64,
            block: s.height as u64,
        };
        lemma_begun_after(s.outbox, s.entered(Step::Prevote), seq![report]);
    } else if s.step == Step::Prevote || s.step == Step::Precommit {
        let messages = law_peers_are_brought_up_to_speed(s);
        lemma_begun_after(s.outbox, s.entered(s.step), s.old_messages());
        if !is_concluded(s, validators) {
            assert(o.actions.take(messages.len() as int) =~= s.old_messages());
        }
    }
}

// ---------------------------------------------------------------------------------------------
// Own votes
// ---------------------------------------------------------------------------------------------

/// A signature that was refused leaves the vote uncast: what was kept back is sent, and nothing is
/// recorded.
pub proof fn law_refused_signature(s: EngineState, validators: nat)
    ensures
        s.answered(validators, None).state == (EngineState { ballot: None, outbox: seq![], ..s }),
        are_sent(s.outbox, s.answered(validators, None).state, s.answered(validators, None).actions, 0),
{
    lemma_flushed(EngineState { ballot: None, ..s });
}

/// An own vote is what the node asked the signature for. It is recorded as cast by the signer, kept
/// back until the node has nothing more to wait for, and handled.
pub proof fn law_own_vote_is_recorded_and_handled(
    s: EngineState,
    validators: nat,
    ballot: Ballot,
    signer: Address,
    signature: H520,
)
    requires
        s.ballot == Some(ballot),
        s.signer == Some(signer),
    ensures
        ({
            let m = ConsensusMessage { vote_step: ballot.vote_step, block_hash: ballot.block_hash, signature };
            let cast = EngineState {
                votes: recorded(s.votes, m, signer),
                ballot: None,
                outbox: s.outbox.push(message_rlp(m)),
                ..s
            };
            &&& s.answered(validators, Some(signature)) == cast.handled(validators, m)
            &&& s.answer_commits(validators, Some(signature)) <==> cast.commits(validators, m)
        }),
{
}

/// What is kept back changes nothing else about a step that begins.
proof fn lemma_begins_alike(s: EngineState, outbox: Seq<Seq<u8>>, step: Step)
    ensures
        ({
            let a = s.entered(step).state;
            let b = (EngineState { outbox, ..s }).entered(step).state;
            a == (EngineState { outbox: a.outbox, ..b })
        }),
{
}

/// What is kept back changes nothing else about the end of a height.
proof fn lemma_ends_alike(s: EngineState, outbox: Seq<Seq<u8>>, m: ConsensusMessage, block_hash: BlockHash)
    ensures
        ({
            let a = s.committed(m, block_hash).state;
            let b = (EngineState { outbox, ..s }).committed(m, block_hash).state;
            a == (EngineState { outbox: a.outbox, ..b })
        }),
{
}

/// What is kept back changes nothing else about what a vote leads to.
proof fn lemma_handles_alike(s: EngineState, outbox: Seq<Seq<u8>>, validators: nat, m: ConsensusMessage)
    ensures
        ({
            let a = s.handled(validators, m).state;
            let b = (EngineState { outbox, ..s }).handled(validators, m).state;
            a == (EngineState { outbox: a.outbox, ..b })
        }),
{
    let t = s.relocked(validators, m);
    let other = EngineState { outbox, ..s };
    assert(other.relocked(validators, m) == EngineState { outbox, ..t });
    if m.vote_step.height != s.height || !s.step.spec_is_pre() {
    } else if s.has_aligned_quorum(validators, m) {
        if s.step == Step::Prevote {
            lemma_begins_alike(t, outbox, Step::Precommit);
        } else if let Some(block_hash) = m.block_hash {
            lemma_ends_alike(t, outbox, m, block_hash);
        } else {
            lemma_begins_alike(EngineState { view: t.view_after(1), ..t }, outbox, Step::Propose);
        }
    } else if s.has_future_quorum(validators, m.vote_step) {
        lemma_begins_alike(EngineState { view: m.vote_step.view, ..t }, outbox, s.step);
    }
}

/// A vote leads to the same whoever handles it: an own vote leaves the node where the same vote
/// would leave it if it had come from a peer.
pub proof fn law_own_vote_counts_as_any_other(
    s: EngineState,
    members: Seq<Address>,
    ballot: Ballot,
    signer: Address,
    signature: H520,
    rlp: Seq<u8>,
)
    requires
        s.ballot == Some(ballot),
        s.signer == Some(signer),
        members.contains(signer),
        !participates(s.votes, ballot.vote_step, signer),
    ensures
        ({
            let m = ConsensusMessage { vote_step: ballot.vote_step, block_hash: ballot.block_hash, signature };
            let own = s.answered(members.len(), Some(signature)).state;
            let peer = (EngineState { ballot: None, ..s }).delivered(members, m, rlp, Ok(signer)).state;
            own == (EngineState { outbox: own.outbox, ..peer })
        }),
{
    let m = ConsensusMessage { vote_step: ballot.vote_step, block_hash: ballot.block_hash, signature };
    law_double_votes(s.votes, m, signer);
    lemma_handles_alike(s.with_own_vote(m, signer), s.outbox, members.len(), m);
    assert(EngineState { outbox: s.outbox, ..s.with_own_vote(m, signer) } == (EngineState { ballot: None, ..s }).with_vote(
        m,
        signer,
    ));
}

/// An own vote is sent: at once, before what was kept back earlier, or as soon as the vote that the
/// node waits for next is signed.
pub proof fn law_own_vote_is_sent(s: EngineState, validators: nat, ballot: Ballot, signer: Address, signature: H520)
    requires
        is_record(s.votes),
        s.ballot == Some(ballot),
        s.signer == Some(signer),
    ensures
        ({
            let m = ConsensusMessage { vote_step: ballot.vote_step, block_hash: ballot.block_hash, signature };
            let o = s.answered(validators, Some(signature));
            let kept = s.outbox.push(message_rlp(m));
            if o.state.ballot is Some {
                o.state.outbox == kept
            } else {
                are_sent(kept, o.state, o.actions, o.actions.len() - kept.len())
            }
        }),
{
    let m = ConsensusMessage { vote_step: ballot.vote_step, block_hash: ballot.block_hash, signature };
    let cast = s.with_own_vote(m, signer);
    crate::votes::lemma_recorded(s.votes, m, signer);
    law_what_votes_make_the_node_do(cast, validators, m);
}

// ---------------------------------------------------------------------------------------------
// Messages
// ---------------------------------------------------------------------------------------------

/// A message that cannot be told to be a validator's changes nothing and is passed on to nobody.
/// The answer says why.
pub proof fn law_strangers_are_not_heard(
    s: EngineState,
    members: Seq<Address>,
    m: ConsensusMessage,
    rlp: Seq<u8>,
    sender: Result<Address, KeyError>,
)
    requires
        sender matches Ok(a) ==> !members.contains(a),
    ensures
        s.delivered(members, m, rlp, sender).state == s,
        s.delivered(members, m, rlp, sender).actions.len() == 0,
        s.reply(members, m, sender) == match sender {
            Ok(a) => Err::<(), EngineError>(EngineError::NotAuthorized(a)),
            Err(e) => Err::<(), EngineError>(EngineError::MalformedMessage(Malformation::Signature(e))),
        },
        !s.delivery_commits(members, m, sender),
{
}

/// A second vote of a validator in a round is recorded and passed on, and its voter is reported with
/// both votes, but nothing follows from it.
pub proof fn law_double_votes_are_reported(
    s: EngineState,
    members: Seq<Address>,
    m: ConsensusMessage,
    rlp: Seq<u8>,
    sender: Address,
) -> (double: DoubleVote)
    requires
        members.contains(sender),
        participates(s.votes, m.vote_step, sender),
        !(exists|i: int| 0 <= i < s.votes.len() && (#[trigger] s.votes[i]).message == m),
    ensures
        s.delivered(members, m, rlp, Ok(sender)).state == (EngineState { votes: recorded(s.votes, m, sender), ..s }),
        s.delivered(members, m, rlp, Ok(sender)).actions == seq![
            ActionView::Broadcast(rlp),
            ActionView::ReportMalicious {
                validator: sender,
                set_block: m.vote_step.height as u64,
                block: m.vote_step.height as u64,
                proof_rlp: double_vote_rlp(double),
            },
        ],
        s.reply(members, m, Ok(sender)) == Err::<(), EngineError>(EngineError::DoubleVote(sender)),
        !s.delivery_commits(members, m, Ok(sender)),
        double.author == sender,
        double.vote_two == m,
        double.vote_one.vote_step == m.vote_step,
        is_latest(s.votes, double.vote_one, sender),
{
    law_double_votes(s.votes, m, sender);
    crate::votes::double_vote(s.votes, m, sender)->0
}

/// The first vote of a validator in a round, and a vote that is on record, is passed on first; then
/// it is recorded and handled.
pub proof fn law_votes_are_passed_on_and_handled(
    s: EngineState,
    members: Seq<Address>,
    m: ConsensusMessage,
    rlp: Seq<u8>,
    sender: Address,
)
    requires
        members.contains(sender),
        participates(s.votes, m.vote_step, sender) ==> exists|i: int|
            0 <= i < s.votes.len() && (#[trigger] s.votes[i]).message == m,
    ensures
        ({
            let o = s.delivered(members, m, rlp, Ok(sender));
            let cast = EngineState { votes: recorded(s.votes, m, sender), ..s };
            &&& o.actions.len() > 0
            &&& o.actions[0] == ActionView::Broadcast(rlp)
            &&& o.actions.skip(1) == cast.handled(members.len(), m).actions
            &&& o.state == cast.handled(members.len(), m).state
            &&& s.reply(members, m, Ok(sender)) == Ok::<(), EngineError>(())
            &&& s.delivery_commits(members, m, Ok(sender)) <==> cast.commits(members.len(), m)
            &&& s.delivers_readably(members, m, Ok(sender)) <==> cast.seals_readably(members.len(), m)
        }),
{
    law_double_votes(s.votes, m, sender);
    let o = s.delivered(members, m, rlp, Ok(sender));
    let cast = EngineState { votes: recorded(s.votes, m, sender), ..s };
    assert(o.actions.skip(1) =~= cast.handled(members.len(), m).actions);
}

/// A message needs no handling if and only if it is on record, or its round is not later than any on
/// record.
pub proof fn law_what_needs_no_handling(s: EngineState, m: ConsensusMessage)
    ensures
        s.is_old_or_known(m) <==> {
            ||| exists|i: int| 0 <= i < s.votes.len() && (#[trigger] s.votes[i]).message == m
            ||| {
                &&& forall|i: int|
                    0 <= i < s.votes.len() ==> !is_earlier((#[trigger] s.votes[i]).message.vote_step, m.vote_step)
                &&& s.pristine ==> m.vote_step == (VoteStep { height: 0, view: 0, step: Step::Propose })
            }
        },
{
    law_old_messages(s.votes, s.pristine, m);
}

/// What the bytes of a message lead to: to an error that says what is wrong with them; to nothing, if
/// the message is old or known; and otherwise to what the message leads to whose signer `recover`
/// finds behind the signed bytes.
pub proof fn law_what_messages_lead_to<V: ValidatorSet, F: Fn(&H520, &[u8]) -> Result<Address, KeyError>>(
    engine: Tendermint<V>,
    rlp: Seq<u8>,
    recover: &F,
    who: Result<Address, KeyError>,
    after: EngineState,
    actions: Seq<ActionView>,
    reply: Result<(), EngineError>,
)
    requires
        message_of(rlp) matches Ok(m) ==> forall|signed: &[u8], x: Result<Address, KeyError>|
            item_of(rlp, 1) == Ok::<_, DecodeError>(signed@) && #[trigger] call_ensures(
                recover,
                (&m.signature, signed),
                x,
            ) ==> x == who,
        engine.is_message_outcome(rlp, recover, after, actions, reply),
    ensures
        match message_of(rlp) {
            Err(e) => {
                &&& after == engine@
                &&& actions.len() == 0
                &&& reply == Err::<(), EngineError>(EngineError::MalformedMessage(Malformation::Encoding(e)))
            },
            Ok(m) => if engine@.is_old_or_known(m) {
                &&& after == engine@
                &&& actions.len() == 0
                &&& reply == Ok::<(), EngineError>(())
            } else {
                let members = engine.set().members(engine@.proposal_parent);
                &&& after == engine@.delivered(members, m, rlp, who).state
                &&& actions == engine@.delivered(members, m, rlp, who).actions
                &&& reply == engine@.reply(members, m, who)
            },
        },
        engine.is_news(rlp) <==> message_of(rlp) is Ok && !engine@.is_old_or_known(message_of(rlp)->Ok_0),
{
    if reply is Ok {
        assert(reply->Ok_0 == ());
    }
}

/// A new signer signs from then on, and the node begins the propose step of the view that it is in.
/// Nothing else changes.
pub proof fn law_new_signer(s: EngineState, address: Address)
    requires
        s.is_idle(),
    ensures
        ({
            let o = s.with_signer(address);
            &&& o.state == (EngineState { signer: Some(address), step: Step::Propose, outbox: seq![], ..s })
            &&& has_begun(s.outbox, o.state, o.actions, 0)
        }),
{
    law_beginning_of_a_step(EngineState { signer: Some(address), ..s }, Step::Propose);
}

/// A client that is registered makes the node go on at the height after its best block; without a
/// best block, nothing changes.
pub proof fn law_node_goes_on_after_the_best_block(s: EngineState, best_block_number: u64)
    requires
        best_block_number < usize::MAX,
    ensures
        s.registered(Some(best_block_number)).height == best_block_number + 1,
        s.registered(Some(best_block_number)) == (EngineState {
            height: s.registered(Some(best_block_number)).height,
            ..s
        }),
        s.registered(None) == s,
{
}

} // verus!
