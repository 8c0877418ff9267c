//! The consensus engine.
//!
//! The engine takes events (messages, timeouts, signatures) and answers with what the node has to
//! do. It never waits itself: a vote of its own begins with [`Action::Sign`], and goes on when
//! the node calls [`Tendermint::signed`].

use crate::codec::{decode_item, item_of};
use crate::error::{DecodeError, EngineError, KeyError, Malformation};
use crate::message::{
    is_understood, lemma_info_items, message_full_rlp, message_info_rlp, message_of, message_rlp, ConsensusMessage,
    Height, ViewNumber, VoteStep,
};
use crate::primitives::{copy_bytes, strings_of, Address, BlockHash, H256, H520};
use crate::seal::{commit_seal, make_commit_seal, reads_as_commit};
use crate::state::{actions_of, lemma_entered_wf, lemma_handled_wf, Action, ActionView, Ballot, EngineState};
use crate::step::Step;
use crate::validators::{is_quorum, threshold, threshold_of, ValidatorSet};
use crate::votes::{block_signatures, double_vote_rlp, is_record, messages_up_to, DoubleVote, VoteCollector};
use vstd::prelude::*;

pub mod sealing;

verus! {

/// A consensus engine that uses the Tendermint algorithm.
pub struct Tendermint<V> {
    /// The height of the block that is being agreed on.
    height: Height,
    /// The current attempt.
    view: ViewNumber,
    /// The current step.
    step: Step,
    /// The votes so far.
    votes: VoteCollector,
    /// Who signs for this node.
    signer: Option<Address>,
    /// The vote that completed the last lock.
    lock_change: Option<ConsensusMessage>,
    /// The view of the last lock that this node has precommitted to.
    last_lock: ViewNumber,
    /// The proposed block, without its seal.
    proposal: Option<BlockHash>,
    /// The parent of the proposed block.
    proposal_parent: BlockHash,
    /// The last block that this node proposed.
    last_proposed: BlockHash,
    /// Who may vote.
    validators: V,
    /// The vote of this node that waits for its signature.
    ballot: Option<Ballot>,
    /// Votes of this node that are sent once all that follows from them is done.
    outbox: Vec<Vec<u8>>,
}

impl<V> View for Tendermint<V> {
    type V = EngineState;

    closed spec fn view(&self) -> EngineState {
        EngineState {
            height: self.height,
            view: self.view,
            step: self.step,
            votes: self.votes@.votes,
            pristine: self.votes@.pristine,
            signer: self.signer,
            lock_change: self.lock_change,
            last_lock: self.last_lock,
            proposal: self.proposal,
            proposal_parent: self.proposal_parent,
            last_proposed: self.last_proposed,
            ballot: self.ballot,
            outbox: strings_of(self.outbox@),
        }
    }
}

/// Who of `members` proposes in a view of a height.
pub open spec fn proposer_of(members: Seq<Address>, height: Height, view: ViewNumber) -> Address {
    members[(height + view) % members.len() as int]
}

/// The error for `found` signatures where there are so many validators.
pub open spec fn too_few_signatures(validators: nat, found: usize) -> EngineError {
    EngineError::BadSealFieldSize { min: Some(threshold_of(validators) as usize), max: None, found }
}

/// The actions of one list behind those of another.
proof fn lemma_actions_concat(a: Seq<Action>, b: Seq<Action>)
    ensures
        actions_of(a + b) == actions_of(a) + actions_of(b),
{
    assert(actions_of(a + b) =~= actions_of(a) + actions_of(b));
}

/// Puts actions behind one action.
fn action_then(first: Action, mut rest: Vec<Action>) -> (r: Vec<Action>)
    ensures
        actions_of(r@) == seq![first@] + actions_of(rest@),
{
    let mut r: Vec<Action> = Vec::new();
    r.push(first);
    proof {
        lemma_actions_concat(r@, rest@);
        assert(actions_of(r@) =~= seq![first@]);
    }
    r.append(&mut rest);
    r
}

/// Passes on the message that is a double vote, and reports whoever cast it.
fn report_double_vote(rlp: &[u8], height: Height, double: &DoubleVote) -> (r: Vec<Action>)
    ensures
        actions_of(r@) == seq![
            ActionView::Broadcast(rlp@),
            ActionView::ReportMalicious {
                validator: double.author,
                set_block: height as u64,
                block: height as u64,
                proof_rlp: double_vote_rlp(*double),
            },
        ],
{
    let broadcast = Action::Broadcast(copy_bytes(rlp));
    let report = Action::ReportMalicious {
        validator: double.author,
        set_block: height as u64,
        block: height as u64,
        proof_rlp: double.encode(),
    };
    let mut r: Vec<Action> = Vec::new();
    r.push(broadcast);
    r.push(report);
    assert(actions_of(r@) =~= seq![broadcast@, report@]);
    r
}

impl<V: ValidatorSet> Tendermint<V> {
    /// Who may vote.
    pub closed spec fn set(&self) -> V {
        self.validators
    }

    /// Those who may vote now.
    pub open spec fn authorities(&self) -> Seq<Address> {
        self.set().members(self@.proposal_parent)
    }

    /// The number of validators that votes are held against.
    pub open spec fn validator_count(&self) -> nat {
        self.authorities().len()
    }

    /// Who proposes now.
    pub open spec fn current_proposer(&self) -> Address {
        proposer_of(self.authorities(), self@.height, self@.view)
    }

    /// An engine at the first height, with the given validators and without a signer.
    pub fn new(validators: V) -> (r: Tendermint<V>)
        ensures
            r.set() == validators,
            r@ == (EngineState {
                height: 1,
                view: 0,
                step: Step::Propose,
                votes: seq![],
                pristine: true,
                signer: None,
                lock_change: None,
                last_lock: 0,
                proposal: None,
                proposal_parent: H256::spec_zero(),
                last_proposed: H256::spec_zero(),
                ballot: None,
                outbox: seq![],
            }),
            r@.wf(),
            r@.is_idle(),
    {
        Tendermint {
            height: 1,
            view: 0,
            step: Step::Propose,
            votes: VoteCollector::new(),
            signer: None,
            lock_change: None,
            last_lock: 0,
            proposal: None,
            proposal_parent: H256::zero(),
            last_proposed: H256::zero(),
            validators,
            ballot: None,
            outbox: Vec::new(),
        }
    }

    /// The height of the block that is being agreed on.
    pub fn height(&self) -> (r: Height)
        ensures
            r == self@.height,
    {
        self.height
    }

    /// The current attempt.
    pub fn view_number(&self) -> (r: ViewNumber)
        ensures
            r == self@.view,
    {
        self.view
    }

    /// The current step.
    pub fn current_step(&self) -> (r: Step)
        ensures
            r == self@.step,
    {
        self.step
    }

    /// The votes so far.
    pub fn votes(&self) -> (r: &VoteCollector)
        ensures
            r@.votes == self@.votes,
            r@.pristine == self@.pristine,
    {
        &self.votes
    }

    /// Who signs for this node.
    pub fn signer(&self) -> (r: Option<Address>)
        ensures
            r == self@.signer,
    {
        self.signer
    }

    /// The vote that completed the last lock.
    pub fn lock_change(&self) -> (r: Option<ConsensusMessage>)
        ensures
            r == self@.lock_change,
    {
        self.lock_change
    }

    /// The view of the last lock that this node has precommitted to.
    pub fn last_lock(&self) -> (r: ViewNumber)
        ensures
            r == self@.last_lock,
    {
        self.last_lock
    }

    /// The proposed block, without its seal.
    pub fn proposal(&self) -> (r: Option<BlockHash>)
        ensures
            r == self@.proposal,
    {
        self.proposal
    }

    /// The parent of the proposed block.
    pub fn proposal_parent(&self) -> (r: BlockHash)
        ensures
            r == self@.proposal_parent,
    {
        self.proposal_parent
    }

    /// The last block that this node proposed.
    pub fn last_proposed(&self) -> (r: BlockHash)
        ensures
            r == self@.last_proposed,
    {
        self.last_proposed
    }

    /// Who may vote.
    pub fn validators(&self) -> (r: &V)
        ensures
            *r == self.set(),
    {
        &self.validators
    }

    /// Whether the engine waits for a signature.
    pub fn is_waiting(&self) -> (r: bool)
        ensures
            r == !self@.is_idle(),
    {
        self.ballot.is_some()
    }

    /// The name of the engine.
    pub fn name(&self) -> (r: &str)
        ensures
            r@ == "Tendermint"@,
    {
        "Tendermint"
    }

    /// Who proposes in a view.
    pub fn view_proposer(&self, bh: &BlockHash, height: Height, view: ViewNumber) -> (r: Address)
        requires
            height + view <= usize::MAX,
            self.set().members(*bh).len() > 0,
        ensures
            r == proposer_of(self.set().members(*bh), height, view),
    {
        let proposer_nonce: usize = height + view;
        self.validators.get(bh, proposer_nonce)
    }

    /// Checks that `address` proposes in a view.
    pub fn check_view_proposer(
        &self,
        bh: &BlockHash,
        height: Height,
        view: ViewNumber,
        address: &Address,
    ) -> (r: Result<(), EngineError>)
        requires
            height + view <= usize::MAX,
            self.set().members(*bh).len() > 0,
        ensures
            r is Ok <==> *address == proposer_of(self.set().members(*bh), height, view),
            r matches Err(e) ==> e == (EngineError::NotProposer {
                expected: proposer_of(self.set().members(*bh), height, view),
                found: *address,
            }),
    {
        let proposer = self.view_proposer(bh, height, view);
        if proposer == *address {
            Ok(())
        } else {
            Err(EngineError::NotProposer { expected: proposer, found: *address })
        }
    }

    /// Whether the signer of this node proposes now.
    pub fn is_signer_proposer(&self, bh: &BlockHash) -> (r: bool)
        requires
            self@.height + self@.view <= usize::MAX,
            self.set().members(*bh).len() > 0,
        ensures
            r == (self@.signer == Some(proposer_of(self.set().members(*bh), self@.height, self@.view))),
    {
        let proposer = self.view_proposer(bh, self.height, self.view);
        match self.signer {
            Some(signer) => signer == proposer,
            None => false,
        }
    }

    /// Whether a message is about the current height.
    pub fn is_height(&self, message: &ConsensusMessage) -> (r: bool)
        ensures
            r == (message.vote_step.height == self@.height),
    {
        message.vote_step.is_height(self.height)
    }

    /// Whether a message is about the current view.
    pub fn is_view(&self, message: &ConsensusMessage) -> (r: bool)
        ensures
            r == (message.vote_step.height == self@.height && message.vote_step.view == self@.view),
    {
        message.vote_step.is_view(self.height, self.view)
    }

    /// Whether `address` may vote.
    pub fn is_authority(&self, address: &Address) -> (r: bool)
        ensures
            r == self.authorities().contains(*address),
    {
        self.validators.contains(&self.proposal_parent, address)
    }

    /// Checks that `n` votes decide.
    pub fn check_above_threshold(&self, n: usize) -> (r: Result<(), EngineError>)
        ensures
            r is Ok <==> is_quorum(n as nat, self.validator_count()),
            r matches Err(e) ==> e == too_few_signatures(self.validator_count(), n),
    {
        let threshold: usize = threshold(self.validators.count(&self.proposal_parent));
        if n > threshold {
            Ok(())
        } else {
            Err(EngineError::BadSealFieldSize { min: Some(threshold), max: None, found: n })
        }
    }

    /// Whether the votes of the current round decide, whatever they are for.
    pub fn has_enough_any_votes(&self) -> (r: bool)
        ensures
            r == self@.has_any_quorum(self.validator_count()),
    {
        let step_votes: usize = self.votes.count_round_votes(&VoteStep::new(self.height, self.view, self.step));
        self.check_above_threshold(step_votes).is_ok()
    }

    /// Whether the others have reached a later view.
    pub fn has_enough_future_step_votes(&self, vote_step: &VoteStep) -> (r: bool)
        ensures
            r == self@.has_future_quorum(self.validator_count(), *vote_step),
    {
        if vote_step.view > self.view {
            let step_votes: usize = self.votes.count_round_votes(vote_step);
            self.check_above_threshold(step_votes).is_ok()
        } else {
            false
        }
    }

    /// Whether the votes that agree with a message decide.
    pub fn has_enough_aligned_votes(&self, message: &ConsensusMessage) -> (r: bool)
        ensures
            r == self@.has_aligned_quorum(self.validator_count(), *message),
    {
        let aligned_count: usize = self.votes.count_aligned_votes(message);
        self.check_above_threshold(aligned_count).is_ok()
    }

    /// Moves on by `n` views. The number of the view wraps around.
    pub fn increment_view(&mut self, n: ViewNumber)
        ensures
            final(self)@ == (EngineState { view: old(self)@.view_after(n), ..old(self)@ }),
            final(self).set() == old(self).set(),
    {
        self.view = self.view.wrapping_add(n);
    }

    /// Whether a lock of the given view releases this node from the one before.
    pub fn should_unlock(&self, lock_change_view: ViewNumber) -> (r: bool)
        ensures
            r == self@.should_unlock(lock_change_view),
    {
        self.last_lock < lock_change_view && lock_change_view < self.view
    }

    /// Begins the height after `height`.
    pub fn to_next_height(&mut self, height: Height)
        requires
            height < usize::MAX,
        ensures
            final(self)@ == (EngineState { height, ..old(self)@ }).at_next_height(),
            final(self).set() == old(self).set(),
    {
        let new_height: usize = height + 1;
        self.last_lock = 0;
        self.height = new_height;
        self.view = 0;
        self.lock_change = None;
        self.proposal = None;
    }

    /// Sends the votes that were kept back, the latest first.
    fn flush(&mut self) -> (r: Vec<Action>)
        ensures
            final(self)@ == old(self)@.flushed().state,
            final(self).set() == old(self).set(),
            actions_of(r@) == old(self)@.flushed().actions,
    {
        let mut r: Vec<Action> = Vec::new();
        let ghost all = strings_of(self.outbox@);
        let ghost send = |m: Seq<u8>| ActionView::Broadcast(m);
        assert(actions_of(r@) =~= all.reverse().take(0).map_values(send));
        while self.outbox.len() > 0
            invariant
                self.outbox@.len() <= all.len(),
                all == strings_of(old(self).outbox@),
                send == (|m: Seq<u8>| ActionView::Broadcast(m)),
                strings_of(self.outbox@) == all.take(self.outbox@.len() as int),
                actions_of(r@) == all.reverse().take(all.len() - self.outbox@.len()).map_values(send),
                self.validators == old(self).validators,
                self@ == (EngineState { outbox: strings_of(self.outbox@), ..old(self)@ }),
            decreases self.outbox@.len(),
        {
            let ghost before = self.outbox@;
            let ghost sent = r@;
            match self.outbox.pop() {
                Some(message) => {
                    r.push(Action::Broadcast(message));
                    proof {
                        let k = before.len() - 1;
                        assert(strings_of(before)[k] == all[k]);
                        assert(strings_of(self.outbox@) =~= all.take(k));
                        assert(actions_of(r@) =~= actions_of(sent).push(ActionView::Broadcast(message@)));
                        assert(all.reverse().take(all.len() - k) =~= all.reverse().take(all.len() - k - 1).push(all[k]));
                        assert(actions_of(r@) =~= all.reverse().take(all.len() - k).map_values(send));
                    }
                },
                None => {},
            }
        }
        assert(all.reverse().take(all.len() as int) =~= all.reverse());
        assert(strings_of(self.outbox@) =~= Seq::<Seq<u8>>::empty());
        r
    }

    /// Votes for `block_hash` in the current round, if this node has a signer: the vote begins
    /// with the request for its signature.
    pub fn generate_message(&mut self, block_hash: Option<BlockHash>) -> (r: Vec<Action>)
        requires
            old(self)@.is_idle(),
        ensures
            final(self)@ == old(self)@.voting(block_hash).state,
            final(self).set() == old(self).set(),
            actions_of(r@) == old(self)@.voting(block_hash).actions,
    {
        if self.signer.is_none() {
            return self.flush();
        }
        let vote_step = VoteStep::new(self.height, self.view, self.step);
        let vote_info = message_info_rlp(&vote_step, block_hash);
        self.ballot = Some(Ballot { vote_step, block_hash });
        let mut r: Vec<Action> = Vec::new();
        r.push(Action::Sign(vote_info));
        assert(actions_of(r@) =~= seq![ActionView::Sign(vote_info@)]);
        r
    }

    /// Begins a step.
    pub fn to_step(&mut self, step: Step) -> (r: Vec<Action>)
        requires
            old(self)@.is_idle(),
        ensures
            final(self)@ == old(self)@.entered(step).state,
            final(self).set() == old(self).set(),
            actions_of(r@) == old(self)@.entered(step).actions,
    {
        self.step = step;
        let rest = match step {
            Step::Propose => {
                let sent = self.flush();
                action_then(Action::UpdateSealing, sent)
            },
            Step::Prevote => {
                let block_hash = match self.lock_change {
                    Some(m) => if !self.should_unlock(m.vote_step.view) {
                        m.block_hash
                    } else {
                        self.proposal
                    },
                    None => self.proposal,
                };
                self.generate_message(block_hash)
            },
            Step::Precommit => {
                let block_hash = match self.lock_change {
                    Some(m) => if self.is_view(&m) && m.block_hash.is_some() {
                        self.last_lock = m.vote_step.view;
                        m.block_hash
                    } else {
                        None
                    },
                    None => None,
                };
                self.generate_message(block_hash)
            },
            Step::Commit => self.flush(),
        };
        let r = action_then(Action::Step(step), rest);
        assert(actions_of(r@) =~= old(self)@.entered(step).actions);
        r
    }

    /// Commits to the block `bh` by the votes of the round of `message`: whoever proposed it seals
    /// it and throws out the votes of earlier rounds. The next height begins.
    fn commit(&mut self, message: &ConsensusMessage, bh: &BlockHash) -> (r: Vec<Action>)
        requires
            old(self)@.is_idle(),
            is_record(old(self)@.votes),
            old(self)@.height < usize::MAX,
        ensures
            final(self)@ == old(self)@.committed(*message, *bh).state,
            final(self).set() == old(self).set(),
            actions_of(r@) == old(self)@.committed(*message, *bh).actions,
            old(self)@.last_proposed == *bh ==> reads_as_commit(
                commit_seal(
                    message.vote_step.view,
                    block_signatures(old(self)@.votes, message.vote_step, *bh),
                ),
                message.vote_step.view,
                block_signatures(old(self)@.votes, message.vote_step, *bh),
            ),
    {
        if self.last_proposed == *bh {
            let precommits = self.votes.round_signatures(&message.vote_step, bh);
            let seal = make_commit_seal(message.vote_step.view, &precommits);
            self.votes.throw_out_old(&message.vote_step);
            self.to_next_height(self.height);
            let rest = self.to_step(Step::Commit);
            action_then(Action::SubmitSeal { block_hash: *bh, seal }, rest)
        } else {
            self.to_next_height(self.height);
            self.to_step(Step::Commit)
        }
    }

    /// Locks on the block of `message`, if the vote is a prevote that completes a newer lock.
    fn change_lock(&mut self, message: &ConsensusMessage, aligned: bool)
        requires
            aligned == old(self)@.has_aligned_quorum(old(self).validator_count(), *message),
        ensures
            final(self)@ == old(self)@.relocked(old(self).validator_count(), *message),
            final(self).set() == old(self).set(),
    {
        let is_newer_than_lock = match self.lock_change {
            Some(lock) => lock.vote_step.is_before(&message.vote_step),
            None => true,
        };
        if is_newer_than_lock && message.vote_step.step == Step::Prevote && message.block_hash.is_some() && aligned {
            self.lock_change = Some(*message);
        }
    }

    /// Draws the consequences of a vote that has been recorded: a lock, and the end of the current
    /// step.
    pub fn handle_valid_message(&mut self, message: &ConsensusMessage) -> (r: Vec<Action>)
        requires
            old(self)@.is_idle(),
            old(self)@.has_sound_lock(),
            is_record(old(self)@.votes),
            old(self)@.commits(old(self).validator_count(), *message) ==> old(self)@.height < usize::MAX,
        ensures
            final(self)@ == old(self)@.handled(old(self).validator_count(), *message).state,
            final(self)@.wf(),
            final(self).set() == old(self).set(),
            actions_of(r@) == old(self)@.handled(old(self).validator_count(), *message).actions,
            old(self)@.seals_readably(old(self).validator_count(), *message),
    {
        proof {
            lemma_handled_wf(self@, self.validator_count(), *message);
        }
        let vote_step = message.vote_step;
        let aligned = self.has_enough_aligned_votes(message);
        self.change_lock(message, aligned);
        if !self.is_height(message) || !self.step.is_pre() {
            return self.flush();
        }
        if aligned {
            if self.step == Step::Prevote {
                return self.to_step(Step::Precommit);
            }
            match message.block_hash {
                None => {
                    self.increment_view(1);
                    self.to_step(Step::Propose)
                },
                Some(bh) => self.commit(message, &bh),
            }
        } else if self.has_enough_future_step_votes(&vote_step) {
            self.increment_view(vote_step.view - self.view);
            self.to_step(self.step)
        } else {
            self.flush()
        }
    }

    /// Takes the signature that the engine asked for, or the news that there is none. The vote is
    /// recorded and handled; it is sent when all that follows from it is done.
    pub fn signed(&mut self, signature: Option<H520>) -> (r: Vec<Action>)
        requires
            old(self)@.wf(),
            !old(self)@.is_idle(),
            old(self)@.answer_commits(old(self).validator_count(), signature) ==> old(self)@.height < usize::MAX,
        ensures
            final(self)@ == old(self)@.answered(old(self).validator_count(), signature).state,
            final(self)@.wf(),
            final(self).set() == old(self).set(),
            actions_of(r@) == old(self)@.answered(old(self).validator_count(), signature).actions,
            (old(self)@.ballot, old(self)@.signer, signature) matches (Some(ballot), Some(signer), Some(signature)) ==> {
                let m = ballot.with_signature(signature);
                &&& is_understood(m)
                &&& old(self)@.with_own_vote(m, signer).seals_readably(old(self).validator_count(), m)
            },
    {
        let ballot = self.ballot;
        self.ballot = None;
        match (ballot, self.signer, signature) {
            (Some(ballot), Some(signer), Some(signature)) => {
                let vote_info = message_info_rlp(&ballot.vote_step, ballot.block_hash);
                proof {
                    lemma_info_items(ballot.vote_step, ballot.block_hash);
                }
                let message_rlp = message_full_rlp(&signature, &vote_info);
                let message = ConsensusMessage {
                    vote_step: ballot.vote_step,
                    block_hash: ballot.block_hash,
                    signature,
                };
                self.votes.vote(message, signer);
                let ghost before = self.outbox@;
                self.outbox.push(message_rlp);
                assert(strings_of(self.outbox@) =~= strings_of(before).push(message_rlp@));
                self.handle_valid_message(&message)
            },
            _ => self.flush(),
        }
    }

    /// Handles a new message, given who signed it: passes it on, records the vote and draws the
    /// consequences. A second vote in a round is reported.
    pub fn deliver(
        &mut self,
        rlp: &[u8],
        message: &ConsensusMessage,
        sender: Result<Address, KeyError>,
    ) -> (r: (Vec<Action>, Result<(), EngineError>))
        requires
            old(self)@.wf(),
            old(self)@.is_idle(),
            old(self)@.delivery_commits(old(self).authorities(), *message, sender) ==> old(self)@.height < usize::MAX,
        ensures
            final(self)@ == old(self)@.delivered(old(self).authorities(), *message, rlp@, sender).state,
            final(self)@.wf(),
            final(self).set() == old(self).set(),
            actions_of(r.0@) == old(self)@.delivered(old(self).authorities(), *message, rlp@, sender).actions,
            r.1 == old(self)@.reply(old(self).authorities(), *message, sender),
            old(self)@.delivers_readably(old(self).authorities(), *message, sender),
    {
        let sender = match sender {
            Ok(sender) => sender,
            Err(e) => {
                let r: Vec<Action> = Vec::new();
                assert(actions_of(r@) =~= seq![]);
                return (r, Err(EngineError::MalformedMessage(Malformation::Signature(e))));
            },
        };
        if !self.is_authority(&sender) {
            let r: Vec<Action> = Vec::new();
            assert(actions_of(r@) =~= seq![]);
            return (r, Err(EngineError::NotAuthorized(sender)));
        }
        match self.votes.vote(*message, sender) {
            Some(double) => {
                let r = report_double_vote(rlp, message.vote_step.height, &double);
                (r, Err(EngineError::DoubleVote(sender)))
            },
            None => {
                let rest = self.handle_valid_message(message);
                (action_then(Action::Broadcast(copy_bytes(rlp)), rest), Ok(()))
            },
        }
    }

    /// `after`, `actions` and `reply` are what the message `rlp` leads to, given what `recover`
    /// finds.
    pub open spec fn is_message_outcome<F: Fn(&H520, &[u8]) -> Result<Address, KeyError>>(
        &self,
        rlp: Seq<u8>,
        recover: &F,
        after: EngineState,
        actions: Seq<ActionView>,
        reply: Result<(), EngineError>,
    ) -> bool {
        match message_of(rlp) {
            Err(e) => {
                &&& after == self@
                &&& actions == Seq::<ActionView>::empty()
                &&& reply == Err::<(), EngineError>(EngineError::MalformedMessage(Malformation::Encoding(e)))
            },
            Ok(m) => if self@.is_old_or_known(m) {
                &&& after == self@
                &&& actions == Seq::<ActionView>::empty()
                &&& reply is Ok
            } else {
                exists|signed: &[u8], sender: Result<Address, KeyError>|
                    {
                        &&& item_of(rlp, 1) == Ok::<_, DecodeError>(signed@)
                        &&& #[trigger] call_ensures(recover, (&m.signature, signed), sender)
                        &&& after == self@.delivered(self.authorities(), m, rlp, sender).state
                        &&& actions == self@.delivered(self.authorities(), m, rlp, sender).actions
                        &&& reply == self@.reply(self.authorities(), m, sender)
                        &&& self@.delivers_readably(self.authorities(), m, sender)
                    }
            },
        }
    }

    /// `rlp` is a message that is neither old nor known.
    pub open spec fn is_news(&self, rlp: Seq<u8>) -> bool {
        message_of(rlp) matches Ok(m) && !self@.is_old_or_known(m)
    }

    /// Whatever `recover` finds, the message `rlp` does not end the height.
    pub open spec fn cannot_commit<F: Fn(&H520, &[u8]) -> Result<Address, KeyError>>(
        &self,
        rlp: Seq<u8>,
        recover: &F,
    ) -> bool {
        self.is_news(rlp) ==> forall|signed: &[u8], sender: Result<Address, KeyError>|
            item_of(rlp, 1) == Ok::<_, DecodeError>(signed@) && #[trigger] call_ensures(
                recover,
                (&message_of(rlp)->Ok_0.signature, signed),
                sender,
            ) ==> !self@.delivery_commits(self.authorities(), message_of(rlp)->Ok_0, sender)
    }

    /// Handles a message that came from a peer. `recover` finds out who signed bytes.
    pub fn handle_message<F: Fn(&H520, &[u8]) -> Result<Address, KeyError>>(
        &mut self,
        rlp: &[u8],
        recover: &F,
    ) -> (r: (Vec<Action>, Result<(), EngineError>))
        requires
            old(self)@.wf(),
            old(self)@.is_idle(),
            old(self)@.height == usize::MAX ==> old(self).cannot_commit(rlp@, recover),
            forall|signature: &H520, signed: &[u8]| call_requires(recover, (signature, signed)),
        ensures
            final(self)@.wf(),
            final(self).set() == old(self).set(),
            old(self).is_message_outcome(rlp@, recover, final(self)@, actions_of(r.0@), r.1),
    {
        let nothing: Vec<Action> = Vec::new();
        assert(actions_of(nothing@) =~= seq![]);
        let message = match ConsensusMessage::decode(rlp) {
            Ok(message) => message,
            Err(e) => return (nothing, Err(EngineError::MalformedMessage(Malformation::Encoding(e)))),
        };
        if self.votes.is_old_or_known(&message) {
            return (nothing, Ok(()));
        }
        let signed = match decode_item(rlp, 1) {
            Ok(signed) => signed,
            Err(e) => return (nothing, Err(EngineError::MalformedMessage(Malformation::Encoding(e)))),
        };
        let sender = recover(&message.signature, signed);
        self.deliver(rlp, &message, sender)
    }

    /// [`Tendermint::handle_message`] at any height: at the last height of all, which no other can
    /// follow, messages that are news are left alone.
    pub fn try_handle_message<F: Fn(&H520, &[u8]) -> Result<Address, KeyError>>(
        &mut self,
        rlp: &[u8],
        recover: &F,
    ) -> (r: Option<(Vec<Action>, Result<(), EngineError>)>)
        requires
            old(self)@.wf(),
            old(self)@.is_idle(),
            forall|signature: &H520, signed: &[u8]| call_requires(recover, (signature, signed)),
        ensures
            final(self)@.wf(),
            final(self).set() == old(self).set(),
            r is None <==> old(self)@.height == usize::MAX && old(self).is_news(rlp@),
            r is None ==> final(self)@ == old(self)@,
            r matches Some((actions, result)) ==> old(self).is_message_outcome(
                rlp@,
                recover,
                final(self)@,
                actions_of(actions@),
                result,
            ),
    {
        if self.height == usize::MAX {
            match ConsensusMessage::decode(rlp) {
                Ok(message) => if !self.votes.is_old_or_known(&message) {
                    return None;
                },
                Err(_) => {},
            }
        }
        Some(self.handle_message(rlp, recover))
    }

    /// Sends the votes so far to get the peers up to speed.
    pub fn broadcast_old_messages(&self) -> (r: Vec<Action>)
        ensures
            actions_of(r@) == self@.old_messages(),
            forall|i: int|
                0 <= i < r@.len() ==> is_understood(
                    #[trigger] messages_up_to(
                        self@.votes,
                        VoteStep { height: self@.height, view: self@.view, step: Step::Precommit },
                    )[i],
                ),
    {
        let messages = self.votes.get_up_to(&VoteStep::new(self.height, self.view, Step::Precommit));
        let ghost round = VoteStep { height: self.height, view: self.view, step: Step::Precommit };
        let ghost all = messages_up_to(self@.votes, round);
        let mut r: Vec<Action> = Vec::new();
        let mut i: usize = 0;
        assert(messages@.len() == strings_of(messages@).len());
        while i < messages.len()
            invariant
                i <= messages@.len(),
                messages@.len() == all.len(),
                strings_of(messages@) == all.map_values(|m: ConsensusMessage| message_rlp(m)),
                r@.len() == i,
                forall|j: int| 0 <= j < i ==> (#[trigger] r@[j])@ == ActionView::Broadcast(message_rlp(all[j])),
            decreases messages@.len() - i,
        {
            assert(strings_of(messages@)[i as int] == message_rlp(all[i as int]));
            r.push(Action::Broadcast(copy_bytes(&messages[i])));
            i = i + 1;
        }
        assert(actions_of(r@) =~= self@.old_messages());
        r
    }

    /// The current step has lasted too long.
    pub fn step(&mut self) -> (r: Vec<Action>)
        requires
            old(self)@.wf(),
            old(self)@.is_idle(),
            old(self)@.step == Step::Propose && old(self)@.proposal is None ==> old(self)@.height + old(self)@.view
                <= usize::MAX && old(self).validator_count() > 0,
        ensures
            final(self)@ == old(self)@.timed_out(old(self).validator_count(), old(self).current_proposer()).state,
            final(self)@.wf(),
            final(self).set() == old(self).set(),
            actions_of(r@) == old(self)@.timed_out(
                old(self).validator_count(),
                old(self).current_proposer(),
            ).actions,
    {
        proof {
            lemma_entered_wf(self@, Step::Propose);
            lemma_entered_wf(self@, Step::Prevote);
            lemma_entered_wf(self@, Step::Precommit);
            lemma_entered_wf(EngineState { view: self@.view_after(1), ..self@ }, Step::Propose);
        }
        match self.step {
            Step::Propose => if self.proposal.is_none() {
                let height: usize = self.height;
                let current_proposer = self.view_proposer(&self.proposal_parent, height, self.view);
                let report = Action::ReportBenign {
                    validator: current_proposer,
                    set_block: height as u64,
                    block: height as u64,
                };
                let rest = self.to_step(Step::Prevote);
                action_then(report, rest)
            } else {
                self.to_step(Step::Prevote)
            },
            Step::Prevote => if self.has_enough_any_votes() {
                self.to_step(Step::Precommit)
            } else {
                let mut r = self.broadcast_old_messages();
                let mut rest = self.to_step(Step::Prevote);
                proof {
                    lemma_actions_concat(r@, rest@);
                }
                r.append(&mut rest);
                r
            },
            Step::Precommit => if self.has_enough_any_votes() {
                self.increment_view(1);
                self.to_step(Step::Propose)
            } else {
                let mut r = self.broadcast_old_messages();
                let mut rest = self.to_step(Step::Precommit);
                proof {
                    lemma_actions_concat(r@, rest@);
                }
                r.append(&mut rest);
                r
            },
            Step::Commit => self.to_step(Step::Propose),
        }
    }

    /// Lets `address` sign for this node from now on, and begins the view anew.
    pub fn set_signer(&mut self, address: Address) -> (r: Vec<Action>)
        requires
            old(self)@.wf(),
            old(self)@.is_idle(),
        ensures
            final(self)@ == old(self)@.with_signer(address).state,
            final(self)@.wf(),
            final(self).set() == old(self).set(),
            actions_of(r@) == old(self)@.with_signer(address).actions,
    {
        self.signer = Some(address);
        proof {
            lemma_entered_wf(self@, Step::Propose);
        }
        self.to_step(Step::Propose)
    }

    /// Continues after the best block of the node's chain, whose number is given if the node
    /// still runs.
    pub fn register_client(&mut self, best_block_number: Option<u64>)
        requires
            old(self)@.wf(),
            old(self)@.is_idle(),
            best_block_number matches Some(n) ==> (n as usize) < usize::MAX,
        ensures
            final(self)@ == old(self)@.registered(best_block_number),
            final(self)@.wf(),
            final(self).set() == old(self).set(),
    {
        match best_block_number {
            Some(n) => {
                self.height = n as usize + 1;
            },
            None => {},
        }
    }

    /// Whether this node takes part in the consensus.
    pub fn seals_internally(&self) -> (r: Option<bool>)
        ensures
            r == Some(self@.signer is Some),
    {
        Some(self.signer.is_some())
    }
}

} // verus!
