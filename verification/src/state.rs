//! The model of the engine: its state, what it asks of the node, and how one event leads from a
//! state to the next.

use crate::error::{EngineError, KeyError, Malformation};
use crate::message::{info_rlp, message_rlp, ConsensusMessage, Height, ViewNumber, VoteStep};
use crate::primitives::{strings_of, Address, BlockHash, H520};
use crate::seal::{commit_seal, reads_as_commit};
use crate::step::Step;
use crate::validators::is_quorum;
use crate::votes::{
    aligned_votes, block_signatures, double_vote, double_vote_rlp, is_known, is_oldest, is_record,
    lemma_votes_from_is_record, messages_up_to, recorded, round_votes, votes_from, Vote,
};
use vstd::prelude::*;

verus! {

/// A vote of this node that waits for its signature.
#[derive(Debug, Clone, Copy)]
pub struct Ballot {
    pub vote_step: VoteStep,
    pub block_hash: Option<BlockHash>,
}

impl Ballot {
    /// The vote, signed.
    pub open spec fn with_signature(self, signature: H520) -> ConsensusMessage {
        ConsensusMessage { vote_step: self.vote_step, block_hash: self.block_hash, signature }
    }
}

/// What the engine asks the node to do.
#[derive(Debug)]
pub enum Action {
    /// Tell the step service that a step has begun, so that it can time it.
    Step(Step),
    /// Have a new block proposed.
    UpdateSealing,
    /// Hash and sign these bytes, and hand the signature to the engine.
    Sign(Vec<u8>),
    /// Send this message to all peers.
    Broadcast(Vec<u8>),
    /// Seal the block with these fields.
    SubmitSeal { block_hash: BlockHash, seal: Vec<Vec<u8>> },
    /// Report a validator who broke the rules, with the proof.
    ReportMalicious { validator: Address, set_block: u64, block: u64, proof_rlp: Vec<u8> },
    /// Report a validator who failed to act.
    ReportBenign { validator: Address, set_block: u64, block: u64 },
}

/// The model of an [`Action`].
pub enum ActionView {
    Step(Step),
    UpdateSealing,
    Sign(Seq<u8>),
    Broadcast(Seq<u8>),
    SubmitSeal { block_hash: BlockHash, seal: Seq<Seq<u8>> },
    ReportMalicious { validator: Address, set_block: u64, block: u64, proof_rlp: Seq<u8> },
    ReportBenign { validator: Address, set_block: u64, block: u64 },
}

impl View for Action {
    type V = ActionView;

    open spec fn view(&self) -> ActionView {
        match *self {
            Action::Step(step) => ActionView::Step(step),
            Action::UpdateSealing => ActionView::UpdateSealing,
            Action::Sign(bytes) => ActionView::Sign(bytes@),
            Action::Broadcast(bytes) => ActionView::Broadcast(bytes@),
            Action::SubmitSeal { block_hash, seal } => ActionView::SubmitSeal { block_hash, seal: strings_of(seal@) },
            Action::ReportMalicious { validator, set_block, block, proof_rlp } => ActionView::ReportMalicious {
                validator,
                set_block,
                block,
                proof_rlp: proof_rlp@,
            },
            Action::ReportBenign { validator, set_block, block } => ActionView::ReportBenign {
                validator,
                set_block,
                block,
            },
        }
    }
}

/// The models of actions.
pub open spec fn actions_of(actions: Seq<Action>) -> Seq<ActionView> {
    actions.map_values(|a: Action| a@)
}

/// The state of the engine.
#[verifier::ext_equal]
pub struct EngineState {
    pub height: Height,
    pub view: ViewNumber,
    pub step: Step,
    pub votes: Seq<Vote>,
    pub pristine: bool,
    pub signer: Option<Address>,
    pub lock_change: Option<ConsensusMessage>,
    pub last_lock: ViewNumber,
    pub proposal: Option<BlockHash>,
    pub proposal_parent: BlockHash,
    pub last_proposed: BlockHash,
    pub ballot: Option<Ballot>,
    pub outbox: Seq<Seq<u8>>,
}

/// A state and the actions on the way to it.
#[verifier::ext_equal]
pub struct Outcome {
    pub state: EngineState,
    pub actions: Seq<ActionView>,
}

impl Outcome {
    /// The outcome when other actions come first.
    pub open spec fn after(self, actions: Seq<ActionView>) -> Outcome {
        Outcome { state: self.state, actions: actions + self.actions }
    }
}

impl EngineState {
    /// The round that the engine is in.
    pub open spec fn round(self) -> VoteStep {
        VoteStep { height: self.height, view: self.view, step: self.step }
    }

    /// What holds of the engine at all times. While it waits for a signature, the vote is about
    /// the round that it is in; otherwise there is nothing left to send.
    pub open spec fn wf(self) -> bool {
        &&& is_record(self.votes)
        &&& self.ballot matches Some(ballot) ==> {
            &&& ballot.vote_step == self.round()
            &&& self.step.spec_is_pre()
            &&& self.signer is Some
        }
        &&& self.ballot is None ==> self.outbox.len() == 0
        &&& self.has_sound_lock()
    }

    /// Locks come from prevotes for a block.
    pub open spec fn has_sound_lock(self) -> bool {
        self.lock_change matches Some(lock) ==> lock.vote_step.step == Step::Prevote && lock.block_hash is Some
    }

    /// The engine waits for nothing.
    pub open spec fn is_idle(self) -> bool {
        self.ballot is None
    }

    /// The lock on a block ends with a newer one, once its view is over.
    pub open spec fn should_unlock(self, lock_change_view: ViewNumber) -> bool {
        self.last_lock < lock_change_view < self.view
    }

    /// What this node prevotes for: the block that it is locked on, or else what was proposed.
    pub open spec fn prevote_choice(self) -> Option<BlockHash> {
        match self.lock_change {
            Some(m) => if self.should_unlock(m.vote_step.view) {
                self.proposal
            } else {
                m.block_hash
            },
            None => self.proposal,
        }
    }

    /// The lock that this node precommits to: the last one, if it is of the current view and on a
    /// block.
    pub open spec fn precommit_lock(self) -> Option<ConsensusMessage> {
        match self.lock_change {
            Some(m) => if m.vote_step.height == self.height && m.vote_step.view == self.view && m.block_hash is Some {
                Some(m)
            } else {
                None
            },
            None => None,
        }
    }

    /// Nothing more to wait for: what was kept back is sent, the latest first.
    pub open spec fn flushed(self) -> Outcome {
        Outcome {
            state: EngineState { outbox: seq![], ..self },
            actions: self.outbox.reverse().map_values(|m: Seq<u8>| ActionView::Broadcast(m)),
        }
    }

    /// This node votes for `block_hash` in the current round, if it has a signer.
    pub open spec fn voting(self, block_hash: Option<BlockHash>) -> Outcome {
        if self.signer is Some {
            Outcome {
                state: EngineState { ballot: Some(Ballot { vote_step: self.round(), block_hash }), ..self },
                actions: seq![ActionView::Sign(info_rlp(self.round(), block_hash))],
            }
        } else {
            self.flushed()
        }
    }

    /// The step `step` begins.
    pub open spec fn entered(self, step: Step) -> Outcome {
        let s = EngineState { step, ..self };
        match step {
            Step::Propose => s.flushed().after(seq![ActionView::Step(step), ActionView::UpdateSealing]),
            Step::Prevote => s.voting(s.prevote_choice()).after(seq![ActionView::Step(step)]),
            Step::Precommit => match s.precommit_lock() {
                Some(m) => EngineState { last_lock: m.vote_step.view, ..s }.voting(m.block_hash).after(
                    seq![ActionView::Step(step)],
                ),
                None => s.voting(None).after(seq![ActionView::Step(step)]),
            },
            Step::Commit => s.flushed().after(seq![ActionView::Step(step)]),
        }
    }

    /// The view that is `n` views later. The number of the view wraps around.
    pub open spec fn view_after(self, n: ViewNumber) -> ViewNumber {
        if self.view + n > usize::MAX {
            (self.view + n - usize::MAX - 1) as usize
        } else {
            (self.view + n) as usize
        }
    }

    /// The state in which the next height begins.
    pub open spec fn at_next_height(self) -> EngineState {
        EngineState {
            height: (self.height + 1) as usize,
            view: 0,
            last_lock: 0,
            lock_change: None,
            proposal: None,
            ..self
        }
    }

    /// The block `block_hash` is committed by the votes of the round of `m`. Whoever proposed it
    /// seals it and throws out the votes of earlier rounds.
    pub open spec fn committed(self, m: ConsensusMessage, block_hash: BlockHash) -> Outcome {
        if self.last_proposed == block_hash {
            EngineState {
                votes: votes_from(self.votes, m.vote_step),
                pristine: self.pristine && !VoteStep::spec_first().spec_before(m.vote_step),
                ..self.at_next_height()
            }.entered(Step::Commit).after(
                seq![
                    ActionView::SubmitSeal {
                        block_hash,
                        seal: commit_seal(m.vote_step.view, block_signatures(self.votes, m.vote_step, block_hash)),
                    },
                ],
            )
        } else {
            self.at_next_height().entered(Step::Commit)
        }
    }

    /// The vote `m` ends the height: in the precommit step it is for a block that enough votes of
    /// its round agree on.
    pub open spec fn commits(self, validators: nat, m: ConsensusMessage) -> bool {
        &&& m.vote_step.height == self.height
        &&& self.step == Step::Precommit
        &&& m.block_hash is Some
        &&& self.has_aligned_quorum(validators, m)
    }

    /// The view and the signatures of the seal that the vote `m` completes, if it ends the height
    /// and this node proposed the block.
    pub open spec fn completed_seal(self, validators: nat, m: ConsensusMessage) -> Option<(ViewNumber, Seq<H520>)> {
        match m.block_hash {
            Some(block_hash) => if self.commits(validators, m) && self.last_proposed == block_hash {
                Some((m.vote_step.view, block_signatures(self.votes, m.vote_step, block_hash)))
            } else {
                None
            },
            None => None,
        }
    }

    /// The seal that the vote `m` completes, if it completes one, can be read.
    pub open spec fn seals_readably(self, validators: nat, m: ConsensusMessage) -> bool {
        self.completed_seal(validators, m) matches Some((view, signatures)) ==> reads_as_commit(
            commit_seal(view, signatures),
            view,
            signatures,
        )
    }

    /// The votes that agree with `m` decide.
    pub open spec fn has_aligned_quorum(self, validators: nat, m: ConsensusMessage) -> bool {
        is_quorum(aligned_votes(self.votes, m).len(), validators)
    }

    /// The votes of the current round decide, whatever they are for.
    pub open spec fn has_any_quorum(self, validators: nat) -> bool {
        is_quorum(round_votes(self.votes, self.round()).len(), validators)
    }

    /// The others have reached a later view.
    pub open spec fn has_future_quorum(self, validators: nat, round: VoteStep) -> bool {
        self.view < round.view && is_quorum(round_votes(self.votes, round).len(), validators)
    }

    /// The vote `m` completes a lock that is newer than the last one: enough prevotes for a block.
    pub open spec fn locks(self, validators: nat, m: ConsensusMessage) -> bool {
        &&& self.lock_change matches Some(lock) ==> lock.vote_step.spec_before(m.vote_step)
        &&& m.vote_step.step == Step::Prevote
        &&& m.block_hash is Some
        &&& self.has_aligned_quorum(validators, m)
    }

    /// The state with the lock that the vote `m` completes, if it does.
    pub open spec fn relocked(self, validators: nat, m: ConsensusMessage) -> EngineState {
        if self.locks(validators, m) {
            EngineState { lock_change: Some(m), ..self }
        } else {
            self
        }
    }

    /// The vote `m` has been recorded: what follows from it. Votes of other heights cannot end a
    /// step. Which step the votes of the height are of is not looked at: in the precommit step,
    /// prevotes that come late commit to a block as well as precommits do.
    pub open spec fn handled(self, validators: nat, m: ConsensusMessage) -> Outcome {
        let s = self.relocked(validators, m);
        if m.vote_step.height != self.height || !self.step.spec_is_pre() {
            s.flushed()
        } else if self.has_aligned_quorum(validators, m) {
            if self.step == Step::Prevote {
                s.entered(Step::Precommit)
            } else {
                match m.block_hash {
                    None => EngineState { view: s.view_after(1), ..s }.entered(Step::Propose),
                    Some(block_hash) => s.committed(m, block_hash),
                }
            }
        } else if self.has_future_quorum(validators, m.vote_step) {
            EngineState { view: m.vote_step.view, ..s }.entered(self.step)
        } else {
            s.flushed()
        }
    }

    /// The state with the vote `m` of `voter` on record.
    pub open spec fn with_vote(self, m: ConsensusMessage, voter: Address) -> EngineState {
        EngineState { votes: recorded(self.votes, m, voter), ..self }
    }

    /// The state with the own vote `m` on record and waiting to be sent.
    pub open spec fn with_own_vote(self, m: ConsensusMessage, signer: Address) -> EngineState {
        EngineState { ballot: None, outbox: self.outbox.push(message_rlp(m)), ..self.with_vote(m, signer) }
    }

    /// The signature of the vote that the engine waits for has come, or has been refused.
    pub open spec fn answered(self, validators: nat, signature: Option<H520>) -> Outcome {
        match (self.ballot, self.signer, signature) {
            (Some(ballot), Some(signer), Some(signature)) => {
                let m = ballot.with_signature(signature);
                self.with_own_vote(m, signer).handled(validators, m)
            },
            _ => EngineState { ballot: None, ..self }.flushed(),
        }
    }

    /// The vote that the engine waits for ends the height once it is signed.
    pub open spec fn answer_commits(self, validators: nat, signature: Option<H520>) -> bool {
        match (self.ballot, self.signer, signature) {
            (Some(ballot), Some(signer), Some(signature)) => {
                let m = ballot.with_signature(signature);
                self.with_own_vote(m, signer).commits(validators, m)
            },
            _ => false,
        }
    }

    /// A client was registered, whose chain has the given best block.
    pub open spec fn registered(self, best_block_number: Option<u64>) -> EngineState {
        match best_block_number {
            Some(n) => EngineState { height: (n as usize + 1) as usize, ..self },
            None => self,
        }
    }

    /// `address` signs for this node from now on, and the view begins anew.
    pub open spec fn with_signer(self, address: Address) -> Outcome {
        EngineState { signer: Some(address), ..self }.entered(Step::Propose)
    }

    /// A message that needs no handling.
    pub open spec fn is_old_or_known(self, m: ConsensusMessage) -> bool {
        is_known(self.votes, m) || is_oldest(self.votes, self.pristine, m.vote_step)
    }

    /// The message `m`, which came as `rlp` from the validator `sender`, is new. It is passed on;
    /// a double vote is reported, and any other vote is handled.
    pub open spec fn received(self, validators: nat, m: ConsensusMessage, rlp: Seq<u8>, sender: Address) -> Outcome {
        match double_vote(self.votes, m, sender) {
            Some(double) => Outcome {
                state: self.with_vote(m, sender),
                actions: seq![
                    ActionView::Broadcast(rlp),
                    ActionView::ReportMalicious {
                        validator: sender,
                        set_block: m.vote_step.height as u64,
                        block: m.vote_step.height as u64,
                        proof_rlp: double_vote_rlp(double),
                    },
                ],
            },
            None => self.with_vote(m, sender).handled(validators, m).after(seq![ActionView::Broadcast(rlp)]),
        }
    }

    /// The message `m` came as `rlp`, and its signature gave `sender`. Only a validator's messages
    /// are heard.
    pub open spec fn delivered(
        self,
        members: Seq<Address>,
        m: ConsensusMessage,
        rlp: Seq<u8>,
        sender: Result<Address, KeyError>,
    ) -> Outcome {
        match sender {
            Ok(sender) if members.contains(sender) => self.received(members.len(), m, rlp, sender),
            _ => Outcome { state: self, actions: seq![] },
        }
    }

    /// The message `m`, whose signature gave `sender`, ends the height.
    pub open spec fn delivery_commits(
        self,
        members: Seq<Address>,
        m: ConsensusMessage,
        sender: Result<Address, KeyError>,
    ) -> bool {
        match sender {
            Ok(sender) => members.contains(sender) && double_vote(self.votes, m, sender) is None && self.with_vote(
                m,
                sender,
            ).commits(members.len(), m),
            Err(_) => false,
        }
    }

    /// The seal that the message `m` completes, if it completes one, can be read.
    pub open spec fn delivers_readably(
        self,
        members: Seq<Address>,
        m: ConsensusMessage,
        sender: Result<Address, KeyError>,
    ) -> bool {
        sender matches Ok(sender) ==> members.contains(sender) && double_vote(self.votes, m, sender) is None
            ==> self.with_vote(m, sender).seals_readably(members.len(), m)
    }

    /// The answer to the message `m`, whose signature gave `sender`.
    pub open spec fn reply(
        self,
        members: Seq<Address>,
        m: ConsensusMessage,
        sender: Result<Address, KeyError>,
    ) -> Result<(), EngineError> {
        match sender {
            Err(e) => Err(EngineError::MalformedMessage(Malformation::Signature(e))),
            Ok(sender) => if !members.contains(sender) {
                Err(EngineError::NotAuthorized(sender))
            } else if double_vote(self.votes, m, sender) is Some {
                Err(EngineError::DoubleVote(sender))
            } else {
                Ok(())
            },
        }
    }

    /// The votes that bring the peers up to speed.
    pub open spec fn old_messages(self) -> Seq<ActionView> {
        messages_up_to(
            self.votes,
            VoteStep { height: self.height, view: self.view, step: Step::Precommit },
        ).map_values(|m: ConsensusMessage| ActionView::Broadcast(message_rlp(m)))
    }

    /// The current step has lasted too long. Without a proposal the proposer is reported; without
    /// enough votes the peers are told of the votes so far and the step begins again.
    pub open spec fn timed_out(self, validators: nat, proposer: Address) -> Outcome {
        match self.step {
            Step::Propose => if self.proposal is None {
                self.entered(Step::Prevote).after(
                    seq![
                        ActionView::ReportBenign {
                            validator: proposer,
                            set_block: self.height as u64,
                            block: self.height as u64,
                        },
                    ],
                )
            } else {
                self.entered(Step::Prevote)
            },
            Step::Prevote => if self.has_any_quorum(validators) {
                self.entered(Step::Precommit)
            } else {
                self.entered(Step::Prevote).after(self.old_messages())
            },
            Step::Precommit => if self.has_any_quorum(validators) {
                EngineState { view: self.view_after(1), ..self }.entered(Step::Propose)
            } else {
                self.entered(Step::Precommit).after(self.old_messages())
            },
            Step::Commit => self.entered(Step::Propose),
        }
    }
}

/// Beginning a step leaves the engine in a proper state.
pub proof fn lemma_entered_wf(s: EngineState, step: Step)
    requires
        is_record(s.votes),
        s.has_sound_lock(),
        s.is_idle(),
    ensures
        s.entered(step).state.wf(),
        is_record(s.entered(step).state.votes),
{
}

/// Handling a vote leaves the engine in a proper state.
pub proof fn lemma_handled_wf(s: EngineState, validators: nat, m: ConsensusMessage)
    requires
        is_record(s.votes),
        s.has_sound_lock(),
        s.is_idle(),
    ensures
        s.handled(validators, m).state.wf(),
{
    lemma_votes_from_is_record(s.votes, m.vote_step);
}

} // verus!
