//! Proposing blocks, and checking the seals of others.

use crate::codec::{decode_h520, empty_list_rlp, items_of, null_rlp, signature_of, split_list};
use crate::engine::{proposer_of, too_few_signatures, Tendermint};
use crate::error::{BlockError, DecodeError, EngineError, Error, KeyError};
use crate::message::{info_rlp, message_info_rlp, ConsensusMessage, ViewNumber, VoteStep};
use crate::primitives::{bytes_equal, strings_of, Address, BlockHash, H520};
use crate::seal::{
    consensus_view, is_basic_seal, make_proposal_seal, new_proposal, proposal_of, proposal_seal, reads_as_proposal,
    seal_signatures, seal_view, Header, SEAL_FIELDS,
};
use crate::state::EngineState;
use crate::step::Step;
use crate::validators::{contains_address, is_quorum, ValidatorSet};
use crate::votes::{is_record, recorded, voter_of, Vote};
use vstd::prelude::*;

verus! {

/// What becomes of an attempt to seal a block.
#[derive(Debug)]
pub enum Seal {
    /// The seal of a proposal.
    Proposal(Vec<Vec<u8>>),
    /// No seal.
    Nothing,
}

/// The proposal of the block under `header` in the current view, signed.
pub open spec fn own_proposal(s: EngineState, header: Header, signature: H520) -> ConsensusMessage {
    ConsensusMessage {
        vote_step: VoteStep { height: header.number as usize, view: s.view, step: Step::Propose },
        block_hash: Some(header.bare_hash),
        signature,
    }
}

/// The state after this node has proposed the block under `header`.
pub open spec fn after_proposal(s: EngineState, header: Header, signature: H520) -> EngineState {
    EngineState {
        votes: recorded(s.votes, own_proposal(s, header, signature), header.author),
        last_proposed: header.bare_hash,
        proposal: Some(header.bare_hash),
        proposal_parent: header.parent_hash,
        ..s
    }
}

/// A round has a proposer: there are validators, and height and view add up to a number.
pub open spec fn has_proposer(members: Seq<Address>, round: VoteStep) -> bool {
    members.len() > 0 && round.height + round.view <= usize::MAX
}

/// The verdict on a proposal that `proposer` signed. `authorities` may vote now, `members` as of
/// the parent of the block. There is none on the proposal of an authority for a round that has
/// no proposer.
pub open spec fn proposal_verdict(
    authorities: Seq<Address>,
    members: Seq<Address>,
    round: VoteStep,
    proposer: Result<Address, KeyError>,
) -> Option<Result<(), Error>> {
    match proposer {
        Err(e) => Some(Err(Error::Key(e))),
        Ok(a) => if !authorities.contains(a) {
            Some(Err(Error::Engine(EngineError::NotAuthorized(a))))
        } else if !has_proposer(members, round) {
            None
        } else if a != proposer_of(members, round.height, round.view) {
            Some(
                Err(
                    Error::Engine(
                        EngineError::NotProposer { expected: proposer_of(members, round.height, round.view), found: a },
                    ),
                ),
            )
        } else {
            Some(Ok(()))
        },
    }
}

/// The verdict on the signatures of a seal from the index `i` on, where `origins` signed and
/// `seen` have been found already: each must be by a validator, none twice, and they must
/// decide. There is none where it needs an origin that is missing.
pub open spec fn origins_verdict(
    members: Seq<Address>,
    validators: nat,
    signatures: Seq<Result<H520, DecodeError>>,
    origins: Seq<Result<Address, KeyError>>,
    i: int,
    seen: Seq<Address>,
) -> Option<Result<(), Error>>
    decreases signatures.len() - i,
{
    if i < 0 || i >= signatures.len() {
        if is_quorum(seen.len(), validators) {
            Some(Ok(()))
        } else {
            Some(Err(Error::Engine(too_few_signatures(validators, seen.len() as usize))))
        }
    } else {
        match signatures[i] {
            Err(e) => Some(Err(Error::Decoder(e))),
            Ok(_) => if i >= origins.len() {
                None
            } else {
                match origins[i] {
                    Err(e) => Some(Err(Error::Key(e))),
                    Ok(a) => if !members.contains(a) {
                        Some(Err(Error::Engine(EngineError::NotAuthorized(a))))
                    } else if seen.contains(a) {
                        Some(Err(Error::Block(BlockError::InvalidSeal)))
                    } else {
                        origins_verdict(members, validators, signatures, origins, i + 1, seen.push(a))
                    },
                }
            },
        }
    }
}

/// The round in which a committed block was decided.
pub open spec fn commit_round(header: Header, view: ViewNumber) -> VoteStep {
    VoteStep { height: header.number as usize, view, step: Step::Precommit }
}

/// The precommit that a signature of a seal stands for.
pub open spec fn precommit_of(round: VoteStep, block_hash: BlockHash, signature: H520) -> ConsensusMessage {
    ConsensusMessage { vote_step: round, block_hash: Some(block_hash), signature }
}

/// `origin` is who gave a signature of a seal over `signed`: known from the votes, or else what
/// `recover` found.
pub open spec fn is_origin<F: Fn(&H520, &[u8]) -> Result<Address, KeyError>>(
    recover: &F,
    votes: Seq<Vote>,
    round: VoteStep,
    block_hash: BlockHash,
    signature: Result<H520, DecodeError>,
    signed: &[u8],
    origin: Result<Address, KeyError>,
) -> bool {
    &&& signature matches Ok(signature)
    &&& match voter_of(votes, precommit_of(round, block_hash, signature)) {
        Some(a) => origin == Ok::<Address, KeyError>(a),
        None => call_ensures(recover, (&signature, signed), origin),
    }
}

/// `origins` are those who gave the first signatures of a seal.
pub open spec fn are_origins<F: Fn(&H520, &[u8]) -> Result<Address, KeyError>>(
    recover: &F,
    votes: Seq<Vote>,
    round: VoteStep,
    block_hash: BlockHash,
    signatures: Seq<Result<H520, DecodeError>>,
    signed: &[u8],
    origins: Seq<Result<Address, KeyError>>,
) -> bool {
    &&& origins.len() <= signatures.len()
    &&& signed@ == info_rlp(round, Some(block_hash))
    &&& forall|i: int|
        0 <= i < origins.len() ==> is_origin(
            recover,
            votes,
            round,
            block_hash,
            signatures[i],
            signed,
            #[trigger] origins[i],
        )
}

impl<V: ValidatorSet> Tendermint<V> {
    /// Whether it is on this node to propose a block after `parent_hash`.
    pub open spec fn may_propose(&self, parent_hash: BlockHash) -> bool {
        &&& self@.signer == Some(proposer_of(self.set().members(parent_hash), self@.height, self@.view))
        &&& self@.proposal is None
    }

    /// What has to be signed to propose the block under `header`, if it is on this node to do so.
    pub fn proposal_to_sign(&self, header: &Header) -> (r: Option<Vec<u8>>)
        requires
            self@.height + self@.view <= usize::MAX,
            self.set().members(header.parent_hash).len() > 0,
        ensures
            r is Some <==> self.may_propose(header.parent_hash),
            r matches Some(signed) ==> signed@ == info_rlp(
                VoteStep { height: header.number as usize, view: self@.view, step: Step::Propose },
                Some(header.bare_hash),
            ),
    {
        if !self.is_signer_proposer(&header.parent_hash) || self.proposal.is_some() {
            return None;
        }
        let vote_step = VoteStep::new(header.number as usize, self.view, Step::Propose);
        Some(message_info_rlp(&vote_step, Some(header.bare_hash)))
    }

    /// Proposes the block under `header`, if it is on this node to do so and the signature over
    /// [`Tendermint::proposal_to_sign`] is there.
    pub fn generate_seal(&mut self, header: &Header, signature: Option<H520>) -> (r: Seal)
        requires
            old(self)@.wf(),
            old(self)@.height + old(self)@.view <= usize::MAX,
            old(self).set().members(header.parent_hash).len() > 0,
        ensures
            final(self)@.wf(),
            final(self).set() == old(self).set(),
            r is Proposal <==> old(self).may_propose(header.parent_hash) && signature is Some,
            r is Nothing ==> final(self)@ == old(self)@,
            r matches Seal::Proposal(seal) ==> {
                &&& signature matches Some(signature)
                &&& final(self)@ == after_proposal(old(self)@, *header, signature)
                &&& strings_of(seal@) == proposal_seal(old(self)@.view, signature)
                &&& reads_as_proposal(strings_of(seal@), old(self)@.view, signature)
            },
    {
        if !self.is_signer_proposer(&header.parent_hash) || self.proposal.is_some() {
            return Seal::Nothing;
        }
        match signature {
            Some(signature) => {
                let height: usize = header.number as usize;
                let view: usize = self.view;
                let bh = Some(header.bare_hash);
                self.votes.vote(ConsensusMessage::new(signature, height, view, Step::Propose, bh), header.author);
                self.last_proposed = header.bare_hash;
                self.proposal = bh;
                self.proposal_parent = header.parent_hash;
                Seal::Proposal(make_proposal_seal(view, &signature))
            },
            None => Seal::Nothing,
        }
    }

    /// The number of fields of a seal: the view, the signature of the proposal, the signatures of
    /// the commit.
    pub fn seal_fields(&self, header: &Header) -> (r: usize)
        ensures
            r == SEAL_FIELDS,
    {
        SEAL_FIELDS
    }

    /// Checks a seal of this node's own, which is always in order.
    pub fn verify_local_seal(&self, header: &Header) -> (r: Result<(), Error>)
        ensures
            r is Ok,
    {
        Ok(())
    }

    /// Checks the form of a seal: it is that of a proposal or that of a committed block.
    pub fn verify_block_basic(&self, header: &Header) -> (r: Result<(), Error>)
        ensures
            r is Ok <==> header.seal@.len() == SEAL_FIELDS && is_basic_seal(strings_of(header.seal@)),
            r matches Err(e) ==> e == Error::Block(
                if header.seal@.len() == SEAL_FIELDS {
                    BlockError::InvalidSeal
                } else {
                    BlockError::InvalidSealArity { expected: SEAL_FIELDS, found: header.seal@.len() as usize }
                },
            ),
    {
        let seal_length: usize = header.seal.len();
        let expected_seal_fields: usize = self.seal_fields(header);
        if seal_length == expected_seal_fields {
            if bytes_equal(&header.seal[1], &null_rlp()) != bytes_equal(&header.seal[2], &empty_list_rlp()) {
                Ok(())
            } else {
                Err(Error::Block(BlockError::InvalidSeal))
            }
        } else {
            Err(Error::Block(BlockError::InvalidSealArity { expected: expected_seal_fields, found: seal_length }))
        }
    }

    /// Checks a proposal for the round `vote_step` after `parent_hash`, given who signed it.
    pub fn check_proposal(
        &self,
        parent_hash: &BlockHash,
        vote_step: &VoteStep,
        proposer: Result<Address, KeyError>,
    ) -> (r: Result<(), Error>)
        requires
            proposal_verdict(
                self.authorities(),
                self.set().members(*parent_hash),
                *vote_step,
                proposer,
            ) is Some,
        ensures
            Some(r) == proposal_verdict(
                self.authorities(),
                self.set().members(*parent_hash),
                *vote_step,
                proposer,
            ),
    {
        let proposer = match proposer {
            Ok(proposer) => proposer,
            Err(e) => return Err(Error::Key(e)),
        };
        if !self.is_authority(&proposer) {
            return Err(Error::Engine(EngineError::NotAuthorized(proposer)));
        }
        match self.check_view_proposer(parent_hash, vote_step.height, vote_step.view, &proposer) {
            Ok(()) => Ok(()),
            Err(e) => Err(Error::Engine(e)),
        }
    }

    /// Counts the origin of one more signature of a seal: it must be a validator as of
    /// `parent_hash`, and a new one.
    pub fn admit_origin(
        &self,
        parent_hash: &BlockHash,
        address: Address,
        origins: &mut Vec<Address>,
    ) -> (r: Result<(), Error>)
        ensures
            r == if !self.set().members(*parent_hash).contains(address) {
                Err::<(), Error>(Error::Engine(EngineError::NotAuthorized(address)))
            } else if old(origins)@.contains(address) {
                Err::<(), Error>(Error::Block(BlockError::InvalidSeal))
            } else {
                Ok::<(), Error>(())
            },
            final(origins)@ == if r is Ok {
                old(origins)@.push(address)
            } else {
                old(origins)@
            },
    {
        if !self.validators.contains(parent_hash, &address) {
            return Err(Error::Engine(EngineError::NotAuthorized(address)));
        }
        if contains_address(origins, &address) {
            return Err(Error::Block(BlockError::InvalidSeal));
        }
        origins.push(address);
        Ok(())
    }

    /// `r` is a verdict on the seal of a block, given what `recover` finds, or that there is none.
    pub open spec fn is_external_verdict<F: Fn(&H520, &[u8]) -> Result<Address, KeyError>>(
        &self,
        header: Header,
        recover: &F,
        r: Option<Result<(), Error>>,
    ) -> bool {
        match proposal_of(header) {
            Ok(proposal) => exists|signed: &[u8], proposer: Result<Address, KeyError>|
                {
                    &&& signed@ == info_rlp(proposal.vote_step, proposal.block_hash)
                    &&& #[trigger] call_ensures(recover, (&proposal.signature, signed), proposer)
                    &&& r == proposal_verdict(
                        self.authorities(),
                        self.set().members(header.parent_hash),
                        proposal.vote_step,
                        proposer,
                    )
                },
            Err(_) => match seal_view(strings_of(header.seal@)) {
                Err(e) => r == Some(Err::<(), Error>(Error::Decoder(e))),
                Ok(view) => r matches Some(result) && self.is_commit_verdict(
                    header,
                    commit_round(header, view),
                    recover,
                    result,
                ),
            },
        }
    }

    /// Whatever `recover` finds, there is a verdict on the seal of a block.
    pub open spec fn is_decidable<F: Fn(&H520, &[u8]) -> Result<Address, KeyError>>(
        &self,
        header: Header,
        recover: &F,
    ) -> bool {
        proposal_of(header) matches Ok(proposal) ==> forall|signed: &[u8], proposer: Result<Address, KeyError>|
            signed@ == info_rlp(proposal.vote_step, proposal.block_hash) && #[trigger] call_ensures(
                recover,
                (&proposal.signature, signed),
                proposer,
            ) ==> proposal_verdict(
                self.authorities(),
                self.set().members(header.parent_hash),
                proposal.vote_step,
                proposer,
            ) is Some
    }

    /// `r` is a verdict on the signatures of a committed block, given what `recover` finds.
    pub open spec fn is_commit_verdict<F: Fn(&H520, &[u8]) -> Result<Address, KeyError>>(
        &self,
        header: Header,
        round: VoteStep,
        recover: &F,
        r: Result<(), Error>,
    ) -> bool {
        exists|signed: &[u8], origins: Seq<Result<Address, KeyError>>|
            {
                &&& #[trigger] are_origins(
                    recover,
                    self@.votes,
                    round,
                    header.bare_hash,
                    seal_signatures(strings_of(header.seal@)),
                    signed,
                    origins,
                )
                &&& origins_verdict(
                    self.set().members(header.parent_hash),
                    self.validator_count(),
                    seal_signatures(strings_of(header.seal@)),
                    origins,
                    0,
                    seq![],
                ) == Some(r)
            }
    }

    /// Checks the signatures of a committed block: enough validators, and each once.
    pub fn check_commit<F: Fn(&H520, &[u8]) -> Result<Address, KeyError>>(
        &self,
        header: &Header,
        vote_step: &VoteStep,
        recover: &F,
    ) -> (r: Result<(), Error>)
        requires
            is_record(self@.votes),
            header.seal@.len() >= SEAL_FIELDS,
            forall|signature: &H520, signed: &[u8]| call_requires(recover, (signature, signed)),
        ensures
            self.is_commit_verdict(*header, *vote_step, recover, r),
    {
        let info = message_info_rlp(vote_step, Some(header.bare_hash));
        let signed: &[u8] = info.as_slice();
        let fields = split_list(&header.seal[2]);
        let mut origins: Vec<Address> = Vec::new();
        let ghost signatures = seal_signatures(strings_of(header.seal@));
        let ghost members = self.validators.members(header.parent_hash);
        let ghost mut found: Seq<Result<Address, KeyError>> = seq![];
        let mut i: usize = 0;
        assert(fields@.len() == strings_of(fields@).len());
        while i < fields.len()
            invariant
                i <= fields@.len(),
                fields@.len() == signatures.len(),
                is_record(self@.votes),
                strings_of(fields@) == items_of(strings_of(header.seal@)[2]),
                signatures == seal_signatures(strings_of(header.seal@)),
                members == self.validators.members(header.parent_hash),
                forall|signature: &H520, signed: &[u8]| call_requires(recover, (signature, signed)),
                found.len() == i,
                signed@ == info_rlp(*vote_step, Some(header.bare_hash)),
                are_origins(recover, self@.votes, *vote_step, header.bare_hash, signatures, signed, found),
                forall|more: Seq<Result<Address, KeyError>>|
                    found =~= more.take(i as int) && more.len() >= i ==> origins_verdict(
                        members,
                        self.validator_count(),
                        signatures,
                        more,
                        0,
                        seq![],
                    ) == #[trigger] origins_verdict(
                        members,
                        self.validator_count(),
                        signatures,
                        more,
                        i as int,
                        origins@,
                    ),
            decreases fields@.len() - i,
        {
            assert(strings_of(fields@)[i as int] == fields@[i as int]@);
            assert(signatures[i as int] == signature_of(fields@[i as int]@));
            let signature = match decode_h520(&fields[i]) {
                Ok(signature) => signature,
                Err(e) => {
                    assert(found =~= found.take(i as int));
                    assert(origins_verdict(members, self.validator_count(), signatures, found, i as int, origins@)
                        == Some(Err::<(), Error>(Error::Decoder(e))));
                    return Err(Error::Decoder(e));
                },
            };
            let precommit = ConsensusMessage { vote_step: *vote_step, block_hash: Some(header.bare_hash), signature };
            let origin = match self.votes.get(&precommit) {
                Some(a) => Ok(a),
                None => recover(&precommit.signature, signed),
            };
            let ghost next = found.push(origin);
            proof {
                assert(signatures[i as int] == Ok::<H520, DecodeError>(signature));
                assert forall|k: int| 0 <= k < next.len() implies is_origin(
                    recover,
                    self@.votes,
                    *vote_step,
                    header.bare_hash,
                    signatures[k],
                    signed,
                    #[trigger] next[k],
                ) by {
                    if k < i {
                        assert(next[k] == found[k]);
                    }
                }
                assert(are_origins(recover, self@.votes, *vote_step, header.bare_hash, signatures, signed, next));
                assert(found =~= next.take(i as int));
                assert(origins_verdict(members, self.validator_count(), signatures, next, 0, seq![])
                    == origins_verdict(members, self.validator_count(), signatures, next, i as int, origins@));
            }
            let address = match origin {
                Ok(address) => address,
                Err(e) => return Err(Error::Key(e)),
            };
            let ghost seen = origins@;
            match self.admit_origin(&header.parent_hash, address, &mut origins) {
                Ok(()) => {},
                Err(e) => return Err(e),
            }
            proof {
                assert forall|more: Seq<Result<Address, KeyError>>|
                    next =~= more.take(i + 1) && more.len() >= i + 1 implies origins_verdict(
                    members,
                    self.validator_count(),
                    signatures,
                    more,
                    0,
                    seq![],
                ) == #[trigger] origins_verdict(
                    members,
                    self.validator_count(),
                    signatures,
                    more,
                    i + 1,
                    origins@,
                ) by {
                    assert(found =~= more.take(i as int)) by {
                        assert(more.take(i as int) =~= more.take(i + 1).take(i as int));
                    }
                    assert(more[i as int] == more.take(i + 1)[i as int]);
                    assert(origins_verdict(members, self.validator_count(), signatures, more, i as int, seen)
                        == origins_verdict(members, self.validator_count(), signatures, more, i + 1, origins@));
                }
                found = next;
            }
            i = i + 1;
        }
        proof {
            assert(found =~= found.take(i as int));
            assert(origins_verdict(members, self.validator_count(), signatures, found, 0, seq![])
                == origins_verdict(members, self.validator_count(), signatures, found, i as int, origins@));
        }
        match self.check_above_threshold(origins.len()) {
            Ok(()) => Ok(()),
            Err(e) => Err(Error::Engine(e)),
        }
    }

    /// Checks the seal of a block that has passed [`Tendermint::verify_block_basic`]: a proposal by
    /// its proposer, any other block by the signatures of those who committed to it. `recover`
    /// finds out who signed bytes.
    pub fn verify_block_external<F: Fn(&H520, &[u8]) -> Result<Address, KeyError>>(
        &self,
        header: &Header,
        recover: &F,
    ) -> (r: Result<(), Error>)
        requires
            is_record(self@.votes),
            header.seal@.len() >= SEAL_FIELDS,
            self.is_decidable(*header, recover),
            forall|signature: &H520, signed: &[u8]| call_requires(recover, (signature, signed)),
        ensures
            self.is_external_verdict(*header, recover, Some(r)),
    {
        match new_proposal(header) {
            Ok(proposal) => {
                let info = message_info_rlp(&proposal.vote_step, proposal.block_hash);
                let signed: &[u8] = info.as_slice();
                let proposer = recover(&proposal.signature, signed);
                self.check_proposal(&header.parent_hash, &proposal.vote_step, proposer)
            },
            Err(_) => match consensus_view(header) {
                Ok(view) => {
                    let vote_step = VoteStep::new(header.number as usize, view, Step::Precommit);
                    self.check_commit(header, &vote_step, recover)
                },
                Err(e) => Err(Error::Decoder(e)),
            },
        }
    }

    /// [`Tendermint::verify_block_external`] for any seal: there is no verdict on a seal with too
    /// few fields, nor on the proposal of an authority for a round that has no proposer.
    pub fn try_verify_block_external<F: Fn(&H520, &[u8]) -> Result<Address, KeyError>>(
        &self,
        header: &Header,
        recover: &F,
    ) -> (r: Option<Result<(), Error>>)
        requires
            is_record(self@.votes),
            forall|signature: &H520, signed: &[u8]| call_requires(recover, (signature, signed)),
        ensures
            header.seal@.len() < SEAL_FIELDS ==> r is None,
            header.seal@.len() >= SEAL_FIELDS ==> self.is_external_verdict(
                *header,
                recover,
                match r {
                    Some(result) => Some(result),
                    None => None,
                },
            ),
    {
        if header.seal.len() < SEAL_FIELDS {
            return None;
        }
        match new_proposal(header) {
            Ok(proposal) => {
                let vote_step = proposal.vote_step;
                if vote_step.view > usize::MAX - vote_step.height || self.validators.count(&header.parent_hash) == 0 {
                    let info = message_info_rlp(&vote_step, proposal.block_hash);
                    let signed: &[u8] = info.as_slice();
                    let proposer = recover(&proposal.signature, signed);
                    return match proposer {
                        Ok(address) if self.is_authority(&address) => None,
                        _ => Some(self.check_proposal(&header.parent_hash, &vote_step, proposer)),
                    };
                }
            },
            Err(_) => {},
        }
        Some(self.verify_block_external(header, recover))
    }
}

} // verus!
