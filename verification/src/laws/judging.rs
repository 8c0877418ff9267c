//! Who may propose, and which seals are accepted.

use super::counting::{is_enough, law_known_voters, law_quorum_is_more_than_two_thirds};
use super::signers;
use crate::engine::sealing::{after_proposal, are_origins, commit_round, is_origin, origins_verdict, precommit_of};
use crate::engine::Tendermint;
use crate::epoch::{
    are_light_origins, epoch_end_parts, is_epoch_set, is_epoch_verifier, is_light_origin, is_verifier_for,
    light_verdict, ConstructedVerifier, EpochSet, EpochVerifier,
};
use crate::error::{BlockError, DecodeError, EngineError, Error, KeyError};
use crate::message::{info_rlp, ConsensusMessage, ViewNumber, VoteStep};
use crate::primitives::{strings_of, Address, BlockHash, H520};
use crate::seal::{is_basic_seal, proposal_of, seal_proposal_signature, seal_signatures, seal_view, Header};
use crate::state::EngineState;
use crate::step::Step;
use crate::validators::ValidatorSet;
use crate::votes::{is_record, recorded, Vote};
use vstd::prelude::*;

verus! {

// ---------------------------------------------------------------------------------------------
// Proposing
// ---------------------------------------------------------------------------------------------

/// Who may vote now: the validators as of the parent of the last proposal. Votes are held against
/// their number, and they propose in turn.
pub proof fn law_current_validators<V: ValidatorSet>(engine: Tendermint<V>)
    ensures
        engine.authorities() == engine.set().members(engine@.proposal_parent),
        engine.validator_count() == engine.set().members(engine@.proposal_parent).len(),
        engine.current_proposer() == ({
            let members = engine.set().members(engine@.proposal_parent);
            members[(engine@.height + engine@.view) % members.len() as int]
        }),
{
}

/// It is on a node to propose a block if and only if there is no proposal yet and its signer is the
/// validator whose turn it is, counting on by one with each height and each view. Nothing else
/// matters, and what was proposed at other heights least of all.
pub proof fn law_whose_turn_it_is<V: ValidatorSet>(engine: Tendermint<V>, parent_hash: BlockHash)
    requires
        engine.set().members(parent_hash).len() > 0,
    ensures
        engine.may_propose(parent_hash) <==> {
            let members = engine.set().members(parent_hash);
            &&& engine@.proposal is None
            &&& engine@.signer == Some(members[(engine@.height + engine@.view) % members.len() as int])
        },
{
}

/// Two nodes of the same signer at the same height and view, with the same validators and both without
/// a proposal or both with one, may propose alike, whatever else their states hold.
pub proof fn law_turns_depend_on_nothing_else<V: ValidatorSet>(
    a: Tendermint<V>,
    b: Tendermint<V>,
    parent_hash: BlockHash,
)
    requires
        a.set().members(parent_hash) == b.set().members(parent_hash),
        a@.height == b@.height,
        a@.view == b@.view,
        a@.signer == b@.signer,
        a@.proposal is None <==> b@.proposal is None,
    ensures
        a.may_propose(parent_hash) <==> b.may_propose(parent_hash),
{
}

/// A node that ends a height at which it has proposed may propose again when its turn comes.
pub proof fn law_next_height_can_be_proposed<V: ValidatorSet>(
    before: EngineState,
    validators: nat,
    m: ConsensusMessage,
    engine: Tendermint<V>,
    parent_hash: BlockHash,
)
    requires
        is_record(before.votes),
        before.is_idle(),
        before.height < usize::MAX,
        super::voting::is_ended_by(before, validators, m),
        engine@ == before.handled(validators, m).state,
        engine.set().members(parent_hash).len() > 0,
        before.signer == Some(
            engine.set().members(parent_hash)[(before.height + 1) % engine.set().members(parent_hash).len() as int],
        ),
    ensures
        engine.may_propose(parent_hash),
{
    super::voting::law_where_votes_lead(before, validators, m);
    super::voting::law_what_votes_change(before, validators, m);
}

/// What a proposal changes: the proposal, which is the last block that the node proposed, its
/// parent, and the record, to which the proposal is added as the vote of the block's author in the
/// propose step of the view.
pub proof fn law_what_a_proposal_changes(s: EngineState, header: Header, signature: H520)
    ensures
        after_proposal(s, header, signature) == (EngineState {
            proposal: Some(header.bare_hash),
            last_proposed: header.bare_hash,
            proposal_parent: header.parent_hash,
            votes: recorded(
                s.votes,
                ConsensusMessage {
                    vote_step: VoteStep { height: header.number as usize, view: s.view, step: Step::Propose },
                    block_hash: Some(header.bare_hash),
                    signature,
                },
                header.author,
            ),
            ..s
        }),
{
}

// ---------------------------------------------------------------------------------------------
// Proposals of others
// ---------------------------------------------------------------------------------------------

/// `recover` finds `who` behind the signature of a proposal.
pub open spec fn is_signed_by<F: Fn(&H520, &[u8]) -> Result<Address, KeyError>>(
    recover: &F,
    header: Header,
    view: ViewNumber,
    signature: H520,
    who: Result<Address, KeyError>,
) -> bool {
    forall|signed: &[u8], x: Result<Address, KeyError>|
        signed@ == info_rlp(
            VoteStep { height: header.number as usize, view, step: Step::Propose },
            Some(header.bare_hash),
        ) && #[trigger] call_ensures(recover, (&signature, signed), x) ==> x == who
}

/// A header makes a proposal if and only if view and signature can be read out of its seal, and the
/// proposal is of its number and for its block.
pub proof fn law_which_headers_propose(header: Header)
    ensures
        ({
            let seal = strings_of(header.seal@);
            match proposal_of(header) {
                Ok(proposal) => {
                    &&& seal_proposal_signature(seal) == Ok::<_, DecodeError>(proposal.signature)
                    &&& seal_view(seal) == Ok::<_, DecodeError>(proposal.vote_step.view)
                    &&& proposal.vote_step.height == header.number as usize
                    &&& proposal.vote_step.step == Step::Propose
                    &&& proposal.block_hash == Some(header.bare_hash)
                },
                Err(e) => {
                    ||| seal_proposal_signature(seal) == Err::<H520, DecodeError>(e)
                    ||| seal_proposal_signature(seal) is Ok && seal_view(seal) == Err::<ViewNumber, DecodeError>(e)
                },
            }
        }),
{
}

/// The verdict on a proposal goes by its own height and view, whatever the height and the view of
/// the node that checks it. It is accepted if and only if who signed it may vote now and is the
/// validator, as of the parent, whose turn it is at that height and view. Otherwise the verdict says
/// what is wrong; there is none if nobody has the turn.
pub proof fn law_proposals_are_judged_by_their_round<
    V: ValidatorSet,
    F: Fn(&H520, &[u8]) -> Result<Address, KeyError>,
>(
    engine: Tendermint<V>,
    header: Header,
    view: ViewNumber,
    signature: H520,
    recover: &F,
    who: Result<Address, KeyError>,
    r: Option<Result<(), Error>>,
)
    requires
        seal_view(strings_of(header.seal@)) == Ok::<_, DecodeError>(view),
        seal_proposal_signature(strings_of(header.seal@)) == Ok::<_, DecodeError>(signature),
        is_signed_by(recover, header, view, signature, who),
        engine.is_external_verdict(header, recover, r),
    ensures
        ({
            let now = engine.set().members(engine@.proposal_parent);
            let members = engine.set().members(header.parent_hash);
            let turn = header.number as usize + view;
            let expected = members[turn % members.len() as int];
            let has_turn = members.len() > 0 && turn <= usize::MAX;
            &&& r == Some(Ok::<(), Error>(())) <==> has_turn && who == Ok::<Address, KeyError>(expected)
                && now.contains(expected)
            &&& who matches Err(e) ==> r == Some(Err::<(), Error>(Error::Key(e)))
            &&& who matches Ok(a) ==> !now.contains(a) ==> r == Some(
                Err::<(), Error>(Error::Engine(EngineError::NotAuthorized(a))),
            )
            &&& who matches Ok(a) ==> now.contains(a) ==> has_turn ==> a != expected ==> r == Some(
                Err::<(), Error>(Error::Engine(EngineError::NotProposer { expected, found: a })),
            )
            &&& who matches Ok(a) ==> now.contains(a) ==> !has_turn ==> r is None
        }),
{
    assert(proposal_of(header) == Ok::<_, DecodeError>(
        ConsensusMessage {
            vote_step: VoteStep { height: header.number as usize, view, step: Step::Propose },
            block_hash: Some(header.bare_hash),
            signature,
        },
    ));
}

/// The verdict on a seal is the same for any two nodes that know the same validators and have the
/// same votes, whatever heights, views and steps they are in.
pub proof fn law_verdicts_do_not_depend_on_the_round<
    V: ValidatorSet,
    F: Fn(&H520, &[u8]) -> Result<Address, KeyError>,
>(a: Tendermint<V>, b: Tendermint<V>, header: Header, recover: &F, r: Option<Result<(), Error>>)
    requires
        a.set() == b.set(),
        a@.proposal_parent == b@.proposal_parent,
        a@.votes == b@.votes,
    ensures
        a.is_external_verdict(header, recover, r) <==> b.is_external_verdict(header, recover, r),
        a.is_decidable(header, recover) <==> b.is_decidable(header, recover),
{
}

/// There is a verdict on every seal but that of a proposal for a round in which nobody has the turn.
pub proof fn law_seals_can_be_judged<V: ValidatorSet, F: Fn(&H520, &[u8]) -> Result<Address, KeyError>>(
    engine: Tendermint<V>,
    header: Header,
    recover: &F,
)
    requires
        proposal_of(header) matches Ok(proposal) ==> engine.set().members(header.parent_hash).len() > 0
            && header.number as usize + proposal.vote_step.view <= usize::MAX,
    ensures
        engine.is_decidable(header, recover),
{
}

// ---------------------------------------------------------------------------------------------
// Committed blocks
// ---------------------------------------------------------------------------------------------

/// What is wrong with the signature at the index `i`, if anything: that it cannot be read, that
/// nobody can be found behind it, or that who is behind it is no validator or has signed before.
pub open spec fn offence_at(
    members: Seq<Address>,
    signatures: Seq<Result<H520, DecodeError>>,
    origins: Seq<Result<Address, KeyError>>,
    i: int,
) -> Option<Error> {
    match (signatures[i], origins[i]) {
        (Err(e), _) => Some(Error::Decoder(e)),
        (Ok(_), Err(e)) => Some(Error::Key(e)),
        (Ok(_), Ok(a)) => if !members.contains(a) {
            Some(Error::Engine(EngineError::NotAuthorized(a)))
        } else if exists|k: int| 0 <= k < i && #[trigger] origins[k] == Ok::<Address, KeyError>(a) {
            Some(Error::Block(BlockError::InvalidSeal))
        } else {
            None
        },
    }
}

/// The error for `found` signatures where more than two thirds of so many validators are needed: it
/// gives the largest number that is too small.
pub open spec fn is_shortage(e: Error, validators: nat, found: nat) -> bool {
    &&& e matches Error::Engine(EngineError::BadSealFieldSize { min, max, found: n })
    &&& min matches Some(t)
    &&& validators <= usize::MAX ==> !is_enough(t as nat, validators) && is_enough((t + 1) as nat, validators)
    &&& max is None
    &&& found <= usize::MAX ==> n == found
}

/// The verdict after the origins of the first signatures have been found in order.
proof fn lemma_in_order_up_to(
    members: Seq<Address>,
    validators: nat,
    signatures: Seq<Result<H520, DecodeError>>,
    origins: Seq<Result<Address, KeyError>>,
    i: int,
    seen: Seq<Address>,
    n: int,
) -> (all: Seq<Address>)
    requires
        0 <= i <= n <= signatures.len(),
        n <= origins.len(),
        seen.len() == i,
        forall|k: int| 0 <= k < i ==> (#[trigger] origins[k]) == Ok::<Address, KeyError>(seen[k]),
        forall|k: int| 0 <= k < n ==> #[trigger] offence_at(members, signatures, origins, k) is None,
    ensures
        all.len() == n,
        forall|k: int| 0 <= k < n ==> (#[trigger] origins[k]) == Ok::<Address, KeyError>(all[k]),
        origins_verdict(members, validators, signatures, origins, i, seen) == origins_verdict(
            members,
            validators,
            signatures,
            origins,
            n,
            all,
        ),
    decreases n - i,
{
    if i < n {
        assert(offence_at(members, signatures, origins, i) is None);
        let a = origins[i]->Ok_0;
        if seen.contains(a) {
            let k = choose|k: int| 0 <= k < seen.len() && seen[k] == a;
            assert(origins[k] == Ok::<Address, KeyError>(a));
        }
        let more = seen.push(a);
        assert forall|k: int| 0 <= k < i + 1 implies (#[trigger] origins[k]) == Ok::<Address, KeyError>(more[k]) by {}
        lemma_in_order_up_to(members, validators, signatures, origins, i + 1, more, n)
    } else {
        seen
    }
}

/// The verdict on the signatures of a committed block is the offence of the first signature that
/// offends, if any does.
pub proof fn law_first_offence_decides(
    members: Seq<Address>,
    validators: nat,
    signatures: Seq<Result<H520, DecodeError>>,
    origins: Seq<Result<Address, KeyError>>,
    i: int,
    e: Error,
)
    requires
        0 <= i < signatures.len(),
        i < origins.len() || i == origins.len() && signatures[i] is Err,
        forall|k: int| 0 <= k < i ==> #[trigger] offence_at(members, signatures, origins, k) is None,
        offence_at(members, signatures, origins, i) == Some(e),
    ensures
        origins_verdict(members, validators, signatures, origins, 0, seq![]) == Some(Err::<(), Error>(e)),
{
    let seen = lemma_in_order_up_to(members, validators, signatures, origins, 0, seq![], i);
    if signatures[i] is Ok && origins[i] is Ok {
        let a = origins[i]->Ok_0;
        if seen.contains(a) {
            let k = choose|k: int| 0 <= k < seen.len() && seen[k] == a;
            assert(origins[k] == Ok::<Address, KeyError>(a));
        }
        if exists|k: int| 0 <= k < i && #[trigger] origins[k] == Ok::<Address, KeyError>(a) {
            let k = choose|k: int| 0 <= k < i && #[trigger] origins[k] == Ok::<Address, KeyError>(a);
            assert(seen[k] == a);
        }
    }
}

/// If no signature of a committed block offends, it is accepted if and only if there are enough
/// signatures, and otherwise the verdict says how many there are and how many are too few.
pub proof fn law_enough_signatures_are_accepted(
    members: Seq<Address>,
    validators: nat,
    signatures: Seq<Result<H520, DecodeError>>,
    origins: Seq<Result<Address, KeyError>>,
)
    requires
        origins.len() == signatures.len(),
        forall|k: int| 0 <= k < signatures.len() ==> #[trigger] offence_at(members, signatures, origins, k) is None,
    ensures
        origins_verdict(members, validators, signatures, origins, 0, seq![]) matches Some(r) && match r {
            Ok(_) => is_enough(signatures.len(), validators),
            Err(e) => !is_enough(signatures.len(), validators) && is_shortage(e, validators, signatures.len()),
        },
{
    law_quorum_is_more_than_two_thirds(signatures.len(), validators);
    let seen = lemma_in_order_up_to(
        members,
        validators,
        signatures,
        origins,
        0,
        seq![],
        signatures.len() as int,
    );
}

/// Who is behind a signature of a committed block: who cast the precommit that it belongs to, if
/// that is on record and counts, and otherwise who `recover` finds behind the signed bytes.
pub proof fn law_who_is_behind_a_signature<F: Fn(&H520, &[u8]) -> Result<Address, KeyError>>(
    recover: &F,
    votes: Seq<Vote>,
    header: Header,
    view: ViewNumber,
    signature: H520,
    signed: &[u8],
    origin: Result<Address, KeyError>,
)
    requires
        is_record(votes),
        is_origin(recover, votes, commit_round(header, view), header.bare_hash, Ok(signature), signed, origin),
    ensures
        ({
            let precommit = ConsensusMessage {
                vote_step: VoteStep { height: header.number as usize, view, step: Step::Precommit },
                block_hash: Some(header.bare_hash),
                signature,
            };
            &&& forall|i: int|
                0 <= i < votes.len() && (#[trigger] votes[i]).counted && votes[i].message == precommit ==> origin == Ok::<
                    Address,
                    KeyError,
                >(votes[i].voter)
            &&& !(exists|i: int| 0 <= i < votes.len() && (#[trigger] votes[i]).counted && votes[i].message == precommit)
                ==> call_ensures(recover, (&signature, signed), origin)
        }),
{
    let precommit = precommit_of(commit_round(header, view), header.bare_hash, signature);
    assert forall|i: int| 0 <= i < votes.len() && (#[trigger] votes[i]).counted && votes[i].message
        == precommit implies origin == Ok::<Address, KeyError>(votes[i].voter) by {
        law_known_voters(votes, precommit, votes[i].voter);
    }
}

/// The verdict on a committed block goes by its own number and the view in its seal, by the
/// signatures in its seal over the precommits to the block, by the validators as of its parent, and
/// by the number of those who may vote now: `origins` are who is behind the signatures.
pub proof fn law_commits_are_judged_by_their_signatures<
    V: ValidatorSet,
    F: Fn(&H520, &[u8]) -> Result<Address, KeyError>,
>(engine: Tendermint<V>, header: Header, view: ViewNumber, recover: &F, r: Result<(), Error>) -> (res: (
    &[u8],
    Seq<Result<Address, KeyError>>,
))
    requires
        proposal_of(header) is Err,
        seal_view(strings_of(header.seal@)) == Ok::<_, DecodeError>(view),
        engine.is_external_verdict(header, recover, Some(r)),
    ensures
        ({
            let (signed, origins) = res;
            let round = VoteStep { height: header.number as usize, view, step: Step::Precommit };
            let signatures = seal_signatures(strings_of(header.seal@));
            &&& signed@ == info_rlp(round, Some(header.bare_hash))
            &&& origins.len() <= signatures.len()
            &&& forall|i: int|
                0 <= i < origins.len() ==> is_origin(
                    recover,
                    engine@.votes,
                    round,
                    header.bare_hash,
                    signatures[i],
                    signed,
                    #[trigger] origins[i],
                )
            &&& origins_verdict(
                engine.set().members(header.parent_hash),
                engine.set().members(engine@.proposal_parent).len(),
                signatures,
                origins,
                0,
                seq![],
            ) == Some(r)
        }),
{
    let members = engine.set().members(header.parent_hash);
    let signatures = seal_signatures(strings_of(header.seal@));
    let round = commit_round(header, view);
    choose|signed: &[u8], origins: Seq<Result<Address, KeyError>>|
        {
            &&& #[trigger] are_origins(recover, engine@.votes, round, header.bare_hash, signatures, signed, origins)
            &&& origins_verdict(members, engine.validator_count(), signatures, origins, 0, seq![]) == Some(r)
        }
}

/// A header whose seal tells no view is refused for that.
pub proof fn law_seals_without_view_are_refused<V: ValidatorSet, F: Fn(&H520, &[u8]) -> Result<Address, KeyError>>(
    engine: Tendermint<V>,
    header: Header,
    e: DecodeError,
    recover: &F,
    r: Option<Result<(), Error>>,
)
    requires
        seal_view(strings_of(header.seal@)) == Err::<ViewNumber, DecodeError>(e),
        engine.is_external_verdict(header, recover, r),
    ensures
        r == Some(Err::<(), Error>(Error::Decoder(e))),
{
}

/// A seal is refused at first sight if it has both the signature of a proposal and signatures of a
/// commit, or neither, and only then.
pub proof fn law_seals_have_one_kind_of_signature(seal: Seq<Seq<u8>>)
    requires
        seal.len() == 3,
    ensures
        ({
            let is_proposed = seal[1] != seq![0x80u8];
            let is_committed = seal[2] != seq![0xc0u8];
            &&& is_proposed && !is_committed ==> is_basic_seal(seal)
            &&& !is_proposed && is_committed ==> is_basic_seal(seal)
            &&& is_proposed && is_committed ==> !is_basic_seal(seal)
            &&& !is_proposed && !is_committed ==> !is_basic_seal(seal)
        }),
{
}

// ---------------------------------------------------------------------------------------------
// Headers of an epoch
// ---------------------------------------------------------------------------------------------

/// What is wrong with the signature of a header at the index `i`, if anything: that it cannot be
/// read, that nobody can be found behind it, or that who is behind it is no validator.
pub open spec fn light_offence_at(
    members: Seq<Address>,
    signatures: Seq<Result<H520, DecodeError>>,
    origins: Seq<Result<Address, KeyError>>,
    i: int,
) -> Option<Error> {
    match (signatures[i], origins[i]) {
        (Err(e), _) => Some(Error::Decoder(e)),
        (Ok(_), Err(e)) => Some(Error::Key(e)),
        (Ok(_), Ok(a)) => if !members.contains(a) {
            Some(Error::Engine(EngineError::NotAuthorized(a)))
        } else {
            None
        },
    }
}

/// The verdict after the first signatures, by so many validators.
proof fn lemma_light_up_to(
    members: Seq<Address>,
    signatures: Seq<Result<H520, DecodeError>>,
    origins: Seq<Result<Address, KeyError>>,
    i: int,
    seen: Seq<Address>,
    n: int,
) -> (all: Seq<Address>)
    requires
        0 <= i <= n <= signatures.len(),
        n <= origins.len(),
        seen.no_duplicates(),
        seen.to_set() == signers(origins.take(i)),
        forall|k: int| 0 <= k < n ==> #[trigger] light_offence_at(members, signatures, origins, k) is None,
    ensures
        all.len() == signers(origins.take(n)).len(),
        light_verdict(members, signatures, origins, i, seen) == light_verdict(members, signatures, origins, n, all),
    decreases n - i,
{
    if i < n {
        assert(light_offence_at(members, signatures, origins, i) is None);
        let a = origins[i]->Ok_0;
        assert(origins.take(i + 1).drop_last() =~= origins.take(i));
        if seen.contains(a) {
            assert(signers(origins.take(i + 1)) =~= seen.to_set());
            lemma_light_up_to(members, signatures, origins, i + 1, seen, n)
        } else {
            seen.lemma_push_to_set_commute(a);
            lemma_light_up_to(members, signatures, origins, i + 1, seen.push(a), n)
        }
    } else {
        seen.unique_seq_to_set();
        seen
    }
}

/// The verdict on a header of an epoch is the offence of the first signature that offends, if any
/// does.
pub proof fn law_first_offence_decides_on_a_header(
    members: Seq<Address>,
    signatures: Seq<Result<H520, DecodeError>>,
    origins: Seq<Result<Address, KeyError>>,
    i: int,
    e: Error,
)
    requires
        0 <= i < signatures.len(),
        i < origins.len() || i == origins.len() && signatures[i] is Err,
        forall|k: int| 0 <= k < i ==> #[trigger] light_offence_at(members, signatures, origins, k) is None,
        light_offence_at(members, signatures, origins, i) == Some(e),
    ensures
        light_verdict(members, signatures, origins, 0, seq![]) == Some(Err::<(), Error>(e)),
{
    assert(Seq::<Address>::empty().to_set() =~= signers(origins.take(0)));
    let seen = lemma_light_up_to(members, signatures, origins, 0, seq![], i);
}

/// If no signature of a header offends, it is accepted if and only if the validators that have signed
/// are enough, each counted once, and otherwise the verdict says how many they are and how many are
/// too few.
pub proof fn law_enough_signers_are_accepted(
    members: Seq<Address>,
    signatures: Seq<Result<H520, DecodeError>>,
    origins: Seq<Result<Address, KeyError>>,
)
    requires
        origins.len() == signatures.len(),
        forall|k: int| 0 <= k < signatures.len() ==> #[trigger] light_offence_at(members, signatures, origins, k) is None,
    ensures
        light_verdict(members, signatures, origins, 0, seq![]) matches Some(r) && match r {
            Ok(_) => is_enough(signers(origins).len(), members.len()),
            Err(e) => !is_enough(signers(origins).len(), members.len()) && is_shortage(
                e,
                members.len(),
                signers(origins).len(),
            ),
        },
{
    assert(Seq::<Address>::empty().to_set() =~= signers(origins.take(0)));
    assert(origins.take(signatures.len() as int) =~= origins);
    law_quorum_is_more_than_two_thirds(signers(origins).len(), members.len());
    let seen = lemma_light_up_to(members, signatures, origins, 0, seq![], signatures.len() as int);
}

/// Who signed, found in the order of the signatures.
pub proof fn law_who_signed(origins: Seq<Result<Address, KeyError>>, a: Address)
    ensures
        signers(origins).contains(a) <==> exists|k: int|
            0 <= k < origins.len() && #[trigger] origins[k] == Ok::<Address, KeyError>(a),
    decreases origins.len(),
{
    if origins.len() > 0 {
        let front = origins.drop_last();
        let n = origins.len() - 1;
        law_who_signed(front, a);
        if exists|k: int| 0 <= k < front.len() && #[trigger] front[k] == Ok::<Address, KeyError>(a) {
            let k = choose|k: int| 0 <= k < front.len() && #[trigger] front[k] == Ok::<Address, KeyError>(a);
            assert(origins[k] == Ok::<Address, KeyError>(a));
        }
        if exists|k: int| 0 <= k < origins.len() && #[trigger] origins[k] == Ok::<Address, KeyError>(a) {
            let k = choose|k: int| 0 <= k < origins.len() && #[trigger] origins[k] == Ok::<Address, KeyError>(a);
            if k < n {
                assert(front[k] == Ok::<Address, KeyError>(a));
            } else {
                assert(origins.last() == Ok::<Address, KeyError>(a));
            }
        }
        if origins.last() == Ok::<Address, KeyError>(a) {
            assert(origins[n] == Ok::<Address, KeyError>(a));
        }
    }
}

/// Who is behind a signature of a header: who `recover` finds behind it and the hash.
pub proof fn law_who_is_behind_a_signature_of_a_header<F: Fn(&H520, &BlockHash) -> Result<Address, KeyError>>(
    recover: &F,
    signature: Result<H520, DecodeError>,
    message: BlockHash,
    origin: Result<Address, KeyError>,
)
    requires
        is_light_origin(recover, signature, message, origin),
    ensures
        signature is Ok,
        call_ensures(recover, (&signature->Ok_0, &message), origin),
{
}

/// The verdict on a header of an epoch goes by the signatures in its seal over its hash without the
/// seal, and by the validators of the epoch: `origins` are who is behind the signatures. A seal
/// without a field for them is refused.
pub proof fn law_headers_are_judged_by_their_signatures<F: Fn(&H520, &BlockHash) -> Result<Address, KeyError>>(
    verifier: EpochVerifier<F>,
    header: Header,
    r: Result<(), Error>,
) -> (origins: Seq<Result<Address, KeyError>>)
    requires
        verifier.is_verdict(header, r),
    ensures
        header.seal@.len() < 3 ==> r == Err::<(), Error>(Error::Block(BlockError::InvalidSeal)),
        header.seal@.len() >= 3 ==> {
            let signatures = seal_signatures(strings_of(header.seal@));
            &&& origins.len() <= signatures.len()
            &&& forall|i: int|
                0 <= i < origins.len() ==> is_light_origin(
                    &verifier.recover,
                    signatures[i],
                    header.bare_hash,
                    #[trigger] origins[i],
                )
            &&& light_verdict(verifier.subchain_validators.validators@, signatures, origins, 0, seq![]) == Some(r)
        },
{
    let signatures = seal_signatures(strings_of(header.seal@));
    let members = verifier.subchain_validators.validators@;
    let origins = choose|origins: Seq<Result<Address, KeyError>>|
        {
            &&& #[trigger] are_light_origins(&verifier.recover, signatures, header.bare_hash, origins)
            &&& light_verdict(members, signatures, origins, 0, seq![]) == Some(r)
        };
    origins
}

/// A block is final if and only if its header is accepted, and then the answer is its hash alone.
pub proof fn law_final_blocks<F: Fn(&H520, &BlockHash) -> Result<Address, KeyError>>(
    verifier: EpochVerifier<F>,
    header: Header,
    r: Option<Seq<BlockHash>>,
    verdict: Result<(), Error>,
)
    requires
        verifier.is_finality_answer(header, r),
        forall|x: Result<(), Error>| #[trigger] verifier.is_verdict(header, x) ==> x == verdict,
    ensures
        r is Some <==> verdict is Ok,
        r matches Some(hashes) ==> hashes.len() == 1 && hashes[0] == header.hash,
{
    if let Some(hashes) = r {
        assert(verifier.is_verdict(header, Ok(())));
    }
}

/// The verifier of an epoch knows the validators that `epoch_set` gives for the signal. It can be
/// trusted at once if no block has to be final for that, and otherwise with the proof of that. The
/// validators are asked for as those of the first block if that is the block that signalled them.
pub proof fn law_verifiers_of_an_epoch<F, S: Fn(bool, u64, &[u8]) -> EpochSet>(
    first: bool,
    number: u64,
    set: Seq<u8>,
    finality: Seq<u8>,
    epoch_set: &S,
    recover: F,
    answer: EpochSet,
    r: Result<ConstructedVerifier<'_, F>, Error>,
)
    requires
        first == (number == 0),
        is_epoch_verifier(number, set, finality, epoch_set, recover, r),
        forall|set_proof: &[u8], x: EpochSet|
            set_proof@ == set && #[trigger] call_ensures(epoch_set, (first, number, set_proof), x) ==> x == answer,
    ensures
        answer matches Err(e) ==> r == Err::<ConstructedVerifier<'_, F>, Error>(e),
        answer matches Ok((list, finalize)) ==> (r matches Ok(verifier) && match verifier {
            ConstructedVerifier::Trusted(v) => {
                &&& finalize is None
                &&& v.subchain_validators == list
                &&& v.recover == recover
            },
            ConstructedVerifier::Unconfirmed(v, proof_rlp, hash) => {
                &&& finalize == Some(hash)
                &&& v.subchain_validators == list
                &&& v.recover == recover
                &&& proof_rlp@ == finality
            },
        }),
{
    let (set_proof, given) = choose|set_proof: &[u8], given: EpochSet|
        {
            &&& set_proof@ == set
            &&& #[trigger] is_epoch_set(epoch_set, number, set_proof, given)
            &&& is_verifier_for(given, finality, recover, r)
        };
    assert(call_ensures(epoch_set, (first, number, set_proof), given));
}

/// An epoch ends with a change that the validators announce, which needs no other proof, or else with
/// a pending change, which the header proves final. Without either it does not end.
pub proof fn law_ends_of_an_epoch(change: Vec<u8>, pending: Vec<u8>, other: Option<Vec<u8>>, head_rlp: Seq<u8>)
    ensures
        epoch_end_parts(Some(change), other, head_rlp) == Some((change@, Seq::<u8>::empty())),
        epoch_end_parts(None, Some(pending), head_rlp) == Some((pending@, head_rlp)),
        epoch_end_parts(None, None, head_rlp) is None,
{
}

} // verus!
