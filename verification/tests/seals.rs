use tendermint::engine::Tendermint;
use tendermint::error::{BlockError, DecodeError, EngineError, Error, KeyError, RlpError};
use tendermint::message::{message_info_rlp, ConsensusMessage, VoteStep};
use tendermint::primitives::{Address, H256, H520};
use tendermint::seal::{
    consensus_view, make_commit_seal, make_proposal_seal, new_proposal, proposal_signature, Header,
};
use tendermint::engine::sealing::Seal;
use tendermint::step::Step;
use tendermint::validators::ValidatorList;

fn address(n: u8) -> Address {
    Address([n; 20])
}

fn hash(n: u8) -> H256 {
    H256([n; 32])
}

fn sign(signer: u8, bytes: &[u8]) -> H520 {
    let mut signature = [signer; 65];
    let mut sum: u64 = 0xcbf2_9ce4_8422_2325;
    for b in bytes {
        sum = (sum ^ *b as u64).wrapping_mul(0x0100_0000_01b3);
    }
    signature[1..9].copy_from_slice(&sum.to_be_bytes());
    H520(signature)
}

fn recover(signature: &H520, bytes: &[u8]) -> Result<Address, KeyError> {
    let signer = signature.0[0];
    if *signature == sign(signer, bytes) {
        Ok(address(signer))
    } else {
        Err(KeyError)
    }
}

fn engine(validators: u8) -> Tendermint<ValidatorList> {
    Tendermint::new(ValidatorList::new((1..=validators).map(address).collect()))
}

fn header(number: u64, seal: Vec<Vec<u8>>) -> Header {
    Header { number, parent_hash: hash(9), author: address(2), bare_hash: hash(7), hash: hash(8), seal }
}

fn proposed(signer: u8, number: u64, view: usize) -> Header {
    let info = message_info_rlp(&VoteStep::new(number as usize, view, Step::Propose), Some(hash(7)));
    header(number, make_proposal_seal(view, &sign(signer, &info)))
}

fn committed(signers: &[u8], number: u64, view: usize) -> Header {
    let info = message_info_rlp(&VoteStep::new(number as usize, view, Step::Precommit), Some(hash(7)));
    let signatures = signers.iter().map(|signer| sign(*signer, &info)).collect();
    header(number, make_commit_seal(view, &signatures))
}

#[test]
fn the_seal_of_a_proposal() {
    let seal = make_proposal_seal(256, &H520([5; 65]));
    let mut signature = vec![0xb8, 65];
    signature.extend([5u8; 65]);
    assert_eq!(seal, vec![vec![0x82, 1, 0], signature, vec![0xc0]]);
    let header = header(1, seal);
    assert_eq!(consensus_view(&header), Ok(256));
    assert_eq!(proposal_signature(&header), Ok(H520([5; 65])));
    assert_eq!(
        new_proposal(&header),
        Ok(ConsensusMessage::new(H520([5; 65]), 1, 256, Step::Propose, Some(hash(7))))
    );
}

#[test]
fn the_seal_of_a_committed_block() {
    let seal = make_commit_seal(0, &vec![H520([5; 65])]);
    let mut signatures = vec![0xf8, 67, 0xb8, 65];
    signatures.extend([5u8; 65]);
    assert_eq!(seal, vec![vec![0x80], vec![0x80], signatures]);
    assert_eq!(make_commit_seal(0, &vec![])[2], vec![0xc0]);
    let header = header(1, seal);
    assert_eq!(consensus_view(&header), Ok(0));
    assert_eq!(
        proposal_signature(&header),
        Err(DecodeError::WrongLength { expected: 65, found: 0 })
    );
    assert!(new_proposal(&header).is_err());
}

#[test]
fn views_in_seals_are_numbers() {
    let header = header(1, vec![vec![0xc0], vec![0x80], vec![0xc0]]);
    assert_eq!(consensus_view(&header), Err(DecodeError::Rlp(RlpError::ExpectedToBeData)));
    assert_eq!(
        engine(4).verify_block_external(&header, &recover),
        Err(Error::Decoder(DecodeError::Rlp(RlpError::ExpectedToBeData)))
    );
    let view = |field: &[u8]| consensus_view(&self::header(1, vec![field.to_vec()]));
    assert_eq!(view(&[]), Err(DecodeError::Rlp(RlpError::IsTooShort)));
    assert_eq!(view(&[0x82, 1, 0]), Ok(256));
    assert_eq!(view(&[0x82, 0, 1]), Err(DecodeError::Rlp(RlpError::InvalidIndirection)));
    assert_eq!(view(&[0x88, 0, 0, 0, 0, 0, 0, 0, 1]), Err(DecodeError::Rlp(RlpError::InvalidIndirection)));
    assert_eq!(view(&[0x89, 1, 1, 1, 1, 1, 1, 1, 1, 1]), Err(DecodeError::Rlp(RlpError::IsTooBig)));
    assert_eq!(view(&[0x84, 1, 2, 3, 4]), Ok(0x0102_0304));
}

#[test]
fn the_first_block() {
    assert!(header(0, vec![]).is_genesis());
    assert!(!header(1, vec![]).is_genesis());
}

#[test]
fn seals_have_three_fields() {
    let e = engine(4);
    assert_eq!(e.seal_fields(&header(1, vec![])), 3);
    assert_eq!(e.verify_local_seal(&header(1, vec![])), Ok(()));
    assert_eq!(
        e.verify_block_basic(&header(1, vec![vec![0x80], vec![0x80]])),
        Err(Error::Block(BlockError::InvalidSealArity { expected: 3, found: 2 }))
    );
    assert_eq!(
        e.verify_block_basic(&header(1, vec![vec![0x80]; 4])),
        Err(Error::Block(BlockError::InvalidSealArity { expected: 3, found: 4 }))
    );
}

#[test]
fn a_seal_is_that_of_a_proposal_or_that_of_a_commit() {
    let e = engine(4);
    assert_eq!(e.verify_block_basic(&proposed(2, 1, 0)), Ok(()));
    assert_eq!(e.verify_block_basic(&committed(&[1, 2, 3], 1, 0)), Ok(()));
    let neither = header(1, vec![vec![0x80], vec![0x80], vec![0xc0]]);
    assert_eq!(e.verify_block_basic(&neither), Err(Error::Block(BlockError::InvalidSeal)));
    let both = header(1, vec![vec![0x80], vec![0x81, 0x80], vec![0xc1, 0x80]]);
    assert_eq!(e.verify_block_basic(&both), Err(Error::Block(BlockError::InvalidSeal)));
}

#[test]
fn only_the_proposer_seals() {
    let mut e = engine(4);
    assert!(e.proposal_to_sign(&header(1, vec![])).is_none());
    assert!(matches!(e.generate_seal(&header(1, vec![]), Some(H520([1; 65]))), Seal::Nothing));
    e.set_signer(address(3));
    assert!(e.proposal_to_sign(&header(1, vec![])).is_none());
    assert!(matches!(e.generate_seal(&header(1, vec![]), Some(H520([1; 65]))), Seal::Nothing));
    assert!(e.votes().votes().is_empty());
    assert_eq!(e.proposal(), None);
}

#[test]
fn without_signature_there_is_no_seal() {
    let mut e = engine(4);
    e.set_signer(address(2));
    assert!(matches!(e.generate_seal(&header(1, vec![]), None), Seal::Nothing));
    assert_eq!(e.proposal(), None);
}

#[test]
fn a_view_has_one_proposal() {
    let mut e = engine(4);
    e.set_signer(address(2));
    let to_sign = e.proposal_to_sign(&header(1, vec![])).unwrap();
    let signature = sign(2, &to_sign);
    match e.generate_seal(&header(1, vec![]), Some(signature)) {
        Seal::Proposal(seal) => {
            assert_eq!(seal, make_proposal_seal(0, &signature));
            // The node accepts its own proposal.
            assert_eq!(e.verify_block_external(&header(1, seal), &recover), Ok(()));
        }
        Seal::Nothing => panic!("the proposer proposes"),
    }
    assert!(matches!(e.generate_seal(&header(1, vec![]), Some(signature)), Seal::Nothing));
    let proposal = ConsensusMessage::new(signature, 1, 0, Step::Propose, Some(hash(7)));
    assert_eq!(e.votes().get(&proposal), Some(address(2)));
}

#[test]
fn proposals_are_signed_by_their_proposer() {
    let e = engine(4);
    assert_eq!(e.verify_block_external(&proposed(2, 1, 0), &recover), Ok(()));
    assert_eq!(e.verify_block_external(&proposed(4, 1, 2), &recover), Ok(()));
    assert_eq!(
        e.verify_block_external(&proposed(3, 1, 0), &recover),
        Err(Error::Engine(EngineError::NotProposer { expected: address(2), found: address(3) }))
    );
    assert_eq!(
        e.verify_block_external(&proposed(5, 1, 0), &recover),
        Err(Error::Engine(EngineError::NotAuthorized(address(5))))
    );
    let forged = header(1, make_proposal_seal(0, &H520([2; 65])));
    assert_eq!(e.verify_block_external(&forged, &recover), Err(Error::Key(KeyError)));
}

#[test]
fn checking_a_proposal_with_its_proposer() {
    let e = engine(4);
    let round = VoteStep::new(1, 0, Step::Propose);
    assert_eq!(e.check_proposal(&hash(9), &round, Ok(address(2))), Ok(()));
    assert_eq!(
        e.check_proposal(&hash(9), &round, Ok(address(1))),
        Err(Error::Engine(EngineError::NotProposer { expected: address(2), found: address(1) }))
    );
    assert_eq!(
        e.check_proposal(&hash(9), &round, Ok(address(7))),
        Err(Error::Engine(EngineError::NotAuthorized(address(7))))
    );
    assert_eq!(e.check_proposal(&hash(9), &round, Err(KeyError)), Err(Error::Key(KeyError)));
}

#[test]
fn commits_need_enough_different_validators() {
    let e = engine(4);
    assert_eq!(e.verify_block_external(&committed(&[1, 2, 3], 1, 0), &recover), Ok(()));
    assert_eq!(e.verify_block_external(&committed(&[4, 2, 3, 1], 5, 9), &recover), Ok(()));
    assert_eq!(
        e.verify_block_external(&committed(&[1, 2], 1, 0), &recover),
        Err(Error::Engine(EngineError::BadSealFieldSize { min: Some(2), max: None, found: 2 }))
    );
    assert_eq!(
        e.verify_block_external(&committed(&[1, 2, 2, 3], 1, 0), &recover),
        Err(Error::Block(BlockError::InvalidSeal))
    );
    assert_eq!(
        e.verify_block_external(&committed(&[1, 2, 5], 1, 0), &recover),
        Err(Error::Engine(EngineError::NotAuthorized(address(5))))
    );
}

#[test]
fn the_order_of_signatures_does_not_matter() {
    let e = engine(4);
    for signers in [[1, 2, 3], [1, 3, 2], [2, 1, 3], [2, 3, 1], [3, 1, 2], [3, 2, 1]] {
        assert_eq!(e.verify_block_external(&committed(&signers, 1, 0), &recover), Ok(()));
    }
    for signers in [[1, 2, 2], [2, 1, 2], [2, 2, 1], [1, 2, 5], [5, 1, 2], [1, 5, 2]] {
        assert!(e.verify_block_external(&committed(&signers, 1, 0), &recover).is_err());
    }
}

#[test]
fn signatures_of_another_view_commit_to_nothing() {
    let e = engine(4);
    let mut header = committed(&[1, 2, 3], 1, 0);
    header.seal[0] = vec![1];
    assert_eq!(e.verify_block_external(&header, &recover), Err(Error::Key(KeyError)));
}

#[test]
fn signatures_of_another_length_are_none() {
    let e = engine(4);
    let mut header = committed(&[], 1, 0);
    header.seal[2] = vec![0xc2, 0x05, 0x06];
    assert_eq!(
        e.verify_block_external(&header, &recover),
        Err(Error::Decoder(DecodeError::WrongLength { expected: 65, found: 1 }))
    );
    header.seal[2] = vec![0xc1, 0xc0];
    assert_eq!(
        e.verify_block_external(&header, &recover),
        Err(Error::Decoder(DecodeError::Rlp(RlpError::ExpectedToBeData)))
    );
    // What is no list has no signatures.
    header.seal[2] = vec![0x05];
    assert_eq!(
        e.verify_block_external(&header, &recover),
        Err(Error::Engine(EngineError::BadSealFieldSize { min: Some(2), max: None, found: 0 }))
    );
}

#[test]
fn known_votes_need_no_recovery() {
    let mut e = engine(4);
    let header = committed(&[1, 2, 3], 1, 0);
    let info = message_info_rlp(&VoteStep::new(1, 0, Step::Precommit), Some(hash(7)));
    let nobody = |_: &H520, _: &[u8]| Err(KeyError);
    let precommit = |voter| ConsensusMessage::new(sign(voter, &info), 1, 0, Step::Precommit, Some(hash(7)));
    for voter in [1, 2] {
        assert_eq!(e.handle_message(&precommit(voter).encode(), &recover).1, Ok(()));
    }
    assert_eq!(e.verify_block_external(&header, &nobody), Err(Error::Key(KeyError)));
    assert_eq!(e.handle_message(&precommit(3).encode(), &recover).1, Ok(()));
    assert_eq!(e.verify_block_external(&header, &nobody), Ok(()));
}

#[test]
fn origins_are_counted_once() {
    let e = engine(4);
    let mut origins = vec![];
    assert_eq!(e.admit_origin(&hash(9), address(1), &mut origins), Ok(()));
    assert_eq!(
        e.admit_origin(&hash(9), address(1), &mut origins),
        Err(Error::Block(BlockError::InvalidSeal))
    );
    assert_eq!(
        e.admit_origin(&hash(9), address(6), &mut origins),
        Err(Error::Engine(EngineError::NotAuthorized(address(6))))
    );
    assert_eq!(origins, vec![address(1)]);
}

#[test]
fn checking_the_signatures_of_a_commit() {
    let e = engine(4);
    let header = committed(&[1, 2, 3], 1, 6);
    assert_eq!(e.check_commit(&header, &VoteStep::new(1, 6, Step::Precommit), &recover), Ok(()));
    assert_eq!(
        e.check_commit(&header, &VoteStep::new(1, 6, Step::Prevote), &recover),
        Err(Error::Key(KeyError))
    );
}

#[test]
fn no_verdict_where_there_is_no_proposer() {
    let e = engine(4);
    assert_eq!(e.try_verify_block_external(&header(1, vec![]), &recover), None);
    assert_eq!(e.try_verify_block_external(&proposed(2, 1, usize::MAX), &recover), None);
    assert_eq!(
        e.try_verify_block_external(&proposed(5, 1, usize::MAX), &recover),
        Some(Err(Error::Engine(EngineError::NotAuthorized(address(5)))))
    );
    assert_eq!(
        engine(0).try_verify_block_external(&proposed(2, 1, 0), &recover),
        Some(Err(Error::Engine(EngineError::NotAuthorized(address(2)))))
    );
    let forged = header(1, make_proposal_seal(usize::MAX, &H520([2; 65])));
    assert_eq!(e.try_verify_block_external(&forged, &recover), Some(Err(Error::Key(KeyError))));
    assert_eq!(e.try_verify_block_external(&proposed(2, 1, 0), &recover), Some(Ok(())));
    assert_eq!(
        e.try_verify_block_external(&committed(&[1], 1, usize::MAX), &recover),
        Some(Err(Error::Engine(EngineError::BadSealFieldSize { min: Some(2), max: None, found: 1 })))
    );
}
