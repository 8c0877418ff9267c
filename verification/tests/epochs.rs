use tendermint::epoch::{
    combine_proofs, construct_verifier, destructure_proofs, epoch_verifier, is_epoch_end, on_new_block,
    ConstructedVerifier, EpochSet, EpochVerifier,
};
use tendermint::error::{BlockError, DecodeError, EngineError, Error, KeyError, RlpError};
use tendermint::primitives::{Address, BlockHash, H256, H520};
use tendermint::seal::{make_commit_seal, Header};
use tendermint::validators::ValidatorList;

fn address(n: u8) -> Address {
    Address([n; 20])
}

fn hash(n: u8) -> H256 {
    H256([n; 32])
}

fn sign(signer: u8, message: &BlockHash) -> H520 {
    let mut signature = [signer; 65];
    signature[1..33].copy_from_slice(&message.0);
    H520(signature)
}

fn recover(signature: &H520, message: &BlockHash) -> Result<Address, KeyError> {
    let signer = signature.0[0];
    if *signature == sign(signer, message) {
        Ok(address(signer))
    } else {
        Err(KeyError)
    }
}

type Recover = fn(&H520, &BlockHash) -> Result<Address, KeyError>;

fn list(validators: u8) -> ValidatorList {
    ValidatorList::new((1..=validators).map(address).collect())
}

fn light_client(validators: u8) -> EpochVerifier<Recover> {
    EpochVerifier { subchain_validators: list(validators), recover }
}

fn header(number: u64, seal: Vec<Vec<u8>>) -> Header {
    Header { number, parent_hash: hash(9), author: address(2), bare_hash: hash(7), hash: hash(8), seal }
}

fn signed(signers: &[u8]) -> Header {
    header(5, make_commit_seal(0, &signers.iter().map(|signer| sign(*signer, &hash(7))).collect()))
}

#[test]
fn proofs_are_put_together() {
    assert_eq!(combine_proofs(7, &[1, 2], &[3]), vec![0xc5, 7, 0x82, 1, 2, 3]);
    assert_eq!(combine_proofs(0, &[], &[]), vec![0xc3, 0x80, 0x80, 0x80]);
    assert_eq!(combine_proofs(1024, &[0x80], &[]), vec![0xc6, 0x82, 4, 0, 0x81, 0x80, 0x80]);
}

#[test]
fn proofs_are_taken_apart() {
    let long = vec![0xaau8; 300];
    for number in [0, 1, 255, 256, u64::MAX] {
        for set_proof in [&[] as &[u8], &[0], &[1, 2, 3], &long] {
            for finality_proof in [&[] as &[u8], &[0x80], &long] {
                let combined = combine_proofs(number, set_proof, finality_proof);
                assert_eq!(destructure_proofs(&combined), Ok((number, set_proof, finality_proof)));
            }
        }
    }
}

#[test]
fn bytes_that_are_no_proof() {
    let error = |rlp: &[u8]| destructure_proofs(rlp).unwrap_err();
    assert_eq!(error(&[]), DecodeError::Rlp(RlpError::ExpectedToBeList));
    assert_eq!(error(&[0x83, 7, 1, 1]), DecodeError::Rlp(RlpError::ExpectedToBeList));
    assert_eq!(error(&[0xc2, 7, 1]), DecodeError::Rlp(RlpError::IsTooShort));
    assert_eq!(error(&[0xc3, 0xc0, 1, 1]), DecodeError::Rlp(RlpError::ExpectedToBeData));
    assert_eq!(error(&[0xf8, 0, 1]), DecodeError::Rlp(RlpError::DataLenWithZeroPrefix));
}

#[test]
fn different_parts_make_different_proofs() {
    let parts: [(u64, &[u8], &[u8]); 6] =
        [(0, &[], &[]), (1, &[], &[]), (0, &[1], &[]), (0, &[], &[1]), (0, &[1, 1], &[]), (0, &[1], &[1])];
    for (i, a) in parts.iter().enumerate() {
        for b in &parts[..i] {
            assert_ne!(combine_proofs(a.0, a.1, a.2), combine_proofs(b.0, b.1, b.2));
        }
    }
}

#[test]
fn the_end_of_an_epoch() {
    let head = header(6, vec![]);
    assert_eq!(is_epoch_end(&head, None, None, &[4]), None);
    assert_eq!(
        is_epoch_end(&head, Some(vec![1, 2]), None, &[4]),
        Some(combine_proofs(6, &[1, 2], &[]))
    );
    assert_eq!(
        is_epoch_end(&head, None, Some(vec![3]), &[4]),
        Some(combine_proofs(6, &[3], &[4]))
    );
    assert_eq!(
        is_epoch_end(&head, Some(vec![1]), Some(vec![3]), &[4]),
        Some(combine_proofs(6, &[1], &[]))
    );
}

#[test]
fn validators_are_told_of_the_beginning_of_an_epoch() {
    assert_eq!(on_new_block(&header(0, vec![]), true), Some(true));
    assert_eq!(on_new_block(&header(5, vec![]), true), Some(false));
    assert_eq!(on_new_block(&header(0, vec![]), false), None);
}

#[test]
fn headers_signed_by_enough_validators() {
    assert_eq!(light_client(4).verify_light(&signed(&[1, 2, 3])), Ok(()));
    assert_eq!(
        light_client(4).verify_light(&signed(&[1, 2])),
        Err(Error::Engine(EngineError::BadSealFieldSize { min: Some(2), max: None, found: 2 }))
    );
}

#[test]
fn signing_a_header_twice_counts_once() {
    assert_eq!(light_client(4).verify_light(&signed(&[1, 2, 2, 3])), Ok(()));
    assert_eq!(
        light_client(4).verify_light(&signed(&[1, 2, 2])),
        Err(Error::Engine(EngineError::BadSealFieldSize { min: Some(2), max: None, found: 2 }))
    );
}

#[test]
fn headers_with_other_signatures() {
    assert_eq!(
        light_client(4).verify_light(&signed(&[1, 2, 3, 5])),
        Err(Error::Engine(EngineError::NotAuthorized(address(5))))
    );
    let forged = header(5, make_commit_seal(0, &vec![H520([1; 65])]));
    assert_eq!(light_client(4).verify_light(&forged), Err(Error::Key(KeyError)));
    let short = header(5, vec![vec![0x80], vec![0x80], vec![0xc1, 0x01]]);
    assert_eq!(
        light_client(4).verify_light(&short),
        Err(Error::Decoder(DecodeError::WrongLength { expected: 65, found: 1 }))
    );
    let bare = header(5, vec![vec![0x80], vec![0x80]]);
    assert_eq!(light_client(4).verify_light(&bare), Err(Error::Block(BlockError::InvalidSeal)));
}

#[test]
fn signers_of_headers_are_counted_once() {
    let v = light_client(4);
    let mut addresses = vec![];
    assert_eq!(v.admit_origin(&hash(9), address(1), &mut addresses), Ok(()));
    assert_eq!(v.admit_origin(&hash(9), address(1), &mut addresses), Ok(()));
    assert_eq!(
        v.admit_origin(&hash(9), address(5), &mut addresses),
        Err(Error::Engine(EngineError::NotAuthorized(address(5))))
    );
    assert_eq!(addresses, vec![address(1)]);
}

#[test]
fn the_proof_that_a_block_is_final() {
    assert_eq!(light_client(4).check_finality(&signed(&[1, 2, 3])), Some(vec![hash(8)]));
    assert_eq!(light_client(4).check_finality(&signed(&[1, 2])), None);
    // The encoding is a list of the signers here.
    let decode = |rlp: &[u8]| signed(rlp);
    assert_eq!(light_client(4).check_finality_proof(&[3, 1, 2], &decode), Some(vec![hash(8)]));
    assert_eq!(light_client(4).check_finality_proof(&[1, 2], &decode), None);
}

#[test]
fn verifiers_have_to_be_confirmed_where_a_block_has_to_be_final() {
    match construct_verifier(list(4), None, &[1], recover as Recover) {
        ConstructedVerifier::Trusted(v) => assert_eq!(v.subchain_validators.len(), 4),
        ConstructedVerifier::Unconfirmed(..) => panic!("there is nothing to confirm"),
    }
    match construct_verifier(list(4), Some(hash(3)), &[1], recover as Recover) {
        ConstructedVerifier::Trusted(_) => panic!("the block is not final yet"),
        ConstructedVerifier::Unconfirmed(v, finality_proof, finalize) => {
            assert_eq!(v.subchain_validators.len(), 4);
            assert_eq!(finality_proof, &[1]);
            assert_eq!(finalize, hash(3));
        }
    }
}

/// The first proof byte is the number of validators, the second the block to be final.
fn epoch_set(first: bool, number: u64, set_proof: &[u8]) -> EpochSet {
    assert_eq!(first, number == 0);
    match set_proof {
        [n] => Ok((list(*n), None)),
        [n, block] => Ok((list(*n), Some(hash(*block)))),
        _ => Err(Error::Block(BlockError::InvalidSeal)),
    }
}

#[test]
fn verifiers_come_out_of_proofs() {
    let combined = combine_proofs(0, &[4], &[]);
    match epoch_verifier(&combined, &epoch_set, recover as Recover) {
        Ok(ConstructedVerifier::Trusted(v)) => {
            assert_eq!(v.subchain_validators.validators, list(4).validators);
            assert_eq!(v.verify_light(&signed(&[1, 2, 3])), Ok(()));
        }
        _ => panic!("the verifier can be trusted"),
    }
    let combined = combine_proofs(7, &[4, 6], &[1, 2, 3]);
    match epoch_verifier(&combined, &epoch_set, recover as Recover) {
        Ok(ConstructedVerifier::Unconfirmed(v, finality_proof, finalize)) => {
            assert_eq!(v.subchain_validators.len(), 4);
            assert_eq!(finality_proof, &[1, 2, 3]);
            assert_eq!(finalize, hash(6));
        }
        _ => panic!("the verifier has to be confirmed"),
    }
}

#[test]
fn no_verifier_without_proof_or_validators() {
    let no_proof = epoch_verifier(&[0xc0], &epoch_set, recover as Recover);
    assert!(matches!(no_proof, Err(Error::Decoder(DecodeError::Rlp(RlpError::IsTooShort)))));
    let combined = combine_proofs(7, &[], &[]);
    let no_validators = epoch_verifier(&combined, &epoch_set, recover as Recover);
    assert!(matches!(no_validators, Err(Error::Block(BlockError::InvalidSeal))));
}
