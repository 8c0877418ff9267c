use tendermint::error::{DecodeError, RlpError};
use tendermint::message::{message_full_rlp, message_info_rlp, same_block, ConsensusMessage, VoteStep};
use tendermint::primitives::{H256, H520};
use tendermint::step::Step;

fn hash(n: u8) -> H256 {
    H256([n; 32])
}

fn signature(n: u8) -> H520 {
    H520([n; 65])
}

/// A list whose content is shorter than 56 bytes.
fn short_list(items: &[&[u8]]) -> Vec<u8> {
    let content = items.concat();
    assert!(content.len() < 56);
    let mut list = vec![0xc0 + content.len() as u8];
    list.extend(content);
    list
}

#[test]
fn voting_steps() {
    assert!(!Step::Propose.is_pre());
    assert!(Step::Prevote.is_pre());
    assert!(Step::Precommit.is_pre());
    assert!(!Step::Commit.is_pre());
}

#[test]
fn step_numbers() {
    assert_eq!(Step::Propose.number(), 0);
    assert_eq!(Step::Prevote.number(), 1);
    assert_eq!(Step::Precommit.number(), 2);
    assert_eq!(Step::Commit.number(), 3);
}

#[test]
fn steps_on_the_wire() {
    assert_eq!(Step::Propose.encode(), vec![0x80]);
    assert_eq!(Step::Prevote.encode(), vec![1]);
    assert_eq!(Step::Precommit.encode(), vec![2]);
    assert_eq!(Step::Commit.encode(), vec![3]);
    for step in [Step::Propose, Step::Prevote, Step::Precommit] {
        assert_eq!(Step::decode(&step.encode()), Ok(step));
    }
}

#[test]
fn the_commit_step_is_not_read() {
    assert_eq!(Step::decode(&Step::Commit.encode()), Err(DecodeError::InvalidStep));
    assert_eq!(Step::decode(&[0x7f]), Err(DecodeError::InvalidStep));
}

#[test]
fn a_step_is_a_small_number() {
    let cases: [(&[u8], Result<Step, DecodeError>); 20] = [
        (&[], Err(DecodeError::Rlp(RlpError::IsTooShort))),
        // Zero is written without bytes, so that a zero byte is no number.
        (&[0], Err(DecodeError::Rlp(RlpError::InvalidIndirection))),
        (&[2], Ok(Step::Precommit)),
        // What follows is not looked at.
        (&[2, 9, 9], Ok(Step::Precommit)),
        (&[3], Err(DecodeError::InvalidStep)),
        (&[0x80], Ok(Step::Propose)),
        (&[0x81], Err(DecodeError::Rlp(RlpError::InconsistentLengthAndData))),
        (&[0x81, 2], Err(DecodeError::Rlp(RlpError::InvalidIndirection))),
        (&[0x81, 0x80], Err(DecodeError::InvalidStep)),
        (&[0x82, 1], Err(DecodeError::Rlp(RlpError::InconsistentLengthAndData))),
        (&[0x82, 1, 0], Err(DecodeError::Rlp(RlpError::IsTooBig))),
        (&[0xb8], Err(DecodeError::Rlp(RlpError::InconsistentLengthAndData))),
        (&[0xb8, 0], Err(DecodeError::Rlp(RlpError::InvalidIndirection))),
        (&[0xb8, 1, 2], Ok(Step::Precommit)),
        (&[0xb8, 1, 0], Err(DecodeError::Rlp(RlpError::InvalidIndirection))),
        (&[0xb8, 2, 1, 1], Err(DecodeError::Rlp(RlpError::IsTooBig))),
        (&[0xb8, 5, 1], Err(DecodeError::Rlp(RlpError::InconsistentLengthAndData))),
        (&[0xb9, 1, 0, 1], Err(DecodeError::Rlp(RlpError::InconsistentLengthAndData))),
        (&[0xc0], Err(DecodeError::Rlp(RlpError::ExpectedToBeData))),
        (&[0xff, 1], Err(DecodeError::Rlp(RlpError::ExpectedToBeData))),
    ];
    for (rlp, step) in cases {
        assert_eq!(Step::decode(rlp), step);
    }
}

#[test]
fn lengths_fit_in_memory() {
    let longest = [0xbf, 0xff, 0xff, 0xff, 0xff, 0xff, 0xff, 0xff, 0xff, 1];
    let error = if usize::BITS == 64 { RlpError::InvalidLength } else { RlpError::IsTooBig };
    assert_eq!(Step::decode(&longest), Err(DecodeError::Rlp(error)));
}

#[test]
fn steps_in_a_list() {
    let mut stream = rlp::RlpStream::new_list(2);
    Step::Propose.rlp_append(&mut stream);
    stream.append_raw(&[], 1);
    Step::Precommit.rlp_append(&mut stream);
    assert!(!stream.is_finished());
    stream.append_raw(&[], 1);
    assert_eq!(stream.out(), vec![0xc2, 0x80, 0x02]);
}

#[test]
fn writing_a_step_counts_no_item() {
    let mut stream = rlp::RlpStream::new_list(1);
    Step::Prevote.rlp_append(&mut stream);
    Step::Precommit.rlp_append(&mut stream);
    assert_eq!(stream.as_raw()[1..], [1, 2]);
    assert!(!stream.is_finished());
    // Nor does it mind where no list is open.
    let mut stream = rlp::RlpStream::new();
    Step::Propose.rlp_append(&mut stream);
    assert_eq!(stream.out(), vec![0x80]);
}

#[test]
fn rounds_are_ordered_by_height_view_and_step() {
    let rounds = [
        VoteStep::new(0, 0, Step::Propose),
        VoteStep::new(1, 0, Step::Commit),
        VoteStep::new(1, 1, Step::Propose),
        VoteStep::new(1, 1, Step::Prevote),
        VoteStep::new(1, 1, Step::Precommit),
        VoteStep::new(1, 1, Step::Commit),
        VoteStep::new(2, 0, Step::Propose),
    ];
    for i in 0..rounds.len() {
        for j in 0..rounds.len() {
            assert_eq!(rounds[i].is_before(&rounds[j]), i < j);
        }
    }
}

#[test]
fn rounds_of_a_height_and_of_a_view() {
    let round = VoteStep::new(7, 3, Step::Prevote);
    assert!(round.is_height(7));
    assert!(!round.is_height(3));
    assert!(round.is_view(7, 3));
    assert!(!round.is_view(7, 4));
    assert!(!round.is_view(8, 3));
}

#[test]
fn same_blocks() {
    assert!(same_block(&None, &None));
    assert!(same_block(&Some(hash(1)), &Some(hash(1))));
    assert!(!same_block(&Some(hash(1)), &Some(hash(2))));
    assert!(!same_block(&Some(hash(1)), &None));
}

#[test]
fn what_a_validator_signs() {
    let info = message_info_rlp(&VoteStep::new(1, 0, Step::Prevote), Some(hash(7)));
    let mut expected = vec![0xe4, 0x01, 0x80, 0x01, 0xa0];
    expected.extend([7u8; 32]);
    assert_eq!(info, expected);
}

#[test]
fn a_vote_for_no_block_is_signed_as_zeros() {
    let info = message_info_rlp(&VoteStep::new(256, 200, Step::Precommit), None);
    let mut expected = vec![0xe7, 0x82, 0x01, 0x00, 0x81, 0xc8, 0x02, 0xa0];
    expected.extend([0u8; 32]);
    assert_eq!(info, expected);
}

#[test]
fn the_message_holds_signature_and_signed_bytes() {
    let info = message_info_rlp(&VoteStep::new(1, 0, Step::Prevote), Some(hash(7)));
    let message = message_full_rlp(&signature(9), &info);
    let mut expected = vec![0xf8, 104, 0xb8, 65];
    expected.extend([9u8; 65]);
    expected.extend(&info);
    assert_eq!(message, expected);
    assert_eq!(
        ConsensusMessage::new(signature(9), 1, 0, Step::Prevote, Some(hash(7))).encode(),
        message
    );
}

#[test]
fn messages_are_read_back() {
    for step in [Step::Propose, Step::Prevote, Step::Precommit] {
        for block_hash in [None, Some(hash(3))] {
            for (height, view) in [(0, 0), (1, 127), (128, 255), (256, 65_536), (usize::MAX, usize::MAX)] {
                let m = ConsensusMessage::new(signature(5), height, view, step, block_hash);
                assert_eq!(ConsensusMessage::decode(&m.encode()), Ok(m));
            }
        }
    }
}

#[test]
fn the_zero_hash_is_no_block() {
    let m = ConsensusMessage::new(signature(5), 1, 0, Step::Prevote, Some(H256::zero()));
    let read = ConsensusMessage::decode(&m.encode()).unwrap();
    assert_eq!(read.block_hash, None);
}

#[test]
fn no_message_is_about_the_commit_step() {
    let m = ConsensusMessage::new(signature(5), 1, 0, Step::Commit, None);
    assert_eq!(ConsensusMessage::decode(&m.encode()), Err(DecodeError::InvalidStep));
}

#[test]
fn bytes_that_are_no_message() {
    for no_list in [&[] as &[u8], &[0x80], &[0xbf]] {
        assert_eq!(ConsensusMessage::decode(no_list), Err(DecodeError::Rlp(RlpError::ExpectedToBeList)));
    }
    assert_eq!(ConsensusMessage::decode(&[0xc0]), Err(DecodeError::Rlp(RlpError::IsTooShort)));
    let m = ConsensusMessage::new(signature(5), 1, 0, Step::Prevote, None).encode();
    assert!(ConsensusMessage::decode(&m[..m.len() - 1]).is_err());
}

#[test]
fn hashes_have_one_length() {
    let mut hash_item = vec![0x80 + 31];
    hash_item.extend([1u8; 31]);
    let info = short_list(&[&[1], &[0x80], &[1], &hash_item]);
    let message = message_full_rlp(&signature(5), &info);
    assert_eq!(
        ConsensusMessage::decode(&message),
        Err(DecodeError::WrongLength { expected: 32, found: 31 })
    );
}

#[test]
fn signatures_have_one_length() {
    let info = message_info_rlp(&VoteStep::new(1, 0, Step::Prevote), None);
    let message = short_list(&[&[0x82, 5, 5], &info]);
    assert_eq!(
        ConsensusMessage::decode(&message),
        Err(DecodeError::WrongLength { expected: 65, found: 2 })
    );
}

#[test]
fn broadcastable_votes() {
    let vote = |step| ConsensusMessage::new(signature(5), 1, 0, step, None);
    assert!(!vote(Step::Propose).is_broadcastable());
    assert!(vote(Step::Prevote).is_broadcastable());
    assert!(vote(Step::Precommit).is_broadcastable());
    assert!(!vote(Step::Commit).is_broadcastable());
}

#[test]
fn votes_that_differ_are_signed_over_different_bytes() {
    let mut signed = vec![];
    for height in [0, 1, 256] {
        for view in [0, 1, 256] {
            for step in [Step::Propose, Step::Prevote, Step::Precommit, Step::Commit] {
                for block in [None, Some(hash(1)), Some(hash(2))] {
                    signed.push(message_info_rlp(&VoteStep::new(height, view, step), block));
                }
            }
        }
    }
    for i in 0..signed.len() {
        for j in 0..i {
            assert_ne!(signed[i], signed[j]);
        }
    }
}
