use tendermint::message::{ConsensusMessage, VoteStep};
use tendermint::primitives::{Address, H256, H520};
use tendermint::step::Step;
use tendermint::validators::{contains_address, threshold, ValidatorList, ValidatorSet};
use tendermint::votes::VoteCollector;

fn address(n: u8) -> Address {
    Address([n; 20])
}

fn hash(n: u8) -> H256 {
    H256([n; 32])
}

fn vote(voter: u8, view: usize, step: Step, block: Option<u8>) -> ConsensusMessage {
    let mut signature = [voter; 65];
    signature[1] = block.unwrap_or(0);
    ConsensusMessage::new(H520(signature), 1, view, step, block.map(hash))
}

fn cast(votes: &mut VoteCollector, voter: u8, view: usize, step: Step, block: Option<u8>) {
    let double = votes.vote(vote(voter, view, step, block), address(voter));
    assert!(double.is_none());
}

#[test]
fn two_thirds_rounded_down() {
    let expected = [(0, 0), (1, 0), (2, 1), (3, 2), (4, 2), (5, 3), (6, 4), (7, 4), (100, 66)];
    for (validators, two_thirds) in expected {
        assert_eq!(threshold(validators), two_thirds);
    }
    assert_eq!(threshold(usize::MAX), (usize::MAX as u128 * 2 / 3) as usize);
}

#[test]
fn validators_propose_in_turn() {
    let list = ValidatorList::new(vec![address(1), address(2), address(3)]);
    let block = hash(0);
    assert_eq!(list.len(), 3);
    assert_eq!(list.count(&block), 3);
    assert_eq!(list.get(&block, 0), address(1));
    assert_eq!(list.get(&block, 1), address(2));
    assert_eq!(list.get(&block, 5), address(3));
    assert!(list.contains(&block, &address(2)));
    assert!(!list.contains(&block, &address(4)));
}

#[test]
fn looking_for_addresses() {
    let addresses = vec![address(1), address(2)];
    assert!(contains_address(&addresses, &address(2)));
    assert!(!contains_address(&addresses, &address(3)));
    assert!(!contains_address(&Vec::new(), &address(1)));
}

#[test]
fn votes_are_counted_by_round_and_by_block() {
    let mut votes = VoteCollector::new();
    cast(&mut votes, 1, 0, Step::Prevote, Some(7));
    cast(&mut votes, 2, 0, Step::Prevote, Some(7));
    cast(&mut votes, 3, 0, Step::Prevote, None);
    cast(&mut votes, 1, 0, Step::Precommit, Some(7));
    cast(&mut votes, 1, 1, Step::Prevote, Some(7));
    assert_eq!(votes.count_round_votes(&VoteStep::new(1, 0, Step::Prevote)), 3);
    assert_eq!(votes.count_round_votes(&VoteStep::new(1, 0, Step::Precommit)), 1);
    assert_eq!(votes.count_round_votes(&VoteStep::new(2, 0, Step::Prevote)), 0);
    assert_eq!(votes.count_aligned_votes(&vote(9, 0, Step::Prevote, Some(7))), 2);
    assert_eq!(votes.count_aligned_votes(&vote(9, 0, Step::Prevote, None)), 1);
    assert_eq!(votes.count_aligned_votes(&vote(9, 0, Step::Prevote, Some(8))), 0);
}

#[test]
fn the_same_vote_twice_is_no_offence() {
    let mut votes = VoteCollector::new();
    cast(&mut votes, 1, 0, Step::Prevote, Some(7));
    cast(&mut votes, 1, 0, Step::Prevote, Some(7));
    assert_eq!(votes.votes().len(), 1);
}

#[test]
fn a_second_vote_counts_nothing_and_is_reported() {
    let mut votes = VoteCollector::new();
    cast(&mut votes, 1, 0, Step::Prevote, Some(7));
    let second = vote(1, 0, Step::Prevote, Some(8));
    let double = votes.vote(second, address(1)).unwrap();
    assert_eq!(double.author, address(1));
    assert_eq!(double.vote_one, vote(1, 0, Step::Prevote, Some(7)));
    assert_eq!(double.vote_two, second);
    assert_eq!(votes.count_round_votes(&VoteStep::new(1, 0, Step::Prevote)), 1);
    assert_eq!(votes.count_aligned_votes(&second), 0);
    assert!(votes.is_old_or_known(&second));
    assert_eq!(votes.get(&second), None);
    // The proof is made of the latest of the earlier votes.
    let third = vote(1, 0, Step::Prevote, Some(9));
    let double = votes.vote(third, address(1)).unwrap();
    assert_eq!(double.vote_one, second);
    assert_eq!(double.vote_two, third);
}

#[test]
fn the_proof_of_a_double_vote_holds_both_votes() {
    let mut votes = VoteCollector::new();
    let one = vote(1, 0, Step::Prevote, Some(7));
    let two = vote(1, 0, Step::Prevote, Some(8));
    votes.vote(one, address(1));
    let double = votes.vote(two, address(1)).unwrap();
    let content = [one.encode(), two.encode()].concat();
    let mut expected = vec![0xf8, content.len() as u8];
    expected.extend(&content);
    assert_eq!(content.len(), 212);
    assert_eq!(double.encode(), expected);
    let proof = rlp::UntrustedRlp::new(&expected);
    assert_eq!(ConsensusMessage::decode(proof.at(0).unwrap().as_raw()), Ok(one));
    assert_eq!(ConsensusMessage::decode(proof.at(1).unwrap().as_raw()), Ok(two));
}

#[test]
fn who_cast_a_vote() {
    let mut votes = VoteCollector::new();
    cast(&mut votes, 1, 0, Step::Precommit, Some(7));
    assert_eq!(votes.get(&vote(1, 0, Step::Precommit, Some(7))), Some(address(1)));
    assert_eq!(votes.get(&vote(2, 0, Step::Precommit, Some(7))), None);
}

#[test]
fn signatures_of_a_round_for_a_block() {
    let mut votes = VoteCollector::new();
    cast(&mut votes, 3, 0, Step::Precommit, Some(7));
    cast(&mut votes, 1, 0, Step::Precommit, Some(7));
    cast(&mut votes, 2, 0, Step::Precommit, Some(8));
    cast(&mut votes, 4, 0, Step::Prevote, Some(7));
    let signatures = votes.round_signatures(&VoteStep::new(1, 0, Step::Precommit), &hash(7));
    assert_eq!(
        signatures,
        vec![
            vote(3, 0, Step::Precommit, Some(7)).signature,
            vote(1, 0, Step::Precommit, Some(7)).signature
        ]
    );
}

#[test]
fn votes_are_kept_in_the_order_of_rounds() {
    let mut votes = VoteCollector::new();
    cast(&mut votes, 1, 1, Step::Prevote, Some(7));
    cast(&mut votes, 1, 0, Step::Precommit, Some(7));
    cast(&mut votes, 2, 0, Step::Prevote, Some(7));
    cast(&mut votes, 1, 0, Step::Prevote, Some(7));
    let order: Vec<(usize, Step, Address)> =
        votes.votes().iter().map(|v| (v.message.vote_step.view, v.message.vote_step.step, v.voter)).collect();
    assert_eq!(
        order,
        vec![
            (0, Step::Prevote, address(2)),
            (0, Step::Prevote, address(1)),
            (0, Step::Precommit, address(1)),
            (1, Step::Prevote, address(1)),
        ]
    );
}

#[test]
fn nothing_is_older_than_the_first_round() {
    let votes = VoteCollector::new();
    let first = ConsensusMessage::new(H520([1; 65]), 0, 0, Step::Propose, None);
    assert!(votes.is_old_or_known(&first));
    assert!(!votes.is_old_or_known(&vote(1, 0, Step::Propose, None)));
}

#[test]
fn rounds_up_to_the_oldest_are_old() {
    let mut votes = VoteCollector::new();
    cast(&mut votes, 1, 0, Step::Prevote, Some(7));
    cast(&mut votes, 1, 1, Step::Prevote, Some(7));
    cast(&mut votes, 2, 2, Step::Prevote, Some(7));
    votes.throw_out_old(&VoteStep::new(1, 1, Step::Prevote));
    assert_eq!(votes.votes().len(), 2);
    assert!(votes.is_old_or_known(&vote(1, 0, Step::Prevote, Some(7))));
    assert!(votes.is_old_or_known(&vote(3, 1, Step::Prevote, Some(7))));
    assert!(!votes.is_old_or_known(&vote(3, 1, Step::Precommit, Some(7))));
    assert!(!votes.is_old_or_known(&vote(3, 2, Step::Prevote, Some(7))));
}

#[test]
fn throwing_out_keeps_the_votes_of_the_round() {
    let round = VoteStep::new(1, 1, Step::Precommit);
    let mut votes = VoteCollector::new();
    cast(&mut votes, 1, 0, Step::Precommit, Some(7));
    cast(&mut votes, 1, 1, Step::Precommit, Some(7));
    cast(&mut votes, 2, 1, Step::Precommit, Some(7));
    let before = votes.round_signatures(&round, &hash(7));
    votes.throw_out_old(&round);
    assert_eq!(votes.round_signatures(&round, &hash(7)), before);
    assert_eq!(before.len(), 2);
}

#[test]
fn votes_to_bring_peers_up_to_speed() {
    let mut votes = VoteCollector::new();
    cast(&mut votes, 1, 0, Step::Propose, Some(7));
    cast(&mut votes, 1, 0, Step::Precommit, Some(7));
    cast(&mut votes, 1, 0, Step::Prevote, Some(7));
    cast(&mut votes, 1, 1, Step::Prevote, Some(7));
    assert_eq!(
        votes.get_up_to(&VoteStep::new(1, 0, Step::Precommit)),
        vec![
            vote(1, 0, Step::Prevote, Some(7)).encode(),
            vote(1, 0, Step::Precommit, Some(7)).encode()
        ]
    );
}

#[test]
fn any_two_quorums_overlap() {
    for validators in 0..200usize {
        let quorum = threshold(validators) + 1;
        // Both quorums are as small as they can be, and share as few validators as they can.
        if quorum <= validators {
            let shared = 2 * quorum - validators;
            assert!(3 * shared > validators);
        }
    }
}

#[test]
fn at_most_one_block_has_a_quorum() {
    for for_one in 0..=4u8 {
        let mut votes = VoteCollector::new();
        for voter in 1..=4u8 {
            cast(&mut votes, voter, 0, Step::Prevote, Some(if voter <= for_one { 7 } else { 8 }));
        }
        let decided = [7, 8]
            .iter()
            .filter(|block| votes.count_aligned_votes(&vote(9, 0, Step::Prevote, Some(**block))) > threshold(4))
            .count();
        assert_eq!(decided, if for_one == 2 { 0 } else { 1 });
    }
}
