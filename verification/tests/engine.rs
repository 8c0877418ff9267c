use tendermint::engine::Tendermint;
use tendermint::error::{DecodeError, EngineError, KeyError, Malformation, RlpError};
use tendermint::message::{message_info_rlp, ConsensusMessage, VoteStep};
use tendermint::primitives::{Address, H256, H520};
use tendermint::seal::{make_commit_seal, Header};
use tendermint::engine::sealing::Seal;
use tendermint::state::Action;
use tendermint::step::Step;
use tendermint::validators::ValidatorList;

fn address(n: u8) -> Address {
    Address([n; 20])
}

fn hash(n: u8) -> H256 {
    H256([n; 32])
}

/// A signature by `signer`, which depends on every byte of what is signed.
fn sign(signer: u8, bytes: &[u8]) -> H520 {
    let mut signature = [signer; 65];
    let mut sum: u64 = 0xcbf2_9ce4_8422_2325;
    for b in bytes {
        sum = (sum ^ *b as u64).wrapping_mul(0x0100_0000_01b3);
    }
    signature[1..9].copy_from_slice(&sum.to_be_bytes());
    H520(signature)
}

fn recover(signature: &H520, bytes: &[u8]) -> Result<Address, KeyError> {
    let signer = signature.0[0];
    if *signature == sign(signer, bytes) {
        Ok(address(signer))
    } else {
        Err(KeyError)
    }
}

fn vote(voter: u8, height: usize, view: usize, step: Step, block: Option<u8>) -> ConsensusMessage {
    let round = VoteStep::new(height, view, step);
    let info = message_info_rlp(&round, block.map(hash));
    ConsensusMessage::new(sign(voter, &info), height, view, step, block.map(hash))
}

/// An engine with the validators 1 to `validators`.
fn engine(validators: u8) -> Tendermint<ValidatorList> {
    Tendermint::new(ValidatorList::new((1..=validators).map(address).collect()))
}

/// What the actions are, in short.
fn names(actions: &[Action]) -> Vec<String> {
    actions
        .iter()
        .map(|action| match action {
            Action::Step(step) => format!("step {:?}", step),
            Action::UpdateSealing => format!("update sealing"),
            Action::Sign(_) => format!("sign"),
            Action::Broadcast(rlp) => match ConsensusMessage::decode(rlp) {
                Ok(m) => format!(
                    "send {:?} of {} in view {} for {:?}",
                    m.vote_step.step,
                    m.signature.0[0],
                    m.vote_step.view,
                    m.block_hash.map(|h| h.0[0])
                ),
                Err(_) => format!("send garbage"),
            },
            Action::SubmitSeal { block_hash, .. } => format!("seal {}", block_hash.0[0]),
            Action::ReportMalicious { validator, set_block, block, .. } => {
                format!("malicious {} {} {}", validator.0[0], set_block, block)
            }
            Action::ReportBenign { validator, set_block, block } => {
                format!("benign {} {} {}", validator.0[0], set_block, block)
            }
        })
        .collect()
}

/// Has the block proposed by the node, whose turn it must be.
fn propose(engine: &mut Tendermint<ValidatorList>, block: u8) {
    let proposer = engine.view_proposer(&hash(9), engine.height(), engine.view_number());
    engine.set_signer(proposer);
    let header = Header { bare_hash: hash(block), ..header(engine.height() as u64, vec![]) };
    let to_sign = engine.proposal_to_sign(&header).unwrap();
    assert!(matches!(engine.generate_seal(&header, Some(sign(proposer.0[0], &to_sign))), Seal::Proposal(_)));
}

/// Moves on to a view, in which enough prevotes lock the block, and has the lock precommitted to.
fn lock(engine: &mut Tendermint<ValidatorList>, view: usize, block: u8) {
    engine.increment_view(view);
    for voter in [1, 2, 3] {
        hear(engine, &vote(voter, 1, view, Step::Prevote, Some(block)));
    }
    engine.to_step(Step::Precommit);
    assert_eq!(engine.last_lock(), view);
}

fn hear(engine: &mut Tendermint<ValidatorList>, m: &ConsensusMessage) -> Vec<String> {
    let (actions, result) = engine.handle_message(&m.encode(), &recover);
    assert_eq!(result, Ok(()));
    names(&actions)
}

/// Signs what the engine wants signed, until it wants nothing more.
fn answer(engine: &mut Tendermint<ValidatorList>, signer: u8, actions: Vec<Action>) -> Vec<String> {
    let mut all = names(&actions);
    let mut actions = actions;
    loop {
        let signed = match actions.last() {
            Some(Action::Sign(bytes)) => sign(signer, bytes),
            _ => return all,
        };
        actions = engine.signed(Some(signed));
        all.extend(names(&actions));
    }
}

fn header(number: u64, seal: Vec<Vec<u8>>) -> Header {
    Header { number, parent_hash: hash(9), author: address(2), bare_hash: hash(7), hash: hash(8), seal }
}

#[test]
fn a_new_engine() {
    let e = engine(4);
    assert_eq!(e.name(), "Tendermint");
    assert_eq!((e.height(), e.view_number(), e.current_step()), (1, 0, Step::Propose));
    assert_eq!(e.seals_internally(), Some(false));
    assert_eq!(e.proposal(), None);
    assert_eq!(e.proposal_parent(), H256::zero());
    assert_eq!(e.last_proposed(), H256::zero());
    assert!(e.signer().is_none() && e.lock_change().is_none() && !e.is_waiting());
    assert_eq!(e.last_lock(), 0);
    assert_eq!(e.validators().len(), 4);
}

#[test]
fn a_signer_begins_the_view_anew() {
    let mut e = engine(4);
    let actions = e.set_signer(address(2));
    assert_eq!(names(&actions), ["step Propose", "update sealing"]);
    assert_eq!(e.seals_internally(), Some(true));
    assert_eq!(e.signer(), Some(address(2)));
}

#[test]
fn the_client_gives_the_height() {
    let mut e = engine(4);
    e.register_client(Some(41));
    assert_eq!(e.height(), 42);
    e.register_client(None);
    assert_eq!(e.height(), 42);
}

#[test]
fn proposers_take_turns() {
    let e = engine(4);
    assert_eq!(e.view_proposer(&hash(0), 1, 0), address(2));
    assert_eq!(e.view_proposer(&hash(0), 1, 1), address(3));
    assert_eq!(e.view_proposer(&hash(0), 1, 2), address(4));
    assert_eq!(e.view_proposer(&hash(0), 1, 3), address(1));
    assert_eq!(e.view_proposer(&hash(0), 2, 3), address(2));
    assert_eq!(e.check_view_proposer(&hash(0), 1, 1, &address(3)), Ok(()));
    assert_eq!(
        e.check_view_proposer(&hash(0), 1, 1, &address(2)),
        Err(EngineError::NotProposer { expected: address(3), found: address(2) })
    );
}

#[test]
fn the_signer_proposes_when_it_is_its_turn() {
    let mut e = engine(4);
    assert!(!e.is_signer_proposer(&hash(0)));
    e.set_signer(address(3));
    assert!(!e.is_signer_proposer(&hash(0)));
    e.increment_view(1);
    assert!(e.is_signer_proposer(&hash(0)));
}

#[test]
fn more_than_two_thirds_decide() {
    let e = engine(4);
    assert_eq!(e.check_above_threshold(3), Ok(()));
    assert_eq!(
        e.check_above_threshold(2),
        Err(EngineError::BadSealFieldSize { min: Some(2), max: None, found: 2 })
    );
    assert_eq!(engine(0).check_above_threshold(1), Ok(()));
}

#[test]
fn authorities_are_validators() {
    let e = engine(4);
    assert!(e.is_authority(&address(4)));
    assert!(!e.is_authority(&address(5)));
}

#[test]
fn views_wrap_around() {
    let mut e = engine(4);
    e.increment_view(usize::MAX);
    assert_eq!(e.view_number(), usize::MAX);
    e.increment_view(1);
    assert_eq!(e.view_number(), 0);
}

#[test]
fn the_next_height_begins_without_lock_and_proposal() {
    let mut e = engine(4);
    lock(&mut e, 3, 7);
    propose(&mut e, 7);
    e.increment_view(2);
    e.to_next_height(8);
    assert_eq!((e.height(), e.view_number(), e.last_lock()), (9, 0, 0));
    assert!(e.lock_change().is_none() && e.proposal().is_none());
}

#[test]
fn locks_end_with_newer_ones() {
    let mut e = engine(4);
    lock(&mut e, 1, 7);
    e.increment_view(2);
    assert_eq!((e.view_number(), e.last_lock()), (3, 1));
    assert!(!e.should_unlock(1));
    assert!(e.should_unlock(2));
    assert!(!e.should_unlock(3));
}

#[test]
fn from_proposal_to_commit() {
    let mut e = engine(4);
    e.set_signer(address(2));
    let to_sign = e.proposal_to_sign(&header(1, vec![])).unwrap();
    assert_eq!(to_sign, message_info_rlp(&VoteStep::new(1, 0, Step::Propose), Some(hash(7))));
    match e.generate_seal(&header(1, vec![]), Some(sign(2, &to_sign))) {
        Seal::Proposal(seal) => assert_eq!(seal.len(), 3),
        Seal::Nothing => panic!("the proposer proposes"),
    }
    assert_eq!(e.proposal(), Some(hash(7)));
    assert_eq!(e.last_proposed(), hash(7));
    assert_eq!(e.proposal_parent(), hash(9));
    assert!(e.proposal_to_sign(&header(1, vec![])).is_none());

    let actions = e.step();
    assert_eq!(
        answer(&mut e, 2, actions),
        ["step Prevote", "sign", "send Prevote of 2 in view 0 for Some(7)"]
    );
    assert_eq!(
        hear(&mut e, &vote(1, 1, 0, Step::Prevote, Some(7))),
        ["send Prevote of 1 in view 0 for Some(7)"]
    );
    let third = vote(3, 1, 0, Step::Prevote, Some(7));
    let (actions, result) = e.handle_message(&third.encode(), &recover);
    assert_eq!(result, Ok(()));
    assert_eq!(e.lock_change(), Some(third));
    assert_eq!(
        answer(&mut e, 2, actions),
        [
            "send Prevote of 3 in view 0 for Some(7)",
            "step Precommit",
            "sign",
            "send Precommit of 2 in view 0 for Some(7)"
        ]
    );
    assert_eq!(
        hear(&mut e, &vote(1, 1, 0, Step::Precommit, Some(7))),
        ["send Precommit of 1 in view 0 for Some(7)"]
    );
    let (actions, result) = e.handle_message(&vote(4, 1, 0, Step::Precommit, Some(7)).encode(), &recover);
    assert_eq!(result, Ok(()));
    assert_eq!(
        names(&actions),
        ["send Precommit of 4 in view 0 for Some(7)", "seal 7", "step Commit"]
    );
    let signatures: Vec<H520> =
        [2, 1, 4].iter().map(|voter| vote(*voter, 1, 0, Step::Precommit, Some(7)).signature).collect();
    let seal = match &actions[1] {
        Action::SubmitSeal { seal, .. } => seal.clone(),
        _ => panic!("the seal is submitted"),
    };
    assert_eq!(seal, make_commit_seal(0, &signatures));
    assert_eq!((e.height(), e.view_number(), e.current_step()), (2, 0, Step::Commit));
    assert!(e.lock_change().is_none() && e.proposal().is_none());

    // The votes of the earlier rounds are gone, and the sealed block verifies with the proposer
    // and with those who know no votes.
    assert!(e.votes().votes().iter().all(|v| v.message.vote_step.step == Step::Precommit));
    let sealed = header(1, seal);
    assert_eq!(e.verify_block_basic(&sealed), Ok(()));
    assert_eq!(e.verify_block_external(&sealed, &recover), Ok(()));
    let nobody = |_: &H520, _: &[u8]| Err(KeyError);
    assert_eq!(e.verify_block_external(&sealed, &nobody), Ok(()));
    assert_eq!(engine(4).verify_block_external(&sealed, &recover), Ok(()));

    let actions = e.step();
    assert_eq!(names(&actions), ["step Propose", "update sealing"]);
}

#[test]
fn others_commit_without_sealing() {
    let mut e = engine(4);
    e.to_step(Step::Precommit);
    for voter in [1, 2] {
        hear(&mut e, &vote(voter, 1, 0, Step::Precommit, Some(7)));
    }
    assert_eq!(
        hear(&mut e, &vote(3, 1, 0, Step::Precommit, Some(7))),
        ["send Precommit of 3 in view 0 for Some(7)", "step Commit"]
    );
    assert_eq!((e.height(), e.current_step()), (2, Step::Commit));
    assert_eq!(e.votes().votes().len(), 3);
}

#[test]
fn own_votes_are_sent_after_what_follows_from_them() {
    // The only validator decides alone, at once.
    let mut e = engine(1);
    e.set_signer(address(1));
    let to_sign = e.proposal_to_sign(&header(1, vec![])).unwrap();
    e.generate_seal(&header(1, vec![]), Some(sign(1, &to_sign)));
    let actions = e.step();
    assert_eq!(
        answer(&mut e, 1, actions),
        [
            "step Prevote",
            "sign",
            "step Precommit",
            "sign",
            "seal 7",
            "step Commit",
            "send Precommit of 1 in view 0 for Some(7)",
            "send Prevote of 1 in view 0 for Some(7)"
        ]
    );
    assert_eq!(e.height(), 2);
    assert!(!e.is_waiting());
}

#[test]
fn a_refused_signature_ends_the_vote() {
    let mut e = engine(4);
    e.set_signer(address(2));
    e.step();
    assert!(e.is_waiting());
    let actions = e.signed(None);
    assert!(actions.is_empty());
    assert!(!e.is_waiting());
    assert!(e.votes().votes().is_empty());
}

#[test]
fn without_signer_nobody_votes() {
    let mut e = engine(4);
    let actions = e.step();
    assert_eq!(names(&actions), ["benign 2 1 1", "step Prevote"]);
    assert!(!e.is_waiting());
}

#[test]
fn the_bytes_to_sign_are_those_of_the_round() {
    let mut e = engine(4);
    propose(&mut e, 6);
    let actions = e.step();
    match &actions[1] {
        Action::Sign(bytes) => assert_eq!(
            *bytes,
            message_info_rlp(&VoteStep::new(1, 0, Step::Prevote), Some(hash(6)))
        ),
        _ => panic!("the vote has to be signed"),
    }
}

#[test]
fn a_timeout_without_proposal_reports_the_proposer() {
    let mut e = engine(4);
    e.register_client(Some(5));
    e.increment_view(1);
    let actions = e.step();
    assert_eq!(names(&actions), ["benign 4 6 6", "step Prevote"]);
    assert_eq!(e.current_step(), Step::Prevote);
}

#[test]
fn a_timeout_with_proposal_reports_nobody() {
    let mut e = engine(4);
    propose(&mut e, 7);
    let actions = e.step();
    assert_eq!(names(&actions), ["step Prevote", "sign"]);
}

#[test]
fn a_timeout_without_enough_votes_repeats_the_step() {
    let mut e = engine(4);
    e.to_step(Step::Prevote);
    hear(&mut e, &vote(1, 1, 0, Step::Prevote, Some(7)));
    hear(&mut e, &vote(2, 1, 0, Step::Prevote, None));
    let actions = e.step();
    assert_eq!(
        names(&actions),
        [
            "send Prevote of 1 in view 0 for Some(7)",
            "send Prevote of 2 in view 0 for None",
            "step Prevote"
        ]
    );
    e.to_step(Step::Precommit);
    let actions = e.step();
    assert_eq!(actions.len(), 3);
    assert_eq!(e.current_step(), Step::Precommit);
    assert_eq!(names(&e.broadcast_old_messages()).len(), 2);
}

#[test]
fn a_timeout_with_enough_votes_ends_the_step() {
    let mut e = engine(4);
    e.to_step(Step::Prevote);
    hear(&mut e, &vote(1, 1, 0, Step::Prevote, Some(7)));
    hear(&mut e, &vote(2, 1, 0, Step::Prevote, None));
    hear(&mut e, &vote(3, 1, 0, Step::Prevote, Some(8)));
    assert!(e.has_enough_any_votes());
    assert_eq!(names(&e.step()), ["step Precommit"]);
    hear(&mut e, &vote(1, 1, 0, Step::Precommit, Some(7)));
    hear(&mut e, &vote(2, 1, 0, Step::Precommit, None));
    hear(&mut e, &vote(3, 1, 0, Step::Precommit, Some(8)));
    assert_eq!(names(&e.step()), ["step Propose", "update sealing"]);
    assert_eq!((e.height(), e.view_number()), (1, 1));
}

#[test]
fn enough_precommits_for_no_block_begin_the_next_view() {
    let mut e = engine(4);
    e.to_step(Step::Precommit);
    hear(&mut e, &vote(1, 1, 0, Step::Precommit, None));
    hear(&mut e, &vote(2, 1, 0, Step::Precommit, None));
    assert_eq!(
        hear(&mut e, &vote(3, 1, 0, Step::Precommit, None)),
        ["send Precommit of 3 in view 0 for None", "step Propose", "update sealing"]
    );
    assert_eq!((e.height(), e.view_number(), e.current_step()), (1, 1, Step::Propose));
}

#[test]
fn enough_prevotes_for_no_block_lead_to_the_precommit_step_without_lock() {
    let mut e = engine(4);
    e.to_step(Step::Prevote);
    for voter in [1, 2, 3] {
        hear(&mut e, &vote(voter, 1, 0, Step::Prevote, None));
    }
    assert_eq!(e.current_step(), Step::Precommit);
    assert!(e.lock_change().is_none());
}

#[test]
fn the_others_take_along_to_a_later_view() {
    for step in [Step::Prevote, Step::Precommit] {
        let mut e = engine(4);
        e.to_step(step);
        hear(&mut e, &vote(1, 1, 5, Step::Prevote, Some(7)));
        hear(&mut e, &vote(2, 1, 5, Step::Prevote, None));
        assert!(!e.has_enough_future_step_votes(&VoteStep::new(1, 5, Step::Prevote)));
        assert_eq!(
            hear(&mut e, &vote(3, 1, 5, Step::Prevote, Some(8))),
            [format!("send Prevote of 3 in view 5 for Some(8)"), format!("step {:?}", step)]
        );
        assert_eq!((e.height(), e.view_number(), e.current_step()), (1, 5, step));
        assert!(!e.has_enough_future_step_votes(&VoteStep::new(1, 5, Step::Prevote)));
    }
}

#[test]
fn votes_of_other_heights_end_no_step() {
    let mut e = engine(4);
    e.to_step(Step::Prevote);
    for voter in [1, 2, 3] {
        hear(&mut e, &vote(voter, 2, 0, Step::Prevote, Some(7)));
    }
    assert_eq!((e.height(), e.view_number(), e.current_step()), (1, 0, Step::Prevote));
    // They lock nevertheless.
    assert_eq!(e.lock_change(), Some(vote(3, 2, 0, Step::Prevote, Some(7))));
    let m = vote(1, 2, 0, Step::Prevote, None);
    assert!(!e.is_height(&m) && !e.is_view(&m));
}

#[test]
fn votes_end_no_step_outside_of_the_voting_steps() {
    for step in [Step::Propose, Step::Commit] {
        let mut e = engine(4);
        e.to_step(step);
        for voter in [1, 2, 3] {
            hear(&mut e, &vote(voter, 1, 0, Step::Precommit, Some(7)));
        }
        assert_eq!((e.height(), e.view_number(), e.current_step()), (1, 0, step));
    }
}

#[test]
fn a_locked_node_prevotes_its_lock() {
    let mut e = engine(4);
    lock(&mut e, 1, 7);
    e.increment_view(1);
    propose(&mut e, 6);
    let actions = e.to_step(Step::Prevote);
    assert_eq!(
        answer(&mut e, 4, actions),
        ["step Prevote", "sign", "send Prevote of 4 in view 2 for Some(7)"]
    );
}

#[test]
fn an_unlocked_node_prevotes_the_proposal() {
    let mut e = engine(4);
    for voter in [1, 2, 3] {
        hear(&mut e, &vote(voter, 1, 1, Step::Prevote, Some(7)));
    }
    e.increment_view(2);
    propose(&mut e, 6);
    let actions = e.to_step(Step::Prevote);
    assert_eq!(
        answer(&mut e, 4, actions),
        ["step Prevote", "sign", "send Prevote of 4 in view 2 for Some(6)"]
    );
}

#[test]
fn only_a_lock_of_the_view_is_precommitted_to() {
    for (locked, precommitted, last_lock) in [(1, "None", 0), (2, "Some(7)", 2)] {
        let mut e = engine(4);
        e.set_signer(address(4));
        for voter in [1, 2, 3] {
            hear(&mut e, &vote(voter, 1, locked, Step::Prevote, Some(7)));
        }
        assert_eq!(e.lock_change(), Some(vote(3, 1, locked, Step::Prevote, Some(7))));
        e.increment_view(2);
        let actions = e.to_step(Step::Precommit);
        assert_eq!(
            answer(&mut e, 4, actions),
            [
                format!("step Precommit"),
                format!("sign"),
                format!("send Precommit of 4 in view 2 for {}", precommitted)
            ]
        );
        assert_eq!(e.last_lock(), last_lock);
    }
}

#[test]
fn an_older_quorum_changes_no_lock() {
    let mut e = engine(4);
    for (view, block) in [(3, 6), (1, 7)] {
        for voter in [1, 2, 3] {
            hear(&mut e, &vote(voter, 1, view, Step::Prevote, Some(block)));
        }
        assert_eq!(e.lock_change(), Some(vote(3, 1, 3, Step::Prevote, Some(6))));
    }
}

#[test]
fn a_known_message_is_ignored() {
    let mut e = engine(4);
    let m = vote(1, 1, 0, Step::Prevote, Some(7));
    assert_eq!(hear(&mut e, &m).len(), 1);
    assert_eq!(hear(&mut e, &m).len(), 0);
    assert_eq!(e.votes().votes().len(), 1);
}

#[test]
fn a_double_vote_is_passed_on_and_reported() {
    let mut e = engine(4);
    let one = vote(1, 1, 0, Step::Prevote, Some(7));
    let two = vote(1, 1, 0, Step::Prevote, Some(8));
    hear(&mut e, &one);
    let (actions, result) = e.handle_message(&two.encode(), &recover);
    assert_eq!(result, Err(EngineError::DoubleVote(address(1))));
    assert_eq!(names(&actions), ["send Prevote of 1 in view 0 for Some(8)", "malicious 1 1 1"]);
    match &actions[1] {
        Action::ReportMalicious { proof_rlp, .. } => {
            let content = [one.encode(), two.encode()].concat();
            assert_eq!(proof_rlp[..2], [0xf8, content.len() as u8]);
            assert_eq!(proof_rlp[2..], content);
        }
        _ => panic!("the proof is handed over"),
    }
    assert_eq!(hear(&mut e, &two).len(), 0);
}

#[test]
fn prevotes_that_come_late_commit() {
    let mut e = engine(4);
    e.to_step(Step::Precommit);
    for voter in [1, 2] {
        hear(&mut e, &vote(voter, 1, 0, Step::Prevote, Some(7)));
    }
    assert_eq!(
        hear(&mut e, &vote(3, 1, 0, Step::Prevote, Some(7))),
        ["send Prevote of 3 in view 0 for Some(7)", "step Commit"]
    );
    assert_eq!((e.height(), e.current_step()), (2, Step::Commit));
}

#[test]
fn the_last_height_of_all() {
    let mut e = engine(4);
    let known = vote(1, usize::MAX, 0, Step::Prevote, Some(7));
    let news = vote(2, usize::MAX, 0, Step::Prevote, Some(7));
    hear(&mut e, &known);
    e.register_client(Some(usize::MAX as u64 - 1));
    assert_eq!(e.height(), usize::MAX);
    let (actions, result) = e.try_handle_message(&known.encode(), &recover).unwrap();
    assert!(actions.is_empty());
    assert_eq!(result, Ok(()));
    let (_, result) = e.handle_message(&[0xc0], &recover);
    assert!(result.is_err());
    assert!(e.try_handle_message(&news.encode(), &recover).is_none());
    assert_eq!(e.votes().votes().len(), 1);
    e.register_client(Some(0));
    let (actions, result) = e.try_handle_message(&news.encode(), &recover).unwrap();
    assert_eq!(actions.len(), 1);
    assert_eq!(result, Ok(()));
}

#[test]
fn a_height_has_one_proposal() {
    let mut e = engine(4);
    e.set_signer(address(2));
    let to_sign = e.proposal_to_sign(&header(1, vec![])).unwrap();
    e.generate_seal(&header(1, vec![]), Some(sign(2, &to_sign)));
    let other = Header { bare_hash: hash(6), ..header(1, vec![]) };
    // Four views later it is the turn of this node again.
    for view in 0..4 {
        for voter in [1, 3, 4] {
            hear(&mut e, &vote(voter, 1, view, Step::Propose, None));
        }
        let actions = e.step();
        answer(&mut e, 2, actions);
        let actions = e.to_step(Step::Precommit);
        answer(&mut e, 2, actions);
        for voter in [1, 3, 4] {
            hear(&mut e, &vote(voter, 1, view, Step::Precommit, None));
        }
        assert_eq!((e.height(), e.view_number()), (1, view + 1));
        // A client that is registered changes the height, not the proposal.
        e.register_client(Some(6));
        assert!(e.proposal_to_sign(&other).is_none());
        assert_eq!(e.proposal(), Some(hash(7)));
        e.register_client(Some(0));
        assert!(e.proposal_to_sign(&other).is_none());
        assert!(matches!(e.generate_seal(&other, Some(H520([2; 65]))), Seal::Nothing));
        assert_eq!(e.proposal(), Some(hash(7)));
        assert_eq!(e.last_proposed(), hash(7));
        assert_eq!(e.proposal_parent(), hash(9));
    }
    assert!(e.is_signer_proposer(&hash(9)));
}

#[test]
fn proposers_go_by_the_sum_of_height_and_view() {
    let e = engine(5);
    for height in 0..7 {
        for view in 0..7 {
            assert_eq!(
                e.view_proposer(&hash(0), height, view + 1),
                e.view_proposer(&hash(0), height + 1, view)
            );
        }
    }
}

#[test]
fn strangers_are_not_heard() {
    let mut e = engine(4);
    let (actions, result) = e.handle_message(&vote(5, 1, 0, Step::Prevote, Some(7)).encode(), &recover);
    assert_eq!(result, Err(EngineError::NotAuthorized(address(5))));
    assert!(actions.is_empty());
    assert!(e.votes().votes().is_empty());
}

#[test]
fn a_signature_over_something_else_is_refused() {
    let mut e = engine(4);
    let mut m = vote(1, 1, 0, Step::Prevote, Some(7));
    m.block_hash = Some(hash(8));
    let (actions, result) = e.handle_message(&m.encode(), &recover);
    assert_eq!(result, Err(EngineError::MalformedMessage(Malformation::Signature(KeyError))));
    assert!(actions.is_empty());
    assert!(e.votes().votes().is_empty());
}

#[test]
fn bytes_that_are_no_message_are_refused() {
    let mut e = engine(4);
    let (actions, result) = e.handle_message(&[0xc0], &recover);
    assert_eq!(
        result,
        Err(EngineError::MalformedMessage(Malformation::Encoding(DecodeError::Rlp(RlpError::IsTooShort))))
    );
    assert!(actions.is_empty());
    let commit = vote(1, 1, 0, Step::Commit, None);
    let (_, result) = e.handle_message(&commit.encode(), &recover);
    assert_eq!(result, Err(EngineError::MalformedMessage(Malformation::Encoding(DecodeError::InvalidStep))));
}

#[test]
fn delivering_a_message_with_its_sender() {
    let mut e = engine(4);
    let m = vote(1, 1, 0, Step::Prevote, Some(7));
    let (actions, result) = e.deliver(&[1, 2, 3], &m, Ok(address(3)));
    assert_eq!(result, Ok(()));
    match &actions[0] {
        Action::Broadcast(rlp) => assert_eq!(*rlp, vec![1, 2, 3]),
        _ => panic!("the message is passed on as it came"),
    }
    assert_eq!(e.votes().get(&m), Some(address(3)));
}

#[test]
fn aligned_votes_decide() {
    let mut e = engine(4);
    let m = vote(1, 1, 0, Step::Prevote, Some(7));
    hear(&mut e, &m);
    hear(&mut e, &vote(2, 1, 0, Step::Prevote, Some(7)));
    assert!(!e.has_enough_aligned_votes(&m));
    hear(&mut e, &vote(3, 1, 0, Step::Prevote, Some(7)));
    assert!(e.has_enough_aligned_votes(&m));
    assert!(!e.has_enough_aligned_votes(&vote(1, 1, 0, Step::Prevote, Some(8))));
}

#[test]
fn no_event_leads_back() {
    let mut e = engine(4);
    e.set_signer(address(4));
    let mut seen = (e.height(), e.view_number());
    for round in 0..30u8 {
        let actions = if round % 3 == 0 {
            e.step()
        } else {
            let step = if round % 2 == 0 { Step::Prevote } else { Step::Precommit };
            e.handle_message(&vote(1 + round % 3, 1, (round / 6) as usize, step, None).encode(), &recover).0
        };
        answer(&mut e, 4, actions);
        assert!(e.height() > seen.0 || e.height() == seen.0 && e.view_number() >= seen.1);
        seen = (e.height(), e.view_number());
    }
}

#[test]
fn the_engine_asks_for_a_signature_last() {
    let mut e = engine(1);
    propose(&mut e, 7);
    let mut actions = e.step();
    while e.is_waiting() {
        let signed = match actions.pop() {
            Some(Action::Sign(bytes)) => sign(1, &bytes),
            _ => panic!("the engine waits for a signature"),
        };
        assert!(actions.iter().all(|action| !matches!(action, Action::Sign(_))));
        actions = e.signed(Some(signed));
    }
    assert!(actions.iter().all(|action| !matches!(action, Action::Sign(_))));
}
