//! What votes, seals and proofs look like in bytes, and how they are read.

use super::counting::rank;
use crate::codec::{
    data_of, hash_of, item_of, items_from, items_of, lemma_list_of_four, lemma_list_of_three, lemma_two_items,
    length_prefix, number_of, read_item, rlp_data, rlp_list, rlp_uint, signature_of, small_number_of,
};
use crate::epoch::{fit_together, proofs_of, proofs_rlp};
use crate::error::{DecodeError, RlpError};
use crate::message::{info_rlp, is_understood, message_of, message_rlp, ConsensusMessage, ViewNumber, VoteStep};
use crate::primitives::{lemma_h256_of, BlockHash, H256, H520};
use crate::seal::{
    commit_seal, proposal_seal, reads_as_commit, reads_as_proposal, seal_proposal_signature, seal_signatures, seal_view,
};
use crate::step::{step_of, Step};
use crate::validators::{ValidatorList, ValidatorSet};
use crate::votes::{double_vote_rlp, DoubleVote};
use vstd::prelude::*;

verus! {

// ---------------------------------------------------------------------------------------------
// Votes
// ---------------------------------------------------------------------------------------------

/// What a validator signs is a list: height, view, number of the step, and the hash of the block, of
/// which all 32 bytes are zero for no block.
pub proof fn law_what_is_signed(round: VoteStep, block_hash: Option<BlockHash>, hash: Seq<u8>)
    requires
        hash.len() == 32,
        match block_hash {
            Some(h) => h.0@ == hash,
            None => forall|i: int| 0 <= i < 32 ==> hash[i] == 0u8,
        },
    ensures
        ({
            let content = rlp_uint(round.height as nat) + rlp_uint(round.view as nat) + rlp_uint(rank(round.step) as nat)
                + rlp_data(hash);
            info_rlp(round, block_hash) == length_prefix(0xc0, content.len()) + content
        }),
{
    let a = rlp_uint(round.height as nat);
    let b = rlp_uint(round.view as nat);
    let c = rlp_uint(rank(round.step) as nat);
    let d = rlp_data(hash);
    lemma_list_of_four(a, b, c, d);
    if block_hash is None {
        let zeros = Seq::new(32, |i: int| 0u8);
        assert(hash =~= zeros);
        let zero = H256(vstd::array::spec_array_fill_for_copy_type::<u8, 32>(0u8));
        assert(zero.0@ =~= zeros);
        lemma_h256_of(zero);
    }
}

/// A message is a list: the signature, and what was signed. The proof of a double vote is a list: the
/// earlier message, and the later one.
pub proof fn law_what_is_sent(m: ConsensusMessage, double: DoubleVote)
    ensures
        ({
            let content = rlp_data(m.signature.0@) + info_rlp(m.vote_step, m.block_hash);
            message_rlp(m) == length_prefix(0xc0, content.len()) + content
        }),
        ({
            let content = message_rlp(double.vote_one) + message_rlp(double.vote_two);
            double_vote_rlp(double) == length_prefix(0xc0, content.len()) + content
        }),
{
    lemma_two_items(rlp_data(m.signature.0@), info_rlp(m.vote_step, m.block_hash));
    lemma_two_items(message_rlp(double.vote_one), message_rlp(double.vote_two));
}

/// A number stands for the step with that place in a view, and for none if it is larger than that of
/// the precommit step.
pub proof fn law_reading_steps(rlp: Seq<u8>)
    ensures
        match small_number_of(rlp) {
            Err(e) => step_of(rlp) == Err::<Step, DecodeError>(e),
            Ok(n) => if n <= 2 {
                step_of(rlp) is Ok && rank(step_of(rlp)->Ok_0) == n
            } else {
                step_of(rlp) == Err::<Step, DecodeError>(DecodeError::InvalidStep)
            },
        },
{
}

/// A message is read if and only if all its parts are: the signature, and of what was signed the
/// height, the view, the step and the hash, which stands for no block if it is zero.
pub proof fn law_reading_messages(rlp: Seq<u8>, m: ConsensusMessage)
    ensures
        message_of(rlp) == Ok::<_, DecodeError>(m) <==> {
            &&& item_of(rlp, 0) matches Ok(signature)
            &&& signature_of(signature) == Ok::<_, DecodeError>(m.signature)
            &&& item_of(rlp, 1) matches Ok(info)
            &&& item_of(info, 0) matches Ok(height)
            &&& number_of(height) matches Ok(h)
            &&& m.vote_step.height == h as usize
            &&& item_of(info, 1) matches Ok(view)
            &&& number_of(view) matches Ok(v)
            &&& m.vote_step.view == v as usize
            &&& item_of(info, 2) matches Ok(step)
            &&& step_of(step) == Ok::<_, DecodeError>(m.vote_step.step)
            &&& item_of(info, 3) matches Ok(hash)
            &&& hash_of(hash) matches Ok(b)
            &&& m.block_hash == if b == H256::spec_zero() {
                None
            } else {
                Some(b)
            }
        },
{
}

/// A message that is understood is read back from its encoding, unless it is about the commit step
/// or for a block whose hash is zero; and in any case what was signed is found in it.
pub proof fn law_messages_are_read_back(m: ConsensusMessage)
    requires
        is_understood(m),
    ensures
        item_of(message_rlp(m), 1) == Ok::<_, DecodeError>(info_rlp(m.vote_step, m.block_hash)),
        rank(m.vote_step.step) < 3 && (m.block_hash matches Some(h) ==> exists|i: int| 0 <= i < 32 && h.0@[i] != 0u8)
            ==> message_of(message_rlp(m)) == Ok::<_, DecodeError>(m),
{
    let zero = H256(vstd::array::spec_array_fill_for_copy_type::<u8, 32>(0u8));
    assert(zero.0@ =~= Seq::new(32, |i: int| 0u8));
    lemma_h256_of(zero);
}

/// What is wrong with an item of a list, read as a value of some kind.
pub open spec fn wrong_with<T>(list: Seq<u8>, index: int, read: spec_fn(Seq<u8>) -> Result<T, DecodeError>) -> Option<
    DecodeError,
> {
    match item_of(list, index) {
        Err(e) => Some(e),
        Ok(item) => match read(item) {
            Err(e) => Some(e),
            Ok(_) => None,
        },
    }
}

/// A message that cannot be read is refused for what is wrong with it first, of these: the signed
/// part, its hash, its height, its view, its step, and the signature.
pub proof fn law_errors_in_messages(rlp: Seq<u8>, e: DecodeError)
    requires
        message_of(rlp) == Err::<ConsensusMessage, DecodeError>(e),
    ensures
        match item_of(rlp, 1) {
            Err(first) => e == first,
            Ok(info) => {
                let hash = wrong_with(info, 3, |item: Seq<u8>| hash_of(item));
                let height = wrong_with(info, 0, |item: Seq<u8>| number_of(item));
                let view = wrong_with(info, 1, |item: Seq<u8>| number_of(item));
                let step = wrong_with(info, 2, |item: Seq<u8>| step_of(item));
                let signature = wrong_with(rlp, 0, |item: Seq<u8>| signature_of(item));
                if hash is Some {
                    hash == Some(e)
                } else if height is Some {
                    height == Some(e)
                } else if view is Some {
                    view == Some(e)
                } else if step is Some {
                    step == Some(e)
                } else {
                    signature == Some(e)
                }
            },
        },
{
}

// ---------------------------------------------------------------------------------------------
// Seals
// ---------------------------------------------------------------------------------------------

/// A seal has three fields. The first is the view. The second is the signature of a proposal, and
/// empty for a committed block. The third is the list of the signatures of a committed block, and
/// empty for a proposal.
pub proof fn law_fields_of_a_seal(view: ViewNumber, signature: H520, signatures: Seq<H520>)
    ensures
        proposal_seal(view, signature).len() == 3,
        proposal_seal(view, signature)[0] == rlp_uint(view as nat),
        proposal_seal(view, signature)[1] == rlp_data(signature.0@),
        proposal_seal(view, signature)[2] == seq![0xc0u8],
        commit_seal(view, signatures).len() == 3,
        commit_seal(view, signatures)[0] == rlp_uint(view as nat),
        commit_seal(view, signatures)[1] == seq![0x80u8],
        commit_seal(view, signatures)[2] == rlp_list(Seq::new(signatures.len(), |i: int| rlp_data(signatures[i].0@))),
{
    let items = crate::codec::rlp_datas(crate::seal::signature_bytes(signatures));
    assert(items =~= Seq::new(signatures.len(), |i: int| rlp_data(signatures[i].0@)));
}

/// The fields of a seal are read as what they are: a view, a signature, and the signatures of a list.
pub proof fn law_reading_seals(seal: Seq<Seq<u8>>)
    ensures
        seal_view(seal) == match number_of(seal[0]) {
            Ok(n) => Ok::<ViewNumber, DecodeError>(n as usize),
            Err(e) => Err::<ViewNumber, DecodeError>(e),
        },
        seal_proposal_signature(seal) == signature_of(seal[1]),
        seal_signatures(seal).len() == items_of(seal[2]).len(),
        forall|i: int|
            0 <= i < items_of(seal[2]).len() ==> #[trigger] seal_signatures(seal)[i] == signature_of(items_of(seal[2])[i]),
{
}

/// The seal of a proposal gives its view and its signature back, and no other signatures.
pub proof fn law_proposal_seals_are_read_back(seal: Seq<Seq<u8>>, view: ViewNumber, signature: H520)
    requires
        reads_as_proposal(seal, view, signature),
    ensures
        seal_view(seal) == Ok::<_, DecodeError>(view),
        seal_proposal_signature(seal) == Ok::<_, DecodeError>(signature),
        seal_signatures(seal).len() == 0,
{
}

/// The seal of a committed block gives its view and, where they fit, its signatures back in their
/// order, and no signature of a proposal.
pub proof fn law_commit_seals_are_read_back(seal: Seq<Seq<u8>>, view: ViewNumber, signatures: Seq<H520>)
    requires
        reads_as_commit(seal, view, signatures),
    ensures
        seal_view(seal) == Ok::<_, DecodeError>(view),
        seal_proposal_signature(seal) is Err,
        signatures.len() * 67 <= 0xffff_ffff ==> {
            &&& seal_signatures(seal).len() == signatures.len()
            &&& forall|i: int|
                0 <= i < signatures.len() ==> #[trigger] seal_signatures(seal)[i] == Ok::<_, DecodeError>(signatures[i])
        },
{
}

/// A list is taken apart from its first item on, up to the first that cannot be read.
pub proof fn law_taking_lists_apart(list: Seq<u8>)
    ensures
        forall|i: int|
            0 <= i < items_of(list).len() ==> read_item(list, i) == Ok::<_, RlpError>(#[trigger] items_of(list)[i]),
        items_of(list).len() == list.len() || read_item(list, items_of(list).len() as int) is Err,
{
    lemma_items_from(list, 0);
}

proof fn lemma_items_from(list: Seq<u8>, index: int)
    requires
        0 <= index <= list.len(),
    ensures
        items_from(list, index).len() <= list.len() - index,
        forall|i: int|
            0 <= i < items_from(list, index).len() ==> read_item(list, index + i) == Ok::<_, RlpError>(
                #[trigger] items_from(list, index)[i],
            ),
        items_from(list, index).len() == list.len() - index || read_item(
            list,
            index + items_from(list, index).len(),
        ) is Err,
    decreases list.len() - index,
{
    if index < list.len() && read_item(list, index) is Ok {
        lemma_items_from(list, index + 1);
        let rest = items_from(list, index + 1);
        assert forall|i: int| 0 <= i < items_from(list, index).len() implies read_item(list, index + i) == Ok::<
            _,
            RlpError,
        >(#[trigger] items_from(list, index)[i]) by {
            if i > 0 {
                assert(items_from(list, index)[i] == rest[i - 1]);
                assert(read_item(list, index + 1 + (i - 1)) == Ok::<_, RlpError>(rest[i - 1]));
            }
        }
    }
}

// ---------------------------------------------------------------------------------------------
// Proofs
// ---------------------------------------------------------------------------------------------

/// The proof of a change of validators is a list: the number of the block that signalled it, the
/// proof of the validators, and the proof that the block is final.
pub proof fn law_what_a_proof_is(signal_number: u64, set_proof: Seq<u8>, finality_proof: Seq<u8>)
    ensures
        ({
            let content = rlp_uint(signal_number as nat) + rlp_data(set_proof) + rlp_data(finality_proof);
            &&& proofs_rlp(signal_number, set_proof, finality_proof) == length_prefix(0xc0, content.len()) + content
            &&& fit_together(signal_number, set_proof, finality_proof) <==> content.len() <= 0xffff_ffff
        }),
{
    lemma_list_of_three(rlp_uint(signal_number as nat), rlp_data(set_proof), rlp_data(finality_proof));
}

/// A proof of a change of validators is read if and only if its three parts are, and otherwise it is
/// refused for what is wrong with the first part that is not.
pub proof fn law_reading_proofs(combined: Seq<u8>)
    ensures
        ({
            let number = wrong_with(combined, 0, |item: Seq<u8>| number_of(item));
            let set = wrong_with(combined, 1, |item: Seq<u8>| data_of(item));
            let finality = wrong_with(combined, 2, |item: Seq<u8>| data_of(item));
            match proofs_of(combined) {
                Ok((n, s, f)) => {
                    &&& number is None && set is None && finality is None
                    &&& number_of(item_of(combined, 0)->Ok_0) == Ok::<_, DecodeError>(n)
                    &&& data_of(item_of(combined, 1)->Ok_0) == Ok::<_, DecodeError>(s)
                    &&& data_of(item_of(combined, 2)->Ok_0) == Ok::<_, DecodeError>(f)
                },
                Err(e) => if number is Some {
                    number == Some(e)
                } else if set is Some {
                    set == Some(e)
                } else {
                    finality == Some(e)
                },
            }
        }),
{
}

/// The validators of a fixed list are the same as of every block.
pub proof fn law_fixed_lists_are_fixed(list: ValidatorList, a: BlockHash, b: BlockHash)
    ensures
        list.members(a) == list.validators@,
        list.members(a) == list.members(b),
{
}

} // verus!
