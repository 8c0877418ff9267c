//! Block headers and their seals.
//!
//! A seal has three fields: the view, the signature of a proposal, and the signatures of those
//! who committed to the block. A proposal has no signatures of the last kind, a committed block
//! none of the first.

use crate::codec::{
    decode_h520, decode_u64, empty_list_rlp, encode_byte_strings, encode_bytes, encode_u64, is_item, is_readable_list,
    items_of, lemma_bytes_read_back, lemma_items_of, lemma_uint_read_back, null_rlp, number_of, read_item, rlp_data,
    rlp_datas, rlp_list, rlp_uint, signature_of, MAX_LENGTH,
};
use crate::error::{DecodeError, RlpError};
use crate::message::{lemma_signature_item, ConsensusMessage, ViewNumber, VoteStep};
use crate::primitives::{copy_bytes, lemma_h520_of, strings_of, Address, BlockHash, H520};
use crate::step::Step;
use vstd::prelude::*;

verus! {

/// The number of fields of a seal.
pub const SEAL_FIELDS: usize = 3;

/// What the engine reads of a block's header.
#[derive(Debug)]
pub struct Header {
    pub number: u64,
    pub parent_hash: BlockHash,
    pub author: Address,
    /// The hash of the header without its seal.
    pub bare_hash: BlockHash,
    /// The hash of the header.
    pub hash: BlockHash,
    pub seal: Vec<Vec<u8>>,
}

/// The bytes of signatures.
pub open spec fn signature_bytes(signatures: Seq<H520>) -> Seq<Seq<u8>> {
    signatures.map_values(|s: H520| s.0@)
}

/// The seal of a proposal.
pub open spec fn proposal_seal(view: ViewNumber, signature: H520) -> Seq<Seq<u8>> {
    seq![rlp_uint(view as nat), rlp_data(signature.0@), seq![0xc0u8]]
}

/// The seal of a committed block.
pub open spec fn commit_seal(view: ViewNumber, signatures: Seq<H520>) -> Seq<Seq<u8>> {
    seq![rlp_uint(view as nat), seq![0x80u8], rlp_list(rlp_datas(signature_bytes(signatures)))]
}

/// The seal is that of a proposal or that of a committed block.
pub open spec fn is_basic_seal(seal: Seq<Seq<u8>>) -> bool {
    (seal[1] == seq![0x80u8]) != (seal[2] == seq![0xc0u8])
}

/// The view that a seal is about.
pub open spec fn seal_view(seal: Seq<Seq<u8>>) -> Result<ViewNumber, DecodeError> {
    match number_of(seal[0]) {
        Ok(n) => Ok(n as usize),
        Err(e) => Err(e),
    }
}

/// The signature of the proposer in a seal.
pub open spec fn seal_proposal_signature(seal: Seq<Seq<u8>>) -> Result<H520, DecodeError> {
    signature_of(seal[1])
}

/// The signatures of those who committed to the block, as far as they are signatures.
pub open spec fn seal_signatures(seal: Seq<Seq<u8>>) -> Seq<Result<H520, DecodeError>> {
    items_of(seal[2]).map_values(|item: Seq<u8>| signature_of(item))
}

impl Header {
    /// The header of the first block of all.
    pub fn is_genesis(&self) -> (r: bool)
        ensures
            r == (self.number == 0),
    {
        self.number == 0
    }
}

/// The view that a header's seal is about.
pub fn consensus_view(header: &Header) -> (r: Result<ViewNumber, DecodeError>)
    requires
        header.seal@.len() > 0,
    ensures
        r == seal_view(strings_of(header.seal@)),
{
    match decode_u64(&header.seal[0]) {
        Ok(n) => Ok(n as usize),
        Err(e) => Err(e),
    }
}

/// The signature of the proposer in a header's seal.
pub fn proposal_signature(header: &Header) -> (r: Result<H520, DecodeError>)
    requires
        header.seal@.len() > 1,
    ensures
        r == seal_proposal_signature(strings_of(header.seal@)),
{
    decode_h520(&header.seal[1])
}

/// The proposal that a header makes, if its seal is signed by a proposer.
pub open spec fn proposal_of(header: Header) -> Result<ConsensusMessage, DecodeError> {
    let seal = strings_of(header.seal@);
    match (seal_proposal_signature(seal), seal_view(seal)) {
        (Err(e), _) => Err(e),
        (_, Err(e)) => Err(e),
        (Ok(signature), Ok(view)) => Ok(
            ConsensusMessage {
                vote_step: VoteStep { height: header.number as usize, view, step: Step::Propose },
                block_hash: Some(header.bare_hash),
                signature,
            },
        ),
    }
}

/// The proposal that a header makes.
pub fn new_proposal(header: &Header) -> (r: Result<ConsensusMessage, DecodeError>)
    requires
        header.seal@.len() > 1,
    ensures
        r == proposal_of(*header),
{
    match proposal_signature(header) {
        Err(e) => Err(e),
        Ok(signature) => match consensus_view(header) {
            Err(e) => Err(e),
            Ok(view) => Ok(
                ConsensusMessage::new(signature, header.number as usize, view, Step::Propose, Some(header.bare_hash)),
            ),
        },
    }
}

/// Makes the seal of a proposal, from which view and signature are read back.
pub fn make_proposal_seal(view: ViewNumber, signature: &H520) -> (r: Vec<Vec<u8>>)
    ensures
        strings_of(r@) == proposal_seal(view, *signature),
        reads_as_proposal(strings_of(r@), view, *signature),
{
    let view_field = encode_u64(view as u64);
    let signature_field = encode_bytes(&signature.0);
    let signatures_field = empty_list_rlp();
    let mut r: Vec<Vec<u8>> = Vec::new();
    r.push(view_field);
    r.push(signature_field);
    r.push(signatures_field);
    proof {
        lemma_h520_of(*signature);
        lemma_signature_item(*signature);
        lemma_uint_read_back(view as nat);
        lemma_bytes_read_back(signature.0@);
    }
    assert(strings_of(r@) =~= proposal_seal(view, *signature));
    r
}

/// View and signature of a proposal are read back from its seal, and nobody has committed to it.
pub open spec fn reads_as_proposal(seal: Seq<Seq<u8>>, view: ViewNumber, signature: H520) -> bool {
    &&& seal_view(seal) == Ok::<_, DecodeError>(view)
    &&& seal_proposal_signature(seal) == Ok::<_, DecodeError>(signature)
    &&& seal_signatures(seal).len() == 0
}

/// View and signatures of a committed block are read back from its seal, the signatures where
/// they fit. Nobody takes it for the seal of a proposal.
pub open spec fn reads_as_commit(seal: Seq<Seq<u8>>, view: ViewNumber, signatures: Seq<H520>) -> bool {
    &&& seal_view(seal) == Ok::<_, DecodeError>(view)
    &&& seal_proposal_signature(seal) is Err
    &&& fits_seal(signatures.len()) ==> seal_signatures(seal) == signatures.map_values(
        |s: H520| Ok::<H520, DecodeError>(s),
    )
}

/// Lists as long as this can be read back out of a seal.
pub open spec fn fits_seal(signatures: nat) -> bool {
    signatures * 67 <= MAX_LENGTH
}

/// A list of as many bytes as its items have.
proof fn lemma_flatten_len(items: Seq<Seq<u8>>, each: nat)
    requires
        forall|i: int| 0 <= i < items.len() ==> (#[trigger] items[i]).len() == each,
    ensures
        items.flatten().len() == items.len() * each,
    decreases items.len(),
{
    if items.len() > 0 {
        lemma_flatten_len(items.drop_first(), each);
        assert(items.len() * each == each + (items.len() - 1) * each) by (nonlinear_arith)
            requires
                items.len() > 0,
        ;
    }
}

/// The signatures of a seal, encoded.
proof fn lemma_signature_items(signatures: Seq<H520>)
    ensures
        rlp_datas(signature_bytes(signatures)).len() == signatures.len(),
        rlp_datas(signature_bytes(signatures)).flatten().len() == signatures.len() * 67,
        fits_seal(signatures.len()) ==> is_readable_list(rlp_datas(signature_bytes(signatures))),
        rlp_list(rlp_datas(signature_bytes(signatures))).len() >= 1 + signatures.len() * 67,
{
    let items = rlp_datas(signature_bytes(signatures));
    assert forall|i: int| 0 <= i < items.len() implies (#[trigger] items[i]).len() == 67 && is_item(items[i]) by {
        lemma_signature_item(signatures[i]);
        assert(items[i] == rlp_data(signatures[i].0@));
    }
    lemma_flatten_len(items, 67);
}

/// Makes the seal of a committed block, from which view and signatures are read back.
pub fn make_commit_seal(view: ViewNumber, signatures: &Vec<H520>) -> (r: Vec<Vec<u8>>)
    ensures
        strings_of(r@) == commit_seal(view, signatures@),
        reads_as_commit(strings_of(r@), view, signatures@),
{
    let view_field = encode_u64(view as u64);
    let proposal_field = null_rlp();
    let mut list: Vec<Vec<u8>> = Vec::new();
    let mut i: usize = 0;
    while i < signatures.len()
        invariant
            i <= signatures@.len(),
            strings_of(list@) == signature_bytes(signatures@.take(i as int)),
        decreases signatures@.len() - i,
    {
        let ghost before = list@;
        let bytes = copy_bytes(&signatures[i].0);
        list.push(bytes);
        assert(strings_of(list@) =~= strings_of(before).push(bytes@));
        i = i + 1;
        assert(signature_bytes(signatures@.take(i as int)) =~= signature_bytes(signatures@.take(i - 1)).push(bytes@));
    }
    assert(signatures@.take(i as int) =~= signatures@);
    let signatures_field = encode_byte_strings(&list);
    let mut r: Vec<Vec<u8>> = Vec::new();
    r.push(view_field);
    r.push(proposal_field);
    r.push(signatures_field);
    assert(strings_of(r@) =~= commit_seal(view, signatures@));
    proof {
        lemma_signature_items(signatures@);
        lemma_uint_read_back(view as nat);
        lemma_bytes_read_back(seq![]);
        if fits_seal(signatures@.len()) {
            let items = rlp_datas(signature_bytes(signatures@));
            lemma_items_of(signatures_field@, items);
            let read = seal_signatures(strings_of(r@));
            let wanted = signatures@.map_values(|s: H520| Ok::<H520, DecodeError>(s));
            assert forall|i: int| 0 <= i < wanted.len() implies read[i] == wanted[i] by {
                lemma_h520_of(signatures@[i]);
                assert(read_item(signatures_field@, i) == Ok::<_, RlpError>(items[i]));
                lemma_bytes_read_back(signatures@[i].0@);
                assert(strings_of(list@)[i] == signature_bytes(signatures@)[i]);
                assert(list@[i]@ == signatures@[i].0@);
            }
            assert(read =~= wanted);
        }
    }
    r
}

/// The seal of a proposal is well formed.
pub proof fn law_proposal_seal_is_basic(view: ViewNumber, signature: H520)
    ensures
        proposal_seal(view, signature).len() == SEAL_FIELDS,
        is_basic_seal(proposal_seal(view, signature)),
{
    lemma_signature_item(signature);
    assert(proposal_seal(view, signature)[1].len() != seq![0x80u8].len());
}

/// The seal of a committed block is well formed, as long as anybody has signed it.
pub proof fn law_commit_seal_is_basic(view: ViewNumber, signatures: Seq<H520>)
    requires
        signatures.len() > 0,
    ensures
        commit_seal(view, signatures).len() == SEAL_FIELDS,
        is_basic_seal(commit_seal(view, signatures)),
{
    lemma_signature_items(signatures);
    assert(commit_seal(view, signatures)[2].len() != seq![0xc0u8].len());
}

} // verus!
