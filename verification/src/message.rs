//! Votes on the wire: what a validator signs, and the message that carries the signature.

use crate::codec::{
    append_item, be_bytes, decode_h256, decode_h520, decode_item, decode_u64, encode_bytes, encode_pair, encode_u64,
    finish_list, hash_of, is_item, is_readable_list, item_of, lemma_be_value, lemma_bytes_read_back, lemma_data_told_apart,
    lemma_list_item, lemma_list_of_four, lemma_lists_told_apart, lemma_two_items, lemma_uint_read_back, lemma_uint_told_apart,
    new_list, number_of, read_item, rlp_data, rlp_list, rlp_uint, signature_of, stream_buffer, MAX_LENGTH,
};
use crate::error::{DecodeError, RlpError};
use crate::primitives::{lemma_h256_of, lemma_h520_of, BlockHash, H256, H520};
use crate::step::{step_of, Step};
use vstd::prelude::*;

verus! {

/// The height of a block in the chain.
pub type Height = usize;

/// The number of an attempt to agree on the block of a height.
pub type ViewNumber = usize;

/// A step of a view of a height: the round that a vote belongs to.
#[derive(Debug, PartialEq, Eq, Clone, Copy, Hash, Structural)]
pub struct VoteStep {
    pub height: Height,
    pub view: ViewNumber,
    pub step: Step,
}

impl VoteStep {
    /// The first round of all.
    pub open spec fn spec_first() -> VoteStep {
        VoteStep { height: 0, view: 0, step: Step::Propose }
    }

    /// Rounds follow each other by height, then by view, then by step.
    pub open spec fn spec_before(self, other: VoteStep) -> bool {
        ||| self.height < other.height
        ||| self.height == other.height && self.view < other.view
        ||| self.height == other.height && self.view == other.view && self.step.spec_number() < other.step.spec_number()
    }

    pub fn new(height: Height, view: ViewNumber, step: Step) -> (r: VoteStep)
        ensures
            r == (VoteStep { height, view, step }),
    {
        VoteStep { height, view, step }
    }

    /// Whether this round is earlier than `other`.
    pub fn is_before(&self, other: &VoteStep) -> (r: bool)
        ensures
            r == self.spec_before(*other),
    {
        if self.height != other.height {
            self.height < other.height
        } else if self.view != other.view {
            self.view < other.view
        } else {
            self.step.number() < other.step.number()
        }
    }

    /// Whether this round is about the given height.
    pub fn is_height(&self, height: Height) -> (r: bool)
        ensures
            r == (self.height == height),
    {
        self.height == height
    }

    /// Whether this round is about the given view of the given height.
    pub fn is_view(&self, height: Height, view: ViewNumber) -> (r: bool)
        ensures
            r == (self.height == height && self.view == view),
    {
        self.height == height && self.view == view
    }
}

/// A signed vote: for a block, or for none, in a round.
#[derive(Debug, Clone, Copy)]
pub struct ConsensusMessage {
    pub vote_step: VoteStep,
    pub block_hash: Option<BlockHash>,
    pub signature: H520,
}

/// The bytes that stand for a block on the wire: those of its hash, and zeros for no block.
pub open spec fn block_field(block_hash: Option<BlockHash>) -> H256 {
    match block_hash {
        Some(h) => h,
        None => H256::spec_zero(),
    }
}

/// The items of what a validator signs.
pub open spec fn info_items(vote_step: VoteStep, block_hash: Option<BlockHash>) -> Seq<Seq<u8>> {
    seq![
        rlp_uint(vote_step.height as nat),
        rlp_uint(vote_step.view as nat),
        rlp_uint(vote_step.step.spec_number() as nat),
        rlp_data(block_field(block_hash).0@),
    ]
}

/// What a validator signs to vote for `block_hash` in the round `vote_step`.
pub open spec fn info_rlp(vote_step: VoteStep, block_hash: Option<BlockHash>) -> Seq<u8> {
    rlp_list(info_items(vote_step, block_hash))
}

/// The message that carries the signature over `info`.
pub open spec fn full_rlp(signature: H520, info: Seq<u8>) -> Seq<u8> {
    rlp_list(seq![rlp_data(signature.0@), info])
}

/// The encoding of a message.
pub open spec fn message_rlp(m: ConsensusMessage) -> Seq<u8> {
    full_rlp(m.signature, info_rlp(m.vote_step, m.block_hash))
}

/// The number at an index of a list.
pub open spec fn number_at(rlp: Seq<u8>, index: int) -> Result<u64, DecodeError> {
    match item_of(rlp, index) {
        Ok(item) => number_of(item),
        Err(e) => Err(e),
    }
}

/// The hash at an index of a list.
pub open spec fn hash_at(rlp: Seq<u8>, index: int) -> Result<H256, DecodeError> {
    match item_of(rlp, index) {
        Ok(item) => hash_of(item),
        Err(e) => Err(e),
    }
}

/// The step at an index of a list.
pub open spec fn step_at(rlp: Seq<u8>, index: int) -> Result<Step, DecodeError> {
    match item_of(rlp, index) {
        Ok(item) => step_of(item),
        Err(e) => Err(e),
    }
}

/// The signature at an index of a list.
pub open spec fn signature_at(rlp: Seq<u8>, index: int) -> Result<H520, DecodeError> {
    match item_of(rlp, index) {
        Ok(item) => signature_of(item),
        Err(e) => Err(e),
    }
}

/// The round and the block that `info` is about.
pub open spec fn info_of(info: Seq<u8>) -> Result<(VoteStep, Option<BlockHash>), DecodeError> {
    match (hash_at(info, 3), number_at(info, 0), number_at(info, 1), step_at(info, 2)) {
        (Err(e), _, _, _) => Err(e),
        (_, Err(e), _, _) => Err(e),
        (_, _, Err(e), _) => Err(e),
        (_, _, _, Err(e)) => Err(e),
        (Ok(hash), Ok(height), Ok(view), Ok(step)) => Ok(
            (
                VoteStep { height: height as usize, view: view as usize, step },
                if hash == H256::spec_zero() {
                    None
                } else {
                    Some(hash)
                },
            ),
        ),
    }
}

/// The message that `rlp` encodes.
pub open spec fn message_of(rlp: Seq<u8>) -> Result<ConsensusMessage, DecodeError> {
    match item_of(rlp, 1) {
        Err(e) => Err(e),
        Ok(info) => match (info_of(info), signature_at(rlp, 0)) {
            (Err(e), _) => Err(e),
            (_, Err(e)) => Err(e),
            (Ok((vote_step, block_hash)), Ok(signature)) => Ok(ConsensusMessage { vote_step, block_hash, signature }),
        },
    }
}

/// A vote that the wire can carry: rounds end before the commit step, and the zero hash is no
/// block's.
pub open spec fn is_sendable(vote_step: VoteStep, block_hash: Option<BlockHash>) -> bool {
    vote_step.step != Step::Commit && block_hash != Some(H256::spec_zero())
}

/// Whoever gets the encoding of the message finds in it what was signed, and the message itself
/// if the wire can carry it.
pub open spec fn is_understood(m: ConsensusMessage) -> bool {
    &&& item_of(message_rlp(m), 1) == Ok::<_, DecodeError>(info_rlp(m.vote_step, m.block_hash))
    &&& is_sendable(m.vote_step, m.block_hash) ==> message_of(message_rlp(m)) == Ok::<_, DecodeError>(m)
}

/// Numbers are items of a list.
pub proof fn lemma_uint_item(n: nat)
    requires
        n <= u64::MAX,
    ensures
        is_item(rlp_uint(n)),
        rlp_uint(n).len() <= 9,
{
    lemma_be_value(n);
}

/// What a validator signs can be taken apart again, and is itself an item of a list.
pub proof fn lemma_info_items(vote_step: VoteStep, block_hash: Option<BlockHash>)
    ensures
        is_readable_list(info_items(vote_step, block_hash)),
        is_item(info_rlp(vote_step, block_hash)),
        info_rlp(vote_step, block_hash).len() <= 200,
{
    let items = info_items(vote_step, block_hash);
    lemma_uint_item(vote_step.height as nat);
    lemma_uint_item(vote_step.view as nat);
    lemma_uint_item(vote_step.step.spec_number() as nat);
    items.lemma_flatten_length_le_mul(33);
    items.lemma_flatten_and_flatten_alt_are_equivalent();
    assert forall|i: int| 0 <= i < items.len() implies is_item(#[trigger] items[i]) by {
        if i == 3 {
            assert(items[3] == rlp_data(block_field(block_hash).0@));
        }
    }
    lemma_list_item(items);
}

/// What the three numbers and the hash of a vote are written as.
spec fn contents_of(parts: (nat, nat, nat, Seq<u8>)) -> Seq<u8> {
    rlp_uint(parts.0) + (rlp_uint(parts.1) + (rlp_uint(parts.2) + (rlp_data(parts.3) + seq![])))
}

proof fn lemma_info_contents(vote_step: VoteStep, block_hash: Option<BlockHash>)
    ensures
        info_items(vote_step, block_hash).flatten() == contents_of(
            (
                vote_step.height as nat,
                vote_step.view as nat,
                vote_step.step.spec_number() as nat,
                block_field(block_hash).0@,
            ),
        ),
{
    let a = rlp_uint(vote_step.height as nat);
    let b = rlp_uint(vote_step.view as nat);
    let c = rlp_uint(vote_step.step.spec_number() as nat);
    let d = rlp_data(block_field(block_hash).0@);
    lemma_list_of_four(a, b, c, d);
    assert(a + b + c + d =~= a + (b + (c + (d + seq![]))));
}

proof fn lemma_contents_told_apart(a: (nat, nat, nat, Seq<u8>), b: (nat, nat, nat, Seq<u8>))
    requires
        contents_of(a) == contents_of(b),
        a.0 <= u64::MAX && a.1 <= u64::MAX && a.2 <= u64::MAX && a.3.len() == 32,
        b.0 <= u64::MAX && b.1 <= u64::MAX && b.2 <= u64::MAX && b.3.len() == 32,
    ensures
        a == b,
{
    let x = rlp_data(a.3) + seq![];
    let y = rlp_data(b.3) + seq![];
    lemma_uint_told_apart(a.0, rlp_uint(a.1) + (rlp_uint(a.2) + x), b.0, rlp_uint(b.1) + (rlp_uint(b.2) + y));
    lemma_uint_told_apart(a.1, rlp_uint(a.2) + x, b.1, rlp_uint(b.2) + y);
    lemma_uint_told_apart(a.2, x, b.2, y);
    lemma_data_told_apart(a.3, seq![], b.3, seq![]);
}

/// What a validator signs tells the vote: votes that differ are signed over different bytes.
pub proof fn law_signed_bytes_tell_the_vote(
    a: VoteStep,
    a_block: Option<BlockHash>,
    b: VoteStep,
    b_block: Option<BlockHash>,
)
    requires
        info_rlp(a, a_block) == info_rlp(b, b_block),
        a_block != Some(H256::spec_zero()),
        b_block != Some(H256::spec_zero()),
    ensures
        a == b,
        a_block == b_block,
{
    lemma_info_items(a, a_block);
    lemma_info_items(b, b_block);
    lemma_lists_told_apart(info_items(a, a_block), info_items(b, b_block));
    lemma_info_contents(a, a_block);
    lemma_info_contents(b, b_block);
    lemma_contents_told_apart(
        (a.height as nat, a.view as nat, a.step.spec_number() as nat, block_field(a_block).0@),
        (b.height as nat, b.view as nat, b.step.spec_number() as nat, block_field(b_block).0@),
    );
    lemma_h256_of(block_field(a_block));
    lemma_h256_of(block_field(b_block));
}

/// What a validator signs to vote for `block_hash` in the round `vote_step`. Of a vote that the
/// wire can carry, round and block are read back.
pub fn message_info_rlp(vote_step: &VoteStep, block_hash: Option<BlockHash>) -> (r: Vec<u8>)
    ensures
        r@ == info_rlp(*vote_step, block_hash),
        is_sendable(*vote_step, block_hash) ==> info_of(r@) == Ok::<_, DecodeError>((*vote_step, block_hash)),
{
    let hash = match block_hash {
        Some(h) => h,
        None => H256::zero(),
    };
    let height_item = encode_u64(vote_step.height as u64);
    let view_item = encode_u64(vote_step.view as u64);
    let hash_item = encode_bytes(&hash.0);
    let mut s = new_list(4);
    append_item(&mut s, &height_item);
    append_item(&mut s, &view_item);
    vote_step.step.rlp_append(&mut s);
    let ghost written = stream_buffer(s);
    // The step has been written; it still has to be counted.
    append_item(&mut s, &[]);
    assert(stream_buffer(s) =~= written);
    append_item(&mut s, &hash_item);
    let ghost items = info_items(*vote_step, block_hash);
    proof {
        lemma_list_of_four(items[0], items[1], items[2], items[3]);
        lemma_info_items(*vote_step, block_hash);
        lemma_h256_of(hash);
        lemma_uint_read_back(vote_step.height as nat);
        lemma_uint_read_back(vote_step.view as nat);
        lemma_bytes_read_back(hash.0@);
    }
    let r = finish_list(s);
    proof {
        assert(read_item(r@, 0) == Ok::<_, RlpError>(items[0]));
        assert(read_item(r@, 1) == Ok::<_, RlpError>(items[1]));
        assert(read_item(r@, 2) == Ok::<_, RlpError>(items[2]));
        assert(read_item(r@, 3) == Ok::<_, RlpError>(items[3]));
    }
    r
}

/// The message that carries the signature over `vote_info`. Signature and signed bytes are read
/// back where `vote_info` is an item of a list that the list has room for.
pub fn message_full_rlp(signature: &H520, vote_info: &[u8]) -> (r: Vec<u8>)
    ensures
        r@ == full_rlp(*signature, vote_info@),
        is_item(vote_info@) && vote_info@.len() + 67 <= MAX_LENGTH ==> {
            &&& item_of(r@, 1) == Ok::<_, DecodeError>(vote_info@)
            &&& signature_at(r@, 0) == Ok::<_, DecodeError>(*signature)
        },
{
    proof {
        lemma_h520_of(*signature);
        lemma_signature_item(*signature);
        lemma_bytes_read_back(signature.0@);
    }
    encode_pair(&encode_bytes(&signature.0), vote_info)
}

/// The encoding of a signature is an item of a list.
pub proof fn lemma_signature_item(signature: H520)
    ensures
        is_item(rlp_data(signature.0@)),
        rlp_data(signature.0@).len() == 67,
{
    reveal_with_fuel(be_bytes, 3);
    assert(be_bytes(65) =~= seq![65u8]);
}

/// A message is itself an item of a list.
pub proof fn lemma_message_item(m: ConsensusMessage)
    ensures
        is_item(message_rlp(m)),
        message_rlp(m).len() <= 300,
{
    lemma_info_items(m.vote_step, m.block_hash);
    lemma_signature_item(m.signature);
    lemma_pair_item(rlp_data(m.signature.0@), info_rlp(m.vote_step, m.block_hash));
}

/// A list of two items is itself an item.
proof fn lemma_pair_item(a: Seq<u8>, b: Seq<u8>)
    requires
        a.len() + b.len() <= MAX_LENGTH,
    ensures
        is_item(rlp_list(seq![a, b])),
        rlp_list(seq![a, b]).len() <= a.len() + b.len() + 5,
{
    lemma_two_items(a, b);
    lemma_list_item(seq![a, b]);
}

impl PartialEq for ConsensusMessage {
    fn eq(&self, other: &Self) -> (r: bool) {
        self.vote_step == other.vote_step && same_block(&self.block_hash, &other.block_hash) && self.signature
            == other.signature
    }
}

impl vstd::std_specs::cmp::PartialEqSpecImpl for ConsensusMessage {
    open spec fn obeys_eq_spec() -> bool {
        true
    }

    open spec fn eq_spec(&self, other: &Self) -> bool {
        *self == *other
    }
}

/// Whether two votes are for the same block, or both for none.
pub fn same_block(a: &Option<BlockHash>, b: &Option<BlockHash>) -> (r: bool)
    ensures
        r == (*a == *b),
{
    match (a, b) {
        (Some(x), Some(y)) => *x == *y,
        (None, None) => true,
        _ => false,
    }
}

impl ConsensusMessage {
    pub fn new(signature: H520, height: Height, view: ViewNumber, step: Step, block_hash: Option<BlockHash>) -> (r:
        ConsensusMessage)
        ensures
            r == (ConsensusMessage { vote_step: VoteStep { height, view, step }, block_hash, signature }),
    {
        ConsensusMessage { vote_step: VoteStep::new(height, view, step), block_hash, signature }
    }

    /// Whether peers are told of the vote again when a round does not come to an end.
    pub open spec fn spec_is_broadcastable(self) -> bool {
        self.vote_step.step.spec_is_pre()
    }

    pub fn is_broadcastable(&self) -> (r: bool)
        ensures
            r == self.spec_is_broadcastable(),
    {
        self.vote_step.step.is_pre()
    }

    /// The encoding of the message, which is understood.
    pub fn encode(&self) -> (r: Vec<u8>)
        ensures
            r@ == message_rlp(*self),
            is_understood(*self),
    {
        let info = message_info_rlp(&self.vote_step, self.block_hash);
        proof {
            lemma_info_items(self.vote_step, self.block_hash);
        }
        message_full_rlp(&self.signature, &info)
    }

    /// Reads a message.
    pub fn decode(rlp: &[u8]) -> (r: Result<ConsensusMessage, DecodeError>)
        ensures
            r == message_of(rlp@),
    {
        let info = match decode_item(rlp, 1) {
            Ok(item) => item,
            Err(e) => return Err(e),
        };
        let hash = match decode_hash_at(info, 3) {
            Ok(hash) => hash,
            Err(e) => return Err(e),
        };
        let height: u64 = match decode_number_at(info, 0) {
            Ok(n) => n,
            Err(e) => return Err(e),
        };
        let view: u64 = match decode_number_at(info, 1) {
            Ok(n) => n,
            Err(e) => return Err(e),
        };
        let step = match decode_item(info, 2) {
            Ok(item) => match Step::decode(item) {
                Ok(step) => step,
                Err(e) => return Err(e),
            },
            Err(e) => return Err(e),
        };
        let signature = match decode_item(rlp, 0) {
            Ok(item) => match decode_h520(item) {
                Ok(signature) => signature,
                Err(e) => return Err(e),
            },
            Err(e) => return Err(e),
        };
        let block_hash = if hash.is_zero() {
            None
        } else {
            Some(hash)
        };
        Ok(ConsensusMessage::new(signature, height as usize, view as usize, step, block_hash))
    }
}

/// Reads the number at an index of a list.
fn decode_number_at(rlp: &[u8], index: usize) -> (r: Result<u64, DecodeError>)
    requires
        index < usize::MAX,
    ensures
        r == number_at(rlp@, index as int),
{
    match decode_item(rlp, index) {
        Ok(item) => decode_u64(item),
        Err(e) => Err(e),
    }
}

/// Reads the hash at an index of a list.
fn decode_hash_at(rlp: &[u8], index: usize) -> (r: Result<H256, DecodeError>)
    requires
        index < usize::MAX,
    ensures
        r == hash_at(rlp@, index as int),
{
    match decode_item(rlp, index) {
        Ok(item) => decode_h256(item),
        Err(e) => Err(e),
    }
}

} // verus!
