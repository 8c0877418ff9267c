//! Changes of the validators, and the proofs of them.

use crate::codec::{
    append_item, data_of, decode_data, decode_h520, decode_item, decode_u64, encode_bytes, encode_u64, finish_list,
    is_item, is_readable_list, item_of, items_of, lemma_data_told_apart, lemma_list_of_three, lemma_lists_told_apart,
    lemma_uint_read_back, lemma_uint_told_apart, new_list, read_item, rlp_data, rlp_list, rlp_uint, signature_of,
    split_list, MAX_LENGTH,
};
use crate::engine::too_few_signatures;
use crate::error::{BlockError, DecodeError, EngineError, Error, KeyError, RlpError};
use crate::message::{lemma_uint_item, number_at};
use crate::primitives::{strings_of, Address, BlockHash, H520};
use crate::seal::{seal_signatures, Header};
use crate::validators::{contains_address, is_quorum, threshold, ValidatorList, ValidatorSet};
use vstd::prelude::*;

verus! {

/// The proof of a change of validators: the number of the block that signalled it, the proof of
/// the new validators, and the proof that the block is final.
pub open spec fn proofs_rlp(signal_number: u64, set_proof: Seq<u8>, finality_proof: Seq<u8>) -> Seq<u8> {
    rlp_list(seq![rlp_uint(signal_number as nat), rlp_data(set_proof), rlp_data(finality_proof)])
}

/// The content of the item at an index of a list.
pub open spec fn data_at(rlp: Seq<u8>, index: int) -> Result<Seq<u8>, DecodeError> {
    match item_of(rlp, index) {
        Ok(item) => data_of(item),
        Err(e) => Err(e),
    }
}

/// The three parts of the proof of a change of validators.
pub open spec fn proofs_of(combined: Seq<u8>) -> Result<(u64, Seq<u8>, Seq<u8>), DecodeError> {
    match (number_at(combined, 0), data_at(combined, 1), data_at(combined, 2)) {
        (Err(e), _, _) => Err(e),
        (_, Err(e), _) => Err(e),
        (_, _, Err(e)) => Err(e),
        (Ok(signal_number), Ok(set_proof), Ok(finality_proof)) => Ok((signal_number, set_proof, finality_proof)),
    }
}

/// The parts of a proof, as byte strings.
pub open spec fn parts_of(r: Result<(u64, &[u8], &[u8]), DecodeError>) -> Result<(u64, Seq<u8>, Seq<u8>), DecodeError> {
    match r {
        Ok((signal_number, set_proof, finality_proof)) => Ok((signal_number, set_proof@, finality_proof@)),
        Err(e) => Err(e),
    }
}

/// The length prefix of the list can hold the length of its contents.
pub open spec fn fit_together(signal_number: u64, set_proof: Seq<u8>, finality_proof: Seq<u8>) -> bool {
    rlp_uint(signal_number as nat).len() + rlp_data(set_proof).len() + rlp_data(finality_proof).len() <= MAX_LENGTH
}

/// Puts the proof of a change of validators together. Where they fit, its parts are read back.
pub fn combine_proofs(signal_number: u64, set_proof: &[u8], finality_proof: &[u8]) -> (r: Vec<u8>)
    ensures
        r@ == proofs_rlp(signal_number, set_proof@, finality_proof@),
        fit_together(signal_number, set_proof@, finality_proof@) ==> proofs_of(r@) == Ok::<_, DecodeError>(
            (signal_number, set_proof@, finality_proof@),
        ),
{
    let number_item = encode_u64(signal_number);
    let set_item = encode_bytes(set_proof);
    let finality_item = encode_bytes(finality_proof);
    let mut stream = new_list(3);
    append_item(&mut stream, &number_item);
    append_item(&mut stream, &set_item);
    append_item(&mut stream, &finality_item);
    let ghost items = seq![number_item@, set_item@, finality_item@];
    proof {
        lemma_list_of_three(items[0], items[1], items[2]);
    }
    let r = finish_list(stream);
    proof {
        lemma_uint_item(signal_number as nat);
        lemma_uint_read_back(signal_number as nat);
        if fit_together(signal_number, set_proof@, finality_proof@) {
            assert(is_item(rlp_data(set_proof@)));
            assert(is_item(rlp_data(finality_proof@)));
            assert(is_readable_list(items));
            assert(read_item(r@, 0) == Ok::<_, RlpError>(items[0]));
            assert(read_item(r@, 1) == Ok::<_, RlpError>(items[1]));
            assert(read_item(r@, 2) == Ok::<_, RlpError>(items[2]));
        }
    }
    r
}

/// Different parts make different proofs.
pub proof fn law_combined_proofs_differ(
    a_number: u64,
    a_set: Seq<u8>,
    a_finality: Seq<u8>,
    b_number: u64,
    b_set: Seq<u8>,
    b_finality: Seq<u8>,
)
    requires
        fit_together(a_number, a_set, a_finality),
        fit_together(b_number, b_set, b_finality),
        proofs_rlp(a_number, a_set, a_finality) == proofs_rlp(b_number, b_set, b_finality),
    ensures
        a_number == b_number,
        a_set == b_set,
        a_finality == b_finality,
{
    let x = seq![rlp_uint(a_number as nat), rlp_data(a_set), rlp_data(a_finality)];
    let y = seq![rlp_uint(b_number as nat), rlp_data(b_set), rlp_data(b_finality)];
    lemma_list_of_three(x[0], x[1], x[2]);
    lemma_list_of_three(y[0], y[1], y[2]);
    lemma_lists_told_apart(x, y);
    assert(x.flatten() =~= x[0] + (x[1] + x[2]));
    assert(y.flatten() =~= y[0] + (y[1] + y[2]));
    lemma_uint_told_apart(a_number as nat, x[1] + x[2], b_number as nat, y[1] + y[2]);
    lemma_data_told_apart(a_set, x[2], b_set, y[2]);
    assert(x[2] + seq![] =~= y[2] + seq![]);
    lemma_data_told_apart(a_finality, seq![], b_finality, seq![]);
}

/// Takes the proof of a change of validators apart.
pub fn destructure_proofs(combined: &[u8]) -> (r: Result<(u64, &[u8], &[u8]), DecodeError>)
    ensures
        parts_of(r) == proofs_of(combined@),
        combined@.len() == 0 || combined@[0] < 0xc0 ==> r == Err::<(u64, &[u8], &[u8]), DecodeError>(
            DecodeError::Rlp(RlpError::ExpectedToBeList),
        ),
{
    let signal_number: u64 = match decode_item(combined, 0) {
        Ok(item) => match decode_u64(item) {
            Ok(n) => n,
            Err(e) => return Err(e),
        },
        Err(e) => return Err(e),
    };
    let set_proof = match decode_item(combined, 1) {
        Ok(item) => match decode_data(item) {
            Ok(data) => data,
            Err(e) => return Err(e),
        },
        Err(e) => return Err(e),
    };
    let finality_proof = match decode_item(combined, 2) {
        Ok(item) => match decode_data(item) {
            Ok(data) => data,
            Err(e) => return Err(e),
        },
        Err(e) => return Err(e),
    };
    Ok((signal_number, set_proof, finality_proof))
}

/// The verdict on the signatures of a header from the index `i` on, where `origins` signed and
/// `seen` have been found already: each must be by a validator, and the validators among them
/// must decide. There is none where it needs an origin that is missing.
pub open spec fn light_verdict(
    members: Seq<Address>,
    signatures: Seq<Result<H520, DecodeError>>,
    origins: Seq<Result<Address, KeyError>>,
    i: int,
    seen: Seq<Address>,
) -> Option<Result<(), Error>>
    decreases signatures.len() - i,
{
    if i < 0 || i >= signatures.len() {
        if is_quorum(seen.len(), members.len()) {
            Some(Ok(()))
        } else {
            Some(Err(Error::Engine(too_few_signatures(members.len(), seen.len() as usize))))
        }
    } else {
        match signatures[i] {
            Err(e) => Some(Err(Error::Decoder(e))),
            Ok(_) => if i >= origins.len() {
                None
            } else {
                match origins[i] {
                    Err(e) => Some(Err(Error::Key(e))),
                    Ok(a) => if !members.contains(a) {
                        Some(Err(Error::Engine(EngineError::NotAuthorized(a))))
                    } else if seen.contains(a) {
                        light_verdict(members, signatures, origins, i + 1, seen)
                    } else {
                        light_verdict(members, signatures, origins, i + 1, seen.push(a))
                    },
                }
            },
        }
    }
}

/// `recover` found `origin` behind a signature over `message`.
pub open spec fn is_light_origin<F: Fn(&H520, &BlockHash) -> Result<Address, KeyError>>(
    recover: &F,
    signature: Result<H520, DecodeError>,
    message: BlockHash,
    origin: Result<Address, KeyError>,
) -> bool {
    signature matches Ok(signature) && call_ensures(recover, (&signature, &message), origin)
}

/// `recover` found `origins` behind the first signatures over `message`.
pub open spec fn are_light_origins<F: Fn(&H520, &BlockHash) -> Result<Address, KeyError>>(
    recover: &F,
    signatures: Seq<Result<H520, DecodeError>>,
    message: BlockHash,
    origins: Seq<Result<Address, KeyError>>,
) -> bool {
    &&& origins.len() <= signatures.len()
    &&& forall|i: int|
        0 <= i < origins.len() ==> is_light_origin(recover, signatures[i], message, #[trigger] origins[i])
}

/// Checks headers of an epoch, of which only the validators are known.
#[derive(Debug)]
pub struct EpochVerifier<F> {
    pub subchain_validators: ValidatorList,
    /// Finds out who signed a hash.
    pub recover: F,
}

impl<F: Fn(&H520, &BlockHash) -> Result<Address, KeyError>> EpochVerifier<F> {
    /// `r` is a verdict on a header, given what `recover` finds.
    pub open spec fn is_verdict(&self, header: Header, r: Result<(), Error>) -> bool {
        if header.seal@.len() <= 2 {
            r == Err::<(), Error>(Error::Block(BlockError::InvalidSeal))
        } else {
            exists|origins: Seq<Result<Address, KeyError>>|
                {
                    &&& #[trigger] are_light_origins(
                        &self.recover,
                        seal_signatures(strings_of(header.seal@)),
                        header.bare_hash,
                        origins,
                    )
                    &&& light_verdict(
                        self.subchain_validators.validators@,
                        seal_signatures(strings_of(header.seal@)),
                        origins,
                        0,
                        seq![],
                    ) == Some(r)
                }
        }
    }

    /// Counts the origin of one more signature: it must be a validator.
    pub fn admit_origin(
        &self,
        parent_hash: &BlockHash,
        address: Address,
        addresses: &mut Vec<Address>,
    ) -> (r: Result<(), Error>)
        ensures
            r == if !self.subchain_validators.validators@.contains(address) {
                Err::<(), Error>(Error::Engine(EngineError::NotAuthorized(address)))
            } else {
                Ok::<(), Error>(())
            },
            final(addresses)@ == if r is Ok && !old(addresses)@.contains(address) {
                old(addresses)@.push(address)
            } else {
                old(addresses)@
            },
    {
        if !self.subchain_validators.contains(parent_hash, &address) {
            return Err(Error::Engine(EngineError::NotAuthorized(address)));
        }
        if !contains_address(addresses, &address) {
            addresses.push(address);
        }
        Ok(())
    }

    /// Checks that enough validators have signed a header.
    pub fn verify_light(&self, header: &Header) -> (r: Result<(), Error>)
        requires
            forall|signature: &H520, message: &BlockHash| call_requires(self.recover, (signature, message)),
        ensures
            self.is_verdict(*header, r),
    {
        if header.seal.len() <= 2 {
            return Err(Error::Block(BlockError::InvalidSeal));
        }
        let message = header.bare_hash;
        let fields = split_list(&header.seal[2]);
        let mut addresses: Vec<Address> = Vec::new();
        let ghost signatures = seal_signatures(strings_of(header.seal@));
        let ghost members = self.subchain_validators.validators@;
        let ghost mut found: Seq<Result<Address, KeyError>> = seq![];
        let mut i: usize = 0;
        assert(fields@.len() == strings_of(fields@).len());
        while i < fields.len()
            invariant
                i <= fields@.len(),
                fields@.len() == signatures.len(),
                header.seal@.len() > 2,
                strings_of(fields@) == items_of(strings_of(header.seal@)[2]),
                signatures == seal_signatures(strings_of(header.seal@)),
                members == self.subchain_validators.validators@,
                message == header.bare_hash,
                forall|signature: &H520, message: &BlockHash| call_requires(self.recover, (signature, message)),
                found.len() == i,
                are_light_origins(&self.recover, signatures, message, found),
                forall|more: Seq<Result<Address, KeyError>>|
                    found =~= more.take(i as int) && more.len() >= i ==> light_verdict(
                        members,
                        signatures,
                        more,
                        0,
                        seq![],
                    ) == #[trigger] light_verdict(members, signatures, more, i as int, addresses@),
            decreases fields@.len() - i,
        {
            assert(strings_of(fields@)[i as int] == fields@[i as int]@);
            assert(signatures[i as int] == signature_of(fields@[i as int]@));
            let signature = match decode_h520(&fields[i]) {
                Ok(signature) => signature,
                Err(e) => {
                    assert(found =~= found.take(i as int));
                    assert(light_verdict(members, signatures, found, i as int, addresses@) == Some(
                        Err::<(), Error>(Error::Decoder(e)),
                    ));
                    return Err(Error::Decoder(e));
                },
            };
            let origin = (self.recover)(&signature, &message);
            let ghost next = found.push(origin);
            proof {
                assert(signatures[i as int] == Ok::<H520, DecodeError>(signature));
                assert forall|k: int| 0 <= k < next.len() implies is_light_origin(
                    &self.recover,
                    signatures[k],
                    message,
                    #[trigger] next[k],
                ) by {
                    if k < i {
                        assert(next[k] == found[k]);
                    }
                }
                assert(are_light_origins(&self.recover, signatures, message, next));
                assert(found =~= next.take(i as int));
                assert(light_verdict(members, signatures, next, 0, seq![]) == light_verdict(
                    members,
                    signatures,
                    next,
                    i as int,
                    addresses@,
                ));
            }
            let address = match origin {
                Ok(address) => address,
                Err(e) => return Err(Error::Key(e)),
            };
            let ghost seen = addresses@;
            match self.admit_origin(&header.parent_hash, address, &mut addresses) {
                Ok(()) => {},
                Err(e) => return Err(e),
            }
            proof {
                assert forall|more: Seq<Result<Address, KeyError>>|
                    next =~= more.take(i + 1) && more.len() >= i + 1 implies light_verdict(
                    members,
                    signatures,
                    more,
                    0,
                    seq![],
                ) == #[trigger] light_verdict(members, signatures, more, i + 1, addresses@) by {
                    assert(found =~= more.take(i as int)) by {
                        assert(more.take(i as int) =~= more.take(i + 1).take(i as int));
                    }
                    assert(more[i as int] == more.take(i + 1)[i as int]);
                    assert(light_verdict(members, signatures, more, i as int, seen) == light_verdict(
                        members,
                        signatures,
                        more,
                        i + 1,
                        addresses@,
                    ));
                }
                found = next;
            }
            i = i + 1;
        }
        proof {
            assert(found =~= found.take(i as int));
            assert(light_verdict(members, signatures, found, 0, seq![]) == light_verdict(
                members,
                signatures,
                found,
                i as int,
                addresses@,
            ));
        }
        let n: usize = addresses.len();
        let threshold: usize = threshold(self.subchain_validators.len());
        if n > threshold {
            Ok(())
        } else {
            Err(Error::Engine(EngineError::BadSealFieldSize { min: Some(threshold), max: None, found: n }))
        }
    }

    /// `r` is the answer to whether the block under `header` is final: it is if enough validators
    /// have signed it, and then its hash is given.
    pub open spec fn is_finality_answer(&self, header: Header, r: Option<Seq<BlockHash>>) -> bool {
        match r {
            Some(hashes) => hashes == seq![header.hash] && self.is_verdict(header, Ok(())),
            None => exists|e: Error| #[trigger] self.is_verdict(header, Err(e)),
        }
    }

    /// Checks that the block under `header` is final.
    pub fn check_finality(&self, header: &Header) -> (r: Option<Vec<BlockHash>>)
        requires
            forall|signature: &H520, message: &BlockHash| call_requires(self.recover, (signature, message)),
        ensures
            self.is_finality_answer(*header, hashes_of(r)),
    {
        let result = self.verify_light(header);
        match result {
            Ok(nothing) => {
                assert(nothing == ());
                let mut hashes: Vec<BlockHash> = Vec::new();
                hashes.push(header.hash);
                assert(hashes@ =~= seq![header.hash]);
                Some(hashes)
            },
            Err(e) => {
                assert(self.is_verdict(*header, Err(e)));
                None
            },
        }
    }

    /// Checks the proof that a block is final, which is the encoding of its header. `decode` reads
    /// a header.
    pub fn check_finality_proof<D: Fn(&[u8]) -> Header>(&self, proof_rlp: &[u8], decode: &D) -> (r: Option<
        Vec<BlockHash>,
    >)
        requires
            call_requires(decode, (proof_rlp,)),
            forall|signature: &H520, message: &BlockHash| call_requires(self.recover, (signature, message)),
        ensures
            exists|header: Header|
                #[trigger] call_ensures(decode, (proof_rlp,), header) && self.is_finality_answer(header, hashes_of(r)),
    {
        let header = decode(proof_rlp);
        self.check_finality(&header)
    }
}

/// The hashes that were given.
pub open spec fn hashes_of(r: Option<Vec<BlockHash>>) -> Option<Seq<BlockHash>> {
    match r {
        Some(hashes) => Some(hashes@),
        None => None,
    }
}

/// A verifier for an epoch.
#[derive(Debug)]
pub enum ConstructedVerifier<'a, F> {
    /// A verifier that can be trusted.
    Trusted(EpochVerifier<F>),
    /// A verifier that can be trusted once the proof shows that the block with the given hash is
    /// final.
    Unconfirmed(EpochVerifier<F>, &'a [u8], BlockHash),
}

/// The verifier for the validators `list`, which still has to be confirmed if there is a block to
/// be `finalized`.
pub fn construct_verifier<'a, F>(
    list: ValidatorList,
    finalize: Option<BlockHash>,
    finality_proof: &'a [u8],
    recover: F,
) -> (r: ConstructedVerifier<'a, F>)
    ensures
        r == match finalize {
            Some(hash) => ConstructedVerifier::Unconfirmed(
                EpochVerifier { subchain_validators: list, recover },
                finality_proof,
                hash,
            ),
            None => ConstructedVerifier::Trusted(EpochVerifier { subchain_validators: list, recover }),
        },
{
    let verifier = EpochVerifier { subchain_validators: list, recover };
    match finalize {
        Some(hash) => ConstructedVerifier::Unconfirmed(verifier, finality_proof, hash),
        None => ConstructedVerifier::Trusted(verifier),
    }
}

/// What the validators of an epoch are, and the block that has to be final for it.
pub type EpochSet = Result<(ValidatorList, Option<BlockHash>), Error>;

/// `epoch_set` gave `answer` for what the block `number` signalled.
pub open spec fn is_epoch_set<S: Fn(bool, u64, &[u8]) -> EpochSet>(
    epoch_set: &S,
    number: u64,
    set_proof: &[u8],
    answer: EpochSet,
) -> bool {
    call_ensures(epoch_set, (number == 0, number, set_proof), answer)
}

/// `r` is the verifier that follows from the validators `set` of an epoch.
pub open spec fn is_verifier_for<F>(
    set: EpochSet,
    finality_proof: Seq<u8>,
    recover: F,
    r: Result<ConstructedVerifier<'_, F>, Error>,
) -> bool {
    match set {
        Err(e) => r == Err::<ConstructedVerifier<'_, F>, Error>(e),
        Ok((list, Some(hash))) => {
            &&& r matches Ok(ConstructedVerifier::Unconfirmed(verifier, proof_rlp, finalize))
            &&& verifier == EpochVerifier { subchain_validators: list, recover }
            &&& proof_rlp@ == finality_proof
            &&& finalize == hash
        },
        Ok((list, None)) => {
            &&& r matches Ok(ConstructedVerifier::Trusted(verifier))
            &&& verifier == EpochVerifier { subchain_validators: list, recover }
        },
    }
}

/// `r` is the verifier for the validators that the block `number` signalled, given what
/// `epoch_set` finds.
pub open spec fn is_epoch_verifier<F, S: Fn(bool, u64, &[u8]) -> EpochSet>(
    number: u64,
    set: Seq<u8>,
    finality: Seq<u8>,
    epoch_set: &S,
    recover: F,
    r: Result<ConstructedVerifier<'_, F>, Error>,
) -> bool {
    exists|set_proof: &[u8], answer: EpochSet|
        {
            &&& set_proof@ == set
            &&& #[trigger] is_epoch_set(epoch_set, number, set_proof, answer)
            &&& is_verifier_for(answer, finality, recover, r)
        }
}

/// Makes the verifier for an epoch out of the proof of its validators. `epoch_set` finds out who
/// they are, given whether the block that signalled them is the first of all, its number, and
/// the proof of the validators.
pub fn epoch_verifier<'a, F, S: Fn(bool, u64, &[u8]) -> EpochSet>(
    combined: &'a [u8],
    epoch_set: &S,
    recover: F,
) -> (r: Result<ConstructedVerifier<'a, F>, Error>)
    requires
        forall|first: bool, number: u64, set_proof: &[u8]| call_requires(epoch_set, (first, number, set_proof)),
    ensures
        proofs_of(combined@) matches Err(e) ==> r == Err::<ConstructedVerifier<'a, F>, Error>(Error::Decoder(e)),
        proofs_of(combined@) matches Ok((number, set, finality)) ==> is_epoch_verifier(
            number,
            set,
            finality,
            epoch_set,
            recover,
            r,
        ),
{
    let (signal_number, set_proof, finality_proof) = match destructure_proofs(combined) {
        Ok(parts) => parts,
        Err(e) => return Err(Error::Decoder(e)),
    };
    assert(proofs_of(combined@) == Ok::<_, DecodeError>((signal_number, set_proof@, finality_proof@)));
    let first = signal_number == 0;
    let answer = epoch_set(first, signal_number, set_proof);
    assert(is_epoch_set(epoch_set, signal_number, set_proof, answer));
    let ghost given = answer;
    let r = match answer {
        Ok((list, finalize)) => Ok(construct_verifier(list, finalize, finality_proof, recover)),
        Err(e) => Err(e),
    };
    assert(is_verifier_for(given, finality_proof@, recover, r));
    r
}

/// The two proofs of the change of validators that ends an epoch: of the change that the
/// validators themselves announce, or else of the one that was pending, which the header proves
/// final.
pub open spec fn epoch_end_parts(
    change: Option<Vec<u8>>,
    pending: Option<Vec<u8>>,
    head_rlp: Seq<u8>,
) -> Option<(Seq<u8>, Seq<u8>)> {
    match (change, pending) {
        (Some(change), _) => Some((change@, seq![])),
        (None, Some(pending)) => Some((pending@, head_rlp)),
        (None, None) => None,
    }
}

/// The proof of the change of validators that ends an epoch with the block under `chain_head`, if
/// it does. `change` is what the validators announce, `pending` the proof of a pending change,
/// and `head_rlp` the encoding of the header.
pub fn is_epoch_end(
    chain_head: &Header,
    change: Option<Vec<u8>>,
    pending: Option<Vec<u8>>,
    head_rlp: &[u8],
) -> (r: Option<Vec<u8>>)
    ensures
        r is Some <==> epoch_end_parts(change, pending, head_rlp@) is Some,
        r matches Some(combined) ==> {
            &&& epoch_end_parts(change, pending, head_rlp@) matches Some((set_proof, finality_proof))
            &&& combined@ == proofs_rlp(chain_head.number, set_proof, finality_proof)
            &&& fit_together(chain_head.number, set_proof, finality_proof) ==> proofs_of(combined@) == Ok::<_, DecodeError>(
                (chain_head.number, set_proof, finality_proof),
            )
        },
{
    match change {
        Some(change) => {
            let nothing: Vec<u8> = Vec::new();
            assert(nothing@ =~= seq![]);
            Some(combine_proofs(chain_head.number, &change, &nothing))
        },
        None => match pending {
            Some(pending) => Some(combine_proofs(chain_head.number, &pending, head_rlp)),
            None => None,
        },
    }
}

/// Whether the validators have to be told of a new block, and if so whether it is the first of
/// all: they are told of every block that begins an epoch.
pub fn on_new_block(header: &Header, epoch_begin: bool) -> (r: Option<bool>)
    ensures
        r == if epoch_begin {
            Some(header.number == 0)
        } else {
            None
        },
{
    if !epoch_begin {
        return None;
    }
    Some(header.is_genesis())
}

} // verus!
