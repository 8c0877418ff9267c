//! The errors of the engine.

use crate::primitives::Address;
use vstd::prelude::*;

verus! {

/// What the `rlp` crate finds wrong with bytes.
#[derive(Debug, Clone, Copy, PartialEq, Eq)]
pub enum RlpError {
    /// There are more bytes than the value can have.
    IsTooBig,
    /// There are too few bytes.
    IsTooShort,
    /// It is no list.
    ExpectedToBeList,
    /// It is a list.
    ExpectedToBeData,
    /// It is a list of another size.
    IncorrectListLen,
    /// The length of a byte string begins with a zero byte.
    DataLenWithZeroPrefix,
    /// The length of a list begins with a zero byte.
    ListLenWithZeroPrefix,
    /// There is a shorter encoding.
    InvalidIndirection,
    /// There are fewer bytes than the length says.
    InconsistentLengthAndData,
    /// The length is no length that memory can have.
    InvalidLength,
    /// Anything else.
    Custom(&'static str),
}

/// Why bytes are not the encoding of a value.
#[derive(Debug, PartialEq, Eq)]
pub enum DecodeError {
    /// The bytes are not RLP of the expected shape.
    Rlp(RlpError),
    /// A number that stands for no step.
    InvalidStep,
    /// A hash or a signature of the wrong length.
    WrongLength { expected: usize, found: usize },
}

/// A signature that no signer can be recovered from.
#[derive(Debug, Clone, Copy, PartialEq, Eq)]
pub struct KeyError;

/// Why a consensus message cannot be handled.
#[derive(Debug, PartialEq, Eq)]
pub enum Malformation {
    /// It is not the encoding of a message.
    Encoding(DecodeError),
    /// It is not signed.
    Signature(KeyError),
}

/// An offence against the rules of the consensus.
#[derive(Debug, PartialEq, Eq)]
pub enum EngineError {
    /// The signer is not a validator.
    NotAuthorized(Address),
    /// The signer voted twice in a round.
    DoubleVote(Address),
    /// The signer may not propose in the view.
    NotProposer { expected: Address, found: Address },
    /// A message that cannot be read.
    MalformedMessage(Malformation),
    /// A seal with too few or too many signatures.
    BadSealFieldSize { min: Option<usize>, max: Option<usize>, found: usize },
}

/// An offence against the form of a block.
#[derive(Debug, Clone, Copy, PartialEq, Eq)]
pub enum BlockError {
    /// The seal is neither that of a proposal nor that of a commit, or holds a signature twice.
    InvalidSeal,
    /// The seal has the wrong number of fields.
    InvalidSealArity { expected: usize, found: usize },
}

/// Why a block or a proof is refused.
#[derive(Debug, PartialEq, Eq)]
pub enum Error {
    Block(BlockError),
    Engine(EngineError),
    Decoder(DecodeError),
    Key(KeyError),
}

} // verus!
