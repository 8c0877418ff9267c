//! The steps of a consensus view.

use crate::codec::{
    append_internal_u8, decode_u8, encode_u8, lemma_uint_read_back, rlp_uint, small_number_of, stream_buffer,
    stream_lists,
};
use crate::error::DecodeError;
use rlp::RlpStream;
use vstd::prelude::*;

verus! {

/// A step of a consensus view.
#[derive(Debug, PartialEq, Eq, Clone, Copy, Hash, Structural)]
pub enum Step {
    Propose,
    Prevote,
    Precommit,
    Commit,
}

/// The step that `rlp` encodes. No message is ever about the commit step, so that its number is
/// not read as a step.
pub open spec fn step_of(rlp: Seq<u8>) -> Result<Step, DecodeError> {
    match small_number_of(rlp) {
        Err(e) => Err(e),
        Ok(0u8) => Ok(Step::Propose),
        Ok(1u8) => Ok(Step::Prevote),
        Ok(2u8) => Ok(Step::Precommit),
        Ok(_) => Err(DecodeError::InvalidStep),
    }
}

impl Step {
    /// The steps in which validators vote on a proposal.
    pub open spec fn spec_is_pre(self) -> bool {
        self == Step::Prevote || self == Step::Precommit
    }

    /// The place of the step in a view, which is also its number on the wire.
    pub open spec fn spec_number(self) -> u8 {
        match self {
            Step::Propose => 0,
            Step::Prevote => 1,
            Step::Precommit => 2,
            Step::Commit => 3,
        }
    }

    /// Whether validators vote on a proposal in this step.
    pub fn is_pre(self) -> (r: bool)
        ensures
            r == self.spec_is_pre(),
    {
        match self {
            Step::Prevote | Step::Precommit => true,
            _ => false,
        }
    }

    /// The place of the step in a view.
    pub fn number(&self) -> (r: u8)
        ensures
            r == self.spec_number(),
    {
        match *self {
            Step::Propose => 0,
            Step::Prevote => 1,
            Step::Precommit => 2,
            Step::Commit => 3,
        }
    }

    /// Reads a step.
    pub fn decode(rlp: &[u8]) -> (r: Result<Step, DecodeError>)
        ensures
            r == step_of(rlp@),
    {
        match decode_u8(rlp) {
            Ok(0u8) => Ok(Step::Propose),
            Ok(1u8) => Ok(Step::Prevote),
            Ok(2u8) => Ok(Step::Precommit),
            Ok(_) => Err(DecodeError::InvalidStep),
            Err(e) => Err(e),
        }
    }

    /// The encoding of the step. Every step but the commit step is read back from it.
    pub fn encode(&self) -> (r: Vec<u8>)
        ensures
            r@ == rlp_uint(self.spec_number() as nat),
            self.is_read_back(r@),
    {
        proof {
            law_step_is_read_back(*self);
        }
        encode_u8(self.number())
    }

    /// Writes the encoding of the step, from which it is read back, and leaves it to the caller to
    /// count it as an item.
    pub fn rlp_append(&self, s: &mut RlpStream)
        ensures
            stream_buffer(*final(s)) == stream_buffer(*old(s)) + rlp_uint(self.spec_number() as nat),
            stream_lists(*final(s)) == stream_lists(*old(s)),
            self.is_read_back(rlp_uint(self.spec_number() as nat)),
    {
        proof {
            law_step_is_read_back(*self);
        }
        append_internal_u8(s, self.number());
    }

    /// The step is read out of `rlp`, or refused if it is the commit step.
    pub open spec fn is_read_back(self, rlp: Seq<u8>) -> bool {
        step_of(rlp) == if self == Step::Commit {
            Err::<Step, DecodeError>(DecodeError::InvalidStep)
        } else {
            Ok::<Step, DecodeError>(self)
        }
    }
}

/// Every step but the commit step is read back from its encoding, and the commit step is refused.
pub proof fn law_step_is_read_back(step: Step)
    ensures
        step.is_read_back(rlp_uint(step.spec_number() as nat)),
{
    lemma_uint_read_back(step.spec_number() as nat);
}

} // verus!
