//! Who may vote, who proposes, and how many votes decide.

use crate::primitives::{Address, BlockHash};
use vstd::prelude::*;

verus! {

/// The validators as of a block.
pub trait ValidatorSet {
    /// The validators as of the block `block_hash`, in the order in which they propose.
    spec fn members(&self, block_hash: BlockHash) -> Seq<Address>;

    /// Whether `address` is a validator as of the block.
    fn contains(&self, block_hash: &BlockHash, address: &Address) -> (r: bool)
        ensures
            r == self.members(*block_hash).contains(*address),
    ;

    /// Draws a validator: the nonce modulo the number of validators picks one.
    fn get(&self, block_hash: &BlockHash, nonce: usize) -> (r: Address)
        requires
            self.members(*block_hash).len() > 0,
        ensures
            r == self.members(*block_hash)[nonce as int % self.members(*block_hash).len() as int],
    ;

    /// The number of validators as of the block.
    fn count(&self, block_hash: &BlockHash) -> (r: usize)
        ensures
            r == self.members(*block_hash).len(),
    ;
}

/// A fixed list of validators.
#[derive(Debug)]
pub struct ValidatorList {
    pub validators: Vec<Address>,
}

impl ValidatorList {
    pub fn new(validators: Vec<Address>) -> (r: ValidatorList)
        ensures
            r.validators@ == validators@,
    {
        ValidatorList { validators }
    }

    /// The number of validators.
    pub fn len(&self) -> (r: usize)
        ensures
            r == self.validators@.len(),
    {
        self.validators.len()
    }
}

impl ValidatorSet for ValidatorList {
    open spec fn members(&self, block_hash: BlockHash) -> Seq<Address> {
        self.validators@
    }

    fn contains(&self, block_hash: &BlockHash, address: &Address) -> (r: bool) {
        contains_address(&self.validators, address)
    }

    fn get(&self, block_hash: &BlockHash, nonce: usize) -> (r: Address) {
        self.validators[nonce % self.validators.len()]
    }

    fn count(&self, block_hash: &BlockHash) -> (r: usize) {
        self.validators.len()
    }
}

/// Whether `address` is one of `addresses`.
pub fn contains_address(addresses: &Vec<Address>, address: &Address) -> (r: bool)
    ensures
        r == addresses@.contains(*address),
{
    let mut i: usize = 0;
    while i < addresses.len()
        invariant
            i <= addresses@.len(),
            forall|j: int| 0 <= j < i ==> addresses@[j] != *address,
        decreases addresses@.len() - i,
    {
        if addresses[i] == *address {
            return true;
        }
        i = i + 1;
    }
    false
}

/// Two thirds of the validators, rounded down.
pub open spec fn threshold_of(validators: nat) -> nat {
    (validators * 2 / 3) as nat
}

/// So many votes decide: more than two thirds of the validators.
pub open spec fn is_quorum(votes: nat, validators: nat) -> bool {
    votes > threshold_of(validators)
}

/// Two thirds of the validators, rounded down.
pub fn threshold(validators: usize) -> (r: usize)
    ensures
        r == threshold_of(validators as nat),
{
    (validators / 3) * 2 + (validators % 3) * 2 / 3
}

} // verus!
