//! Fixed-size values that travel between validators: hashes, addresses and signatures.

use vstd::prelude::*;

verus! {

/// Compares two byte strings.
pub fn bytes_equal(a: &[u8], b: &[u8]) -> (r: bool)
    ensures
        r == (a@ == b@),
{
    if a.len() != b.len() {
        return false;
    }
    let mut i: usize = 0;
    while i < a.len()
        invariant
            a@.len() == b@.len(),
            i <= a@.len(),
            forall|j: int| 0 <= j < i ==> a@[j] == b@[j],
        decreases a@.len() - i,
    {
        if a[i] != b[i] {
            return false;
        }
        i = i + 1;
    }
    assert(a@ =~= b@);
    true
}

/// Copies a byte string.
pub fn copy_bytes(a: &[u8]) -> (r: Vec<u8>)
    ensures
        r@ == a@,
{
    let mut r: Vec<u8> = Vec::new();
    let mut i: usize = 0;
    while i < a.len()
        invariant
            i <= a@.len(),
            r@ == a@.subrange(0, i as int),
        decreases a@.len() - i,
    {
        r.push(a[i]);
        i = i + 1;
        assert(a@.subrange(0, i as int) =~= a@.subrange(0, i - 1).push(a@[i - 1]));
    }
    assert(a@.subrange(0, i as int) =~= a@);
    r
}

/// The byte strings that a list of byte vectors holds.
pub open spec fn strings_of(list: Seq<Vec<u8>>) -> Seq<Seq<u8>> {
    list.map_values(|b: Vec<u8>| b@)
}

/// A 256-bit hash.
#[derive(Clone, Copy, Debug, Eq, Hash)]
pub struct H256(pub [u8; 32]);

/// The hash that names a block.
pub type BlockHash = H256;

/// The address of an account, a validator's among them.
#[derive(Clone, Copy, Debug, Eq, Hash)]
pub struct Address(pub [u8; 20]);

/// A recoverable signature.
#[derive(Clone, Copy, Debug, Eq, Hash)]
pub struct H520(pub [u8; 65]);

impl PartialEq for H256 {
    fn eq(&self, other: &Self) -> (r: bool) {
        let r = bytes_equal(&self.0, &other.0);
        proof {
            if r {
                assert(self.0 =~= other.0);
            }
        }
        r
    }
}

impl vstd::std_specs::cmp::PartialEqSpecImpl for H256 {
    open spec fn obeys_eq_spec() -> bool {
        true
    }

    open spec fn eq_spec(&self, other: &Self) -> bool {
        *self == *other
    }
}

impl PartialEq for Address {
    fn eq(&self, other: &Self) -> (r: bool) {
        let r = bytes_equal(&self.0, &other.0);
        proof {
            if r {
                assert(self.0 =~= other.0);
            }
        }
        r
    }
}

impl vstd::std_specs::cmp::PartialEqSpecImpl for Address {
    open spec fn obeys_eq_spec() -> bool {
        true
    }

    open spec fn eq_spec(&self, other: &Self) -> bool {
        *self == *other
    }
}

impl PartialEq for H520 {
    fn eq(&self, other: &Self) -> (r: bool) {
        let r = bytes_equal(&self.0, &other.0);
        proof {
            if r {
                assert(self.0 =~= other.0);
            }
        }
        r
    }
}

impl vstd::std_specs::cmp::PartialEqSpecImpl for H520 {
    open spec fn obeys_eq_spec() -> bool {
        true
    }

    open spec fn eq_spec(&self, other: &Self) -> bool {
        *self == *other
    }
}

/// The hash that holds the 32 bytes `bytes`.
pub open spec fn h256_of(bytes: Seq<u8>) -> H256 {
    choose|h: H256| h.0@ == bytes
}

/// The signature that holds the 65 bytes `bytes`.
pub open spec fn h520_of(bytes: Seq<u8>) -> H520 {
    choose|s: H520| s.0@ == bytes
}

/// A hash is determined by its bytes.
pub proof fn lemma_h256_of(h: H256)
    ensures
        h256_of(h.0@) == h,
{
    let g = h256_of(h.0@);
    assert(g.0@ == h.0@);
    assert forall|i: int| 0 <= i < 32 implies g.0[i] == h.0[i] by {
        assert(g.0@[i] == h.0@[i]);
    }
    assert(g.0 =~= h.0);
}

/// A signature is determined by its bytes.
pub proof fn lemma_h520_of(s: H520)
    ensures
        h520_of(s.0@) == s,
{
    let g = h520_of(s.0@);
    assert(g.0@ == s.0@);
    assert forall|i: int| 0 <= i < 65 implies g.0[i] == s.0[i] by {
        assert(g.0@[i] == s.0@[i]);
    }
    assert(g.0 =~= s.0);
}

impl H256 {
    /// The hash of which every byte is zero.
    pub open spec fn spec_zero() -> H256 {
        h256_of(Seq::new(32, |i: int| 0u8))
    }

    pub fn zero() -> (r: H256)
        ensures
            r == H256::spec_zero(),
    {
        let r = H256([0u8; 32]);
        proof {
            assert(r.0@ =~= Seq::new(32, |i: int| 0u8));
            lemma_h256_of(r);
        }
        r
    }

    pub fn is_zero(&self) -> (r: bool)
        ensures
            r == (*self == H256::spec_zero()),
    {
        *self == H256::zero()
    }

    /// The hash with the given bytes, which must be 32.
    pub fn from_bytes(bytes: &[u8]) -> (r: H256)
        requires
            bytes@.len() == 32,
        ensures
            r.0@ == bytes@,
            r == h256_of(bytes@),
    {
        let mut a: [u8; 32] = [0u8; 32];
        let mut i: usize = 0;
        while i < 32
            invariant
                i <= 32,
                bytes@.len() == 32,
                forall|j: int| 0 <= j < i ==> a@[j] == bytes@[j],
            decreases 32 - i,
        {
            a[i] = bytes[i];
            i = i + 1;
        }
        assert(a@ =~= bytes@);
        let r = H256(a);
        proof {
            lemma_h256_of(r);
        }
        r
    }
}

impl H520 {
    /// The signature with the given bytes, which must be 65.
    pub fn from_bytes(bytes: &[u8]) -> (r: H520)
        requires
            bytes@.len() == 65,
        ensures
            r.0@ == bytes@,
            r == h520_of(bytes@),
    {
        let mut a: [u8; 65] = [0u8; 65];
        let mut i: usize = 0;
        while i < 65
            invariant
                i <= 65,
                bytes@.len() == 65,
                forall|j: int| 0 <= j < i ==> a@[j] == bytes@[j],
            decreases 65 - i,
        {
            a[i] = bytes[i];
            i = i + 1;
        }
        assert(a@ =~= bytes@);
        let r = H520(a);
        proof {
            lemma_h520_of(r);
        }
        r
    }
}

} // verus!
