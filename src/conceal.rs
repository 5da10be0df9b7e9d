//! Concealment: the one-way commitment that stands in for a revealed value.

use crate::value::{encoding, Revealed};
use bitcoin::hashes::hash160;
use vstd::prelude::*;

verus! {

/// The 160-bit digest of a byte string: RIPEMD-160 of its SHA-256.
pub uninterp spec fn hash160_of(data: Seq<u8>) -> Seq<u8>;

/// Relies on `bitcoin::hashes::hash160::Hash::hash`: RIPEMD-160 of the
/// SHA-256 of the data, twenty bytes that depend on the data alone.
#[verifier::external_body]
fn hash160_digest(data: &[u8]) -> (r: [u8; 20])
    ensures
        r@ == hash160_of(data@),
{
    let h: hash160::Hash = bitcoin::hashes::Hash::hash(data);
    bitcoin::hashes::Hash::into_inner(h)
}

/// Confidential representation of a revealed value.
#[derive(Clone, Copy, Debug, PartialEq, Eq, Hash)]
pub struct Confidential {
    pub digest: [u8; 20],
}

/// The commitment that conceals a value: the digest of its encoding.
pub open spec fn conceal_of(v: Revealed) -> Seq<u8> {
    hash160_of(encoding(v))
}

impl Confidential {
    /// The confidential representation of arbitrary bytes.
    pub fn hash(data: &[u8]) -> (r: Confidential)
        ensures
            r.digest@ == hash160_of(data@),
    {
        Confidential { digest: hash160_digest(data) }
    }

    /// The digest as a byte vector.
    pub fn to_vec(&self) -> (r: Vec<u8>)
        ensures
            r@ == self.digest@,
    {
        let mut r: Vec<u8> = Vec::new();
        let mut i: usize = 0;
        while i < 20
            invariant
                i <= 20,
                self.digest@.len() == 20,
                r@ == self.digest@.subrange(0, i as int),
            decreases 20 - i,
        {
            r.push(self.digest[i]);
            i = i + 1;
            assert(r@ =~= self.digest@.subrange(0, i as int));
        }
        assert(r@ =~= self.digest@);
        r
    }
}

impl Revealed {
    /// Conceals the value behind the digest of its canonical encoding.
    pub fn commit_conceal(&self) -> (r: Confidential)
        requires
            self.wf(),
        ensures
            r.digest@ == conceal_of(*self),
    {
        let bytes = self.encode();
        Confidential::hash(bytes.as_slice())
    }

    /// Appends the value's commitment: the twenty bytes of its concealed form.
    pub fn commit_encode(&self, out: &mut Vec<u8>) -> (n: usize)
        requires
            self.wf(),
        ensures
            n == 20,
            final(out)@ == old(out)@ + conceal_of(*self),
    {
        let c = self.commit_conceal();
        let d = c.to_vec();
        let mut i: usize = 0;
        let ghost start = out@;
        while i < d.len()
            invariant
                i <= d@.len(),
                d@.len() == 20,
                d@ == conceal_of(*self),
                out@ == start + d@.subrange(0, i as int),
            decreases d@.len() - i,
        {
            out.push(d[i]);
            i = i + 1;
            assert(out@ =~= start + d@.subrange(0, i as int));
        }
        assert(d@.subrange(0, 20) =~= d@);
        20
    }
}

/// Concealment is a function of the canonical encoding: values with the same
/// encoding, and so every value with itself, conceal to the same digest.
pub proof fn lemma_conceal_deterministic(a: Revealed, b: Revealed)
    requires
        a.wf(),
        b.wf(),
        encoding(a) == encoding(b),
    ensures
        conceal_of(a) == conceal_of(b),
{
}

} // verus!
