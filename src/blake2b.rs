use vstd::prelude::*;
use crate::h256::H256;

verus! {

/// The BLAKE2b digest of `data`, 32 bytes long, under `key` and the
/// personalization `personal`.
pub uninterp spec fn blake2b_256(key: Seq<u8>, personal: Seq<u8>, data: Seq<u8>) -> Seq<u8>;

/// Relies on blake2b_rs's `Blake2bBuilder` (32-byte output, with `key` and
/// `personal`) and on `Blake2b::update` and `Blake2b::finalize`: the digest
/// depends on the three byte strings alone. The builder panics on a key over
/// 64 bytes or a personalization over 16.
#[verifier::external_body]
fn blake2b_digest(key: &[u8], personal: &[u8], data: &[u8]) -> (r: [u8; 32])
    requires
        key.len() <= 64,
        personal.len() <= 16,
    ensures
        r@ == blake2b_256(key@, personal@, data@),
{
    let mut state = blake2b_rs::Blake2bBuilder::new(32).personal(personal).key(key).build();
    state.update(data);
    let mut hash = [0u8; 32];
    state.finalize(&mut hash);
    hash
}

/// The personalization that separates this tree's digests from others.
pub open spec fn personalization() -> Seq<u8> {
    seq![115u8, 112, 97, 114, 115, 101, 109, 101, 114, 107, 108, 101, 116, 114, 101, 101]
}

/// A hash context: it absorbs bytes, then consumes itself to give a digest.
pub trait Hasher: Sized {
    /// The bytes absorbed so far.
    spec fn absorbed(&self) -> Seq<u8>;

    fn write_bytes(&mut self, h: &[u8])
        ensures
            final(self).absorbed() == old(self).absorbed() + h@,
    ;

    fn finish(self) -> H256;
}

/// BLAKE2b with a 32-byte output, no key, and the tree's personalization.
pub struct Blake2bHasher {
    data: Vec<u8>,
}

impl Blake2bHasher {
    /// The digest that `finish` gives for the bytes absorbed.
    pub open spec fn digest_of(data: Seq<u8>) -> Seq<u8> {
        blake2b_256(Seq::empty(), personalization(), data)
    }

    pub fn new() -> (r: Blake2bHasher)
        ensures
            r.absorbed() == Seq::<u8>::empty(),
    {
        Blake2bHasher { data: Vec::new() }
    }
}

impl Default for Blake2bHasher {
    fn default() -> (r: Blake2bHasher)
        ensures
            r.absorbed() == Seq::<u8>::empty(),
    {
        Blake2bHasher::new()
    }
}

impl Hasher for Blake2bHasher {
    closed spec fn absorbed(&self) -> Seq<u8> {
        self.data@
    }

    fn write_bytes(&mut self, h: &[u8]) {
        let mut k: usize = 0;
        while k < h.len()
            invariant
                k <= h@.len(),
                self.data@ == old(self).data@ + h@.subrange(0, k as int),
            decreases h@.len() - k,
        {
            self.data.push(h[k]);
            k += 1;
            assert(self.data@ =~= old(self).data@ + h@.subrange(0, k as int));
        }
        assert(h@.subrange(0, k as int) =~= h@);
    }

    fn finish(self) -> (r: H256)
        ensures
            r@ == Self::digest_of(self.absorbed()),
    {
        let personal: [u8; 16] = [115, 112, 97, 114, 115, 101, 109, 101, 114, 107, 108, 101, 116, 114, 101, 101];
        let key: [u8; 0] = [];
        proof {
            assert(personal@ =~= personalization());
            assert(key@ =~= Seq::<u8>::empty());
        }
        let hash = blake2b_digest(key.as_slice(), personal.as_slice(), self.data.as_slice());
        H256::from(hash)
    }
}

} // verus!
