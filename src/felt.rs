use vstd::prelude::*;

verus! {

/// A fixed-width field element: the scalar used for contract addresses, class
/// hashes, storage keys, storage values and nonces.
#[derive(Clone, Copy, Debug, PartialEq, Eq, Hash, PartialOrd, Ord)]
pub struct Felt {
    pub bytes: [u8; 32],
}

impl View for Felt {
    type V = Seq<u8>;

    open spec fn view(&self) -> Seq<u8> {
        self.bytes@
    }
}

impl Felt {
    /// The element with the given big-endian bytes.
    pub fn new(bytes: [u8; 32]) -> (r: Felt)
        ensures
            r.bytes == bytes,
    {
        Felt { bytes }
    }

    /// The big-endian bytes of the element.
    pub fn bytes(&self) -> (r: &[u8])
        ensures
            r@ == self@,
            r@.len() == 32,
    {
        self.bytes.as_slice()
    }
}

/// Two elements with the same bytes are the same element.
pub proof fn lemma_felt_bytes_injective(a: Felt, b: Felt)
    requires
        a@ == b@,
    ensures
        a == b,
{
    assert(a.bytes =~= b.bytes);
}

} // verus!
