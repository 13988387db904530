use vstd::prelude::*;

use starknet_api::hash::{pedersen_hash, StarkFelt};
use vstd::arithmetic::power2::pow2;

use crate::felt::Felt;

verus! {

/// The number whose big-endian bytes are `s`.
pub open spec fn be_value(s: Seq<u8>) -> nat
    decreases s.len(),
{
    if s.len() == 0 {
        0
    } else {
        be_value(s.drop_last()) * 256 + s.last() as nat
    }
}

/// The prime that bounds the field: 2^251 + 17 * 2^192 + 1.
pub open spec fn stark_prime() -> nat {
    pow2(251) + 17 * pow2(192) + 1
}

/// `f` is the canonical form of an element of the field.
pub open spec fn in_field(f: Felt) -> bool {
    be_value(f@) < stark_prime()
}

/// The Pedersen hash of two field elements, given by their bytes.
pub uninterp spec fn pedersen_of(a: Seq<u8>, b: Seq<u8>) -> Seq<u8>;

/// Relies on starknet_api::hash::pedersen_hash: the hash of two field elements
/// depends on them alone and is a field element in canonical form (it comes
/// from starknet-ff's `FieldElement::to_bytes_be`). That function panics on a
/// value at or above the prime, which `requires` leaves out.
#[verifier::external_body]
fn pedersen_pair(a: &Felt, b: &Felt) -> (r: Felt)
    requires
        in_field(*a),
        in_field(*b),
    ensures
        r@ == pedersen_of(a@, b@),
        in_field(r),
{
    let x = StarkFelt::new(a.bytes).unwrap_or_default();
    let y = StarkFelt::new(b.bytes).unwrap_or_default();
    let mut out = [0u8; 32];
    out.copy_from_slice(pedersen_hash(&x, &y).bytes());
    Felt::new(out)
}

/// The bytes of each element.
pub open spec fn felt_views(s: Seq<Felt>) -> Seq<Seq<u8>> {
    Seq::new(s.len(), |i: int| s[i]@)
}

/// One layer up the tree: each pair hashed, a last element without partner
/// hashed with itself.
pub open spec fn hash_layer(l: Seq<Seq<u8>>) -> Seq<Seq<u8>> {
    Seq::new(
        ((l.len() + 1) / 2) as nat,
        |i: int|
            pedersen_of(
                l[2 * i],
                if 2 * i + 1 < l.len() {
                    l[2 * i + 1]
                } else {
                    l[2 * i]
                },
            ),
    )
}

/// The root of the tree over `l`: zero when `l` is empty.
pub open spec fn merkle_root(l: Seq<Seq<u8>>) -> Seq<u8>
    decreases l.len(),
{
    if l.len() == 0 {
        Seq::new(32, |i: int| 0u8)
    } else if l.len() == 1 {
        l[0]
    } else {
        merkle_root(hash_layer(l))
    }
}

fn next_layer(layer: &Vec<Felt>) -> (r: Vec<Felt>)
    requires
        forall|k: int| 0 <= k < layer@.len() ==> in_field(#[trigger] layer@[k]),
    ensures
        r@.len() == (layer@.len() + 1) / 2,
        felt_views(r@) == hash_layer(felt_views(layer@)),
        forall|k: int| 0 <= k < r@.len() ==> in_field(#[trigger] r@[k]),
{
    let n = layer.len();
    let mut next: Vec<Felt> = Vec::new();
    let mut i: usize = 0;
    let ghost l = felt_views(layer@);
    while i < n
        invariant
            n == layer@.len(),
            l == felt_views(layer@),
            forall|k: int| 0 <= k < layer@.len() ==> in_field(#[trigger] layer@[k]),
            i <= n,
            next@.len() == (i + 1) / 2,
            i < n ==> i == 2 * next@.len(),
            forall|k: int| 0 <= k < next@.len() ==> in_field(#[trigger] next@[k]),
            forall|k: int| 0 <= k < next@.len() ==> #[trigger] next@[k]@ == hash_layer(l)[k],
        decreases n - i,
    {
        let ghost j = next@.len() as int;
        if i + 1 < n {
            let h = pedersen_pair(&layer[i], &layer[i + 1]);
            next.push(h);
            i += 2;
        } else {
            let h = pedersen_pair(&layer[i], &layer[i]);
            next.push(h);
            i += 1;
        }
        assert(next@[j]@ == hash_layer(l)[j]);
    }
    assert(felt_views(next@) =~= hash_layer(l));
    next
}

/// The root of the Pedersen tree over `data`: each layer hashes pairs, a last
/// element without partner with itself, until one element is left.
pub fn pedersen_root(data: Vec<Felt>) -> (r: Felt)
    requires
        forall|k: int| 0 <= k < data@.len() ==> in_field(#[trigger] data@[k]),
    ensures
        r@ == merkle_root(felt_views(data@)),
{
    if data.len() == 0 {
        let z = Felt::new([0u8; 32]);
        assert(z@ =~= merkle_root(felt_views(data@)));
        return z;
    }
    let ghost target = merkle_root(felt_views(data@));
    let mut layer = data;
    while layer.len() > 1
        invariant
            layer@.len() >= 1,
            forall|k: int| 0 <= k < layer@.len() ==> in_field(#[trigger] layer@[k]),
            merkle_root(felt_views(layer@)) == target,
        decreases layer@.len(),
    {
        layer = next_layer(&layer);
    }
    layer[0]
}

} // verus!
