use starknet_api::hash::{pedersen_hash, StarkFelt};
use starknet_history::felt::Felt;
use starknet_history::pedersen::pedersen_root;

fn felt(n: u8) -> Felt {
    let mut b = [0u8; 32];
    b[31] = n;
    Felt::new(b)
}

fn hash(a: Felt, b: Felt) -> Felt {
    let x = StarkFelt::new(a.bytes).unwrap();
    let y = StarkFelt::new(b.bytes).unwrap();
    let mut out = [0u8; 32];
    out.copy_from_slice(pedersen_hash(&x, &y).bytes());
    Felt::new(out)
}

#[test]
fn root_of_nothing_is_zero() {
    assert_eq!(pedersen_root(vec![]), Felt::new([0u8; 32]));
}

#[test]
fn root_of_one_is_itself() {
    assert_eq!(pedersen_root(vec![felt(5)]), felt(5));
}

#[test]
fn root_of_pair_is_its_hash() {
    let r = pedersen_root(vec![felt(1), felt(2)]);
    assert_eq!(r, hash(felt(1), felt(2)));
    assert_ne!(r, felt(1));
    assert_ne!(r, felt(2));
}

#[test]
fn odd_element_is_hashed_with_itself() {
    let r = pedersen_root(vec![felt(1), felt(2), felt(3)]);
    assert_eq!(r, hash(hash(felt(1), felt(2)), hash(felt(3), felt(3))));
}
