use starknet_history::contract::Contract;
use starknet_history::felt::Felt;
use starknet_history::history::History;

fn felt(n: u8) -> Felt {
    let mut b = [0u8; 32];
    b[31] = n;
    Felt::new(b)
}

#[test]
fn slot_point_in_time_reads() {
    let mut h: History<&str> = History::new();
    assert_eq!(h.push(5, "A"), Ok(()));
    assert_eq!(h.push(10, "B"), Ok(()));
    assert_eq!(h.get_at(7), Some(&"A"));
    assert_eq!(h.get_at(10), Some(&"B"));
    assert_eq!(h.get_at(4), None);
    assert_eq!(h.get(), Some(&"B"));
}

#[test]
fn push_then_read_at_same_index() {
    let mut h: History<u32> = History::new();
    for (i, idx) in [0u64, 3, 4, 100, 1_000_000].iter().enumerate() {
        assert_eq!(h.push(*idx, i as u32), Ok(()));
        assert_eq!(h.get_at(*idx), Some(&(i as u32)));
        assert_eq!(h.get(), h.get_at(*idx));
    }
}

#[test]
fn first_push_accepts_any_index() {
    let mut h: History<u8> = History::new();
    assert_eq!(h.push(u64::MAX, 1), Ok(()));
    assert_eq!(h.get(), Some(&1));
    let mut z: History<u8> = History::new();
    assert_eq!(z.push(0, 2), Ok(()));
    assert_eq!(z.get_at(0), Some(&2));
}

#[test]
fn non_monotonic_push_fails_and_changes_nothing() {
    let mut h: History<u8> = History::new();
    assert_eq!(h.push(5, 1), Ok(()));
    assert_eq!(h.push(5, 2), Err(()));
    assert_eq!(h.push(3, 3), Err(()));
    assert_eq!(h.len(), 1);
    assert_eq!(h.entries(), &vec![(5u64, 1u8)]);
    assert_eq!(h.get(), Some(&1));
}

#[test]
fn empty_slot_reads_nothing() {
    let h: History<u8> = History::new();
    assert!(h.is_empty());
    assert_eq!(h.get(), None);
    assert_eq!(h.get_at(u64::MAX), None);
}

#[test]
fn revert_forgets_later_entries() {
    let mut h: History<u8> = History::new();
    h.push(2, 20).unwrap();
    h.push(5, 50).unwrap();
    h.push(9, 90).unwrap();
    h.revert_to(6);
    assert_eq!(h.entries(), &vec![(2u64, 20u8), (5, 50)]);
    assert_eq!(h.get_at(9), Some(&50));
    assert_eq!(h.get_at(100), Some(&50));
    assert_eq!(h.get_at(4), Some(&20));
    assert_eq!(h.get(), Some(&50));
    // a new history may go on from the revert point
    assert_eq!(h.push(6, 60), Ok(()));
}

#[test]
fn revert_edges() {
    let mut h: History<u8> = History::new();
    h.push(2, 20).unwrap();
    h.push(5, 50).unwrap();
    h.revert_to(5);
    assert_eq!(h.len(), 2);
    h.revert_to(1000);
    assert_eq!(h.len(), 2);
    h.revert_to(1);
    assert!(h.is_empty());
    assert_eq!(h.get(), None);
}

#[test]
fn revert_twice_same_as_once() {
    let mut a: History<u8> = History::new();
    let mut b: History<u8> = History::new();
    for (i, v) in [(1u64, 1u8), (4, 2), (8, 3)] {
        a.push(i, v).unwrap();
        b.push(i, v).unwrap();
    }
    a.revert_to(4);
    b.revert_to(4);
    b.revert_to(4);
    assert_eq!(a.entries(), b.entries());
}

#[test]
fn contract_record_keeps_two_histories() {
    let mut c = Contract::new();
    assert!(c.is_empty());
    assert_eq!(c.push_class_hash(10, felt(1)), Ok(()));
    assert_eq!(c.push_nonce(12, felt(7)), Ok(()));
    assert_eq!(c.push_nonce(12, felt(8)), Err(()));
    assert_eq!(c.push_class_hash(9, felt(2)), Err(()));
    assert_eq!(c.get_class_hash(), Some(&felt(1)));
    assert_eq!(c.get_class_hash_at(9), None);
    assert_eq!(c.get_nonce(), Some(&felt(7)));
    assert_eq!(c.get_nonce_at(11), None);
    assert_eq!(c.get_nonce_at(12), Some(&felt(7)));
    assert!(!c.is_empty());
    c.revert_to(11);
    assert_eq!(c.get_nonce(), None);
    assert_eq!(c.get_class_hash(), Some(&felt(1)));
    c.revert_to(0);
    assert!(c.is_empty());
}
