use starknet_history::codec::{decode_contract, decode_history, encode_contract, encode_history};
use starknet_history::contract::Contract;
use starknet_history::error::DatabaseError;
use starknet_history::felt::Felt;
use starknet_history::history::History;
use starknet_history::store::{
    class_hash_value, class_hash_value_at, contract_key, nonce_value, nonce_value_at,
    revert_contract_record, revert_storage_record, storage_key, storage_value, storage_value_at,
    updated_class_hash_record, updated_nonce_record, updated_storage_record, RevertStep,
};

fn felt(n: u8) -> Felt {
    let mut b = [0u8; 32];
    b[31] = n;
    Felt::new(b)
}

#[test]
fn history_encoding_is_exact() {
    let mut h = History::new();
    h.push(0x0102, felt(9)).unwrap();
    let b = encode_history(&h);
    let mut expected = vec![1u8, 0, 0, 0, 0, 0, 0, 0, 0x02, 0x01, 0, 0, 0, 0, 0, 0];
    expected.extend_from_slice(felt(9).bytes());
    assert_eq!(b, expected);
    assert_eq!(encode_history(&History::new()), vec![0u8; 8]);
}

#[test]
fn history_round_trip() {
    let mut h = History::new();
    h.push(3, felt(1)).unwrap();
    h.push(300, felt(2)).unwrap();
    h.push(u64::MAX, felt(3)).unwrap();
    let b = encode_history(&h);
    let d = decode_history(&b).unwrap();
    assert_eq!(d.entries(), h.entries());
    assert_eq!(encode_history(&d), b);
}

#[test]
fn contract_round_trip() {
    let mut c = Contract::new();
    c.push_class_hash(1, felt(4)).unwrap();
    c.push_nonce(2, felt(5)).unwrap();
    c.push_nonce(3, felt(6)).unwrap();
    let b = encode_contract(&c);
    assert_eq!(b.len(), 8 + 40 + 8 + 80);
    let d = decode_contract(&b).unwrap();
    assert_eq!(d.class_hash_history().entries(), c.class_hash_history().entries());
    assert_eq!(d.nonce_history().entries(), c.nonce_history().entries());
    assert_eq!(encode_contract(&d), b);
}

#[test]
fn corrupt_bytes_fail_to_decode() {
    assert_eq!(decode_history(&[1, 2, 3]).err(), Some(DatabaseError::DecodeError));
    // count says one entry, no entry follows
    assert_eq!(decode_history(&[1, 0, 0, 0, 0, 0, 0, 0]).err(), Some(DatabaseError::DecodeError));
    // trailing byte
    assert_eq!(decode_history(&[0, 0, 0, 0, 0, 0, 0, 0, 7]).err(), Some(DatabaseError::DecodeError));
    // indices out of order
    let mut h = History::new();
    h.push(5, felt(1)).unwrap();
    h.push(6, felt(2)).unwrap();
    let mut b = encode_history(&h);
    b[48] = 4;
    assert_eq!(decode_history(&b).err(), Some(DatabaseError::DecodeError));
    assert_eq!(decode_contract(&encode_history(&h)).err(), Some(DatabaseError::DecodeError));
}

#[test]
fn keys_are_concatenated_bytes() {
    let a = felt(1);
    let k = felt(2);
    assert_eq!(contract_key(&a), a.bytes().to_vec());
    let sk = storage_key(&a, &k);
    assert_eq!(sk.len(), 64);
    assert_eq!(&sk[..32], a.bytes());
    assert_eq!(&sk[32..], k.bytes());
}

#[test]
fn storage_read_modify_write() {
    assert_eq!(storage_value(None), Ok(None));
    assert_eq!(storage_value_at(None, 5), Ok(None));
    let r1 = updated_storage_record(None, felt(1), 10).unwrap();
    let r2 = updated_storage_record(Some(r1.clone()), felt(2), 20).unwrap();
    assert_eq!(storage_value(Some(r2.clone())), Ok(Some(felt(2))));
    assert_eq!(storage_value_at(Some(r2.clone()), 15), Ok(Some(felt(1))));
    assert_eq!(storage_value_at(Some(r2.clone()), 9), Ok(None));
    assert_eq!(
        updated_storage_record(Some(r2.clone()), felt(3), 20),
        Err(DatabaseError::HistoryError)
    );
    assert_eq!(
        updated_storage_record(Some(vec![9, 9]), felt(3), 30),
        Err(DatabaseError::DecodeError)
    );
    assert_eq!(storage_value(Some(vec![9])), Err(DatabaseError::DecodeError));
}

#[test]
fn class_hash_revert_scenario() {
    let x_record = updated_class_hash_record(None, felt(0xa), 100).unwrap();
    let x_record = updated_class_hash_record(Some(x_record), felt(0xb), 200).unwrap();
    assert_eq!(class_hash_value_at(Some(x_record.clone()), 200), Ok(Some(felt(0xb))));
    let x_record = match revert_contract_record(&x_record, 150).unwrap() {
        RevertStep::Write(b) => b,
        RevertStep::Delete => panic!("record still holds the block 100 entry"),
    };
    // the block 200 value is gone: a read at 200 sees the block 100 value
    assert_eq!(class_hash_value_at(Some(x_record.clone()), 200), Ok(Some(felt(0xa))));
    assert_eq!(class_hash_value_at(Some(x_record.clone()), 100), Ok(Some(felt(0xa))));
    assert_eq!(class_hash_value_at(Some(x_record.clone()), 99), Ok(None));
    assert_eq!(class_hash_value(Some(x_record)), Ok(Some(felt(0xa))));
}

#[test]
fn emptied_contract_record_is_deleted() {
    let rec = updated_nonce_record(None, felt(1), 50).unwrap();
    let rec = updated_class_hash_record(Some(rec), felt(2), 60).unwrap();
    assert_eq!(nonce_value(Some(rec.clone())), Ok(Some(felt(1))));
    assert_eq!(nonce_value_at(Some(rec.clone()), 49), Ok(None));
    assert_eq!(revert_contract_record(&rec, 10), Ok(RevertStep::Delete));
    // once the key is removed, reads find nothing
    assert_eq!(class_hash_value(None), Ok(None));
    assert_eq!(nonce_value(None), Ok(None));
}

#[test]
fn storage_record_revert_steps() {
    let rec = updated_storage_record(None, felt(1), 5).unwrap();
    let rec = updated_storage_record(Some(rec), felt(2), 8).unwrap();
    let kept = updated_storage_record(None, felt(1), 5).unwrap();
    assert_eq!(revert_storage_record(&rec, 6), Ok(RevertStep::Write(kept)));
    assert_eq!(revert_storage_record(&rec, 4), Ok(RevertStep::Delete));
    assert_eq!(revert_storage_record(&[0, 1], 4), Err(DatabaseError::DecodeError));
    assert_eq!(revert_contract_record(&[0, 1], 4), Err(DatabaseError::DecodeError));
}

#[test]
fn contract_updates_need_increasing_blocks() {
    let rec = updated_nonce_record(None, felt(1), 50).unwrap();
    assert_eq!(updated_nonce_record(Some(rec.clone()), felt(2), 50), Err(DatabaseError::HistoryError));
    assert_eq!(
        updated_class_hash_record(Some(vec![1, 2, 3]), felt(2), 50),
        Err(DatabaseError::DecodeError)
    );
    // the class hash history is independent of the nonce history
    assert!(updated_class_hash_record(Some(rec), felt(2), 10).is_ok());
}
