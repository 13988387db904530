use vstd::prelude::*;

use crate::codec::{
    contract_bytes, decode_contract, decode_history, decoded_contract, decoded_history,
    encode_contract, encode_history, encodes_contract, encodes_history, history_bytes,
    lemma_contract_round_trip, lemma_history_round_trip,
};
use crate::contract::Contract;
use crate::error::DatabaseError;
use crate::felt::Felt;
use crate::history::{
    accepts_index, current_value, indices_increasing, lemma_revert_forgets_later,
    lemma_reverted_is_prefix, reverted, value_at, History,
};

verus! {

/// Name of the region keyed by contract address.
pub const CONTRACT_REGION: &'static str = "contract";

/// Name of the region keyed by contract address and storage key.
pub const STORAGE_REGION: &'static str = "key";

/// The bytes of a stored record, if there is one.
pub open spec fn record_view(existing: Option<Vec<u8>>) -> Option<Seq<u8>> {
    match existing {
        Some(b) => Some(b@),
        None => None,
    }
}

/// The history a storage region record holds: an absent record holds the
/// empty history; bytes that encode no history hold nothing.
pub open spec fn stored_history(existing: Option<Seq<u8>>) -> Option<Seq<(u64, Felt)>> {
    match existing {
        None => Some(Seq::empty()),
        Some(b) => decoded_history(b),
    }
}

/// The contract record a contract region record holds, in the same way.
pub open spec fn stored_contract(existing: Option<Seq<u8>>) -> Option<
    (Seq<(u64, Felt)>, Seq<(u64, Felt)>),
> {
    match existing {
        None => Some((Seq::empty(), Seq::empty())),
        Some(b) => decoded_contract(b),
    }
}

/// What a revert does to one stored record.
#[derive(Debug, PartialEq, Eq)]
pub enum RevertStep {
    /// The record is left empty: its key is removed.
    Delete,
    /// The record keeps entries: these bytes replace it.
    Write(Vec<u8>),
}

/// Key of a contract's record in the contract region: the address bytes.
pub fn contract_key(contract: &Felt) -> (r: Vec<u8>)
    ensures
        r@ == contract@,
{
    let mut k: Vec<u8> = Vec::new();
    k.extend_from_slice(contract.bytes());
    assert(k@ =~= contract@);
    k
}

/// Key of a storage slot's history in the storage region: the address bytes
/// followed by the storage key bytes.
pub fn storage_key(contract: &Felt, key: &Felt) -> (r: Vec<u8>)
    ensures
        r@ == contract@ + key@,
{
    let mut k: Vec<u8> = Vec::new();
    k.extend_from_slice(contract.bytes());
    k.extend_from_slice(key.bytes());
    assert(k@ =~= contract@ + key@);
    k
}

fn load_history(existing: Option<Vec<u8>>) -> (r: Result<History<Felt>, DatabaseError>)
    ensures
        match stored_history(record_view(existing)) {
            None => r == Err::<History<Felt>, DatabaseError>(DatabaseError::DecodeError),
            Some(s) => r is Ok && r->Ok_0.wf() && r->Ok_0@ == s,
        },
{
    match existing {
        Some(b) => decode_history(b.as_slice()),
        None => Ok(History::new()),
    }
}

fn load_contract(existing: Option<Vec<u8>>) -> (r: Result<Contract, DatabaseError>)
    ensures
        match stored_contract(record_view(existing)) {
            None => r == Err::<Contract, DatabaseError>(DatabaseError::DecodeError),
            Some(c) => r is Ok && r->Ok_0.wf() && r->Ok_0@ == c,
        },
{
    match existing {
        Some(b) => decode_contract(b.as_slice()),
        None => Ok(Contract::new()),
    }
}

/// The new bytes of a storage slot's record after `value` is recorded at
/// block `index`, given its current bytes, if any.
pub fn updated_storage_record(existing: Option<Vec<u8>>, value: Felt, index: u64) -> (r: Result<
    Vec<u8>,
    DatabaseError,
>)
    ensures
        match stored_history(record_view(existing)) {
            None => r == Err::<Vec<u8>, DatabaseError>(DatabaseError::DecodeError),
            Some(s) => if accepts_index(s, index) {
                r is Ok && r->Ok_0@ == history_bytes(s.push((index, value)))
            } else {
                r == Err::<Vec<u8>, DatabaseError>(DatabaseError::HistoryError)
            },
        },
{
    let mut history = match load_history(existing) {
        Ok(h) => h,
        Err(e) => return Err(e),
    };
    match history.push(index, value) {
        Ok(()) => Ok(encode_history(&history)),
        Err(()) => Err(DatabaseError::HistoryError),
    }
}

/// The current value of a storage slot, given its record's bytes, if any.
pub fn storage_value(existing: Option<Vec<u8>>) -> (r: Result<Option<Felt>, DatabaseError>)
    ensures
        match stored_history(record_view(existing)) {
            None => r == Err::<Option<Felt>, DatabaseError>(DatabaseError::DecodeError),
            Some(s) => r == Ok::<Option<Felt>, DatabaseError>(current_value(s)),
        },
{
    let history = match load_history(existing) {
        Ok(h) => h,
        Err(e) => return Err(e),
    };
    match history.get() {
        Some(v) => Ok(Some(*v)),
        None => Ok(None),
    }
}

/// The value of a storage slot as of block `index`, given its record's bytes,
/// if any.
pub fn storage_value_at(existing: Option<Vec<u8>>, index: u64) -> (r: Result<
    Option<Felt>,
    DatabaseError,
>)
    ensures
        match stored_history(record_view(existing)) {
            None => r == Err::<Option<Felt>, DatabaseError>(DatabaseError::DecodeError),
            Some(s) => r == Ok::<Option<Felt>, DatabaseError>(value_at(s, index)),
        },
{
    let history = match load_history(existing) {
        Ok(h) => h,
        Err(e) => return Err(e),
    };
    match history.get_at(index) {
        Some(v) => Ok(Some(*v)),
        None => Ok(None),
    }
}

/// The new bytes of a contract's record after `class_hash` is recorded at
/// block `index`, given its current bytes, if any.
pub fn updated_class_hash_record(existing: Option<Vec<u8>>, class_hash: Felt, index: u64) -> (r:
    Result<Vec<u8>, DatabaseError>)
    ensures
        match stored_contract(record_view(existing)) {
            None => r == Err::<Vec<u8>, DatabaseError>(DatabaseError::DecodeError),
            Some(c) => if accepts_index(c.0, index) {
                r is Ok && r->Ok_0@ == contract_bytes((c.0.push((index, class_hash)), c.1))
            } else {
                r == Err::<Vec<u8>, DatabaseError>(DatabaseError::HistoryError)
            },
        },
{
    let mut contract = match load_contract(existing) {
        Ok(c) => c,
        Err(e) => return Err(e),
    };
    match contract.push_class_hash(index, class_hash) {
        Ok(()) => Ok(encode_contract(&contract)),
        Err(()) => Err(DatabaseError::HistoryError),
    }
}

/// The new bytes of a contract's record after `nonce` is recorded at block
/// `index`, given its current bytes, if any.
pub fn updated_nonce_record(existing: Option<Vec<u8>>, nonce: Felt, index: u64) -> (r: Result<
    Vec<u8>,
    DatabaseError,
>)
    ensures
        match stored_contract(record_view(existing)) {
            None => r == Err::<Vec<u8>, DatabaseError>(DatabaseError::DecodeError),
            Some(c) => if accepts_index(c.1, index) {
                r is Ok && r->Ok_0@ == contract_bytes((c.0, c.1.push((index, nonce))))
            } else {
                r == Err::<Vec<u8>, DatabaseError>(DatabaseError::HistoryError)
            },
        },
{
    let mut contract = match load_contract(existing) {
        Ok(c) => c,
        Err(e) => return Err(e),
    };
    match contract.push_nonce(index, nonce) {
        Ok(()) => Ok(encode_contract(&contract)),
        Err(()) => Err(DatabaseError::HistoryError),
    }
}

/// The current class hash of a contract, given its record's bytes, if any.
pub fn class_hash_value(existing: Option<Vec<u8>>) -> (r: Result<Option<Felt>, DatabaseError>)
    ensures
        match stored_contract(record_view(existing)) {
            None => r == Err::<Option<Felt>, DatabaseError>(DatabaseError::DecodeError),
            Some(c) => r == Ok::<Option<Felt>, DatabaseError>(current_value(c.0)),
        },
{
    let contract = match load_contract(existing) {
        Ok(c) => c,
        Err(e) => return Err(e),
    };
    match contract.get_class_hash() {
        Some(v) => Ok(Some(*v)),
        None => Ok(None),
    }
}

/// The class hash of a contract as of block `index`, given its record's
/// bytes, if any.
pub fn class_hash_value_at(existing: Option<Vec<u8>>, index: u64) -> (r: Result<
    Option<Felt>,
    DatabaseError,
>)
    ensures
        match stored_contract(record_view(existing)) {
            None => r == Err::<Option<Felt>, DatabaseError>(DatabaseError::DecodeError),
            Some(c) => r == Ok::<Option<Felt>, DatabaseError>(value_at(c.0, index)),
        },
{
    let contract = match load_contract(existing) {
        Ok(c) => c,
        Err(e) => return Err(e),
    };
    match contract.get_class_hash_at(index) {
        Some(v) => Ok(Some(*v)),
        None => Ok(None),
    }
}

/// The current nonce of a contract, given its record's bytes, if any.
pub fn nonce_value(existing: Option<Vec<u8>>) -> (r: Result<Option<Felt>, DatabaseError>)
    ensures
        match stored_contract(record_view(existing)) {
            None => r == Err::<Option<Felt>, DatabaseError>(DatabaseError::DecodeError),
            Some(c) => r == Ok::<Option<Felt>, DatabaseError>(current_value(c.1)),
        },
{
    let contract = match load_contract(existing) {
        Ok(c) => c,
        Err(e) => return Err(e),
    };
    match contract.get_nonce() {
        Some(v) => Ok(Some(*v)),
        None => Ok(None),
    }
}

/// The nonce of a contract as of block `index`, given its record's bytes, if
/// any.
pub fn nonce_value_at(existing: Option<Vec<u8>>, index: u64) -> (r: Result<
    Option<Felt>,
    DatabaseError,
>)
    ensures
        match stored_contract(record_view(existing)) {
            None => r == Err::<Option<Felt>, DatabaseError>(DatabaseError::DecodeError),
            Some(c) => r == Ok::<Option<Felt>, DatabaseError>(value_at(c.1, index)),
        },
{
    let contract = match load_contract(existing) {
        Ok(c) => c,
        Err(e) => return Err(e),
    };
    match contract.get_nonce_at(index) {
        Some(v) => Ok(Some(*v)),
        None => Ok(None),
    }
}

/// What reverting to block `index` does to a storage region record: delete
/// it when no entry is left, else rewrite it.
pub fn revert_storage_record(encoded: &[u8], index: u64) -> (r: Result<RevertStep, DatabaseError>)
    ensures
        match decoded_history(encoded@) {
            None => r == Err::<RevertStep, DatabaseError>(DatabaseError::DecodeError),
            Some(s) => if reverted(s, index).len() == 0 {
                r == Ok::<RevertStep, DatabaseError>(RevertStep::Delete)
            } else {
                &&& r matches Ok(RevertStep::Write(w))
                &&& w@ == history_bytes(reverted(s, index))
            },
        },
{
    let mut history = match decode_history(encoded) {
        Ok(h) => h,
        Err(e) => return Err(e),
    };
    history.revert_to(index);
    if history.is_empty() {
        Ok(RevertStep::Delete)
    } else {
        Ok(RevertStep::Write(encode_history(&history)))
    }
}

/// What reverting to block `index` does to a contract region record: delete
/// it when both histories are left empty, else rewrite it.
pub fn revert_contract_record(encoded: &[u8], index: u64) -> (r: Result<RevertStep, DatabaseError>)
    ensures
        match decoded_contract(encoded@) {
            None => r == Err::<RevertStep, DatabaseError>(DatabaseError::DecodeError),
            Some(c) => if reverted(c.0, index).len() == 0 && reverted(c.1, index).len() == 0 {
                r == Ok::<RevertStep, DatabaseError>(RevertStep::Delete)
            } else {
                &&& r matches Ok(RevertStep::Write(w))
                &&& w@ == contract_bytes((reverted(c.0, index), reverted(c.1, index)))
            },
        },
{
    let mut contract = match decode_contract(encoded) {
        Ok(c) => c,
        Err(e) => return Err(e),
    };
    contract.revert_to(index);
    if contract.is_empty() {
        Ok(RevertStep::Delete)
    } else {
        Ok(RevertStep::Write(encode_contract(&contract)))
    }
}

/// The earlier of two blocks.
pub open spec fn earlier(a: u64, b: u64) -> u64 {
    if a <= b {
        a
    } else {
        b
    }
}

proof fn lemma_reverted_keeps_order(s: Seq<(u64, Felt)>, index: u64)
    requires
        indices_increasing(s),
        s.len() <= u64::MAX,
    ensures
        indices_increasing(reverted(s, index)),
        reverted(s, index).len() <= u64::MAX,
        value_at(reverted(s, index), index) == value_at(s, index),
{
    lemma_reverted_is_prefix(s, index);
    lemma_revert_forgets_later(s, index, index);
    let r = reverted(s, index);
    assert forall|i: int, j: int| 0 <= i < j < r.len() implies r[i].0 < r[j].0 by {
        assert(r[i] == s[i] && r[j] == s[j]);
    }
}

/// A storage record rewritten by a revert to `index` decodes to the reverted
/// history, which reads at any block what the record read before at that
/// block or at `index`, whichever is earlier. A record that the revert
/// deletes showed nothing at `index`.
pub proof fn lemma_storage_revert_then_read(b: Seq<u8>, index: u64, at: u64)
    requires
        decoded_history(b) is Some,
    ensures
        stored_history(Some(history_bytes(reverted(decoded_history(b)->Some_0, index)))) == Some(
            reverted(decoded_history(b)->Some_0, index),
        ),
        value_at(reverted(decoded_history(b)->Some_0, index), at) == value_at(
            decoded_history(b)->Some_0,
            earlier(at, index),
        ),
        reverted(decoded_history(b)->Some_0, index).len() == 0 ==> value_at(
            decoded_history(b)->Some_0,
            index,
        ) is None,
{
    let s = decoded_history(b)->Some_0;
    assert(encodes_history(b, s));
    lemma_reverted_keeps_order(s, index);
    lemma_history_round_trip(reverted(s, index));
    lemma_revert_forgets_later(s, index, at);
}

/// A contract record rewritten by a revert to `index` decodes to the reverted
/// histories, which read at any block what the record read before at that
/// block or at `index`, whichever is earlier. A record that the revert
/// deletes showed neither a class hash nor a nonce at `index`, so reading it
/// afterwards finds nothing, as a read of an absent record does.
pub proof fn lemma_contract_revert_then_read(b: Seq<u8>, index: u64, at: u64)
    requires
        decoded_contract(b) is Some,
    ensures
        ({
            let c = decoded_contract(b)->Some_0;
            let kept = (reverted(c.0, index), reverted(c.1, index));
            &&& stored_contract(Some(contract_bytes(kept))) == Some(kept)
            &&& value_at(kept.0, at) == value_at(c.0, earlier(at, index))
            &&& value_at(kept.1, at) == value_at(c.1, earlier(at, index))
            &&& kept.0.len() == 0 && kept.1.len() == 0 ==> {
                &&& value_at(c.0, index) is None
                &&& value_at(c.1, index) is None
            }
        }),
{
    let c = decoded_contract(b)->Some_0;
    assert(encodes_contract(b, c));
    lemma_reverted_keeps_order(c.0, index);
    lemma_reverted_keeps_order(c.1, index);
    lemma_contract_round_trip((reverted(c.0, index), reverted(c.1, index)));
    lemma_revert_forgets_later(c.0, index, at);
    lemma_revert_forgets_later(c.1, index, at);
}

} // verus!
