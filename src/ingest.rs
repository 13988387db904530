use vstd::prelude::*;

use crate::felt::Felt;
use vstd::arithmetic::div_mod::lemma_fundamental_div_mod_converse;

verus! {

/// Blocks fetched together in one window.
pub const WINDOW_SIZE: u64 = 20;

/// Attempts of one fetch are numbered from zero up to this bound.
pub const MAX_ATTEMPTS: u32 = 20;

/// The status of a successful response.
pub const STATUS_OK: u16 = 200;

/// One storage write of a block.
#[derive(Clone, Copy, Debug, PartialEq, Eq)]
pub struct StorageDiff {
    pub key: Felt,
    pub value: Felt,
}

/// A contract deployed, or whose class was replaced, in a block.
#[derive(Clone, Copy, Debug, PartialEq, Eq)]
pub struct DeployedContract {
    pub address: Felt,
    pub class_hash: Felt,
}

/// A class declared in a block; not recorded in the store.
#[derive(Clone, Copy, Debug, PartialEq, Eq)]
pub struct DeclaredClass {
    pub class_hash: Felt,
    pub compiled_class_hash: Felt,
}

/// A contract with its class.
#[derive(Clone, Copy, Debug, PartialEq, Eq)]
pub struct ContractClass {
    pub address: Felt,
    pub class_hash: Felt,
}

/// The state changes of one block.
#[derive(Debug)]
pub struct StateDiff {
    /// Storage writes grouped by contract address.
    pub storage_diffs: Vec<(Felt, Vec<StorageDiff>)>,
    pub deployed_contracts: Vec<DeployedContract>,
    pub old_declared_contracts: Vec<Felt>,
    pub declared_classes: Vec<DeclaredClass>,
    /// New nonces by contract address.
    pub nonces: Vec<(Felt, Felt)>,
    pub replaced_classes: Vec<DeployedContract>,
}

/// One block's state update as the feed delivers it.
#[derive(Debug)]
pub struct StateUpdate {
    pub block_hash: Felt,
    pub new_root: Felt,
    pub old_root: Felt,
    pub state_diff: StateDiff,
}

/// One field write that a block asks of the store.
#[derive(Clone, Copy, Debug, PartialEq, Eq)]
pub enum FieldUpdate {
    ClassHash { contract: Felt, class_hash: Felt },
    Nonce { contract: Felt, nonce: Felt },
    StorageValue { contract: Felt, key: Felt, value: Felt },
}

/// A class hash write for each entry, in order.
pub open spec fn class_updates(s: Seq<DeployedContract>) -> Seq<FieldUpdate>
    decreases s.len(),
{
    if s.len() == 0 {
        Seq::empty()
    } else {
        class_updates(s.drop_last()).push(
            FieldUpdate::ClassHash { contract: s.last().address, class_hash: s.last().class_hash },
        )
    }
}

/// A nonce write for each entry, in order.
pub open spec fn nonce_updates(s: Seq<(Felt, Felt)>) -> Seq<FieldUpdate>
    decreases s.len(),
{
    if s.len() == 0 {
        Seq::empty()
    } else {
        nonce_updates(s.drop_last()).push(
            FieldUpdate::Nonce { contract: s.last().0, nonce: s.last().1 },
        )
    }
}

/// A storage write of `contract` for each entry, in order.
pub open spec fn slot_updates(contract: Felt, s: Seq<StorageDiff>) -> Seq<FieldUpdate>
    decreases s.len(),
{
    if s.len() == 0 {
        Seq::empty()
    } else {
        slot_updates(contract, s.drop_last()).push(
            FieldUpdate::StorageValue { contract, key: s.last().key, value: s.last().value },
        )
    }
}

/// The storage writes of each contract, contract after contract.
pub open spec fn storage_updates(s: Seq<(Felt, Vec<StorageDiff>)>) -> Seq<FieldUpdate>
    decreases s.len(),
{
    if s.len() == 0 {
        Seq::empty()
    } else {
        storage_updates(s.drop_last()) + slot_updates(s.last().0, s.last().1@)
    }
}

/// Every field write of a block: deployed contracts' and replaced classes'
/// class hashes, then nonces, then storage writes. Declared classes are not
/// recorded.
pub open spec fn block_updates_of(d: StateDiff) -> Seq<FieldUpdate> {
    class_updates(d.deployed_contracts@) + class_updates(d.replaced_classes@) + nonce_updates(
        d.nonces@,
    ) + storage_updates(d.storage_diffs@)
}

fn push_class_updates(out: &mut Vec<FieldUpdate>, s: &Vec<DeployedContract>)
    ensures
        final(out)@ == old(out)@ + class_updates(s@),
{
    let ghost start = out@;
    let mut k: usize = 0;
    while k < s.len()
        invariant
            k <= s@.len(),
            out@ == start + class_updates(s@.take(k as int)),
        decreases s@.len() - k,
    {
        let d = s[k];
        out.push(FieldUpdate::ClassHash { contract: d.address, class_hash: d.class_hash });
        proof {
            assert(s@.take(k + 1).drop_last() =~= s@.take(k as int));
        }
        k += 1;
    }
    assert(s@.take(k as int) =~= s@);
}

fn push_nonce_updates(out: &mut Vec<FieldUpdate>, s: &Vec<(Felt, Felt)>)
    ensures
        final(out)@ == old(out)@ + nonce_updates(s@),
{
    let ghost start = out@;
    let mut k: usize = 0;
    while k < s.len()
        invariant
            k <= s@.len(),
            out@ == start + nonce_updates(s@.take(k as int)),
        decreases s@.len() - k,
    {
        let (contract, nonce) = s[k];
        out.push(FieldUpdate::Nonce { contract, nonce });
        proof {
            assert(s@.take(k + 1).drop_last() =~= s@.take(k as int));
        }
        k += 1;
    }
    assert(s@.take(k as int) =~= s@);
}

fn push_slot_updates(out: &mut Vec<FieldUpdate>, contract: Felt, s: &Vec<StorageDiff>)
    ensures
        final(out)@ == old(out)@ + slot_updates(contract, s@),
{
    let ghost start = out@;
    let mut k: usize = 0;
    while k < s.len()
        invariant
            k <= s@.len(),
            out@ == start + slot_updates(contract, s@.take(k as int)),
        decreases s@.len() - k,
    {
        let d = s[k];
        out.push(FieldUpdate::StorageValue { contract, key: d.key, value: d.value });
        proof {
            assert(s@.take(k + 1).drop_last() =~= s@.take(k as int));
        }
        k += 1;
    }
    assert(s@.take(k as int) =~= s@);
}

fn push_storage_updates(out: &mut Vec<FieldUpdate>, s: &Vec<(Felt, Vec<StorageDiff>)>)
    ensures
        final(out)@ == old(out)@ + storage_updates(s@),
{
    let ghost start = out@;
    let mut k: usize = 0;
    while k < s.len()
        invariant
            k <= s@.len(),
            out@ == start + storage_updates(s@.take(k as int)),
        decreases s@.len() - k,
    {
        let entry = &s[k];
        push_slot_updates(out, entry.0, &entry.1);
        proof {
            assert(s@.take(k + 1).drop_last() =~= s@.take(k as int));
            assert(out@ =~= start + storage_updates(s@.take(k + 1)));
        }
        k += 1;
    }
    assert(s@.take(k as int) =~= s@);
}

/// Every field write of a block, in the order `block_updates_of` gives.
pub fn block_updates(diff: &StateDiff) -> (r: Vec<FieldUpdate>)
    ensures
        r@ == block_updates_of(*diff),
{
    let mut out: Vec<FieldUpdate> = Vec::new();
    push_class_updates(&mut out, &diff.deployed_contracts);
    push_class_updates(&mut out, &diff.replaced_classes);
    push_nonce_updates(&mut out, &diff.nonces);
    push_storage_updates(&mut out, &diff.storage_diffs);
    assert(out@ =~= block_updates_of(*diff));
    out
}

/// The windows of at most `size` consecutive blocks that cover the blocks from
/// `start` to `end`, both included: all of them full but the last.
pub fn windows(start: u64, end: u64, size: u64) -> (r: Vec<(u64, u64)>)
    requires
        size > 0,
    ensures
        start > end ==> r@.len() == 0,
        start <= end ==> r@.len() > 0 && r@[0].0 == start && r@.last().1 == end,
        start <= end ==> r@.len() == (end - start) / (size as int) + 1,
        forall|k: int| 0 <= k < r@.len() ==> #[trigger] r@[k].0 == start + k * size,
        forall|k: int| 0 <= k < r@.len() ==> r@[k].0 <= r@[k].1 && r@[k].1 - r@[k].0 < size,
        forall|k: int|
            0 <= k < r@.len() - 1 ==> r@[k].1 - r@[k].0 == size - 1 && r@[k + 1].0 == r@[k].1
                + 1,
{
    let mut r: Vec<(u64, u64)> = Vec::new();
    if start > end {
        return r;
    }
    let mut lo: u64 = start;
    loop
        invariant
            size > 0,
            start <= lo <= end,
            r@.len() == 0 ==> lo == start,
            r@.len() > 0 ==> r@[0].0 == start && r@.last().1 + 1 == lo,
            lo == start + r@.len() * size,
            forall|k: int| 0 <= k < r@.len() ==> #[trigger] r@[k].0 == start + k * size,
            forall|k: int| 0 <= k < r@.len() ==> r@[k].0 <= r@[k].1 && r@[k].1 - r@[k].0 < size,
            forall|k: int|
                0 <= k < r@.len() ==> r@[k].1 - r@[k].0 == size - 1 && (k + 1 < r@.len()
                    ==> r@[k + 1].0 == r@[k].1 + 1),
        decreases end - lo,
    {
        let hi: u64 = if end - lo >= size - 1 {
            lo + (size - 1)
        } else {
            end
        };
        let ghost before = r@;
        r.push((lo, hi));
        proof {
            let j = before.len() as int;
            assert(start + (j + 1) * size == start + j * size + size) by (nonlinear_arith);
        }
        if hi == end {
            proof {
                let j = before.len() as int;
                lemma_fundamental_div_mod_converse(
                    end - start,
                    size as int,
                    j,
                    end - lo,
                );
                assert forall|k: int| 0 <= k < r@.len() - 1 implies r@[k + 1].0 == r@[k].1 + 1 by {
                    if k + 1 < before.len() {
                        assert(r@[k] == before[k] && r@[k + 1] == before[k + 1]);
                    } else {
                        assert(r@[k] == before[k]);
                    }
                }
            }
            return r;
        }
        lo = hi + 1;
    }
}

/// 2 to the power `n`.
pub open spec fn pow2(n: nat) -> nat
    decreases n,
{
    if n == 0 {
        1
    } else {
        2 * pow2((n - 1) as nat)
    }
}

proof fn lemma_pow2_monotonic(a: nat, b: nat)
    requires
        a <= b,
    ensures
        pow2(a) <= pow2(b),
    decreases b,
{
    if a < b {
        lemma_pow2_monotonic(a, (b - 1) as nat);
    }
}

/// Milliseconds to wait after failed attempt number `attempt`: 2^attempt
/// seconds.
pub fn backoff_ms(attempt: u32) -> (r: u64)
    requires
        attempt <= MAX_ATTEMPTS,
    ensures
        r == pow2(attempt as nat) * 1000,
{
    proof {
        lemma_pow2_monotonic(attempt as nat, 20);
        reveal_with_fuel(pow2, 21);
        assert(pow2(20) == 1048576);
    }
    let mut w: u64 = 1000;
    let mut i: u32 = 0;
    while i < attempt
        invariant
            i <= attempt,
            attempt <= MAX_ATTEMPTS,
            pow2(attempt as nat) <= 1048576,
            w == pow2(i as nat) * 1000,
        decreases attempt - i,
    {
        proof {
            lemma_pow2_monotonic((i + 1) as nat, attempt as nat);
        }
        w = w * 2;
        i += 1;
    }
    w
}

/// What to do after attempt number `attempt` of a fetch got `status`.
#[derive(Clone, Copy, Debug, PartialEq, Eq)]
pub enum FetchStep {
    /// The response succeeded: decode its body.
    Decode,
    /// Wait this long, then try again.
    Retry { wait_ms: u64 },
    /// Attempts are exhausted: the fetch fails.
    GiveUp,
}

/// The decision after attempt number `attempt` of a fetch got `status`: decode
/// a success; after any other status, rate limits included, wait 2^attempt
/// seconds and try again while attempts remain, else give up.
pub fn next_fetch_step(attempt: u32, status: u16) -> (r: FetchStep)
    requires
        attempt <= MAX_ATTEMPTS,
    ensures
        status == STATUS_OK ==> r == FetchStep::Decode,
        status != STATUS_OK && attempt < MAX_ATTEMPTS ==> r == (FetchStep::Retry {
            wait_ms: (pow2(attempt as nat) * 1000) as u64,
        }),
        status != STATUS_OK && attempt == MAX_ATTEMPTS ==> r == FetchStep::GiveUp,
{
    if status == STATUS_OK {
        FetchStep::Decode
    } else if attempt < MAX_ATTEMPTS {
        FetchStep::Retry { wait_ms: backoff_ms(attempt) }
    } else {
        FetchStep::GiveUp
    }
}

/// The field writes of each block of a window, in the window's order, once
/// every fetch of the window succeeded; else the failure of the first fetch
/// that failed, and nothing of the window is written.
pub fn plan_window(fetched: &Vec<Result<(u64, StateUpdate), String>>) -> (r: Result<
    Vec<(u64, Vec<FieldUpdate>)>,
    String,
>)
    ensures
        r is Ok <==> forall|k: int| 0 <= k < fetched@.len() ==> fetched@[k] is Ok,
        r is Ok ==> {
            &&& r->Ok_0@.len() == fetched@.len()
            &&& forall|k: int|
                0 <= k < fetched@.len() ==> {
                    &&& (#[trigger] r->Ok_0@[k]).0 == fetched@[k]->Ok_0.0
                    &&& r->Ok_0@[k].1@ == block_updates_of(fetched@[k]->Ok_0.1.state_diff)
                }
        },
        r is Err ==> exists|k: int|
            {
                &&& 0 <= k < fetched@.len()
                &&& #[trigger] fetched@[k] is Err
                &&& r->Err_0 == fetched@[k]->Err_0
                &&& forall|j: int| 0 <= j < k ==> fetched@[j] is Ok
            },
{
    let mut plan: Vec<(u64, Vec<FieldUpdate>)> = Vec::new();
    let mut k: usize = 0;
    while k < fetched.len()
        invariant
            k <= fetched@.len(),
            plan@.len() == k,
            forall|j: int| 0 <= j < k ==> fetched@[j] is Ok,
            forall|j: int|
                0 <= j < k ==> {
                    &&& (#[trigger] plan@[j]).0 == fetched@[j]->Ok_0.0
                    &&& plan@[j].1@ == block_updates_of(fetched@[j]->Ok_0.1.state_diff)
                },
        decreases fetched@.len() - k,
    {
        match &fetched[k] {
            Ok((block, update)) => {
                plan.push((*block, block_updates(&update.state_diff)));
            },
            Err(e) => {
                let r: Result<Vec<(u64, Vec<FieldUpdate>)>, String> = Err(e.clone());
                assert(fetched@[k as int] is Err);
                return r;
            },
        }
        k += 1;
    }
    Ok(plan)
}

} // verus!
