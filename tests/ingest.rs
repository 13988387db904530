use starknet_history::felt::Felt;
use starknet_history::ingest::{
    backoff_ms, block_updates, next_fetch_step, plan_window, windows, DeclaredClass,
    DeployedContract, FetchStep, FieldUpdate, StateDiff, StateUpdate, StorageDiff, MAX_ATTEMPTS,
    WINDOW_SIZE,
};

fn felt(n: u8) -> Felt {
    let mut b = [0u8; 32];
    b[31] = n;
    Felt::new(b)
}

fn diff() -> StateDiff {
    StateDiff {
        storage_diffs: vec![
            (felt(1), vec![StorageDiff { key: felt(2), value: felt(3) }]),
            (
                felt(4),
                vec![
                    StorageDiff { key: felt(5), value: felt(6) },
                    StorageDiff { key: felt(7), value: felt(8) },
                ],
            ),
        ],
        deployed_contracts: vec![DeployedContract { address: felt(10), class_hash: felt(11) }],
        old_declared_contracts: vec![felt(12)],
        declared_classes: vec![DeclaredClass { class_hash: felt(13), compiled_class_hash: felt(14) }],
        nonces: vec![(felt(15), felt(16))],
        replaced_classes: vec![DeployedContract { address: felt(17), class_hash: felt(18) }],
    }
}

fn update() -> StateUpdate {
    StateUpdate { block_hash: felt(0), new_root: felt(0), old_root: felt(0), state_diff: diff() }
}

#[test]
fn block_updates_in_order() {
    let u = block_updates(&diff());
    assert_eq!(
        u,
        vec![
            FieldUpdate::ClassHash { contract: felt(10), class_hash: felt(11) },
            FieldUpdate::ClassHash { contract: felt(17), class_hash: felt(18) },
            FieldUpdate::Nonce { contract: felt(15), nonce: felt(16) },
            FieldUpdate::StorageValue { contract: felt(1), key: felt(2), value: felt(3) },
            FieldUpdate::StorageValue { contract: felt(4), key: felt(5), value: felt(6) },
            FieldUpdate::StorageValue { contract: felt(4), key: felt(7), value: felt(8) },
        ]
    );
}

#[test]
fn backoff_doubles() {
    assert_eq!(backoff_ms(0), 1000);
    assert_eq!(backoff_ms(1), 2000);
    assert_eq!(backoff_ms(5), 32000);
    assert_eq!(backoff_ms(MAX_ATTEMPTS), 1_048_576_000);
}

#[test]
fn rate_limited_twice_then_succeeds() {
    let statuses = [429u16, 429, 200];
    let mut steps = Vec::new();
    let mut attempt = 0u32;
    for s in statuses {
        let step = next_fetch_step(attempt, s);
        steps.push(step);
        if let FetchStep::Retry { .. } = step {
            attempt += 1;
        }
    }
    assert_eq!(
        steps,
        vec![
            FetchStep::Retry { wait_ms: 1000 },
            FetchStep::Retry { wait_ms: 2000 },
            FetchStep::Decode
        ]
    );
    let plan = plan_window(&vec![Ok((7u64, update()))]).unwrap();
    assert_eq!(plan.len(), 1);
    assert_eq!(plan[0].0, 7);
    assert_eq!(plan[0].1, block_updates(&diff()));
}

#[test]
fn other_failures_back_off_too() {
    assert_eq!(next_fetch_step(3, 503), FetchStep::Retry { wait_ms: 8000 });
    assert_eq!(next_fetch_step(3, 200), FetchStep::Decode);
}

#[test]
fn exhausted_attempts_fail_the_window() {
    let mut attempt = 0u32;
    let last = loop {
        match next_fetch_step(attempt, 429) {
            FetchStep::Retry { .. } => attempt += 1,
            other => break other,
        }
    };
    assert_eq!(last, FetchStep::GiveUp);
    assert_eq!(attempt, MAX_ATTEMPTS);
    let fetched = vec![
        Ok((40u64, update())),
        Err("max attempts".to_string()),
        Ok((42u64, update())),
        Err("later".to_string()),
    ];
    assert_eq!(plan_window(&fetched).err(), Some("max attempts".to_string()));
}

#[test]
fn windows_cover_the_range() {
    assert_eq!(windows(0, 45, WINDOW_SIZE), vec![(0, 19), (20, 39), (40, 45)]);
    assert_eq!(windows(5, 5, WINDOW_SIZE), vec![(5, 5)]);
    assert_eq!(windows(0, 39, 20), vec![(0, 19), (20, 39)]);
    assert_eq!(windows(6, 5, 20), vec![]);
    assert_eq!(windows(u64::MAX - 2, u64::MAX, 2), vec![(u64::MAX - 2, u64::MAX - 1), (u64::MAX, u64::MAX)]);
}
