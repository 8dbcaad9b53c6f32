use massbit_dapi::dapi_staking::{UnbondingInfo, UnlockingChunk};

fn chunk(amount: u128, unlock_era: u32) -> UnlockingChunk {
    UnlockingChunk { amount, unlock_era }
}

#[test]
fn add_keeps_chunks_in_order_of_era() {
    let mut info = UnbondingInfo::default();
    assert!(info.is_empty());
    info.add(chunk(5, 7));
    info.add(chunk(3, 4));
    info.add(chunk(2, 9));
    assert_eq!(info.vec(), vec![chunk(3, 4), chunk(5, 7), chunk(2, 9)]);
    assert_eq!(info.len(), 3);
    assert_eq!(info.count(), 3);
    assert_eq!(info.sum(), 10);
    assert!(!info.is_empty());
    assert!(info.unlocks_in(7));
    assert!(!info.unlocks_in(8));
}

#[test]
fn add_merges_chunks_of_one_era() {
    let mut info = UnbondingInfo::default();
    info.add(chunk(5, 7));
    info.add(chunk(3, 4));
    info.add(chunk(11, 7));
    assert_eq!(info.vec(), vec![chunk(3, 4), chunk(16, 7)]);
    assert_eq!(info.len(), 2);
    info.add(chunk(1, 4));
    assert_eq!(info.vec(), vec![chunk(4, 4), chunk(16, 7)]);
}

#[test]
fn merged_amount_stops_at_the_largest_balance() {
    let mut info = UnbondingInfo::default();
    info.add(chunk(u128::MAX, 5));
    info.add(chunk(1, 5));
    assert_eq!(info.vec(), vec![chunk(u128::MAX, 5)]);
    info.add(chunk(9, 6));
    assert_eq!(info.sum(), u128::MAX);
}

#[test]
fn partition_splits_at_the_era_and_keeps_order_and_sum() {
    let mut info = UnbondingInfo::default();
    for (amount, era) in [(10, 2), (20, 5), (30, 3), (40, 9), (50, 4)] {
        info.add(chunk(amount, era));
    }
    let sum = info.sum();
    let (matured, pending) = info.clone().partition(4);
    assert_eq!(matured.vec(), vec![chunk(10, 2), chunk(30, 3), chunk(50, 4)]);
    assert_eq!(pending.vec(), vec![chunk(20, 5), chunk(40, 9)]);
    assert_eq!(matured.sum() + pending.sum(), sum);

    let (matured, pending) = info.clone().partition(1);
    assert!(matured.is_empty());
    assert_eq!(pending, info);

    let (matured, pending) = info.clone().partition(9);
    assert_eq!(matured, info);
    assert!(pending.is_empty());
}

#[test]
fn add_then_partition_keeps_the_total() {
    let mut info = UnbondingInfo::default();
    info.add(chunk(10, 2));
    info.add(chunk(20, 5));
    for (amount, era) in [(7, 1), (8, 2), (9, 3), (10, 5), (11, 8)] {
        for at in 0..10 {
            let mut copy = info.clone();
            copy.add(chunk(amount, era));
            let (matured, pending) = copy.partition(at);
            assert_eq!(matured.sum() + pending.sum(), 30 + amount);
        }
    }
}

#[test]
fn equality_respects_order_and_amounts() {
    let mut a = UnbondingInfo::default();
    let mut b = UnbondingInfo::default();
    a.add(chunk(1, 1));
    a.add(chunk(2, 2));
    b.add(chunk(2, 2));
    b.add(chunk(1, 1));
    assert_eq!(a, b);
    b.add(chunk(1, 1));
    assert_ne!(a, b);
}
