use massbit_dapi::fisherman;
use massbit_dapi::oracle;

#[test]
fn fishermen_are_those_named_at_the_start() {
    let genesis = fisherman::GenesisConfig { fishermen: vec![4, 2, 4, 9] };
    let pallet = genesis.build();
    assert!(pallet.is_member(&2));
    assert!(pallet.is_member(&4));
    assert!(pallet.is_member(&9));
    assert!(!pallet.is_member(&3));
    assert_eq!(pallet.fishermen.len(), 3);
    assert!(!fisherman::GenesisConfig::default().build().is_member(&2));
}

#[test]
fn initialize_replaces_the_fishermen() {
    let mut pallet = fisherman::GenesisConfig { fishermen: vec![1, 2] }.build();
    pallet.initialize_fishermen(&vec![2, 3]);
    assert!(!pallet.is_member(&1));
    assert!(pallet.is_member(&2));
    assert!(pallet.is_member(&3));
}

#[test]
fn oracles_are_those_named_at_the_start() {
    let genesis = oracle::GenesisConfig { oracles: vec![7, 7, 1] };
    let mut pallet = genesis.build();
    assert!(pallet.is_member(&7));
    assert!(pallet.is_member(&1));
    assert!(!pallet.is_member(&2));
    pallet.initialize_oracles(&vec![]);
    assert!(!pallet.is_member(&7));
    assert!(!oracle::GenesisConfig::default().build().is_member(&7));
}
