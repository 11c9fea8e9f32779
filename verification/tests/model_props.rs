//! Properties of the data model: splitting a diff into parts, well-formedness
//! checking, the block numbers a query walks, and the state store.

use papyrus_sync::protocol::{
    query_block_numbers, BlockHashOrNumber, BlockHash, BlockNumber, Direction, InternalQuery,
};
use papyrus_sync::state_diff::{split_state_diff, ThinStateDiff};
use papyrus_sync::sync::{assemble_block, StateStorage};

fn sample_diff() -> ThinStateDiff {
    ThinStateDiff {
        deployed_contracts: vec![(1, 2)],
        storage_diffs: vec![(1, vec![(5, 6), (7, 8)])],
        declared_classes: vec![],
        deprecated_declared_classes: vec![11],
        nonces: vec![(1, 1)],
        replaced_classes: vec![],
    }
}

#[test]
fn split_yields_one_part_per_populated_field() {
    let diff = sample_diff();
    let parts = split_state_diff(diff.clone());
    assert_eq!(parts.len(), 4);
    assert_eq!(parts[0].deployed_contracts, diff.deployed_contracts);
    assert_eq!(parts[1].storage_diffs, diff.storage_diffs);
    assert_eq!(parts[2].deprecated_declared_classes, diff.deprecated_declared_classes);
    assert_eq!(parts[3].nonces, diff.nonces);
    // Each part carries entries of exactly one field.
    for part in &parts {
        let field_count = [
            !part.deployed_contracts.is_empty(),
            !part.storage_diffs.is_empty(),
            !part.declared_classes.is_empty(),
            !part.deprecated_declared_classes.is_empty(),
            !part.nonces.is_empty(),
            !part.replaced_classes.is_empty(),
        ]
        .iter()
        .filter(|&&b| b)
        .count();
        assert_eq!(field_count, 1);
    }
    // The parts' lengths sum to the diff's length.
    let total: u64 = parts.iter().map(|p| p.try_len().unwrap()).sum();
    assert_eq!(total, diff.try_len().unwrap());
}

#[test]
fn split_parts_reassemble_into_the_same_diff() {
    let diff = sample_diff();
    let expected_length = diff.try_len().unwrap();
    let parts = split_state_diff(diff.clone());
    let reassembled = assemble_block(expected_length, parts);
    assert_eq!(reassembled, diff);
}

#[test]
fn splitting_the_empty_diff_yields_no_parts() {
    assert_eq!(split_state_diff(ThinStateDiff::default()), Vec::<ThinStateDiff>::new());
}

#[test]
fn diff_length_counts_storage_cells() {
    let diff = sample_diff();
    // One deployed contract, two storage cells, one deprecated class, one nonce.
    assert_eq!(diff.try_len(), Some(5));
    assert_eq!(ThinStateDiff::default().try_len(), Some(0));
    // A contract key with no cells counts nothing.
    let empty_inner = ThinStateDiff { storage_diffs: vec![(1, vec![])], ..Default::default() };
    assert_eq!(empty_inner.try_len(), Some(0));
}

#[test]
fn well_formedness_rejects_duplicate_keys() {
    assert!(sample_diff().is_well_formed());
    let dup_outer =
        ThinStateDiff { deployed_contracts: vec![(1, 2), (1, 3)], ..Default::default() };
    assert!(!dup_outer.is_well_formed());
    let dup_inner = ThinStateDiff {
        storage_diffs: vec![(1, vec![(5, 6), (5, 7)])],
        ..Default::default()
    };
    assert!(!dup_inner.is_well_formed());
    // Deprecated class hashes form a plain list and may repeat.
    let dup_deprecated =
        ThinStateDiff { deprecated_declared_classes: vec![4, 4], ..Default::default() };
    assert!(dup_deprecated.is_well_formed());
}

#[test]
fn conflict_detection_ignores_values() {
    let a = ThinStateDiff { deployed_contracts: vec![(1, 2)], ..Default::default() };
    let b = ThinStateDiff { deployed_contracts: vec![(1, 2)], ..Default::default() };
    let c = ThinStateDiff { deployed_contracts: vec![(2, 2)], ..Default::default() };
    assert!(a.conflicts_with(&b));
    assert!(!a.conflicts_with(&c));
    // Different fields never conflict.
    let d = ThinStateDiff { nonces: vec![(1, 2)], ..Default::default() };
    assert!(!a.conflicts_with(&d));
}

#[test]
fn query_block_numbers_walks_the_range() {
    let query = InternalQuery {
        start_block: BlockHashOrNumber::Number(BlockNumber(4)),
        direction: Direction::Forward,
        limit: 3,
        step: 2,
    };
    assert_eq!(query_block_numbers(&query), Some(vec![4, 6, 8]));

    let backward = InternalQuery { direction: Direction::Backward, ..query };
    assert_eq!(query_block_numbers(&backward), None);

    let from_hash = InternalQuery {
        start_block: BlockHashOrNumber::Hash(BlockHash(1)),
        ..query
    };
    assert_eq!(query_block_numbers(&from_hash), None);

    let past_the_end = InternalQuery {
        start_block: BlockHashOrNumber::Number(BlockNumber(u64::MAX - 1)),
        direction: Direction::Forward,
        limit: 3,
        step: 1,
    };
    assert_eq!(query_block_numbers(&past_the_end), None);
}

#[test]
fn storage_appends_advance_the_marker() {
    let mut storage = StateStorage::new();
    assert_eq!(storage.state_marker(), BlockNumber(0));
    assert!(storage.get_state_diff(BlockNumber(0)).is_none());
    let diff = sample_diff();
    storage.append_state_diff(BlockNumber(0), diff.clone());
    assert_eq!(storage.state_marker(), BlockNumber(1));
    assert_eq!(storage.get_state_diff(BlockNumber(0)), Some(&diff));
    assert!(storage.get_state_diff(BlockNumber(1)).is_none());
}
