//! The state-diff synchronization scenarios: the windowed query flow with
//! per-block commits, and the engine's rejection of empty, short, oversized
//! and overlapping part sequences.

use papyrus_sync::protocol::{BlockHash, BlockHeader, BlockNumber, DataType, Direction, Query,
    SignedBlockHeader};
use papyrus_sync::state_diff::{split_state_diff, ThinStateDiff};
use papyrus_sync::sync::{P2PSyncConfig, P2PSyncError, StateDiffSync, StateStorage};
use rand::Rng;
use rand::SeedableRng;

const STATE_DIFF_QUERY_LENGTH: u64 = 3;
const HEADER_QUERY_LENGTH: u64 = 5;

fn get_rng() -> rand::rngs::StdRng {
    rand::rngs::StdRng::seed_from_u64(0x5ca1ab1e)
}

fn create_random_state_diff(rng: &mut impl Rng) -> ThinStateDiff {
    let contract0 = rng.next_u64();
    let contract1 = rng.next_u64();
    let contract2 = rng.next_u64();
    assert!(contract0 != contract1 && contract0 != contract2 && contract1 != contract2);
    papyrus_sync::state_diff::state_diff_from_words(
        contract0,
        contract1,
        contract2,
        rng.next_u64(),
        rng.next_u64(),
        rng.next_u64(),
    )
}

fn setup() -> (StateDiffSync, StateStorage) {
    let config = P2PSyncConfig {
        header_query_length: HEADER_QUERY_LENGTH,
        state_diff_query_length: STATE_DIFF_QUERY_LENGTH,
    };
    let sync = StateDiffSync::new(config, BlockNumber(0));
    let storage = StateStorage::new();
    (sync, storage)
}

fn signed_header(block_number: u64, state_diff_length: u64) -> SignedBlockHeader {
    SignedBlockHeader {
        block_header: BlockHeader {
            block_number: BlockNumber(block_number),
            block_hash: BlockHash(block_number + 1000),
            state_diff_length: Some(state_diff_length),
        },
        signatures: vec![],
    }
}

#[test]
fn state_diff_basic_flow() {
    // The constants make two state diff queries per header query, the second
    // one smaller than the first.
    assert!(STATE_DIFF_QUERY_LENGTH < HEADER_QUERY_LENGTH);
    assert!(HEADER_QUERY_LENGTH < 2 * STATE_DIFF_QUERY_LENGTH);

    let (mut sync, mut storage) = setup();
    let mut rng = get_rng();
    let state_diffs: Vec<ThinStateDiff> =
        (0..HEADER_QUERY_LENGTH).map(|_| create_random_state_diff(&mut rng)).collect();

    // Before any header arrives there is no state diff query.
    assert!(sync.next_state_diff_query(storage.state_marker()).is_none());

    // Send headers for the entire header query.
    for (i, state_diff) in state_diffs.iter().enumerate() {
        sync.on_signed_header(&signed_header(i as u64, state_diff.try_len().unwrap()));
    }

    for (start_block_number, num_blocks) in [
        (0u64, STATE_DIFF_QUERY_LENGTH),
        (STATE_DIFF_QUERY_LENGTH, HEADER_QUERY_LENGTH - STATE_DIFF_QUERY_LENGTH),
    ] {
        // Get a state diff query and validate it.
        let query = sync.next_state_diff_query(storage.state_marker()).unwrap();
        assert_eq!(
            query,
            Query {
                start_block: BlockNumber(start_block_number),
                direction: Direction::Forward,
                limit: num_blocks,
                step: 1,
                data_type: DataType::StateDiff,
            }
        );

        for block_number in start_block_number..(start_block_number + num_blocks) {
            let expected_state_diff = &state_diffs[block_number as usize];
            let state_diff_parts = split_state_diff(expected_state_diff.clone());

            for state_diff_part in state_diff_parts {
                // Before all parts arrived, the block is unwritten.
                assert_eq!(storage.state_marker(), BlockNumber(block_number));
                sync.on_state_diff_part(&mut storage, Some(state_diff_part)).unwrap();
            }

            // The block's state diff was written before the query ended.
            assert_eq!(storage.state_marker(), BlockNumber(block_number + 1));
            let state_diff = storage.get_state_diff(BlockNumber(block_number)).unwrap();
            assert_eq!(state_diff, expected_state_diff);
        }
        sync.on_state_diff_part(&mut storage, None).unwrap();
    }
}

fn validate_state_diff_fails(
    state_diff_length_in_header: u64,
    state_diff_parts: Vec<Option<ThinStateDiff>>,
    error_validator: impl Fn(P2PSyncError),
) {
    let (mut sync, mut storage) = setup();

    // A single header suffices.
    sync.on_signed_header(&signed_header(0, state_diff_length_in_header));

    // Get a state diff query and validate it.
    let query = sync.next_state_diff_query(storage.state_marker()).unwrap();
    assert_eq!(
        query,
        Query {
            start_block: BlockNumber(0),
            direction: Direction::Forward,
            limit: 1,
            step: 1,
            data_type: DataType::StateDiff,
        }
    );

    // Send state diff parts until the engine rejects one.
    for state_diff_part in state_diff_parts {
        // Before all parts arrived, nothing is written.
        assert_eq!(storage.state_marker(), BlockNumber(0));
        match sync.on_state_diff_part(&mut storage, state_diff_part) {
            Ok(_) => {},
            Err(error) => {
                error_validator(error);
                return;
            },
        }
    }
    panic!("P2P sync did not receive error");
}

#[test]
fn state_diff_empty_state_diff() {
    validate_state_diff_fails(1, vec![Some(ThinStateDiff::default())], |error| {
        assert!(matches!(error, P2PSyncError::EmptyStateDiffPart))
    });

    validate_state_diff_fails(
        1,
        vec![Some(ThinStateDiff { storage_diffs: vec![(0, vec![])], ..Default::default() })],
        |error| assert!(matches!(error, P2PSyncError::EmptyStateDiffPart)),
    );
}

#[test]
fn state_diff_stopped_in_middle() {
    validate_state_diff_fails(
        2,
        vec![
            Some(ThinStateDiff { deprecated_declared_classes: vec![0], ..Default::default() }),
            None,
        ],
        |error| match error {
            P2PSyncError::WrongStateDiffLength { expected_length, possible_lengths } => {
                assert_eq!(expected_length, 2);
                assert_eq!(possible_lengths, vec![1]);
            },
            other => panic!("unexpected error {other:?}"),
        },
    );
}

#[test]
fn state_diff_not_splitted_correctly() {
    validate_state_diff_fails(
        2,
        vec![
            Some(ThinStateDiff { deprecated_declared_classes: vec![0], ..Default::default() }),
            Some(ThinStateDiff { deprecated_declared_classes: vec![1, 2], ..Default::default() }),
        ],
        |error| match error {
            P2PSyncError::WrongStateDiffLength { expected_length, possible_lengths } => {
                assert_eq!(expected_length, 2);
                assert_eq!(possible_lengths, vec![1, 3]);
            },
            other => panic!("unexpected error {other:?}"),
        },
    );
}

#[test]
fn state_diff_conflicting() {
    validate_state_diff_fails(
        2,
        vec![
            Some(ThinStateDiff { deployed_contracts: vec![(0, 0)], ..Default::default() }),
            Some(ThinStateDiff { deployed_contracts: vec![(0, 0)], ..Default::default() }),
        ],
        |error| assert!(matches!(error, P2PSyncError::ConflictingStateDiffParts)),
    );
    validate_state_diff_fails(
        2,
        vec![
            Some(ThinStateDiff { storage_diffs: vec![(0, vec![(0, 0)])], ..Default::default() }),
            Some(ThinStateDiff { storage_diffs: vec![(0, vec![(0, 0)])], ..Default::default() }),
        ],
        |error| assert!(matches!(error, P2PSyncError::ConflictingStateDiffParts)),
    );
    validate_state_diff_fails(
        2,
        vec![
            Some(ThinStateDiff { declared_classes: vec![(0, 0)], ..Default::default() }),
            Some(ThinStateDiff { declared_classes: vec![(0, 0)], ..Default::default() }),
        ],
        |error| assert!(matches!(error, P2PSyncError::ConflictingStateDiffParts)),
    );
    validate_state_diff_fails(
        2,
        vec![
            Some(ThinStateDiff { deprecated_declared_classes: vec![0], ..Default::default() }),
            Some(ThinStateDiff { deprecated_declared_classes: vec![0], ..Default::default() }),
        ],
        |error| assert!(matches!(error, P2PSyncError::ConflictingStateDiffParts)),
    );
    validate_state_diff_fails(
        2,
        vec![
            Some(ThinStateDiff { nonces: vec![(0, 0)], ..Default::default() }),
            Some(ThinStateDiff { nonces: vec![(0, 0)], ..Default::default() }),
        ],
        |error| assert!(matches!(error, P2PSyncError::ConflictingStateDiffParts)),
    );
    validate_state_diff_fails(
        2,
        vec![
            Some(ThinStateDiff { replaced_classes: vec![(0, 0)], ..Default::default() }),
            Some(ThinStateDiff { replaced_classes: vec![(0, 0)], ..Default::default() }),
        ],
        |error| assert!(matches!(error, P2PSyncError::ConflictingStateDiffParts)),
    );
}

#[test]
fn state_diff_zero_length_blocks_commit_without_parts() {
    let (mut sync, mut storage) = setup();
    sync.on_signed_header(&signed_header(0, 0));
    sync.on_signed_header(&signed_header(1, 1));
    sync.commit_empty_blocks(&mut storage);
    assert_eq!(storage.state_marker(), BlockNumber(0 + 1));
    assert_eq!(storage.get_state_diff(BlockNumber(0)).unwrap(), &ThinStateDiff::default());

    let query = sync.next_state_diff_query(storage.state_marker()).unwrap();
    assert_eq!(query.start_block, BlockNumber(1));
    assert_eq!(query.limit, 1);
    let part = ThinStateDiff { nonces: vec![(7, 1)], ..Default::default() };
    assert_eq!(sync.on_state_diff_part(&mut storage, Some(part)), Ok(true));
    assert_eq!(storage.state_marker(), BlockNumber(2));
}
