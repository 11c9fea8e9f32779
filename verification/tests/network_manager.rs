//! The network manager scenarios: a subscriber's query answered over an
//! outbound session, a remote query served over an inbound session, and the
//! closing of an inbound session after an empty result set.

use papyrus_sync::codec::{decode_length_delimited_data, decode_query, encode_length_delimited_data};
use papyrus_sync::network_manager::{
    demux_session_items, frames_for_inbound_session, mixed_event_from, DemuxResult,
    GenericNetworkManager, InternalEvent, MixedEvent,
};
use papyrus_sync::peer_manager::{Event, PeerManagerEvent};
use papyrus_sync::protocol::{
    BlockHash, BlockHashOrNumber, BlockHeader, BlockNumber, Data, DataType, Direction,
    InternalQuery, Protocol, Query, QueryId,
};

const HEADER_BUFFER_SIZE: usize = 100;

fn header_data(block_number: u64) -> Data {
    Data::BlockHeaderAndSignature {
        header: BlockHeader {
            block_number: BlockNumber(block_number),
            block_hash: BlockHash(0),
            state_diff_length: None,
        },
        signatures: vec![],
    }
}

#[test]
fn register_subscriber_and_use_channels() {
    let mut network_manager = GenericNetworkManager::generic_new(HEADER_BUFFER_SIZE);

    let query_limit = 5u64;
    let start_block_number = 0u64;
    let query = Query {
        start_block: BlockNumber(start_block_number),
        direction: Direction::Forward,
        limit: query_limit,
        step: 1,
        data_type: DataType::SignedBlockHeader,
    };

    // Register a subscriber and send its query.
    let subscriber = network_manager.register_subscriber(vec![Protocol::SignedBlockHeader]);
    assert_eq!(subscriber, 0);
    let (query_bytes, protocol) = network_manager.prepare_subscriber_query(&query);
    assert_eq!(protocol, Protocol::SignedBlockHeader);

    // The swarm's side decodes the very query that was sent.
    assert_eq!(
        decode_query(&query_bytes),
        Some(InternalQuery {
            start_block: BlockHashOrNumber::Number(BlockNumber(start_block_number)),
            direction: Direction::Forward,
            limit: query_limit,
            step: 1,
        })
    );

    // The swarm opens an outbound session for the query.
    let outbound_session_id = 0u64;
    network_manager.record_outbound_session(outbound_session_id, protocol);

    // The remote answers with one header per requested block, in order.
    let mut received = Vec::new();
    for block_number in start_block_number..(start_block_number + query_limit) {
        let frame = encode_length_delimited_data(&header_data(block_number));
        match network_manager.handle_received_data(outbound_session_id, &frame) {
            DemuxResult::Deliver(p, item) => {
                assert_eq!(p, Protocol::SignedBlockHeader);
                received.push(item);
            },
            other => panic!("unexpected demux result {other:?}"),
        }
    }
    let fin_frame = encode_length_delimited_data(&Data::Fin(DataType::SignedBlockHeader));
    match network_manager.handle_received_data(outbound_session_id, &fin_frame) {
        DemuxResult::CloseStream(p) => assert_eq!(p, Protocol::SignedBlockHeader),
        other => panic!("unexpected demux result {other:?}"),
    }

    // The subscriber received all headers, in block order.
    assert_eq!(received.len(), query_limit as usize);
    for (i, item) in received.iter().enumerate() {
        match item {
            Data::BlockHeaderAndSignature { header, signatures } => {
                assert_eq!(header.block_number.0, i as u64);
                assert!(signatures.is_empty());
            },
            other => panic!("unexpected item {other:?}"),
        }
    }

    // Nothing arrives after the stream closed.
    let late_frame = encode_length_delimited_data(&header_data(99));
    assert_eq!(
        network_manager.handle_received_data(outbound_session_id, &late_frame),
        DemuxResult::SessionUnknown
    );
}

#[test]
fn process_incoming_query() {
    const BLOCK_NUM: u64 = 0;
    let query = InternalQuery {
        start_block: BlockHashOrNumber::Number(BlockNumber(BLOCK_NUM)),
        direction: Direction::Forward,
        limit: 5,
        step: 1,
    };
    let headers: Vec<Data> = (0..5)
        .map(|i| {
            Data::BlockHeaderAndSignature {
                header: BlockHeader {
                    block_number: BlockNumber(i),
                    block_hash: BlockHash(0),
                    state_diff_length: Some(0),
                },
                signatures: vec![],
            }
        })
        .collect();

    let mut network_manager = GenericNetworkManager::generic_new(HEADER_BUFFER_SIZE);

    // The manager accepts the inbound session and registers a database query.
    let query_bytes = papyrus_sync::codec::encode_query(&query);
    let inbound_session_id = 0u64;
    let (decoded_query, query_id) =
        network_manager.handle_new_inbound_session(&query_bytes, inbound_session_id).unwrap();
    assert_eq!(decoded_query, query);
    assert_eq!(query_id, QueryId(0));

    // The database's results go to the swarm framed and in order, then the
    // end-of-stream marker.
    let frames = frames_for_inbound_session(&headers, DataType::SignedBlockHeader);
    let mut inbound_session_data = Vec::new();
    for frame in &frames {
        inbound_session_data.push(decode_length_delimited_data(frame).unwrap());
    }
    let mut expected_data = headers.clone();
    expected_data.push(Data::Fin(DataType::SignedBlockHeader));
    assert_eq!(inbound_session_data, expected_data);
}

#[test]
fn close_inbound_session() {
    let query_limit = 5u64;
    let start_block_number = 0u64;
    let query = InternalQuery {
        start_block: BlockHashOrNumber::Number(BlockNumber(start_block_number)),
        direction: Direction::Forward,
        limit: query_limit,
        step: 1,
    };
    let query_bytes = papyrus_sync::codec::encode_query(&query);

    // The database returns an empty header set.
    let headers: Vec<Data> = vec![];

    let mut network_manager = GenericNetworkManager::generic_new(HEADER_BUFFER_SIZE);
    let inbound_session_id = 0u64;
    network_manager.handle_new_inbound_session(&query_bytes, inbound_session_id).unwrap();

    // The swarm receives only the end-of-stream marker.
    let frames = frames_for_inbound_session(&headers, DataType::SignedBlockHeader);
    assert_eq!(frames.len(), 1);
    assert_eq!(
        decode_length_delimited_data(&frames[0]),
        Some(Data::Fin(DataType::SignedBlockHeader))
    );

    // The session is closed exactly once.
    assert_eq!(network_manager.finish_inbound_session(inbound_session_id), Some(QueryId(0)));
    assert_eq!(network_manager.finish_inbound_session(inbound_session_id), None);
}

#[test]
fn malformed_frame_keeps_session_open() {
    let mut network_manager = GenericNetworkManager::generic_new(HEADER_BUFFER_SIZE);
    network_manager.record_outbound_session(3, Protocol::SignedBlockHeader);
    let garbage = vec![255u8, 1, 2, 3];
    assert_eq!(
        network_manager.handle_received_data(3, &garbage),
        DemuxResult::MalformedData
    );
    // The session survives a malformed frame.
    let frame = encode_length_delimited_data(&header_data(4));
    assert!(matches!(
        network_manager.handle_received_data(3, &frame),
        DemuxResult::Deliver(Protocol::SignedBlockHeader, _)
    ));
}

#[test]
fn malformed_inbound_query_is_rejected() {
    let mut network_manager = GenericNetworkManager::generic_new(HEADER_BUFFER_SIZE);
    let garbage = vec![9u8, 9, 9];
    assert!(network_manager.handle_new_inbound_session(&garbage, 0).is_none());
    // Nothing was recorded for the rejected session.
    assert_eq!(network_manager.finish_inbound_session(0), None);
}

#[test]
fn session_closed_drops_mapping() {
    let mut network_manager = GenericNetworkManager::generic_new(HEADER_BUFFER_SIZE);
    network_manager.record_outbound_session(7, Protocol::StateDiff);
    assert_eq!(network_manager.handle_session_closed(7), Some(Protocol::StateDiff));
    assert_eq!(network_manager.handle_session_closed(7), None);
}

#[test]
fn demux_stops_at_first_fin() {
    let items = vec![
        header_data(0),
        header_data(1),
        Data::Fin(DataType::SignedBlockHeader),
        header_data(2),
    ];
    let (delivered, closed) = demux_session_items(items);
    assert!(closed);
    assert_eq!(delivered, vec![header_data(0), header_data(1)]);

    let open_items = vec![header_data(0), header_data(1)];
    let (delivered, closed) = demux_session_items(open_items.clone());
    assert!(!closed);
    assert_eq!(delivered, open_items);
}

#[test]
fn behaviour_events_mix_into_internal_events() {
    let notify = PeerManagerEvent::NotifyQueryAssigned { query_id: 1, peer_id: 2 };
    assert_eq!(
        mixed_event_from(Event::NotifyStreamedBytes(notify)),
        MixedEvent::InternalEvent(InternalEvent::NotifyStreamedBytes(notify))
    );
    assert_eq!(
        mixed_event_from(Event::NotifyDiscovery(9)),
        MixedEvent::InternalEvent(InternalEvent::NotifyDiscovery(9))
    );
}
