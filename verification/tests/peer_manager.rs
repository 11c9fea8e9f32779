//! Peer manager behaviour: round-robin assignment over the peer set, blocking
//! by reputation, dial queueing for unconnected peers, and the error cases.

use papyrus_sync::peer_manager::{
    lookup_query, Peer, PeerManager, PeerManagerConfig, PeerManagerError, PeerManagerEvent,
    ReputationModifier,
};

fn manager_with_peers(peer_ids: &[u64]) -> PeerManager {
    let mut manager = PeerManager::new(PeerManagerConfig {
        target_num_for_peers: 100,
        blacklist_timeout_millis: 1000,
    });
    for &peer_id in peer_ids {
        manager.add_peer(Peer::new(peer_id, peer_id + 500));
    }
    manager
}

#[test]
fn round_robin_cycles_through_all_peers() {
    let mut manager = manager_with_peers(&[10, 20, 30]);
    let now = 0u64;
    let mut chosen = Vec::new();
    for query_id in 0..3u64 {
        chosen.push(manager.assign_peer_to_query_at(query_id, now).unwrap());
    }
    // Within three consecutive assignments over three unblocked peers, every
    // peer is chosen exactly once.
    let mut sorted = chosen.clone();
    sorted.sort();
    assert_eq!(sorted, vec![10, 20, 30]);
    // And the rotation repeats in the same order.
    for (i, query_id) in (3..6u64).enumerate() {
        assert_eq!(manager.assign_peer_to_query_at(query_id, now), Some(chosen[i]));
    }
}

#[test]
fn assign_with_no_peers_returns_none() {
    let mut manager = manager_with_peers(&[]);
    assert_eq!(manager.assign_peer_to_query_at(0, 0), None);
}

#[test]
fn assignment_is_recorded_for_reporting() {
    let mut manager = manager_with_peers(&[10, 20]);
    let peer = manager.assign_peer_to_query_at(42, 0).unwrap();
    assert_eq!(lookup_query(&manager.query_to_peer_map, 42), Some(peer));
    assert_eq!(manager.report_query_at(42, ReputationModifier::Bad, 0), Ok(()));
    assert_eq!(
        manager.report_query_at(43, ReputationModifier::Bad, 0),
        Err(PeerManagerError::NoSuchQuery(43))
    );
}

#[test]
fn blocked_peers_are_skipped_until_timeout_passes() {
    let mut manager = manager_with_peers(&[10, 20]);
    assert_eq!(manager.report_peer_at(10, ReputationModifier::Bad, 0), Ok(()));
    // While peer ten is blocked, every assignment lands on peer twenty.
    let now_blocked = 500u64;
    assert_eq!(manager.assign_peer_to_query_at(0, now_blocked), Some(20));
    assert_eq!(manager.assign_peer_to_query_at(1, now_blocked), Some(20));
    // Once the timeout passed, peer ten is chosen again.
    let now_after = 1000u64;
    let mut chosen = vec![
        manager.assign_peer_to_query_at(2, now_after).unwrap(),
        manager.assign_peer_to_query_at(3, now_after).unwrap(),
    ];
    chosen.sort();
    assert_eq!(chosen, vec![10, 20]);
}

#[test]
fn fully_blocked_peer_set_yields_no_peer() {
    let mut manager = manager_with_peers(&[10]);
    assert_eq!(manager.report_peer_at(10, ReputationModifier::Bad, 0), Ok(()));
    assert_eq!(manager.assign_peer_to_query_at(0, 500), None);
}

#[test]
fn report_unknown_peer_fails() {
    let mut manager = manager_with_peers(&[10]);
    assert_eq!(
        manager.report_peer_at(77, ReputationModifier::Bad, 0),
        Err(PeerManagerError::NoSuchPeer(77))
    );
}

#[test]
fn unconnected_peer_assignment_queues_dial() {
    let mut manager = manager_with_peers(&[10]);
    let peer = manager.assign_peer_to_query_at(5, 0).unwrap();
    assert_eq!(peer, 10);
    // The notification waits under the peer, and a dial command is queued.
    assert_eq!(
        manager.peer_pending_dial_with_events,
        vec![(10, PeerManagerEvent::NotifyQueryAssigned { query_id: 5, peer_id: 10 })]
    );
    assert_eq!(
        manager.pending_events,
        vec![PeerManagerEvent::Dial { peer_id: 10, multiaddr: 510 }]
    );
}

#[test]
fn connected_peer_assignment_notifies_directly() {
    let mut manager = manager_with_peers(&[10]);
    assert!(manager.on_connection_established(10, 1));
    let peer = manager.assign_peer_to_query_at(5, 0).unwrap();
    assert_eq!(peer, 10);
    assert!(manager.peer_pending_dial_with_events.is_empty());
    assert_eq!(
        manager.pending_events,
        vec![PeerManagerEvent::NotifyQueryAssigned { query_id: 5, peer_id: 10 }]
    );
}

#[test]
fn add_peer_overwrites_existing_record() {
    let mut manager = manager_with_peers(&[10]);
    assert!(manager.on_connection_established(10, 1));
    manager.add_peer(Peer::new(10, 999));
    assert_eq!(manager.peers.len(), 1);
    assert_eq!(manager.peers[0].multiaddr, 999);
    assert_eq!(manager.peers[0].connection_id, None);
    // The stored timeout comes from the configuration.
    assert_eq!(manager.peers[0].timeout_millis, 1000);
}

#[test]
fn more_peers_needed_tracks_target() {
    let mut manager = PeerManager::new(PeerManagerConfig {
        target_num_for_peers: 2,
        blacklist_timeout_millis: 1000,
    });
    assert!(manager.more_peers_needed());
    manager.add_peer(Peer::new(1, 1));
    manager.add_peer(Peer::new(2, 2));
    assert!(!manager.more_peers_needed());
}

#[test]
fn default_config_blocks_reported_peers_for_good() {
    let config = PeerManagerConfig::default();
    assert_eq!(config.target_num_for_peers, 100);
    assert_eq!(config.blacklist_timeout_millis, u64::MAX);
    let mut manager = PeerManager::new(config);
    manager.add_peer(Peer::new(1, 1));
    assert_eq!(manager.report_peer_at(1, ReputationModifier::Bad, 12345), Ok(()));
    assert!(manager.peers[0].is_blocked(u64::MAX - 1));
}
