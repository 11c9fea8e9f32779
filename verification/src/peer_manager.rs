//! Peer bookkeeping: known peers and their connectivity, fair round-robin
//! assignment of queries to peers, and reputation updates that block a
//! misbehaving peer for a configured time.

use vstd::prelude::*;

use crate::state_diff::seq_unique;

verus! {

/// A change to apply to a peer's reputation.
#[derive(Debug, Clone, Copy, PartialEq, Eq, Structural)]
pub enum ReputationModifier {
    Bad,
}

/// A known peer: its identity, its dialable address, the connection the swarm
/// holds to it (if any), and its blocking state.
#[derive(Debug, Clone, Copy, PartialEq, Eq, Structural)]
pub struct Peer {
    /// The peer's identity, as the word the logic reads of it.
    pub peer_id: u64,
    /// A handle for the peer's dialable address, which only the swarm reads.
    pub multiaddr: u64,
    /// The swarm's connection to the peer, when one is open.
    pub connection_id: Option<u64>,
    /// The instant, in milliseconds, until which the peer is blocked; zero when
    /// it was never blocked.
    pub blocked_until: u64,
    /// For how many milliseconds a reported peer stays blocked.
    pub timeout_millis: u64,
}

impl Peer {
    /// A peer is blocked exactly while `blocked_until` lies in the future.
    pub open spec fn spec_is_blocked(self, now: u64) -> bool {
        now < self.blocked_until
    }

    /// A fresh, unblocked, unconnected peer.
    pub fn new(peer_id: u64, multiaddr: u64) -> (r: Peer)
        ensures
            r == (Peer {
                peer_id,
                multiaddr,
                connection_id: None,
                blocked_until: 0,
                timeout_millis: 0,
            }),
    {
        Peer { peer_id, multiaddr, connection_id: None, blocked_until: 0, timeout_millis: 0 }
    }

    /// Whether the peer is blocked at the given instant.
    pub fn is_blocked(&self, now: u64) -> (r: bool)
        ensures
            r == self.spec_is_blocked(now),
    {
        now < self.blocked_until
    }

    /// Sets how long the peer stays blocked once reported.
    pub fn set_timeout_duration(&mut self, timeout_millis: u64)
        ensures
            *final(self) == (Peer { timeout_millis, ..*old(self) }),
    {
        self.timeout_millis = timeout_millis;
    }

    /// Blocks the peer from now for its timeout, saturating at the largest
    /// representable instant.
    pub fn update_reputation(&mut self, reason: ReputationModifier, now: u64)
        ensures
            *final(self) == (Peer {
                blocked_until: if now + old(self).timeout_millis <= u64::MAX {
                    (now + old(self).timeout_millis) as u64
                } else {
                    u64::MAX
                },
                ..*old(self)
            }),
    {
        let _ = reason;
        self.blocked_until = now.saturating_add(self.timeout_millis);
    }
}

/// Peer-management configuration.
#[derive(Debug, Clone, PartialEq, Eq)]
pub struct PeerManagerConfig {
    /// How many peers the node aims to know.
    pub target_num_for_peers: usize,
    /// For how many milliseconds a reported peer stays blocked.
    pub blacklist_timeout_millis: u64,
}

impl Default for PeerManagerConfig {
    /// By default: aim for a hundred peers, and block a reported peer for good.
    fn default() -> (r: Self)
        ensures
            r == (PeerManagerConfig {
                target_num_for_peers: 100,
                blacklist_timeout_millis: u64::MAX,
            }),
    {
        PeerManagerConfig { target_num_for_peers: 100, blacklist_timeout_millis: u64::MAX }
    }
}

/// A peer-management failure.
#[derive(Debug, Clone, Copy, PartialEq, Eq, Structural)]
pub enum PeerManagerError {
    NoSuchPeer(u64),
    NoSuchQuery(u64),
    PeerIsBlocked(u64),
}

/// An event the peer manager queues for the swarm layer.
#[derive(Debug, Clone, Copy, PartialEq, Eq, Structural)]
pub enum PeerManagerEvent {
    /// Tell the session layer that the query was assigned to the peer.
    NotifyQueryAssigned { query_id: u64, peer_id: u64 },
    /// Ask the swarm to dial the peer at the address handle.
    Dial { peer_id: u64, multiaddr: u64 },
}

/// The record that `add_peer` stores for a peer: the peer, with its blocking
/// timeout taken from the configuration.
pub open spec fn stored_peer(peer: Peer, config: PeerManagerConfig) -> Peer {
    Peer { timeout_millis: config.blacklist_timeout_millis, ..peer }
}

/// The identities of a sequence of peers.
pub open spec fn peer_ids(peers: Seq<Peer>) -> Seq<u64> {
    peers.map_values(|p: Peer| p.peer_id)
}

/// The value recorded last for a key in an append-only association log.
pub open spec fn assoc_last(s: Seq<(u64, u64)>, key: u64) -> Option<u64>
    decreases s.len(),
{
    if s.len() == 0 {
        None
    } else if s.last().0 == key {
        Some(s.last().1)
    } else {
        assoc_last(s.drop_last(), key)
    }
}

/// The index of the first non-blocked peer in a wrapping scan that starts at
/// `start` and tries the `k`-th slot onward, or nothing when every remaining
/// slot holds a blocked peer.
pub open spec fn rr_find(peers: Seq<Peer>, start: int, k: int, now: u64) -> Option<int>
    decreases peers.len() - k when 0 <= k <= peers.len()
{
    if k >= peers.len() {
        None
    } else {
        let index = (start + k) % (peers.len() as int);
        if !peers[index].spec_is_blocked(now) {
            Some(index)
        } else {
            rr_find(peers, start, k + 1, now)
        }
    }
}

/// The position of the peer with the identity, when one is recorded.
pub fn find_peer_index(peers: &Vec<Peer>, peer_id: u64) -> (r: Option<usize>)
    ensures
        match r {
            Some(i) => i < peers@.len() && peers@[i as int].peer_id == peer_id,
            None => forall|j: int| 0 <= j < peers@.len() ==> peers@[j].peer_id != peer_id,
        },
{
    let mut i: usize = 0;
    while i < peers.len()
        invariant
            i <= peers@.len(),
            forall|j: int| 0 <= j < i ==> peers@[j].peer_id != peer_id,
        decreases peers@.len() - i,
    {
        if peers[i].peer_id == peer_id {
            return Some(i);
        }
        i = i + 1;
    }
    None
}

/// Tracks peers and their connectivity, assigns queries to peers fairly, and
/// applies reputation updates.
pub struct PeerManager {
    /// The known peers, in insertion order, at most one record per identity.
    pub peers: Vec<Peer>,
    /// Which peer each query was assigned to, appended per assignment; the last
    /// entry for a query is current.
    pub query_to_peer_map: Vec<(u64, u64)>,
    /// The configuration.
    pub config: PeerManagerConfig,
    /// Where the last round-robin scan started.
    pub last_peer_index: usize,
    /// Events queued for the swarm layer.
    pub pending_events: Vec<PeerManagerEvent>,
    /// Events queued under a peer that is still being dialed, appended in order.
    pub peer_pending_dial_with_events: Vec<(u64, PeerManagerEvent)>,
}

impl PeerManager {
    /// One record per peer identity, and the rotation index stays in range.
    pub open spec fn wf(self) -> bool {
        &&& seq_unique(peer_ids(self.peers@))
        &&& (self.peers@.len() == 0 ==> self.last_peer_index == 0)
        &&& (self.peers@.len() > 0 ==> self.last_peer_index < self.peers@.len())
    }

    /// An empty manager with the given configuration.
    pub fn new(config: PeerManagerConfig) -> (r: PeerManager)
        ensures
            r.wf(),
            r.peers@ == Seq::<Peer>::empty(),
            r.query_to_peer_map@ == Seq::<(u64, u64)>::empty(),
            r.config == config,
            r.last_peer_index == 0,
            r.pending_events@ == Seq::<PeerManagerEvent>::empty(),
            r.peer_pending_dial_with_events@ == Seq::<(u64, PeerManagerEvent)>::empty(),
    {
        let r = PeerManager {
            peers: Vec::new(),
            query_to_peer_map: Vec::new(),
            config,
            last_peer_index: 0,
            pending_events: Vec::new(),
            peer_pending_dial_with_events: Vec::new(),
        };
        proof {
            assert(r.peers@ =~= Seq::<Peer>::empty());
            assert(r.query_to_peer_map@ =~= Seq::<(u64, u64)>::empty());
            assert(r.pending_events@ =~= Seq::<PeerManagerEvent>::empty());
            assert(r.peer_pending_dial_with_events@ =~= Seq::<(u64, PeerManagerEvent)>::empty());
        }
        r
    }

    /// Records a peer: its blocking timeout is set from the configuration, and
    /// an existing record with the same identity is overwritten in place.
    pub fn add_peer(&mut self, peer: Peer)
        requires
            old(self).wf(),
        ensures
            final(self).wf(),
            final(self).query_to_peer_map == old(self).query_to_peer_map,
            final(self).config == old(self).config,
            final(self).last_peer_index == old(self).last_peer_index,
            final(self).pending_events == old(self).pending_events,
            final(self).peer_pending_dial_with_events == old(self).peer_pending_dial_with_events,
            ({
                if peer_ids(old(self).peers@).contains(peer.peer_id) {
                    exists|i: int|
                        0 <= i < old(self).peers@.len() && old(self).peers@[i].peer_id
                            == peer.peer_id && final(self).peers@ == old(self).peers@.update(
                            i,
                            stored_peer(peer, old(self).config),
                        )
                } else {
                    final(self).peers@ == old(self).peers@.push(stored_peer(peer, old(self).config))
                }
            }),
    {
        let ghost peer0 = peer;
        let mut peer = peer;
        peer.set_timeout_duration(self.config.blacklist_timeout_millis);
        match find_peer_index(&self.peers, peer.peer_id) {
            Some(i) => {
                proof {
                    assert(peer_ids(self.peers@)[i as int] == peer0.peer_id);
                }
                self.peers[i] = peer;
                proof {
                    assert(peer_ids(self.peers@) =~= peer_ids(old(self).peers@).update(
                        i as int,
                        peer0.peer_id,
                    ));
                    assert(peer_ids(old(self).peers@).update(i as int, peer0.peer_id)
                        =~= peer_ids(old(self).peers@));
                    assert(0 <= i < old(self).peers@.len() && old(self).peers@[i as int].peer_id
                        == peer0.peer_id && self.peers@ == old(self).peers@.update(
                        i as int,
                        stored_peer(peer0, old(self).config),
                    ));
                }
            },
            None => {
                proof {
                    assert forall|j: int| 0 <= j < peer_ids(self.peers@).len() implies peer_ids(
                        self.peers@,
                    )[j] != peer0.peer_id by {
                        assert(peer_ids(self.peers@)[j] == self.peers@[j].peer_id);
                    }
                }
                self.peers.push(peer);
                proof {
                    assert(peer_ids(self.peers@) =~= peer_ids(old(self).peers@).push(
                        peer0.peer_id,
                    ));
                }
            },
        }
    }

    /// Whether the node should look for more peers.
    pub fn more_peers_needed(&self) -> (r: bool)
        ensures
            r == (self.peers@.len() < self.config.target_num_for_peers),
    {
        self.peers.len() < self.config.target_num_for_peers
    }

    /// Records that the swarm opened a connection to the peer; returns whether
    /// the peer is known.
    pub fn on_connection_established(&mut self, peer_id: u64, connection_id: u64) -> (r: bool)
        requires
            old(self).wf(),
        ensures
            final(self).wf(),
            final(self).query_to_peer_map == old(self).query_to_peer_map,
            final(self).config == old(self).config,
            final(self).last_peer_index == old(self).last_peer_index,
            final(self).pending_events == old(self).pending_events,
            final(self).peer_pending_dial_with_events == old(self).peer_pending_dial_with_events,
            r == peer_ids(old(self).peers@).contains(peer_id),
            r ==> exists|i: int|
                0 <= i < old(self).peers@.len() && old(self).peers@[i].peer_id == peer_id
                    && final(self).peers@ == old(self).peers@.update(
                    i,
                    (Peer { connection_id: Some(connection_id), ..old(self).peers@[i] }),
                ),
            !r ==> final(self).peers == old(self).peers,
    {
        let mut i: usize = 0;
        while i < self.peers.len()
            invariant
                old(self).wf(),
                *self == *old(self),
                i <= self.peers@.len(),
                forall|j: int| 0 <= j < i ==> peer_ids(self.peers@)[j] != peer_id,
            decreases self.peers@.len() - i,
        {
            if self.peers[i].peer_id == peer_id {
                proof {
                    assert(peer_ids(self.peers@)[i as int] == peer_id);
                }
                self.peers[i].connection_id = Some(connection_id);
                proof {
                    assert(peer_ids(self.peers@) =~= peer_ids(old(self).peers@).update(
                        i as int,
                        peer_id,
                    ));
                    assert(peer_ids(old(self).peers@).update(i as int, peer_id) =~= peer_ids(
                        old(self).peers@,
                    ));
                    assert(seq_unique(peer_ids(self.peers@)));
                }
                return true;
            }
            i = i + 1;
        }
        proof {
            assert forall|j: int| 0 <= j < peer_ids(self.peers@).len() implies peer_ids(
                self.peers@,
            )[j] != peer_id by {
                assert(peer_ids(self.peers@)[j] == self.peers@[j].peer_id);
            }
        }
        false
    }

    /// Assigns the query to a peer by round-robin at the given instant.
    ///
    /// On a non-empty peer set the rotation index advances by one, whether or
    /// not a peer was found, and the scan starts there: the first non-blocked
    /// peer in a single wrap of the rotation is chosen. The assignment is
    /// recorded; the notification is queued directly for a connected peer, and
    /// queued under the peer together with a dial command otherwise. Only an
    /// empty peer set or a fully blocked peer set yields no peer.
    pub fn assign_peer_to_query_at(&mut self, query_id: u64, now: u64) -> (r: Option<u64>)
        requires
            old(self).wf(),
        ensures
            final(self).wf(),
            final(self).peers == old(self).peers,
            final(self).config == old(self).config,
            old(self).peers@.len() == 0 ==> r is None && *final(self) == *old(self),
            old(self).peers@.len() > 0 ==> ({
                let n = old(self).peers@.len() as int;
                let start = (old(self).last_peer_index + 1) % n;
                &&& final(self).last_peer_index == start
                &&& (match rr_find(old(self).peers@, start, 0, now) {
                    Some(index) => {
                        let chosen = old(self).peers@[index];
                        &&& r == Some(chosen.peer_id)
                        &&& final(self).query_to_peer_map@ == old(self).query_to_peer_map@.push(
                            (query_id, chosen.peer_id),
                        )
                        &&& (chosen.connection_id is Some ==> final(self).pending_events@ == old(self).pending_events@.push(
                            PeerManagerEvent::NotifyQueryAssigned {
                                query_id,
                                peer_id: chosen.peer_id,
                            },
                        ) && final(self).peer_pending_dial_with_events == old(self).peer_pending_dial_with_events)
                        &&& (chosen.connection_id is None ==> final(self).peer_pending_dial_with_events@ == old(self).peer_pending_dial_with_events@.push(
                            (
                                chosen.peer_id,
                                PeerManagerEvent::NotifyQueryAssigned {
                                    query_id,
                                    peer_id: chosen.peer_id,
                                },
                            ),
                        ) && final(self).pending_events@ == old(self).pending_events@.push(
                            PeerManagerEvent::Dial {
                                peer_id: chosen.peer_id,
                                multiaddr: chosen.multiaddr,
                            },
                        ))
                    },
                    None => {
                        &&& r is None
                        &&& final(self).query_to_peer_map == old(self).query_to_peer_map
                        &&& final(self).pending_events == old(self).pending_events
                        &&& final(self).peer_pending_dial_with_events == old(self).peer_pending_dial_with_events
                    },
                })
            }),
            r matches Some(peer_id) ==> peer_ids(old(self).peers@).contains(peer_id) && assoc_last(
                final(self).query_to_peer_map@,
                query_id,
            ) == Some(peer_id),
    {
        let peer_count: usize = self.peers.len();
        if peer_count == 0 {
            return None;
        }
        let start: usize = (self.last_peer_index + 1) % peer_count;
        self.last_peer_index = start;
        let found = scan_from(&self.peers, start, now);
        match found {
            Some(index) => {
                let chosen_peer_id: u64 = self.peers[index].peer_id;
                let chosen_multiaddr: u64 = self.peers[index].multiaddr;
                let connected: bool = self.peers[index].connection_id.is_some();
                self.query_to_peer_map.push((query_id, chosen_peer_id));
                let event = PeerManagerEvent::NotifyQueryAssigned {
                    query_id,
                    peer_id: chosen_peer_id,
                };
                if connected {
                    self.pending_events.push(event);
                } else {
                    self.peer_pending_dial_with_events.push((chosen_peer_id, event));
                    self.pending_events.push(
                        PeerManagerEvent::Dial {
                            peer_id: chosen_peer_id,
                            multiaddr: chosen_multiaddr,
                        },
                    );
                }
                proof {
                    assert(peer_ids(old(self).peers@)[index as int] == chosen_peer_id);
                }
                Some(chosen_peer_id)
            },
            None => None,
        }
    }

    /// Assigns the query to a peer by round-robin, judging blocking by the
    /// wall clock. Whatever the instant: the rotation index advances by one on
    /// a non-empty peer set; a returned peer is a known peer, the assignment
    /// is recorded, and the notification is queued directly for a connected
    /// peer and under the peer with a dial command otherwise; a peer that was
    /// never blocked guarantees an assignment; with no peers nothing changes
    /// and no peer is returned.
    pub fn assign_peer_to_query(&mut self, query_id: u64) -> (r: Option<u64>)
        requires
            old(self).wf(),
        ensures
            final(self).wf(),
            final(self).peers == old(self).peers,
            final(self).config == old(self).config,
            old(self).peers@.len() == 0 ==> r is None && *final(self) == *old(self),
            old(self).peers@.len() > 0 ==> final(self).last_peer_index == (old(self).last_peer_index + 1) % (old(self).peers@.len() as int),
            (exists|i: int|
                0 <= i < old(self).peers@.len() && (#[trigger] old(self).peers@[i]).blocked_until
                    == 0) ==> r is Some,
            r matches Some(peer_id) ==> peer_ids(old(self).peers@).contains(peer_id) && assoc_last(
                final(self).query_to_peer_map@,
                query_id,
            ) == Some(peer_id),
            r matches Some(peer_id) ==> exists|i: int|
                0 <= i < old(self).peers@.len() && (#[trigger] old(self).peers@[i]).peer_id
                    == peer_id && (old(self).peers@[i].connection_id is Some ==> final(self).pending_events@ == old(self).pending_events@.push(
                    PeerManagerEvent::NotifyQueryAssigned { query_id, peer_id },
                ) && final(self).peer_pending_dial_with_events == old(self).peer_pending_dial_with_events) && (old(self).peers@[i].connection_id is None
                    ==> final(self).peer_pending_dial_with_events@ == old(self).peer_pending_dial_with_events@.push(
                    (peer_id, PeerManagerEvent::NotifyQueryAssigned { query_id, peer_id }),
                ) && final(self).pending_events@ == old(self).pending_events@.push(
                    PeerManagerEvent::Dial { peer_id, multiaddr: old(self).peers@[i].multiaddr },
                )),
            r is None ==> final(self).query_to_peer_map == old(self).query_to_peer_map && final(self).pending_events == old(self).pending_events && final(self).peer_pending_dial_with_events == old(self).peer_pending_dial_with_events,
    {
        let now = now_millis();
        let ghost before = *self;
        let r = self.assign_peer_to_query_at(query_id, now);
        proof {
            if before.peers@.len() > 0 {
                let n = before.peers@.len() as int;
                let start = (before.last_peer_index + 1) % n;
                if exists|i: int|
                    0 <= i < before.peers@.len() && (#[trigger] before.peers@[i]).blocked_until
                        == 0 {
                    let witness = choose|i: int|
                        0 <= i < before.peers@.len() && (#[trigger] before.peers@[i]).blocked_until
                            == 0;
                    lemma_rr_find_covers_unblocked(before.peers@, start, now, witness);
                }
                lemma_rr_find_in_range(before.peers@, start, 0, now);
                match rr_find(before.peers@, start, 0, now) {
                    Some(index) => {
                        assert(0 <= index < n && r == Some(before.peers@[index].peer_id));
                    },
                    None => {},
                }
            }
        }
        r
    }

    /// Blocks the reported peer for the configured timeout from the given
    /// instant; an unknown peer is the only failure.
    pub fn report_peer_at(&mut self, peer_id: u64, reason: ReputationModifier, now: u64) -> (r:
        Result<(), PeerManagerError>)
        requires
            old(self).wf(),
        ensures
            final(self).wf(),
            final(self).query_to_peer_map == old(self).query_to_peer_map,
            final(self).config == old(self).config,
            final(self).last_peer_index == old(self).last_peer_index,
            final(self).pending_events == old(self).pending_events,
            final(self).peer_pending_dial_with_events == old(self).peer_pending_dial_with_events,
            r == Ok::<(), PeerManagerError>(()) <==> peer_ids(old(self).peers@).contains(peer_id),
            r matches Err(e) ==> e == PeerManagerError::NoSuchPeer(peer_id) && final(self).peers
                == old(self).peers,
            r == Ok::<(), PeerManagerError>(()) ==> exists|i: int|
                0 <= i < old(self).peers@.len() && old(self).peers@[i].peer_id == peer_id
                    && final(self).peers@ == old(self).peers@.update(
                    i,
                    blocked_peer(old(self).peers@[i], now),
                ),
    {
        let _ = reason;
        match find_peer_index(&self.peers, peer_id) {
            Some(i) => {
                proof {
                    assert(peer_ids(self.peers@)[i as int] == peer_id);
                }
                self.peers[i].update_reputation(ReputationModifier::Bad, now);
                proof {
                    assert(peer_ids(self.peers@) =~= peer_ids(old(self).peers@).update(
                        i as int,
                        peer_id,
                    ));
                    assert(peer_ids(old(self).peers@).update(i as int, peer_id) =~= peer_ids(
                        old(self).peers@,
                    ));
                    assert(0 <= i < old(self).peers@.len() && old(self).peers@[i as int].peer_id
                        == peer_id && self.peers@ == old(self).peers@.update(
                        i as int,
                        blocked_peer(old(self).peers@[i as int], now),
                    ));
                }
                Ok(())
            },
            None => {
                proof {
                    assert forall|j: int| 0 <= j < peer_ids(self.peers@).len() implies peer_ids(
                        self.peers@,
                    )[j] != peer_id by {
                        assert(peer_ids(self.peers@)[j] == self.peers@[j].peer_id);
                    }
                }
                Err(PeerManagerError::NoSuchPeer(peer_id))
            },
        }
    }

    /// Blocks the reported peer for the configured timeout from now on.
    pub fn report_peer(&mut self, peer_id: u64, reason: ReputationModifier) -> (r: Result<
        (),
        PeerManagerError,
    >)
        requires
            old(self).wf(),
        ensures
            final(self).wf(),
            final(self).query_to_peer_map == old(self).query_to_peer_map,
            final(self).config == old(self).config,
            final(self).last_peer_index == old(self).last_peer_index,
            final(self).pending_events == old(self).pending_events,
            final(self).peer_pending_dial_with_events == old(self).peer_pending_dial_with_events,
            r == Ok::<(), PeerManagerError>(()) <==> peer_ids(old(self).peers@).contains(peer_id),
            r matches Err(e) ==> e == PeerManagerError::NoSuchPeer(peer_id) && final(self).peers
                == old(self).peers,
            r == Ok::<(), PeerManagerError>(()) ==> exists|i: int, instant: u64|
                0 <= i < old(self).peers@.len() && old(self).peers@[i].peer_id == peer_id
                    && final(self).peers@ == old(self).peers@.update(
                    i,
                    #[trigger] blocked_peer(old(self).peers@[i], instant),
                ),
    {
        let now = now_millis();
        self.report_peer_at(peer_id, reason, now)
    }

    /// Blocks the peer that the query was assigned to, for the configured
    /// timeout from the given instant. An unassigned query and a forgotten
    /// peer are the failures.
    pub fn report_query_at(&mut self, query_id: u64, reason: ReputationModifier, now: u64) -> (r:
        Result<(), PeerManagerError>)
        requires
            old(self).wf(),
        ensures
            final(self).wf(),
            final(self).query_to_peer_map == old(self).query_to_peer_map,
            final(self).config == old(self).config,
            final(self).last_peer_index == old(self).last_peer_index,
            final(self).pending_events == old(self).pending_events,
            final(self).peer_pending_dial_with_events == old(self).peer_pending_dial_with_events,
            ({
                match assoc_last(old(self).query_to_peer_map@, query_id) {
                    None => r == Err::<(), PeerManagerError>(
                        PeerManagerError::NoSuchQuery(query_id),
                    ) && final(self).peers == old(self).peers,
                    Some(peer_id) => {
                        &&& (r == Ok::<(), PeerManagerError>(()) <==> peer_ids(
                            old(self).peers@,
                        ).contains(peer_id))
                        &&& (r matches Err(e) ==> e == PeerManagerError::NoSuchPeer(peer_id)
                            && final(self).peers == old(self).peers)
                        &&& (r == Ok::<(), PeerManagerError>(()) ==> exists|i: int|
                            0 <= i < old(self).peers@.len() && old(self).peers@[i].peer_id
                                == peer_id && final(self).peers@ == old(self).peers@.update(
                                i,
                                blocked_peer(old(self).peers@[i], now),
                            ))
                    },
                }
            }),
    {
        let _ = reason;
        match lookup_query(&self.query_to_peer_map, query_id) {
            Some(peer_id) => self.report_peer_at(peer_id, ReputationModifier::Bad, now),
            None => Err(PeerManagerError::NoSuchQuery(query_id)),
        }
    }

    /// Blocks the peer that the query was assigned to, from now on.
    pub fn report_query(&mut self, query_id: u64, reason: ReputationModifier) -> (r: Result<
        (),
        PeerManagerError,
    >)
        requires
            old(self).wf(),
        ensures
            final(self).wf(),
            final(self).query_to_peer_map == old(self).query_to_peer_map,
            final(self).config == old(self).config,
            final(self).last_peer_index == old(self).last_peer_index,
            final(self).pending_events == old(self).pending_events,
            final(self).peer_pending_dial_with_events == old(self).peer_pending_dial_with_events,
            ({
                match assoc_last(old(self).query_to_peer_map@, query_id) {
                    None => r == Err::<(), PeerManagerError>(
                        PeerManagerError::NoSuchQuery(query_id),
                    ) && final(self).peers == old(self).peers,
                    Some(peer_id) => {
                        &&& (r == Ok::<(), PeerManagerError>(()) <==> peer_ids(
                            old(self).peers@,
                        ).contains(peer_id))
                        &&& (r matches Err(e) ==> e == PeerManagerError::NoSuchPeer(peer_id)
                            && final(self).peers == old(self).peers)
                        &&& (r == Ok::<(), PeerManagerError>(()) ==> exists|i: int, instant: u64|
                            0 <= i < old(self).peers@.len() && old(self).peers@[i].peer_id
                                == peer_id && final(self).peers@ == old(self).peers@.update(
                                i,
                                #[trigger] blocked_peer(old(self).peers@[i], instant),
                            ))
                    },
                }
            }),
    {
        let now = now_millis();
        self.report_query_at(query_id, reason, now)
    }
}

/// A peer as it stands after being reported at the given instant: blocked for
/// its timeout, saturating at the largest representable instant.
pub open spec fn blocked_peer(peer: Peer, now: u64) -> Peer {
    Peer {
        blocked_until: if now + peer.timeout_millis <= u64::MAX {
            (now + peer.timeout_millis) as u64
        } else {
            u64::MAX
        },
        ..peer
    }
}

/// The peer the query was assigned to last, per the append-only log.
pub fn lookup_query(map: &Vec<(u64, u64)>, query_id: u64) -> (r: Option<u64>)
    ensures
        r == assoc_last(map@, query_id),
{
    let mut i: usize = map.len();
    proof {
        assert(map@.subrange(0, map@.len() as int) =~= map@);
    }
    while i > 0
        invariant
            i <= map@.len(),
            assoc_last(map@, query_id) == assoc_last(map@.subrange(0, i as int), query_id),
        decreases i,
    {
        i = i - 1;
        proof {
            assert(map@.subrange(0, i + 1).drop_last() =~= map@.subrange(0, i as int));
            assert(map@.subrange(0, i + 1).last() == map@[i as int]);
        }
        if map[i].0 == query_id {
            return Some(map[i].1);
        }
    }
    None
}

/// The first non-blocked peer at or after `start`, wrapping once around the
/// rotation.
fn scan_from(peers: &Vec<Peer>, start: usize, now: u64) -> (r: Option<usize>)
    requires
        peers@.len() > 0,
        start < peers@.len(),
    ensures
        match r {
            Some(index) => rr_find(peers@, start as int, 0, now) == Some(index as int) && index
                < peers@.len(),
            None => rr_find(peers@, start as int, 0, now) is None,
        },
{
    let peer_count: usize = peers.len();
    let mut k: usize = 0;
    while k < peer_count
        invariant
            peers@.len() == peer_count,
            start < peer_count,
            k <= peer_count,
            rr_find(peers@, start as int, 0, now) == rr_find(peers@, start as int, k as int, now),
        decreases peer_count - k,
    {
        let index: usize = if k < peer_count - start {
            start + k
        } else {
            k - (peer_count - start)
        };
        proof {
            assert((start + k) % (peer_count as int) == index) by (nonlinear_arith)
                requires
                    0 <= start < peer_count,
                    0 <= k < peer_count,
                    index == if k < peer_count - start {
                        start + k
                    } else {
                        (start + k - peer_count) as int
                    },
            ;
        }
        if !peers[index].is_blocked(now) {
            return Some(index);
        }
        k = k + 1;
    }
    None
}



/// A found slot lies inside the rotation.
proof fn lemma_rr_find_in_range(peers: Seq<Peer>, start: int, k: int, now: u64)
    requires
        peers.len() > 0,
        0 <= start < peers.len(),
        0 <= k <= peers.len(),
    ensures
        (match rr_find(peers, start, k, now) {
            Some(index) => 0 <= index < peers.len(),
            None => true,
        }),
    decreases peers.len() - k,
{
    if k < peers.len() {
        let n = peers.len() as int;
        assert(0 <= (start + k) % n < n) by (nonlinear_arith)
            requires
                n > 0,
                start + k >= 0,
        ;
        lemma_rr_find_in_range(peers, start, k + 1, now);
    }
}

/// A wrap of the rotation that passes a non-blocked slot finds some peer.
proof fn lemma_rr_find_reaches(peers: Seq<Peer>, start: int, k: int, now: u64, offset: int)
    requires
        peers.len() > 0,
        0 <= start < peers.len(),
        0 <= k <= offset < peers.len(),
        !peers[(start + offset) % (peers.len() as int)].spec_is_blocked(now),
    ensures
        rr_find(peers, start, k, now) is Some,
    decreases offset - k,
{
    let n = peers.len() as int;
    if !peers[(start + k) % n].spec_is_blocked(now) {
    } else {
        lemma_rr_find_reaches(peers, start, k + 1, now, offset);
    }
}

/// With any peer that is not blocked at the instant, the scan finds a peer.
proof fn lemma_rr_find_covers_unblocked(peers: Seq<Peer>, start: int, now: u64, witness: int)
    requires
        peers.len() > 0,
        0 <= start < peers.len(),
        0 <= witness < peers.len(),
        !peers[witness].spec_is_blocked(now),
    ensures
        rr_find(peers, start, 0, now) is Some,
{
    let n = peers.len() as int;
    let offset = if witness >= start {
        witness - start
    } else {
        witness - start + n
    };
    assert((start + offset) % n == witness) by (nonlinear_arith)
        requires
            n > 0,
            0 <= witness < n,
            start + offset == witness || start + offset == witness + n,
    ;
    lemma_rr_find_reaches(peers, start, 0, now, offset);
}

/// Relies on chrono's `Utc::now` for the wall clock, which expects a system
/// clock at or past the epoch; a negative reading is clamped to zero. Nothing
/// is promised of the instant; callers hold for every value.
#[verifier::external_body]
fn now_millis() -> u64 {
    let millis = chrono::Utc::now().timestamp_millis();
    if millis < 0 {
        0
    } else {
        millis as u64
    }
}

/// With no peer blocked, the round-robin scan picks exactly its starting slot.
pub proof fn lemma_rr_find_unblocked(peers: Seq<Peer>, start: int, now: u64)
    requires
        peers.len() > 0,
        0 <= start < peers.len(),
        forall|i: int| 0 <= i < peers.len() ==> !(#[trigger] peers[i]).spec_is_blocked(now),
    ensures
        rr_find(peers, start, 0, now) == Some(start),
{
    assert((start + 0) % (peers.len() as int) == start) by (nonlinear_arith)
        requires
            0 <= start < peers.len(),
    ;
}

/// The peer slot that the `k`-th of a run of consecutive assignments chooses,
/// counting from rotation index `last`: each assignment advances the index by
/// one and scans from there.
pub open spec fn chosen_slot(peers: Seq<Peer>, last: int, k: int, now: u64) -> Option<int> {
    rr_find(peers, (last + 1 + k) % (peers.len() as int), 0, now)
}

/// Round-robin fairness: over a stable, non-empty peer set with no peer
/// blocked, every peer is chosen within `peer_count` consecutive assignments.
///
/// Each assignment on a non-empty peer set advances the rotation index by one
/// and scans from there, so the `k`-th of a run of consecutive assignments
/// that begins at rotation index `last` scans from
/// `(last + 1 + k) % peer_count` — and, with no peer blocked, chooses that
/// very slot. Every peer index is reached by some `k` within one full
/// rotation.
pub proof fn lemma_round_robin_cycles(peers: Seq<Peer>, last: int, now: u64, target: int)
    requires
        peers.len() > 0,
        0 <= last < peers.len(),
        0 <= target < peers.len(),
        forall|i: int| 0 <= i < peers.len() ==> !(#[trigger] peers[i]).spec_is_blocked(now),
    ensures
        exists|k: int|
            0 <= k < peers.len() && #[trigger] chosen_slot(peers, last, k, now) == Some(target),
{
    let n = peers.len() as int;
    let k = if target > last {
        target - last - 1
    } else {
        target - last - 1 + n
    };
    assert(0 <= k < n);
    assert((last + 1 + k) % n == target) by (nonlinear_arith)
        requires
            0 <= target < n,
            0 <= last < n,
            k == if target > last {
                target - last - 1
            } else {
                target - last - 1 + n
            },
    ;
    lemma_rr_find_unblocked(peers, target, now);
    assert(chosen_slot(peers, last, k, now) == Some(target));
}

/// An event of the peer-management behaviour, before mixing into the node's
/// single event stream.
#[derive(Debug, Clone, Copy, PartialEq, Eq, Structural)]
pub enum Event {
    /// A notification for the streamed-bytes session layer.
    NotifyStreamedBytes(PeerManagerEvent),
    /// A notification for the discovery layer, as an opaque handle.
    NotifyDiscovery(u64),
}

} // verus!
