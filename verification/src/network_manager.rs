//! The network manager's decision core: subscriber registration, translation
//! of subscriber queries to wire bytes, session tables for outbound and
//! inbound sessions, demultiplexing of received frames to subscribers, and
//! framing of database results for inbound sessions.
//!
//! The surrounding event loop performs the swarm and channel traffic; every
//! routing decision stands here.

use vstd::prelude::*;

use crate::codec::{
    decode_length_delimited_data, decode_query, encode_length_delimited_data, encode_query,
    spec_decode_query, spec_encode_data, spec_encode_query, spec_frame,
};
use crate::protocol::{BlockHashOrNumber, Data, DataType, InternalQuery, Protocol, Query, QueryId};

verus! {

/// What the manager does with one received frame of an outbound session.
#[derive(Debug, Clone, PartialEq, Eq)]
pub enum DemuxResult {
    /// Hand the item to the subscriber listening on the protocol.
    Deliver(Protocol, Data),
    /// The remote ended the stream: close the subscriber's sink.
    CloseStream(Protocol),
    /// The frame belongs to no open session; it is dropped.
    SessionUnknown,
    /// The frame does not decode; it is dropped and the session stays open.
    MalformedData,
}

/// The keys of an association list.
pub open spec fn table_keys<T>(s: Seq<(u64, T)>) -> Seq<u64> {
    s.map_values(|p: (u64, T)| p.0)
}

/// The streamed items a subscriber sees of a session: the items the remote
/// sent, in order, up to the first end-of-stream marker.
pub open spec fn deliveries(items: Seq<Data>) -> Seq<Data>
    decreases items.len(),
{
    if items.len() == 0 {
        Seq::empty()
    } else if items[0] is Fin {
        Seq::empty()
    } else {
        seq![items[0]] + deliveries(items.drop_first())
    }
}

/// Whether the remote ended the stream somewhere in the items.
pub open spec fn stream_closes(items: Seq<Data>) -> bool {
    exists|i: int| 0 <= i < items.len() && (#[trigger] items[i]) is Fin
}

/// What a subscriber sees of an outbound session is a prefix of what the
/// remote sent, in the order it was sent, holds no end-of-stream marker
/// itself, and is the whole stream exactly when the remote never ended it.
pub proof fn lemma_deliveries_prefix(items: Seq<Data>)
    ensures
        deliveries(items).len() <= items.len(),
        deliveries(items) == items.subrange(0, deliveries(items).len() as int),
        forall|i: int| 0 <= i < deliveries(items).len() ==> !((#[trigger] deliveries(items)[i])
            is Fin),
        !stream_closes(items) ==> deliveries(items) == items,
        stream_closes(items) ==> deliveries(items).len() < items.len() && items[deliveries(
            items,
        ).len() as int] is Fin,
    decreases items.len(),
{
    if items.len() == 0 {
        assert(deliveries(items) =~= items.subrange(0, 0));
        assert(deliveries(items) =~= items);
    } else if items[0] is Fin {
        assert(deliveries(items) =~= items.subrange(0, 0));
        assert(stream_closes(items));
    } else {
        lemma_deliveries_prefix(items.drop_first());
        let rest = items.drop_first();
        assert(deliveries(items) == seq![items[0]] + deliveries(rest));
        assert(deliveries(items) =~= items.subrange(0, deliveries(items).len() as int));
        if stream_closes(items) {
            let witness = choose|i: int| 0 <= i < items.len() && (#[trigger] items[i]) is Fin;
            assert(rest[witness - 1] == items[witness]);
            assert(stream_closes(rest));
        }
        if stream_closes(rest) {
            let witness = choose|i: int| 0 <= i < rest.len() && (#[trigger] rest[i]) is Fin;
            assert(items[witness + 1] == rest[witness]);
            assert(stream_closes(items));
        }
        if !stream_closes(items) {
            assert(deliveries(items) =~= items);
        }
    }
}

/// Demultiplexes one session's already-decoded items: what the subscriber
/// receives, and whether the stream was closed by the remote.
pub fn demux_session_items(items: Vec<Data>) -> (r: (Vec<Data>, bool))
    ensures
        r.0@ == deliveries(items@),
        r.1 == stream_closes(items@),
{
    let ghost items0 = items@;
    let mut rest = items;
    let mut delivered: Vec<Data> = Vec::new();
    loop
        invariant
            items0 == items@,
            deliveries(items0) == delivered@ + deliveries(rest@),
            stream_closes(items0) == stream_closes(rest@),
            forall|j: int| 0 <= j < delivered@.len() ==> !((#[trigger] delivered@[j]) is Fin),
        ensures
            rest@.len() == 0,
            deliveries(items0) == delivered@ + deliveries(rest@),
            !stream_closes(items0),
        decreases rest@.len(),
    {
        if rest.len() == 0 {
            proof {
                assert(!stream_closes(rest@));
            }
            break;
        }
        let ghost rest0 = rest@;
        let item = rest.remove(0);
        if matches!(item, Data::Fin(_)) {
            proof {
                assert(rest0[0] is Fin);
                assert(stream_closes(rest0));
                assert(deliveries(rest0) =~= Seq::<Data>::empty());
                assert(delivered@ + Seq::<Data>::empty() =~= delivered@);
            }
            return (delivered, true);
        }
        let ghost delivered0 = delivered@;
        delivered.push(item);
        proof {
            assert(rest0[0] == delivered@.last());
            assert(!(rest0[0] is Fin));
            assert(rest@ =~= rest0.drop_first());
            assert(deliveries(rest0) == seq![rest0[0]] + deliveries(rest0.drop_first()));
            assert(delivered0 + deliveries(rest0) =~= delivered@ + deliveries(rest@));
            assert forall|i: int|
                0 <= i < rest0.drop_first().len() && (#[trigger] rest0.drop_first()[i])
                    is Fin implies stream_closes(rest0) by {
                assert(rest0[i + 1] == rest0.drop_first()[i]);
            }
            assert forall|i: int|
                0 <= i < rest0.len() && (#[trigger] rest0[i]) is Fin implies stream_closes(
                rest0.drop_first(),
            ) by {
                assert(i > 0);
                assert(rest0.drop_first()[i - 1] == rest0[i]);
            }
            assert(stream_closes(rest0) == stream_closes(rest@));
        }
    }
    proof {
        assert(deliveries(rest@) =~= Seq::<Data>::empty());
        assert(delivered@ + Seq::<Data>::empty() =~= delivered@);
    }
    (delivered, false)
}


/// The network manager's bookkeeping: registered subscribers, open outbound
/// sessions with the protocol each serves, and inbound sessions with the
/// database query each one runs.
pub struct GenericNetworkManager {
    /// How many items a subscriber's response channel buffers.
    pub header_buffer_size: usize,
    /// The protocols each registered subscriber listens on.
    pub subscribers: Vec<Vec<Protocol>>,
    /// Open outbound sessions: session id to the protocol of its responses.
    pub outbound_sessions: Vec<(u64, Protocol)>,
    /// Open inbound sessions: session id to the database query serving it.
    pub inbound_sessions: Vec<(u64, u64)>,
    /// The next database query handle.
    pub next_query_id: u64,
}

/// The first value recorded for a key.
pub open spec fn table_get<T>(s: Seq<(u64, T)>, key: u64) -> Option<T>
    decreases s.len(),
{
    if s.len() == 0 {
        None
    } else if s[0].0 == key {
        Some(s[0].1)
    } else {
        table_get(s.drop_first(), key)
    }
}

/// Looks a key up in a session table.
fn table_lookup(s: &Vec<(u64, Protocol)>, key: u64) -> (r: Option<Protocol>)
    ensures
        r == table_get(s@, key),
{
    proof {
        assert(s@.subrange(0, s@.len() as int) =~= s@);
    }
    let mut i: usize = 0;
    while i < s.len()
        invariant
            i <= s@.len(),
            table_get(s@, key) == table_get(s@.subrange(i as int, s@.len() as int), key),
        decreases s@.len() - i,
    {
        let ghost remaining = s@.subrange(i as int, s@.len() as int);
        if s[i].0 == key {
            proof {
                assert(remaining[0] == s@[i as int]);
            }
            return Some(s[i].1);
        }
        proof {
            assert(remaining[0] == s@[i as int]);
            assert(remaining.drop_first() =~= s@.subrange(i + 1, s@.len() as int));
        }
        i = i + 1;
    }
    proof {
        assert(s@.subrange(s@.len() as int, s@.len() as int) =~= Seq::<(u64, Protocol)>::empty());
    }
    None
}

/// The position of a key in a session table.
fn table_position<T>(s: &Vec<(u64, T)>, key: u64) -> (r: Option<usize>)
    ensures
        match r {
            Some(i) => i < s@.len() && s@[i as int].0 == key && (forall|j: int|
                0 <= j < i ==> s@[j].0 != key),
            None => forall|j: int| 0 <= j < s@.len() ==> s@[j].0 != key,
        },
{
    let mut i: usize = 0;
    while i < s.len()
        invariant
            i <= s@.len(),
            forall|j: int| 0 <= j < i ==> s@[j].0 != key,
        decreases s@.len() - i,
    {
        if s[i].0 == key {
            return Some(i);
        }
        i = i + 1;
    }
    None
}

impl GenericNetworkManager {
    /// A manager with no subscribers and no open sessions.
    pub fn generic_new(header_buffer_size: usize) -> (r: GenericNetworkManager)
        ensures
            r.header_buffer_size == header_buffer_size,
            r.subscribers@.len() == 0,
            r.outbound_sessions@ == Seq::<(u64, Protocol)>::empty(),
            r.inbound_sessions@ == Seq::<(u64, u64)>::empty(),
            r.next_query_id == 0,
    {
        let r = GenericNetworkManager {
            header_buffer_size,
            subscribers: Vec::new(),
            outbound_sessions: Vec::new(),
            inbound_sessions: Vec::new(),
            next_query_id: 0,
        };
        proof {
            assert(r.outbound_sessions@ =~= Seq::<(u64, Protocol)>::empty());
            assert(r.inbound_sessions@ =~= Seq::<(u64, u64)>::empty());
        }
        r
    }

    /// Registers a subscriber for the protocols; the returned handle names its
    /// query sender and its per-protocol response channels.
    pub fn register_subscriber(&mut self, protocols: Vec<Protocol>) -> (r: usize)
        ensures
            final(self).subscribers@ == old(self).subscribers@.push(protocols),
            r == old(self).subscribers@.len(),
            final(self).outbound_sessions == old(self).outbound_sessions,
            final(self).inbound_sessions == old(self).inbound_sessions,
            final(self).next_query_id == old(self).next_query_id,
            final(self).header_buffer_size == old(self).header_buffer_size,
    {
        let id = self.subscribers.len();
        self.subscribers.push(protocols);
        id
    }

    /// Turns a subscriber's query into its wire form: the normalized query's
    /// exact encoding, and the protocol whose channel will carry the responses.
    pub fn prepare_subscriber_query(&self, query: &Query) -> (r: (Vec<u8>, Protocol))
        ensures
            r.0@ == spec_encode_query(
                (InternalQuery {
                    start_block: BlockHashOrNumber::Number(query.start_block),
                    direction: query.direction,
                    limit: query.limit,
                    step: query.step,
                }),
            ),
            r.1 == crate::protocol::protocol_of(query.data_type),
    {
        let internal_query = query.to_internal();
        let bytes = encode_query(&internal_query);
        let protocol = query.protocol();
        (bytes, protocol)
    }

    /// Records a newly opened outbound session and the protocol it serves.
    pub fn record_outbound_session(&mut self, outbound_session_id: u64, protocol: Protocol)
        ensures
            final(self).outbound_sessions@ == old(self).outbound_sessions@.push(
                (outbound_session_id, protocol),
            ),
            final(self).subscribers == old(self).subscribers,
            final(self).inbound_sessions == old(self).inbound_sessions,
            final(self).next_query_id == old(self).next_query_id,
            final(self).header_buffer_size == old(self).header_buffer_size,
    {
        self.outbound_sessions.push((outbound_session_id, protocol));
    }

    /// Routes one received frame of an outbound session.
    ///
    /// A frame of an unknown session is dropped; a frame that does not decode
    /// is dropped and the session stays open; a decoded end-of-stream marker
    /// closes the session and tells the caller to close the subscriber's sink;
    /// any other decoded item is handed to the subscriber of the session's
    /// protocol. The session table changes only by removing a session that
    /// ended.
    pub fn handle_received_data(&mut self, outbound_session_id: u64, data_bytes: &Vec<u8>) -> (r:
        DemuxResult)
        ensures
            final(self).subscribers == old(self).subscribers,
            final(self).inbound_sessions == old(self).inbound_sessions,
            final(self).next_query_id == old(self).next_query_id,
            final(self).header_buffer_size == old(self).header_buffer_size,
            table_get(old(self).outbound_sessions@, outbound_session_id) is None ==> r
                == DemuxResult::SessionUnknown && final(self).outbound_sessions == old(self).outbound_sessions,
            table_get(old(self).outbound_sessions@, outbound_session_id) is Some ==> !(r
                is SessionUnknown),
            table_get(old(self).outbound_sessions@, outbound_session_id) is Some
                && crate::codec::spec_frame_malformed(data_bytes@) ==> r
                == DemuxResult::MalformedData,
            table_get(old(self).outbound_sessions@, outbound_session_id) is Some
                && !crate::codec::spec_frame_malformed(data_bytes@) ==> (r matches
                DemuxResult::Deliver(_, _) || r matches DemuxResult::CloseStream(_)),
            r == DemuxResult::MalformedData ==> crate::codec::spec_frame_malformed(data_bytes@),
            (match r {
                DemuxResult::Deliver(protocol, item) => {
                    &&& table_get(old(self).outbound_sessions@, outbound_session_id) == Some(
                        protocol,
                    )
                    &&& crate::codec::spec_frame_decodes_to(data_bytes@, item)
                    &&& !(item is Fin)
                    &&& final(self).outbound_sessions == old(self).outbound_sessions
                },
                DemuxResult::CloseStream(protocol) => {
                    &&& table_get(old(self).outbound_sessions@, outbound_session_id) == Some(
                        protocol,
                    )
                    &&& exists|data_type: DataType|
                        #[trigger] crate::codec::spec_frame_decodes_to(
                            data_bytes@,
                            Data::Fin(data_type),
                        )
                    &&& exists|i: int|
                        0 <= i < old(self).outbound_sessions@.len() && old(self).outbound_sessions@[i].0 == outbound_session_id && final(self).outbound_sessions@ == old(self).outbound_sessions@.remove(i)
                },
                DemuxResult::SessionUnknown => final(self).outbound_sessions == old(self).outbound_sessions,
                DemuxResult::MalformedData => final(self).outbound_sessions == old(self).outbound_sessions,
            }),
    {
        let position = match table_position(&self.outbound_sessions, outbound_session_id) {
            None => {
                proof {
                    lemma_table_get_absent(self.outbound_sessions@, outbound_session_id);
                }
                return DemuxResult::SessionUnknown;
            },
            Some(i) => i,
        };
        let protocol = self.outbound_sessions[position].1;
        proof {
            lemma_table_get_present(self.outbound_sessions@, outbound_session_id, position as int);
        }
        match decode_length_delimited_data(data_bytes) {
            None => DemuxResult::MalformedData,
            Some(item) => {
                if matches!(item, Data::Fin(_)) {
                    self.outbound_sessions.remove(position);
                    DemuxResult::CloseStream(protocol)
                } else {
                    DemuxResult::Deliver(protocol, item)
                }
            },
        }
    }

    /// Drops the outbound session when the swarm reports it closed; tells the
    /// caller which protocol's sink to close, when the session was still open.
    pub fn handle_session_closed(&mut self, outbound_session_id: u64) -> (r: Option<Protocol>)
        ensures
            final(self).subscribers == old(self).subscribers,
            final(self).inbound_sessions == old(self).inbound_sessions,
            final(self).next_query_id == old(self).next_query_id,
            final(self).header_buffer_size == old(self).header_buffer_size,
            r == table_get(old(self).outbound_sessions@, outbound_session_id),
            r is None ==> final(self).outbound_sessions == old(self).outbound_sessions,
            r is Some ==> exists|i: int|
                0 <= i < old(self).outbound_sessions@.len() && old(self).outbound_sessions@[i].0
                    == outbound_session_id && final(self).outbound_sessions@ == old(self).outbound_sessions@.remove(i),
    {
        match table_position(&self.outbound_sessions, outbound_session_id) {
            None => {
                proof {
                    lemma_table_get_absent(self.outbound_sessions@, outbound_session_id);
                }
                None
            },
            Some(position) => {
                let protocol = self.outbound_sessions[position].1;
                proof {
                    lemma_table_get_present(
                        self.outbound_sessions@,
                        outbound_session_id,
                        position as int,
                    );
                }
                self.outbound_sessions.remove(position);
                Some(protocol)
            },
        }
    }

    /// Accepts a remote peer's query: the bytes must decode to a query, a fresh
    /// database query handle is issued and the session is recorded. Malformed
    /// bytes leave no trace, and the caller closes the session without an
    /// end-of-stream marker.
    pub fn handle_new_inbound_session(&mut self, query_bytes: &Vec<u8>, inbound_session_id: u64)
        -> (r: Option<(InternalQuery, QueryId)>)
        requires
            old(self).next_query_id < u64::MAX,
        ensures
            final(self).subscribers == old(self).subscribers,
            final(self).outbound_sessions == old(self).outbound_sessions,
            final(self).header_buffer_size == old(self).header_buffer_size,
            (match r {
                Some((query, query_id)) => {
                    &&& spec_decode_query(query_bytes@) == Some(query)
                    &&& query_id == QueryId(old(self).next_query_id)
                    &&& final(self).next_query_id == old(self).next_query_id + 1
                    &&& final(self).inbound_sessions@ == old(self).inbound_sessions@.push(
                        (inbound_session_id, old(self).next_query_id),
                    )
                },
                None => {
                    &&& spec_decode_query(query_bytes@) is None
                    &&& final(self).inbound_sessions == old(self).inbound_sessions
                    &&& final(self).next_query_id == old(self).next_query_id
                },
            }),
    {
        match decode_query(query_bytes) {
            None => None,
            Some(query) => {
                let query_id = QueryId(self.next_query_id);
                self.next_query_id = self.next_query_id + 1;
                self.inbound_sessions.push((inbound_session_id, query_id.0));
                Some((query, query_id))
            },
        }
    }

    /// Drops an inbound session once its stream was finished and closed;
    /// returns the database query it was running, when the session was known.
    pub fn finish_inbound_session(&mut self, inbound_session_id: u64) -> (r: Option<QueryId>)
        ensures
            final(self).subscribers == old(self).subscribers,
            final(self).outbound_sessions == old(self).outbound_sessions,
            final(self).next_query_id == old(self).next_query_id,
            final(self).header_buffer_size == old(self).header_buffer_size,
            r is None ==> final(self).inbound_sessions == old(self).inbound_sessions && (
            forall|j: int|
                0 <= j < old(self).inbound_sessions@.len() ==> old(self).inbound_sessions@[j].0
                    != inbound_session_id),
            r matches Some(query_id) ==> exists|i: int|
                0 <= i < old(self).inbound_sessions@.len() && old(self).inbound_sessions@[i]
                    == (inbound_session_id, query_id.0) && final(self).inbound_sessions@ == old(self).inbound_sessions@.remove(i),
    {
        match table_position(&self.inbound_sessions, inbound_session_id) {
            None => None,
            Some(position) => {
                let query_id = QueryId(self.inbound_sessions[position].1);
                self.inbound_sessions.remove(position);
                Some(query_id)
            },
        }
    }
}

/// The frames an inbound session sends for the database's results: each item
/// framed in order, then a framed end-of-stream marker for the data's kind.
pub fn frames_for_inbound_session(items: &Vec<Data>, data_type: DataType) -> (r: Vec<Vec<u8>>)
    ensures
        r@.len() == items@.len() + 1,
        forall|i: int|
            0 <= i < items@.len() ==> (#[trigger] r@[i])@ == spec_frame(
                spec_encode_data(items@[i]),
            ),
        r@.last()@ == spec_frame(spec_encode_data(Data::Fin(data_type))),
{
    let mut r: Vec<Vec<u8>> = Vec::new();
    let mut i: usize = 0;
    while i < items.len()
        invariant
            i <= items@.len(),
            r@.len() == i,
            forall|j: int|
                0 <= j < i ==> (#[trigger] r@[j])@ == spec_frame(spec_encode_data(items@[j])),
        decreases items@.len() - i,
    {
        r.push(encode_length_delimited_data(&items[i]));
        i = i + 1;
    }
    r.push(encode_length_delimited_data(&Data::Fin(data_type)));
    r
}

/// A key that a position search misses is absent from the table.
proof fn lemma_table_get_absent<T>(s: Seq<(u64, T)>, key: u64)
    requires
        forall|j: int| 0 <= j < s.len() ==> s[j].0 != key,
    ensures
        table_get(s, key) is None,
    decreases s.len(),
{
    if s.len() > 0 {
        assert(s.drop_first() =~= s.subrange(1, s.len() as int));
        lemma_table_get_absent(s.drop_first(), key);
    }
}

/// The value at a key's first position is what the table holds for the key.
proof fn lemma_table_get_present<T>(s: Seq<(u64, T)>, key: u64, i: int)
    requires
        0 <= i < s.len(),
        s[i].0 == key,
        forall|j: int| 0 <= j < i ==> s[j].0 != key,
    ensures
        table_get(s, key) == Some(s[i].1),
    decreases i,
{
    if i == 0 {
    } else {
        assert(s.drop_first()[i - 1] == s[i]);
        assert forall|j: int| 0 <= j < i - 1 implies s.drop_first()[j].0 != key by {
            assert(s.drop_first()[j] == s[j + 1]);
        }
        lemma_table_get_present(s.drop_first(), key, i - 1);
    }
}

/// An internally produced event of the node's mixed behaviour.
#[derive(Debug, Clone, Copy, PartialEq, Eq, Structural)]
pub enum InternalEvent {
    NotifyStreamedBytes(crate::peer_manager::PeerManagerEvent),
    NotifyDiscovery(u64),
}

/// An event of the node's mixed behaviour.
#[derive(Debug, Clone, Copy, PartialEq, Eq, Structural)]
pub enum MixedEvent {
    InternalEvent(InternalEvent),
}

/// Lifts a peer-management behaviour event into the mixed event stream.
pub fn mixed_event_from(event: crate::peer_manager::Event) -> (r: MixedEvent)
    ensures
        (match event {
            crate::peer_manager::Event::NotifyStreamedBytes(e) => r == MixedEvent::InternalEvent(
                InternalEvent::NotifyStreamedBytes(e),
            ),
            crate::peer_manager::Event::NotifyDiscovery(h) => r == MixedEvent::InternalEvent(
                InternalEvent::NotifyDiscovery(h),
            ),
        }),
{
    match event {
        crate::peer_manager::Event::NotifyStreamedBytes(e) => MixedEvent::InternalEvent(
            InternalEvent::NotifyStreamedBytes(e),
        ),
        crate::peer_manager::Event::NotifyDiscovery(h) => MixedEvent::InternalEvent(
            InternalEvent::NotifyDiscovery(h),
        ),
    }
}

} // verus!
