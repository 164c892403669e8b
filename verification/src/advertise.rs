//! The advertise protocol: a cooperative peer directory.
//!
//! A node acting as a provider keeps a set of peers that asked to be
//! advertised. Connected peers may query that set, ask to be added or
//! removed, and toggle the local provider state. The behaviour here is the
//! per-node bookkeeping: it consumes commands and handler events and
//! produces actions — packets for a peer's handler or events for the
//! application.

use vstd::prelude::*;
use crate::peer::{PeerId, PeerSet};
use crate::codec::{
    b_slash, bytes_eq, plain_byte, enc_hex, esc, expect_lit, hex_enc, lemma_esc_plain, lemma_expect_lit,
    lemma_parse_hex_enc, lemma_parse_str_esc, parse_hex_at, parse_str_at, put_bytes, q_mark,
    spec_expect_lit, spec_parse_hex, spec_parse_str,
};


verus! {

/// The multistream-select name of the advertise protocol.
pub const PROTOCOL_NAME: &'static str = "/owlnest/advertise/0.0.1";

/// How long a handle waits for a query's answer, in milliseconds.
pub const QUERY_TIMEOUT_MS: u64 = 10000;

/// How long a handle waits for an advertisement removal, in milliseconds.
pub const REMOVE_ADVERTISED_TIMEOUT_MS: u64 = 1000;

/// Configuration of the advertise protocol.
#[derive(Debug, Clone)]
pub struct Config {
    /// How long a send on a substream may take, in milliseconds.
    pub timeout_ms: u64,
}

impl Default for Config {
    /// The default send timeout is twenty seconds.
    fn default() -> (r: Config)
        ensures
            r.timeout_ms == 20000,
    {
        Config { timeout_ms: 20000 }
    }
}

/// Errors surfaced by the advertise protocol.
#[derive(Debug)]
pub enum Error {
    /// The connection closed while an operation was in flight.
    ConnectionClosed,
    /// The queried peer is not connected or does not provide.
    NotProviding(PeerId),
    /// An operation outlived its timeout.
    Timeout,
    /// A packet could not be decoded; holds the raw bytes.
    UnrecognizedMessage(Vec<u8>),
    /// An I/O failure, described by the transport.
    IO(Vec<u8>),
    /// The reply channel closed before a reply was sent.
    Channel,
}

/// Commands a handle submits to the behaviour.
#[derive(Debug)]
pub enum InEvent {
    /// Set the local provider state; the new state is echoed back.
    SetProviderState(bool, u64),
    /// Read the local provider state.
    GetProviderState(u64),
    /// Ask a connected peer for its advertised set.
    QueryAdvertisedPeer(PeerId),
    /// Ask a remote provider to advertise this node, or to stop.
    SetRemoteAdvertisement { remote: PeerId, state: bool, id: u64 },
    /// Drop one peer from the local advertised set.
    RemoveAdvertised(PeerId),
    /// Drop every peer from the local advertised set.
    ClearAdvertised,
    /// Snapshot the local advertised set.
    ListAdvertised,
    /// Snapshot the set of peers that negotiated this protocol.
    ListConnected,
}

/// Commands the behaviour sends to a peer's connection handler.
#[derive(Debug)]
pub enum FromBehaviour {
    /// Send a query for the peer's advertised set.
    QueryAdvertisedPeer,
    /// Answer a peer's query; `None` when not providing.
    AnswerAdvertisedPeer(Option<Vec<PeerId>>),
    /// Tell the peer to advertise this node, or to stop.
    SetAdvertiseSelf(bool),
}

/// Events a connection handler reports to the behaviour.
#[derive(Debug)]
pub enum ToBehaviour {
    /// The peer asked for the advertised set.
    IncomingQuery,
    /// The peer answered a query of ours.
    QueryAnswered(Option<Vec<PeerId>>),
    /// The peer asked to be advertised (`true`) or dropped (`false`).
    IncomingAdvertiseReq(bool),
    /// The handler hit an error.
    Error(Error),
    /// The peer did not negotiate this protocol.
    Unsupported,
    /// The inbound substream finished negotiation.
    InboundNegotiated,
    /// The outbound substream finished negotiation.
    OutboundNegotiated,
}

/// Events the behaviour surfaces to the application.
#[derive(Debug)]
pub enum OutEvent {
    /// A query sent to a remote peer was answered.
    QueryAnswered { from: PeerId, list: Option<Vec<PeerId>> },
    /// The local provider state, echoed with the command's id.
    ProviderState(bool, u64),
    /// An advertisement entry was removed by an explicit command; the flag
    /// says whether it was present.
    AdvertisedPeerChanged(PeerId, bool),
    /// A snapshot of the local advertised set.
    Advertised(Vec<PeerId>),
    /// A snapshot of the connected set.
    Connected(Vec<PeerId>),
    /// The peer does not support this protocol, so a query to it cannot
    /// succeed.
    Unsupported(PeerId),
    /// An error to surface.
    Error(Error),
}

/// What one step of the behaviour decides to do.
#[derive(Debug)]
pub enum Action {
    /// Hand a command to the handler of `peer`.
    NotifyHandler { peer: PeerId, event: FromBehaviour },
    /// Surface an event to the application.
    GenerateEvent(OutEvent),
}

/// The advertised set after a peer asks to be advertised or dropped.
pub open spec fn apply_advertise(adv: Set<Seq<u8>>, peer: Seq<u8>, state: bool) -> Set<Seq<u8>> {
    if state {
        adv.insert(peer)
    } else {
        adv.remove(peer)
    }
}

/// The provider flag after a set command.
pub open spec fn set_provider(providing: bool, target: bool) -> bool {
    target
}

/// The provider flag a get command reads.
pub open spec fn get_provider(providing: bool) -> bool {
    providing
}

/// Per-node state of the advertise protocol.
#[derive(Debug)]
pub struct Behaviour {
    /// Events waiting to be surfaced to the application.
    pub pending_out_events: Vec<OutEvent>,
    /// Commands waiting to be processed.
    pub in_events: Vec<InEvent>,
    /// Peers this node advertises when it provides.
    pub advertised_peers: PeerSet,
    /// Peers whose queries await an answer, oldest first.
    pub pending_query_answer: Vec<PeerId>,
    /// Peers that negotiated this protocol.
    pub connected_peers: PeerSet,
    /// Whether this node answers queries.
    pub is_providing: bool,
}

impl Behaviour {
    /// Both peer sets are duplicate-free.
    pub open spec fn wf(&self) -> bool {
        self.advertised_peers.wf() && self.connected_peers.wf()
    }

    /// A fresh behaviour: empty sets, not providing.
    pub fn new() -> (r: Behaviour)
        ensures
            r.wf(),
            r.advertised_peers@ =~= Set::<Seq<u8>>::empty(),
            r.connected_peers@ =~= Set::<Seq<u8>>::empty(),
            !r.is_providing,
            r.pending_out_events@ =~= Seq::<OutEvent>::empty(),
            r.in_events@ =~= Seq::<InEvent>::empty(),
            r.pending_query_answer@ =~= Seq::<PeerId>::empty(),
    {
        Behaviour {
            pending_out_events: Vec::new(),
            in_events: Vec::new(),
            advertised_peers: PeerSet::new(),
            pending_query_answer: Vec::new(),
            connected_peers: PeerSet::new(),
            is_providing: false,
        }
    }

    /// Queue a command for processing.
    pub fn push_event(&mut self, ev: InEvent)
        ensures
            final(self).in_events@ == old(self).in_events@.push(ev),
            final(self).pending_out_events == old(self).pending_out_events,
            final(self).advertised_peers == old(self).advertised_peers,
            final(self).pending_query_answer == old(self).pending_query_answer,
            final(self).connected_peers == old(self).connected_peers,
            final(self).is_providing == old(self).is_providing,
    {
        self.in_events.push(ev);
    }

    /// Whether `peer` is in the advertised set.
    pub fn is_advertising(&self, peer: &PeerId) -> (r: bool)
        ensures
            r == self.advertised_peers@.contains(peer@),
    {
        self.advertised_peers.contains(peer)
    }

    /// A snapshot of the advertised set.
    pub fn advertised_peers(&self) -> (r: Vec<PeerId>)
        requires
            self.wf(),
        ensures
            crate::peer::views(r@).to_set() =~= self.advertised_peers@,
            crate::peer::views(r@).no_duplicates(),
    {
        self.advertised_peers.snapshot()
    }

    /// Set the provider flag.
    pub fn set_provider_status(&mut self, status: bool)
        ensures
            final(self).is_providing == set_provider(old(self).is_providing, status),
            final(self).advertised_peers == old(self).advertised_peers,
            final(self).connected_peers == old(self).connected_peers,
            final(self).pending_out_events == old(self).pending_out_events,
            final(self).in_events == old(self).in_events,
            final(self).pending_query_answer == old(self).pending_query_answer,
    {
        self.is_providing = status;
    }

    /// Read the provider flag.
    pub fn get_provider_status(&self) -> (r: bool)
        ensures
            r == get_provider(self.is_providing),
    {
        self.is_providing
    }

    /// Drop `peer_id` from the advertised set; reports whether it was there.
    pub fn remove_advertised(&mut self, peer_id: &PeerId) -> (r: bool)
        requires
            old(self).wf(),
        ensures
            final(self).wf(),
            final(self).advertised_peers@ =~= old(self).advertised_peers@.remove(peer_id@),
            r == old(self).advertised_peers@.contains(peer_id@),
            final(self).connected_peers == old(self).connected_peers,
            final(self).is_providing == old(self).is_providing,
            final(self).pending_out_events == old(self).pending_out_events,
            final(self).in_events == old(self).in_events,
            final(self).pending_query_answer == old(self).pending_query_answer,
    {
        self.advertised_peers.remove(peer_id)
    }

    /// Empty the advertised set.
    pub fn clear_advertised(&mut self)
        ensures
            final(self).wf() == old(self).connected_peers.wf(),
            final(self).advertised_peers@ =~= Set::<Seq<u8>>::empty(),
            final(self).connected_peers == old(self).connected_peers,
            final(self).is_providing == old(self).is_providing,
            final(self).pending_out_events == old(self).pending_out_events,
            final(self).in_events == old(self).in_events,
            final(self).pending_query_answer == old(self).pending_query_answer,
    {
        self.advertised_peers.clear();
    }

    /// Queue a query from `peer` for answering on a later step.
    pub fn new_pending_query(&mut self, peer: &PeerId)
        ensures
            crate::peer::views(final(self).pending_query_answer@) =~= crate::peer::views(
                old(self).pending_query_answer@,
            ).push(peer@),
            final(self).advertised_peers == old(self).advertised_peers,
            final(self).connected_peers == old(self).connected_peers,
            final(self).is_providing == old(self).is_providing,
            final(self).pending_out_events == old(self).pending_out_events,
            final(self).in_events == old(self).in_events,
    {
        self.pending_query_answer.push(peer.duplicate());
    }
}

/// The three state fields are the same in `pre` and `post`.
pub open spec fn unchanged_state(pre: Behaviour, post: Behaviour) -> bool {
    &&& post.advertised_peers == pre.advertised_peers
    &&& post.connected_peers == pre.connected_peers
    &&& post.is_providing == pre.is_providing
}

/// The three queues are the same in `pre` and `post`.
pub open spec fn unchanged_queues(pre: Behaviour, post: Behaviour) -> bool {
    &&& post.pending_out_events == pre.pending_out_events
    &&& post.in_events == pre.in_events
    &&& post.pending_query_answer == pre.pending_query_answer
}

/// Whether `r` answers a query of `peer` as a provider state of
/// `providing` with advertised set `adv` demands: the full set when
/// providing, `None` when not.
pub open spec fn is_answer_action(
    r: Option<Action>,
    peer: Seq<u8>,
    providing: bool,
    adv: Set<Seq<u8>>,
) -> bool {
    match r {
        Some(Action::NotifyHandler { peer: p, event }) => p@ == peer && match event {
            FromBehaviour::AnswerAdvertisedPeer(opt) => match opt {
                Some(l) => providing && crate::peer::views(l@).to_set() == adv,
                None => !providing,
            },
            _ => false,
        },
        _ => false,
    }
}

impl Behaviour {
    /// Digest one event from a connection handler for `peer_id`.
    pub fn on_connection_handler_event(&mut self, peer_id: PeerId, event: ToBehaviour)
        requires
            old(self).wf(),
        ensures
            final(self).wf(),
            final(self).in_events == old(self).in_events,
            // An incoming query is queued for answering.
            event matches ToBehaviour::IncomingQuery ==> crate::peer::views(
                final(self).pending_query_answer@,
            ) =~= crate::peer::views(old(self).pending_query_answer@).push(peer_id@)
                && unchanged_state(*old(self), *final(self)) && final(self).pending_out_events
                == old(self).pending_out_events,
            // An advertise request mutates the advertised set and nothing else.
            event matches ToBehaviour::IncomingAdvertiseReq(b) ==> final(self).advertised_peers@
                =~= apply_advertise(old(self).advertised_peers@, peer_id@, b) && final(self).connected_peers == old(self).connected_peers && final(self).is_providing == old(self).is_providing && final(self).pending_out_events == old(self).pending_out_events
                && final(self).pending_query_answer == old(self).pending_query_answer,
            // An answer to our query is surfaced to the application.
            event matches ToBehaviour::QueryAnswered(l) ==> final(self).pending_out_events@
                == old(self).pending_out_events@.push(
                OutEvent::QueryAnswered { from: peer_id, list: l },
            ) && unchanged_state(*old(self), *final(self)) && final(self).pending_query_answer
                == old(self).pending_query_answer,
            // A handler error is surfaced to the application.
            event matches ToBehaviour::Error(e) ==> final(self).pending_out_events@ == old(self).pending_out_events@.push(OutEvent::Error(e)) && unchanged_state(
                *old(self),
                *final(self),
            ) && final(self).pending_query_answer == old(self).pending_query_answer,
            // An unsupported peer is surfaced to the application.
            event matches ToBehaviour::Unsupported ==> final(self).pending_out_events@ == old(self).pending_out_events@.push(OutEvent::Unsupported(peer_id)) && unchanged_state(
                *old(self),
                *final(self),
            ) && final(self).pending_query_answer == old(self).pending_query_answer,
            // Inbound negotiation changes nothing.
            event matches ToBehaviour::InboundNegotiated ==> unchanged_state(
                *old(self),
                *final(self),
            ) && unchanged_queues(*old(self), *final(self)),
            // Outbound negotiation marks the peer connected.
            event matches ToBehaviour::OutboundNegotiated ==> final(self).connected_peers@
                =~= old(self).connected_peers@.insert(peer_id@) && final(self).advertised_peers
                == old(self).advertised_peers && final(self).is_providing == old(self).is_providing && unchanged_queues(*old(self), *final(self)),
    {
        match event {
            ToBehaviour::IncomingQuery => {
                self.pending_query_answer.push(peer_id);
            },
            ToBehaviour::IncomingAdvertiseReq(b) => {
                if b {
                    let _ = self.advertised_peers.insert(peer_id);
                } else {
                    let _ = self.advertised_peers.remove(&peer_id);
                }
            },
            ToBehaviour::QueryAnswered(l) => {
                self.pending_out_events.push(OutEvent::QueryAnswered { from: peer_id, list: l });
            },
            ToBehaviour::Error(e) => {
                self.pending_out_events.push(OutEvent::Error(e));
            },
            ToBehaviour::Unsupported => {
                self.pending_out_events.push(OutEvent::Unsupported(peer_id));
            },
            ToBehaviour::InboundNegotiated => {},
            ToBehaviour::OutboundNegotiated => {
                let _ = self.connected_peers.insert(peer_id);
            },
        }
    }

    /// Note a newly established connection to `peer`.
    pub fn on_connection_established(&mut self, peer: &PeerId)
        requires
            old(self).wf(),
        ensures
            final(self).wf(),
            final(self).connected_peers@ =~= old(self).connected_peers@.insert(peer@),
            final(self).advertised_peers == old(self).advertised_peers,
            final(self).is_providing == old(self).is_providing,
            unchanged_queues(*old(self), *final(self)),
    {
        let _ = self.connected_peers.insert(peer.duplicate());
    }

    /// Note a closed connection to `peer`. When it was the last one, the
    /// peer leaves both the connected set and the advertised set.
    pub fn on_connection_closed(&mut self, peer: &PeerId, remaining_established: u32)
        requires
            old(self).wf(),
        ensures
            final(self).wf(),
            remaining_established == 0 ==> final(self).connected_peers@ =~= old(self).connected_peers@.remove(peer@) && final(self).advertised_peers@ =~= old(self).advertised_peers@.remove(peer@) && !final(self).connected_peers@.contains(peer@)
                && !final(self).advertised_peers@.contains(peer@),
            remaining_established != 0 ==> final(self).connected_peers == old(self).connected_peers && final(self).advertised_peers == old(self).advertised_peers,
            final(self).is_providing == old(self).is_providing,
            unchanged_queues(*old(self), *final(self)),
    {
        if remaining_established == 0 {
            let _ = self.advertised_peers.remove(peer);
            let _ = self.connected_peers.remove(peer);
        }
    }

    /// Digest one command. The returned action, if any, is what the
    /// command decides; queued errors surface on a later step.
    pub fn handle_in_event(&mut self, ev: InEvent) -> (r: Option<Action>)
        requires
            old(self).wf(),
        ensures
            final(self).wf(),
            final(self).in_events == old(self).in_events,
            final(self).pending_query_answer == old(self).pending_query_answer,
            ev matches InEvent::SetProviderState(x, id) ==> final(self).is_providing
                == set_provider(old(self).is_providing, x) && r == Some(
                Action::GenerateEvent(OutEvent::ProviderState(x, id)),
            ) && final(self).advertised_peers == old(self).advertised_peers && final(self).connected_peers == old(self).connected_peers && final(self).pending_out_events
                == old(self).pending_out_events,
            ev matches InEvent::GetProviderState(id) ==> r == Some(
                Action::GenerateEvent(
                    OutEvent::ProviderState(get_provider(old(self).is_providing), id),
                ),
            ) && unchanged_state(*old(self), *final(self)) && final(self).pending_out_events
                == old(self).pending_out_events,
            // A query to a connected relay goes to its handler; to anyone
            // else it fails locally, with no action toward the network.
            ev matches InEvent::QueryAdvertisedPeer(relay) ==> (
            old(self).connected_peers@.contains(relay@) ==> (r matches Some(
                Action::NotifyHandler { peer, event },
            ) && peer@ == relay@ && event is QueryAdvertisedPeer && unchanged_state(
                *old(self),
                *final(self),
            ) && final(self).pending_out_events == old(self).pending_out_events)),
            ev matches InEvent::QueryAdvertisedPeer(relay) ==> (!old(self).connected_peers@.contains(relay@) ==> r is None && final(self).pending_out_events@
                == old(self).pending_out_events@.push(
                OutEvent::Error(Error::NotProviding(relay)),
            ) && unchanged_state(*old(self), *final(self))),
            ev matches InEvent::SetRemoteAdvertisement { remote, state, id } ==> (r matches Some(
                Action::NotifyHandler { peer, event },
            ) && peer == remote && event == FromBehaviour::SetAdvertiseSelf(state)
                && unchanged_state(*old(self), *final(self)) && final(self).pending_out_events
                == old(self).pending_out_events),
            ev matches InEvent::RemoveAdvertised(peer_id) ==> final(self).advertised_peers@
                =~= old(self).advertised_peers@.remove(peer_id@) && r == Some(
                Action::GenerateEvent(
                    OutEvent::AdvertisedPeerChanged(
                        peer_id,
                        old(self).advertised_peers@.contains(peer_id@),
                    ),
                ),
            ) && final(self).connected_peers == old(self).connected_peers && final(self).is_providing == old(self).is_providing && final(self).pending_out_events == old(self).pending_out_events,
            ev matches InEvent::ClearAdvertised ==> final(self).advertised_peers@ =~= Set::<
                Seq<u8>,
            >::empty() && r is None && final(self).connected_peers == old(self).connected_peers
                && final(self).is_providing == old(self).is_providing && final(self).pending_out_events == old(self).pending_out_events,
            ev matches InEvent::ListAdvertised ==> (r matches Some(
                Action::GenerateEvent(OutEvent::Advertised(l)),
            ) && crate::peer::views(l@).to_set() == old(self).advertised_peers@
                && unchanged_state(*old(self), *final(self)) && final(self).pending_out_events
                == old(self).pending_out_events),
            ev matches InEvent::ListConnected ==> (r matches Some(
                Action::GenerateEvent(OutEvent::Connected(l)),
            ) && crate::peer::views(l@).to_set() == old(self).connected_peers@
                && unchanged_state(*old(self), *final(self)) && final(self).pending_out_events
                == old(self).pending_out_events),
    {
        match ev {
            InEvent::SetProviderState(x, id) => {
                self.is_providing = x;
                Some(Action::GenerateEvent(OutEvent::ProviderState(x, id)))
            },
            InEvent::GetProviderState(id) => Some(
                Action::GenerateEvent(OutEvent::ProviderState(self.is_providing, id)),
            ),
            InEvent::QueryAdvertisedPeer(relay) => {
                if self.connected_peers.contains(&relay) {
                    Some(
                        Action::NotifyHandler {
                            peer: relay,
                            event: FromBehaviour::QueryAdvertisedPeer,
                        },
                    )
                } else {
                    self.pending_out_events.push(OutEvent::Error(Error::NotProviding(relay)));
                    None
                }
            },
            InEvent::SetRemoteAdvertisement { remote, state, id: _ } => Some(
                Action::NotifyHandler {
                    peer: remote,
                    event: FromBehaviour::SetAdvertiseSelf(state),
                },
            ),
            InEvent::RemoveAdvertised(peer_id) => {
                let present = self.advertised_peers.remove(&peer_id);
                Some(Action::GenerateEvent(OutEvent::AdvertisedPeerChanged(peer_id, present)))
            },
            InEvent::ClearAdvertised => {
                self.advertised_peers.clear();
                None
            },
            InEvent::ListAdvertised => {
                let l = self.advertised_peers.snapshot();
                Some(Action::GenerateEvent(OutEvent::Advertised(l)))
            },
            InEvent::ListConnected => {
                let l = self.connected_peers.snapshot();
                Some(Action::GenerateEvent(OutEvent::Connected(l)))
            },
        }
    }

    /// One step of the behaviour: answer the oldest pending query, else
    /// surface the oldest queued event, else digest the oldest command.
    /// `None` with all queues empty means there is nothing to do.
    pub fn poll(&mut self) -> (r: Option<Action>)
        requires
            old(self).wf(),
        ensures
            final(self).wf(),
            // A pending query is answered first: the full set when
            // providing, `None` when not.
            old(self).pending_query_answer@.len() > 0 ==> is_answer_action(
                r,
                old(self).pending_query_answer@[0]@,
                old(self).is_providing,
                old(self).advertised_peers@,
            ) && final(self).pending_query_answer@ == old(self).pending_query_answer@.drop_first()
                && unchanged_state(*old(self), *final(self)) && final(self).pending_out_events
                == old(self).pending_out_events && final(self).in_events == old(self).in_events,
            // Next, a queued event is surfaced.
            old(self).pending_query_answer@.len() == 0 && old(self).pending_out_events@.len() > 0
                ==> r == Some(Action::GenerateEvent(old(self).pending_out_events@[0])) && final(self).pending_out_events@ == old(self).pending_out_events@.drop_first()
                && unchanged_state(*old(self), *final(self)) && final(self).in_events == old(self).in_events && final(self).pending_query_answer == old(self).pending_query_answer,
            // Last, the oldest command is digested, with the outcome its
            // own contract gives it.
            old(self).pending_query_answer@.len() == 0 && old(self).pending_out_events@.len() == 0
                && old(self).in_events@.len() > 0 ==> final(self).in_events@ == old(self).in_events@.drop_first() && final(self).pending_query_answer == old(self).pending_query_answer,
            ({
                let ready = old(self).pending_query_answer@.len() == 0 && old(
                    self,
                ).pending_out_events@.len() == 0 && old(self).in_events@.len() > 0;
                &&& (ready ==> (old(self).in_events@[0] matches InEvent::SetProviderState(x, id)
                    ==> final(self).is_providing == set_provider(old(self).is_providing, x) && r
                    == Some(Action::GenerateEvent(OutEvent::ProviderState(x, id))) && final(self).advertised_peers == old(self).advertised_peers && final(self).connected_peers == old(self).connected_peers))
                &&& (ready ==> (old(self).in_events@[0] matches InEvent::GetProviderState(id) ==> r
                    == Some(
                    Action::GenerateEvent(
                        OutEvent::ProviderState(get_provider(old(self).is_providing), id),
                    ),
                ) && unchanged_state(*old(self), *final(self))))
                &&& (ready ==> (old(self).in_events@[0] matches InEvent::QueryAdvertisedPeer(relay)
                    ==> (old(self).connected_peers@.contains(relay@) ==> (r matches Some(
                    Action::NotifyHandler { peer, event },
                ) && peer@ == relay@ && event is QueryAdvertisedPeer && unchanged_state(
                    *old(self),
                    *final(self),
                ) && final(self).pending_out_events == old(self).pending_out_events))))
                &&& (ready ==> (old(self).in_events@[0] matches InEvent::QueryAdvertisedPeer(relay)
                    ==> (!old(self).connected_peers@.contains(relay@) ==> r is None && final(self).pending_out_events@ == old(self).pending_out_events@.push(
                    OutEvent::Error(Error::NotProviding(relay)),
                ) && unchanged_state(*old(self), *final(self)))))
                &&& (ready ==> (old(self).in_events@[0] matches InEvent::SetRemoteAdvertisement {
                    remote,
                    state,
                    id,
                } ==> (r matches Some(Action::NotifyHandler { peer, event }) && peer == remote
                    && event == FromBehaviour::SetAdvertiseSelf(state) && unchanged_state(
                    *old(self),
                    *final(self),
)))
                )
                &&& (ready ==> (old(self).in_events@[0] matches InEvent::RemoveAdvertised(peer_id)
                    ==> final(self).advertised_peers@ =~= old(self).advertised_peers@.remove(
                    peer_id@,
                ) && r == Some(
                    Action::GenerateEvent(
                        OutEvent::AdvertisedPeerChanged(
                            peer_id,
                            old(self).advertised_peers@.contains(peer_id@),
                        ),
                    ),
)))
                &&& (ready ==> (old(self).in_events@[0] matches InEvent::ClearAdvertised ==> final(self).advertised_peers@ =~= Set::<Seq<u8>>::empty() && r is None))
                &&& (ready ==> (old(self).in_events@[0] matches InEvent::ListAdvertised ==> (
                r matches Some(Action::GenerateEvent(OutEvent::Advertised(l)))
                    && crate::peer::views(l@).to_set() == old(self).advertised_peers@
                    && unchanged_state(*old(self), *final(self)))))
                &&& (ready ==> (old(self).in_events@[0] matches InEvent::ListConnected ==> (
                r matches Some(Action::GenerateEvent(OutEvent::Connected(l)))
                    && crate::peer::views(l@).to_set() == old(self).connected_peers@
                    && unchanged_state(*old(self), *final(self)))))
            }),
            // With nothing queued there is nothing to do.
            old(self).pending_query_answer@.len() == 0 && old(self).pending_out_events@.len() == 0
                && old(self).in_events@.len() == 0 ==> r is None && *final(self) == *old(self),
    {
        if self.pending_query_answer.len() > 0 {
            let peer = self.pending_query_answer.remove(0);
            let answer: Option<Vec<PeerId>> = if self.is_providing {
                Some(self.advertised_peers.snapshot())
            } else {
                None
            };
            return Some(
                Action::NotifyHandler { peer, event: FromBehaviour::AnswerAdvertisedPeer(answer) },
            );
        }
        if self.pending_out_events.len() > 0 {
            let ev = self.pending_out_events.remove(0);
            return Some(Action::GenerateEvent(ev));
        }
        if self.in_events.len() > 0 {
            let ev = self.in_events.remove(0);
            return self.handle_in_event(ev);
        }
        None
    }
}

/// Asking to be advertised is idempotent, and a later retraction removes
/// the entry exactly once: afterwards the peer is gone from the set.
pub proof fn lemma_remote_advertisement_idempotent(adv: Set<Seq<u8>>, peer: Seq<u8>)
    ensures
        apply_advertise(apply_advertise(adv, peer, true), peer, true) =~= apply_advertise(
            adv,
            peer,
            true,
        ),
        apply_advertise(apply_advertise(adv, peer, true), peer, false) =~= adv.remove(peer),
        !apply_advertise(apply_advertise(adv, peer, true), peer, false).contains(peer),
        apply_advertise(apply_advertise(adv, peer, false), peer, false) =~= apply_advertise(
            adv,
            peer,
            false,
        ),
{
}

/// Setting the provider state and reading it back gives the state set.
pub proof fn lemma_provider_state_round_trip(providing: bool, x: bool)
    ensures
        get_provider(set_provider(providing, x)) == x,
{
}

/// A peer whose last connection closed is in neither set afterwards.
pub proof fn lemma_connection_closed_evicts(connected: Set<Seq<u8>>, adv: Set<Seq<u8>>, peer: Seq<u8>)
    ensures
        !connected.remove(peer).contains(peer),
        !adv.remove(peer).contains(peer),
{
}

/// The opening brace and quote before the packet tag.
pub open spec fn adv_lit_open() -> Seq<u8> {
    seq!['{' as u8, '"' as u8]
}

/// The opening brace and quote before the packet tag.
fn adv_lit_open_vec() -> (r: Vec<u8>)
    ensures
        r@ == adv_lit_open(),
{
    let mut v: Vec<u8> = Vec::new();
    v.push('{' as u8);
    v.push('"' as u8);
    proof {
        assert(v@ =~= adv_lit_open());
    }
    v
}

/// The tag of an advertise request.
pub open spec fn tag_advertise_self() -> Seq<u8> {
    seq!['A' as u8, 'd' as u8, 'v' as u8, 'e' as u8, 'r' as u8, 't' as u8, 'i' as u8, 's' as u8, 'e' as u8, 'S' as u8, 'e' as u8, 'l' as u8, 'f' as u8]
}

/// The tag of an advertise request.
fn tag_advertise_self_vec() -> (r: Vec<u8>)
    ensures
        r@ == tag_advertise_self(),
{
    let mut v: Vec<u8> = Vec::new();
    v.push('A' as u8);
    v.push('d' as u8);
    v.push('v' as u8);
    v.push('e' as u8);
    v.push('r' as u8);
    v.push('t' as u8);
    v.push('i' as u8);
    v.push('s' as u8);
    v.push('e' as u8);
    v.push('S' as u8);
    v.push('e' as u8);
    v.push('l' as u8);
    v.push('f' as u8);
    proof {
        assert(v@ =~= tag_advertise_self());
    }
    v
}

/// The bare-string query packet.
pub open spec fn tag_query() -> Seq<u8> {
    seq!['Q' as u8, 'u' as u8, 'e' as u8, 'r' as u8, 'y' as u8, 'A' as u8, 'd' as u8, 'v' as u8, 'e' as u8, 'r' as u8, 't' as u8, 'i' as u8, 's' as u8, 'e' as u8, 'd' as u8, 'P' as u8, 'e' as u8, 'e' as u8, 'r' as u8]
}

/// The bare-string query packet.
fn tag_query_vec() -> (r: Vec<u8>)
    ensures
        r@ == tag_query(),
{
    let mut v: Vec<u8> = Vec::new();
    v.push('Q' as u8);
    v.push('u' as u8);
    v.push('e' as u8);
    v.push('r' as u8);
    v.push('y' as u8);
    v.push('A' as u8);
    v.push('d' as u8);
    v.push('v' as u8);
    v.push('e' as u8);
    v.push('r' as u8);
    v.push('t' as u8);
    v.push('i' as u8);
    v.push('s' as u8);
    v.push('e' as u8);
    v.push('d' as u8);
    v.push('P' as u8);
    v.push('e' as u8);
    v.push('e' as u8);
    v.push('r' as u8);
    proof {
        assert(v@ =~= tag_query());
    }
    v
}

/// The tag of a query answer.
pub open spec fn tag_answer() -> Seq<u8> {
    seq!['A' as u8, 'n' as u8, 's' as u8, 'w' as u8, 'e' as u8, 'r' as u8, 'A' as u8, 'd' as u8, 'v' as u8, 'e' as u8, 'r' as u8, 't' as u8, 'i' as u8, 's' as u8, 'e' as u8, 'd' as u8, 'P' as u8, 'e' as u8, 'e' as u8, 'r' as u8]
}

/// The tag of a query answer.
fn tag_answer_vec() -> (r: Vec<u8>)
    ensures
        r@ == tag_answer(),
{
    let mut v: Vec<u8> = Vec::new();
    v.push('A' as u8);
    v.push('n' as u8);
    v.push('s' as u8);
    v.push('w' as u8);
    v.push('e' as u8);
    v.push('r' as u8);
    v.push('A' as u8);
    v.push('d' as u8);
    v.push('v' as u8);
    v.push('e' as u8);
    v.push('r' as u8);
    v.push('t' as u8);
    v.push('i' as u8);
    v.push('s' as u8);
    v.push('e' as u8);
    v.push('d' as u8);
    v.push('P' as u8);
    v.push('e' as u8);
    v.push('e' as u8);
    v.push('r' as u8);
    proof {
        assert(v@ =~= tag_answer());
    }
    v
}

/// The body of a positive advertise request.
pub open spec fn adv_lit_true() -> Seq<u8> {
    seq![':' as u8, 't' as u8, 'r' as u8, 'u' as u8, 'e' as u8, '}' as u8]
}

/// The body of a positive advertise request.
fn adv_lit_true_vec() -> (r: Vec<u8>)
    ensures
        r@ == adv_lit_true(),
{
    let mut v: Vec<u8> = Vec::new();
    v.push(':' as u8);
    v.push('t' as u8);
    v.push('r' as u8);
    v.push('u' as u8);
    v.push('e' as u8);
    v.push('}' as u8);
    proof {
        assert(v@ =~= adv_lit_true());
    }
    v
}

/// The body of a negative advertise request.
pub open spec fn adv_lit_false() -> Seq<u8> {
    seq![':' as u8, 'f' as u8, 'a' as u8, 'l' as u8, 's' as u8, 'e' as u8, '}' as u8]
}

/// The body of a negative advertise request.
fn adv_lit_false_vec() -> (r: Vec<u8>)
    ensures
        r@ == adv_lit_false(),
{
    let mut v: Vec<u8> = Vec::new();
    v.push(':' as u8);
    v.push('f' as u8);
    v.push('a' as u8);
    v.push('l' as u8);
    v.push('s' as u8);
    v.push('e' as u8);
    v.push('}' as u8);
    proof {
        assert(v@ =~= adv_lit_false());
    }
    v
}

/// The body of an answer from a peer that does not provide.
pub open spec fn adv_lit_null() -> Seq<u8> {
    seq![':' as u8, 'n' as u8, 'u' as u8, 'l' as u8, 'l' as u8, '}' as u8]
}

/// The body of an answer from a peer that does not provide.
fn adv_lit_null_vec() -> (r: Vec<u8>)
    ensures
        r@ == adv_lit_null(),
{
    let mut v: Vec<u8> = Vec::new();
    v.push(':' as u8);
    v.push('n' as u8);
    v.push('u' as u8);
    v.push('l' as u8);
    v.push('l' as u8);
    v.push('}' as u8);
    proof {
        assert(v@ =~= adv_lit_null());
    }
    v
}

/// The bytes opening an answer's peer list.
pub open spec fn adv_lit_lbr() -> Seq<u8> {
    seq![':' as u8, '[' as u8]
}

/// The bytes opening an answer's peer list.
fn adv_lit_lbr_vec() -> (r: Vec<u8>)
    ensures
        r@ == adv_lit_lbr(),
{
    let mut v: Vec<u8> = Vec::new();
    v.push(':' as u8);
    v.push('[' as u8);
    proof {
        assert(v@ =~= adv_lit_lbr());
    }
    v
}


/// The ghost shape of an advertise packet.
pub enum PacketModel {
    /// Ask to be advertised (`true`) or dropped (`false`).
    AdvertiseSelf(bool),
    /// Ask for the advertised set.
    QueryAdvertisedPeer,
    /// Answer a query: the advertised identifiers, or `None` when not
    /// providing.
    AnswerAdvertisedPeer(Option<Seq<Seq<u8>>>),
}

/// The packet of the advertise protocol.
#[derive(Debug)]
pub enum Packet {
    /// Ask to be advertised (`true`) or dropped (`false`).
    AdvertiseSelf(bool),
    /// Ask for the advertised set.
    QueryAdvertisedPeer,
    /// Answer a query: the advertised peers, or `None` when not providing.
    AnswerAdvertisedPeer(Option<Vec<PeerId>>),
}

impl View for Packet {
    type V = PacketModel;

    open spec fn view(&self) -> PacketModel {
        match self {
            Packet::AdvertiseSelf(b) => PacketModel::AdvertiseSelf(*b),
            Packet::QueryAdvertisedPeer => PacketModel::QueryAdvertisedPeer,
            Packet::AnswerAdvertisedPeer(opt) => match opt {
                Some(l) => PacketModel::AnswerAdvertisedPeer(Some(crate::peer::views(l@))),
                None => PacketModel::AnswerAdvertisedPeer(None),
            },
        }
    }
}

/// The items of a non-empty peer list, each quoted in hexadecimal,
/// separated by commas and closed by the bracket.
pub open spec fn enc_peer_items(l: Seq<Seq<u8>>) -> Seq<u8>
    decreases l.len(),
{
    if l.len() == 0 {
        seq![']' as u8]
    } else {
        seq![q_mark()] + hex_enc(l[0]) + seq![q_mark()] + (if l.len() == 1 {
            seq![']' as u8]
        } else {
            seq![',' as u8] + enc_peer_items(l.drop_first())
        })
    }
}

/// The wire form of an advertise packet.
pub open spec fn spec_enc_advertise(m: PacketModel) -> Seq<u8> {
    match m {
        PacketModel::AdvertiseSelf(b) => adv_lit_open() + tag_advertise_self() + seq![q_mark()]
            + (if b {
            adv_lit_true()
        } else {
            adv_lit_false()
        }),
        PacketModel::QueryAdvertisedPeer => seq![q_mark()] + tag_query() + seq![q_mark()],
        PacketModel::AnswerAdvertisedPeer(opt) => match opt {
            None => adv_lit_open() + tag_answer() + seq![q_mark()] + adv_lit_null(),
            Some(l) => adv_lit_open() + tag_answer() + seq![q_mark()] + adv_lit_lbr()
                + enc_peer_items(l) + seq!['}' as u8],
        },
    }
}

/// The items of a peer list read from `i`, consuming the closing
/// bracket. Each item is a quoted hexadecimal run.
pub open spec fn spec_parse_peer_items(s: Seq<u8>, i: int) -> Option<(Seq<Seq<u8>>, int)>
    decreases s.len() - i when 0 <= i <= s.len()
{
    if i >= s.len() || s[i] != q_mark() {
        None
    } else {
        match spec_parse_hex(s, i + 1) {
            None => None,
            Some((b, j)) => if j <= i || j >= s.len() {
                None
            } else if s[j] != q_mark() {
                None
            } else if j + 1 < s.len() && s[j + 1] == ',' as u8 {
                match spec_parse_peer_items(s, j + 2) {
                    None => None,
                    Some((rest, e)) => Some((seq![b] + rest, e)),
                }
            } else if j + 1 < s.len() && s[j + 1] == ']' as u8 {
                Some((seq![b], j + 2))
            } else {
                None
            },
        }
    }
}

/// A peer list read from `i`: empty when the bracket closes at once,
/// else its items.
pub open spec fn spec_parse_peer_list(s: Seq<u8>, i: int) -> Option<(Seq<Seq<u8>>, int)> {
    if 0 <= i && i < s.len() && s[i] == ']' as u8 {
        Some((Seq::empty(), i + 1))
    } else {
        spec_parse_peer_items(s, i)
    }
}

/// The advertise packet a full buffer holds, if it parses.
pub open spec fn spec_parse_advertise(s: Seq<u8>) -> Option<PacketModel> {
    match spec_expect_lit(s, 0, adv_lit_open()) {
        Some(i1) => match spec_parse_str(s, i1) {
            None => None,
            Some((tag, i2)) => if tag == tag_advertise_self() {
                if spec_expect_lit(s, i2, adv_lit_true()) == Some(s.len() as int) {
                    Some(PacketModel::AdvertiseSelf(true))
                } else if spec_expect_lit(s, i2, adv_lit_false()) == Some(s.len() as int) {
                    Some(PacketModel::AdvertiseSelf(false))
                } else {
                    None
                }
            } else if tag == tag_answer() {
                if spec_expect_lit(s, i2, adv_lit_null()) == Some(s.len() as int) {
                    Some(PacketModel::AnswerAdvertisedPeer(None))
                } else {
                    match spec_expect_lit(s, i2, adv_lit_lbr()) {
                        None => None,
                        Some(i3) => match spec_parse_peer_list(s, i3) {
                            None => None,
                            Some((l, e)) => if e + 1 == s.len() && s[e] == '}' as u8 {
                                Some(PacketModel::AnswerAdvertisedPeer(Some(l)))
                            } else {
                                None
                            },
                        },
                    }
                }
            } else {
                None
            },
        },
        None => if s.len() >= 1 && s[0] == q_mark() {
            match spec_parse_str(s, 1) {
                None => None,
                Some((tag, j)) => if tag == tag_query() && j == s.len() {
                    Some(PacketModel::QueryAdvertisedPeer)
                } else {
                    None
                },
            }
        } else {
            None
        },
    }
}

impl Packet {
    /// The JSON bytes of this packet.
    pub fn as_bytes(&self) -> (r: Vec<u8>)
        ensures
            r@ == spec_enc_advertise(self@),
    {
        match self {
            Packet::AdvertiseSelf(b) => {
                let mut out: Vec<u8> = Vec::new();
                let l = adv_lit_open_vec();
                put_bytes(&mut out, &l);
                let t = tag_advertise_self_vec();
                put_bytes(&mut out, &t);
                out.push('"' as u8);
                let body = if *b {
                    adv_lit_true_vec()
                } else {
                    adv_lit_false_vec()
                };
                put_bytes(&mut out, &body);
                proof {
                    assert(out@ =~= spec_enc_advertise(self@));
                }
                out
            },
            Packet::QueryAdvertisedPeer => {
                let mut out: Vec<u8> = Vec::new();
                out.push('"' as u8);
                let t = tag_query_vec();
                put_bytes(&mut out, &t);
                out.push('"' as u8);
                proof {
                    assert(out@ =~= spec_enc_advertise(self@));
                }
                out
            },
            Packet::AnswerAdvertisedPeer(opt) => {
                let mut out: Vec<u8> = Vec::new();
                let l = adv_lit_open_vec();
                put_bytes(&mut out, &l);
                let t = tag_answer_vec();
                put_bytes(&mut out, &t);
                out.push('"' as u8);
                match opt {
                    None => {
                        let body = adv_lit_null_vec();
                        put_bytes(&mut out, &body);
                    },
                    Some(list) => {
                        let lb = adv_lit_lbr_vec();
                        put_bytes(&mut out, &lb);
                        put_peer_items(&mut out, list, 0);
                        out.push('}' as u8);
                        proof {
                            assert(crate::peer::views(list@).skip(0) =~= crate::peer::views(
                                list@,
                            ));
                        }
                    },
                }
                proof {
                    assert(out@ =~= spec_enc_advertise(self@));
                }
                out
            },
        }
    }

    /// Read an advertise packet back from JSON bytes; the whole buffer
    /// must be one packet.
    pub fn from_bytes(buf: &Vec<u8>) -> (r: Option<Packet>)
        ensures
            match r {
                Some(p) => spec_parse_advertise(buf@) == Some(p@),
                None => spec_parse_advertise(buf@) is None,
            },
    {
        let l_open = adv_lit_open_vec();
        match expect_lit(buf, 0, &l_open) {
            Some(i1) => {
                proof {
                    assert(i1 <= buf@.len());
                }
                let (tag, i2) = match parse_str_at(buf, i1) {
                    Some(v) => v,
                    None => {
                        return None;
                    },
                };
                let t_self = tag_advertise_self_vec();
                let t_ans = tag_answer_vec();
                if bytes_eq(&tag, &t_self) {
                    let lt = adv_lit_true_vec();
                    if let Some(j) = expect_lit(buf, i2, &lt) {
                        if j == buf.len() {
                            return Some(Packet::AdvertiseSelf(true));
                        }
                    }
                    let lf = adv_lit_false_vec();
                    if let Some(j) = expect_lit(buf, i2, &lf) {
                        if j == buf.len() {
                            return Some(Packet::AdvertiseSelf(false));
                        }
                    }
                    None
                } else if bytes_eq(&tag, &t_ans) {
                    let ln = adv_lit_null_vec();
                    if let Some(j) = expect_lit(buf, i2, &ln) {
                        if j == buf.len() {
                            return Some(Packet::AnswerAdvertisedPeer(None));
                        }
                    }
                    let lb = adv_lit_lbr_vec();
                    let i3 = match expect_lit(buf, i2, &lb) {
                        Some(i) => i,
                        None => {
                            return None;
                        },
                    };
                    let (list, e) = if i3 < buf.len() && buf[i3] == 93 {
                        let empty_list: Vec<PeerId> = Vec::new();
                        proof {
                            assert(crate::peer::views(empty_list@) =~= Seq::<Seq<u8>>::empty());
                        }
                        (empty_list, i3 + 1)
                    } else {
                        match parse_peer_items_at(buf, i3) {
                            Some(v) => v,
                            None => {
                                return None;
                            },
                        }
                    };
                    if e < buf.len() && e + 1 == buf.len() && buf[e] == 125 {
                        Some(Packet::AnswerAdvertisedPeer(Some(list)))
                    } else {
                        None
                    }
                } else {
                    None
                }
            },
            None => {
                if buf.len() >= 1 && buf[0] == 34 {
                    let (tag, j) = match parse_str_at(buf, 1) {
                        Some(v) => v,
                        None => {
                            return None;
                        },
                    };
                    let t_q = tag_query_vec();
                    if bytes_eq(&tag, &t_q) && j == buf.len() {
                        Some(Packet::QueryAdvertisedPeer)
                    } else {
                        None
                    }
                } else {
                    None
                }
            },
        }
    }
}

/// Append the items of the peer list from `idx` on, closing the bracket.
fn put_peer_items(out: &mut Vec<u8>, l: &Vec<PeerId>, idx: usize)
    requires
        idx <= l@.len(),
    ensures
        final(out)@ == old(out)@ + enc_peer_items(crate::peer::views(l@).skip(idx as int)),
    decreases l@.len() - idx,
{
    let ghost suffix = crate::peer::views(l@).skip(idx as int);
    if idx >= l.len() {
        out.push(']' as u8);
        proof {
            assert(suffix =~= Seq::<Seq<u8>>::empty());
            assert(final(out)@ =~= old(out)@ + enc_peer_items(suffix));
        }
    } else {
        out.push('"' as u8);
        let h = enc_hex(&l[idx].bytes);
        put_bytes(out, &h);
        out.push('"' as u8);
        if idx + 1 == l.len() {
            out.push(']' as u8);
            proof {
                assert(suffix.len() == 1);
                assert(suffix[0] == l@[idx as int]@);
                assert(final(out)@ =~= old(out)@ + enc_peer_items(suffix));
            }
        } else {
            out.push(',' as u8);
            let ghost mid = out@;
            put_peer_items(out, l, idx + 1);
            proof {
                assert(suffix[0] == l@[idx as int]@);
                assert(suffix.drop_first() =~= crate::peer::views(l@).skip(idx + 1));
                assert(final(out)@ =~= old(out)@ + enc_peer_items(suffix));
            }
        }
    }
}

/// Read the items of a peer list at `pos`, consuming the closing bracket.
fn parse_peer_items_at(buf: &Vec<u8>, pos: usize) -> (r: Option<(Vec<PeerId>, usize)>)
    requires
        pos <= buf@.len(),
    ensures
        match r {
            Some((l, e)) => spec_parse_peer_items(buf@, pos as int) == Some(
                (crate::peer::views(l@), e as int),
            ) && e <= buf@.len(),
            None => spec_parse_peer_items(buf@, pos as int) is None,
        },
{
    let n = buf.len();
    let mut i: usize = pos;
    let mut acc: Vec<PeerId> = Vec::new();
    proof {
        lemma_parse_peer_items_bounds(buf@, pos as int);
        assert(crate::peer::views(acc@) =~= Seq::<Seq<u8>>::empty());
        if spec_parse_peer_items(buf@, pos as int) is Some {
            let (v, j) = spec_parse_peer_items(buf@, pos as int)->Some_0;
            assert(crate::peer::views(acc@) + v =~= v);
        }
    }
    loop
        invariant
            n == buf@.len(),
            pos <= i <= n,
            spec_parse_peer_items(buf@, i as int) matches Some((v, j)) ==> spec_parse_peer_items(
                buf@,
                pos as int,
            ) == Some((crate::peer::views(acc@) + v, j)) && j <= n,
            spec_parse_peer_items(buf@, i as int) is None ==> spec_parse_peer_items(
                buf@,
                pos as int,
            ) is None,
        decreases n - i,
    {
        if i >= n || buf[i] != 34 {
            return None;
        }
        let (b, j) = match parse_hex_at(buf, i + 1) {
            Some(v) => v,
            None => {
                return None;
            },
        };
        if j >= n {
            return None;
        }
        if buf[j] != 34 {
            return None;
        }
        let ghost s = buf@;
        let ghost gi = i as int;
        let ghost pre = crate::peer::views(acc@);
        let ghost gb = b@;
        if j + 1 < n && buf[j + 1] == 44 {
            acc.push(PeerId::new(b));
            proof {
                assert(crate::peer::views(acc@) =~= pre + seq![gb]);
                lemma_parse_peer_items_bounds(s, (j + 2) as int);
                assert forall|v: Seq<Seq<u8>>, e: int|
                    spec_parse_peer_items(s, (j + 2) as int) == Some::<(Seq<Seq<u8>>, int)>(
                        (v, e),
                    ) implies spec_parse_peer_items(s, pos as int) == Some::<(Seq<Seq<u8>>, int)>(
                    (crate::peer::views(acc@) + v, e),
                ) && e <= n by {
                    assert(spec_parse_peer_items(s, gi) == Some::<(Seq<Seq<u8>>, int)>(
                        (seq![gb] + v, e),
                    ));
                    assert(pre + (seq![gb] + v) =~= (pre + seq![gb]) + v);
                };
            }
            i = j + 2;
        } else if j + 1 < n && buf[j + 1] == 93 {
            acc.push(PeerId::new(b));
            proof {
                assert(crate::peer::views(acc@) =~= pre + seq![gb]);
                assert(spec_parse_peer_items(s, gi) == Some::<(Seq<Seq<u8>>, int)>(
                    (seq![gb], (j + 2) as int),
                ));
                assert(pre + seq![gb] =~= crate::peer::views(acc@));
            }
            return Some((acc, j + 2));
        } else {
            return None;
        }
    }
}

/// A peer-items parse ends within the buffer.
proof fn lemma_parse_peer_items_bounds(s: Seq<u8>, i: int)
    requires
        0 <= i <= s.len(),
    ensures
        spec_parse_peer_items(s, i) matches Some((v, j)) ==> j <= s.len(),
    decreases s.len() - i,
{
    if i < s.len() && s[i] == q_mark() {
        match spec_parse_hex(s, i + 1) {
            None => {},
            Some((b, j)) => {
                if i < j && j + 1 < s.len() && s[j] == q_mark() && s[j + 1] == ',' as u8 {
                    lemma_parse_peer_items_bounds(s, j + 2);
                }
            },
        }
    }
}

impl Packet {
    /// The handler event a decoded packet becomes.
    pub fn into_event(self) -> (r: ToBehaviour)
        ensures
            self matches Packet::AdvertiseSelf(b) ==> r == ToBehaviour::IncomingAdvertiseReq(b),
            self matches Packet::QueryAdvertisedPeer ==> r == ToBehaviour::IncomingQuery,
            self matches Packet::AnswerAdvertisedPeer(l) ==> r == ToBehaviour::QueryAnswered(l),
    {
        match self {
            Packet::AdvertiseSelf(b) => ToBehaviour::IncomingAdvertiseReq(b),
            Packet::QueryAdvertisedPeer => ToBehaviour::IncomingQuery,
            Packet::AnswerAdvertisedPeer(l) => ToBehaviour::QueryAnswered(l),
        }
    }
}

/// The packet head parses back: the literal opens it and the tag reads
/// back as itself.
proof fn lemma_adv_head(s: Seq<u8>, tag: Seq<u8>)
    requires
        s.len() >= 3 + tag.len(),
        s.subrange(0, 2) =~= adv_lit_open(),
        s.subrange(2, 2 + tag.len() as int) =~= tag,
        s[2 + tag.len() as int] == q_mark(),
        forall|k: int| 0 <= k < tag.len() ==> plain_byte(#[trigger] tag[k]),
    ensures
        spec_expect_lit(s, 0, adv_lit_open()) == Some(2int),
        spec_parse_str(s, 2) == Some((tag, 3 + tag.len() as int)),
{
    lemma_expect_lit(s, 0, adv_lit_open());
    lemma_esc_plain(tag);
    assert(s.subrange(2, 2 + esc(tag).len() as int) =~= esc(tag));
    lemma_parse_str_esc(s, 2, tag);
}

/// Writing an advertise request and reading it back yields the request.
#[verifier::rlimit(100)]
proof fn lemma_rt_advertise_self(b: bool)
    ensures
        ({
            let m = PacketModel::AdvertiseSelf(b);
            spec_parse_advertise(spec_enc_advertise(m)) == Some(m)
        }),
{
    let m = PacketModel::AdvertiseSelf(b);
    let s = spec_enc_advertise(m);
    let tl = tag_advertise_self().len() as int;
    assert(s.subrange(0, 2) =~= adv_lit_open());
    assert(s.subrange(2, 2 + tl) =~= tag_advertise_self());
    assert(s[2 + tl] == q_mark());
    assert(forall|k: int| 0 <= k < tl ==> plain_byte(#[trigger] tag_advertise_self()[k]));
    lemma_adv_head(s, tag_advertise_self());
    let i2 = 3 + tl;
    if b {
        assert(s.subrange(i2, i2 + adv_lit_true().len() as int) =~= adv_lit_true());
        lemma_expect_lit(s, i2, adv_lit_true());
        assert(s.len() == i2 + adv_lit_true().len());
    } else {
        assert(s.subrange(i2, i2 + adv_lit_false().len() as int) =~= adv_lit_false());
        lemma_expect_lit(s, i2, adv_lit_false());
        assert(s.len() == i2 + adv_lit_false().len());
        assert(spec_expect_lit(s, i2, adv_lit_true()) != Some(s.len() as int)) by {
            if i2 + adv_lit_true().len() <= s.len() && s.subrange(
                i2,
                i2 + adv_lit_true().len() as int,
            ) == adv_lit_true() {
                assert(s[i2 + 1] == adv_lit_true()[1]);
                assert(s[i2 + 1] == adv_lit_false()[1]);
                assert(false);
            }
        };
    }
}

/// Writing a query and reading it back yields the query.
#[verifier::rlimit(100)]
proof fn lemma_rt_query()
    ensures
        spec_parse_advertise(spec_enc_advertise(PacketModel::QueryAdvertisedPeer)) == Some(
            PacketModel::QueryAdvertisedPeer,
        ),
{
    let m = PacketModel::QueryAdvertisedPeer;
    let s = spec_enc_advertise(m);
    let tl = tag_query().len() as int;
    assert(s.len() == 2 + tl);
    assert(s[0] == q_mark());
    assert(spec_expect_lit(s, 0, adv_lit_open()) is None) by {
        if 2 <= s.len() && s.subrange(0, 2) == adv_lit_open() {
            assert(s[0] == adv_lit_open()[0]);
            assert(false);
        }
    };
    assert(s.subrange(1, 1 + tl) =~= tag_query());
    assert(s[1 + tl] == q_mark());
    assert(forall|k: int| 0 <= k < tl ==> plain_byte(#[trigger] tag_query()[k]));
    lemma_esc_plain(tag_query());
    assert(s.subrange(1, 1 + esc(tag_query()).len() as int) =~= esc(tag_query()));
    lemma_parse_str_esc(s, 1, tag_query());
}

/// Writing an empty answer and reading it back yields the answer.
#[verifier::rlimit(100)]
proof fn lemma_rt_answer_none()
    ensures
        ({
            let m = PacketModel::AnswerAdvertisedPeer(None);
            spec_parse_advertise(spec_enc_advertise(m)) == Some(m)
        }),
{
    let m = PacketModel::AnswerAdvertisedPeer(None);
    let s = spec_enc_advertise(m);
    let tl = tag_answer().len() as int;
    assert(s.subrange(0, 2) =~= adv_lit_open());
    assert(s.subrange(2, 2 + tl) =~= tag_answer());
    assert(s[2 + tl] == q_mark());
    assert(forall|k: int| 0 <= k < tl ==> plain_byte(#[trigger] tag_answer()[k]));
    lemma_adv_head(s, tag_answer());
    assert(tag_answer().len() != tag_advertise_self().len());
    assert(tag_answer() != tag_advertise_self());
    let i2 = 3 + tl;
    assert(s.subrange(i2, i2 + adv_lit_null().len() as int) =~= adv_lit_null());
    lemma_expect_lit(s, i2, adv_lit_null());
    assert(s.len() == i2 + adv_lit_null().len());
}

/// A non-empty peer list written at `i` reads back as its identifiers.
proof fn lemma_parse_peer_items_enc(s: Seq<u8>, i: int, l: Seq<Seq<u8>>)
    requires
        l.len() >= 1,
        0 <= i,
        i + enc_peer_items(l).len() <= s.len(),
        s.subrange(i, i + enc_peer_items(l).len() as int) =~= enc_peer_items(l),
    ensures
        spec_parse_peer_items(s, i) == Some((l, i + enc_peer_items(l).len() as int)),
    decreases l.len(),
{
    let el = enc_peer_items(l);
    let h0 = hex_enc(l[0]);
    let j = i + 1 + h0.len() as int;
    assert(s[i] == el[0]);
    assert(s[i] == q_mark());
    assert forall|k: int| 0 <= k < h0.len() implies s[i + 1 + k] == h0[k] by {
        assert(s[i + 1 + k] == el[1 + k]);
    };
    assert(s.subrange(i + 1, i + 1 + h0.len() as int) =~= h0);
    assert(s[j] == el[1 + h0.len() as int]);
    assert(s[j] == q_mark());
    lemma_parse_hex_enc(s, i + 1, l[0]);
    if l.len() == 1 {
        assert(el.len() == 3 + h0.len());
        assert(s[j + 1] == el[2 + h0.len() as int]);
        assert(s[j + 1] == ']' as u8);
        assert(seq![l[0]] =~= l);
    } else {
        let rest = enc_peer_items(l.drop_first());
        assert(el.len() == 3 + h0.len() + rest.len());
        assert(s[j + 1] == el[2 + h0.len() as int]);
        assert(s[j + 1] == ',' as u8);
        assert forall|k: int| 0 <= k < rest.len() implies s[j + 2 + k] == rest[k] by {
            assert(s[j + 2 + k] == el[3 + h0.len() + k]);
        };
        assert(s.subrange(j + 2, j + 2 + rest.len() as int) =~= rest);
        lemma_parse_peer_items_enc(s, j + 2, l.drop_first());
        assert(seq![l[0]] + l.drop_first() =~= l);
    }
}

/// Writing a full answer and reading it back yields the answer.
#[verifier::rlimit(100)]
proof fn lemma_rt_answer_some(l: Seq<Seq<u8>>)
    ensures
        ({
            let m = PacketModel::AnswerAdvertisedPeer(Some(l));
            spec_parse_advertise(spec_enc_advertise(m)) == Some(m)
        }),
{
    let m = PacketModel::AnswerAdvertisedPeer(Some(l));
    let s = spec_enc_advertise(m);
    let tl = tag_answer().len() as int;
    assert(s.subrange(0, 2) =~= adv_lit_open());
    assert(s.subrange(2, 2 + tl) =~= tag_answer());
    assert(s[2 + tl] == q_mark());
    assert(forall|k: int| 0 <= k < tl ==> plain_byte(#[trigger] tag_answer()[k]));
    lemma_adv_head(s, tag_answer());
    assert(tag_answer().len() != tag_advertise_self().len());
    assert(tag_answer() != tag_advertise_self());
    let i2 = 3 + tl;
    let el = enc_peer_items(l);
    let i3 = i2 + 2;
    let e = i3 + el.len() as int;
    assert(s.len() == e + 1);
    assert(s[i2] == ':' as u8);
    assert(s[i2 + 1] == '[' as u8);
    assert(spec_expect_lit(s, i2, adv_lit_null()) != Some(s.len() as int)) by {
        if i2 + adv_lit_null().len() <= s.len() && s.subrange(
            i2,
            i2 + adv_lit_null().len() as int,
        ) == adv_lit_null() {
            assert(s[i2 + 1] == adv_lit_null()[1]);
            assert(false);
        }
    };
    assert(s.subrange(i2, i3) =~= adv_lit_lbr());
    lemma_expect_lit(s, i2, adv_lit_lbr());
    assert forall|k: int| 0 <= k < el.len() implies s[i3 + k] == el[k] by {
        assert(s[i3 + k] == s.subrange(i3, e)[k]);
    };
    assert(s.subrange(i3, e) =~= el);
    assert(s[e] == '}' as u8);
    if l.len() == 0 {
        assert(el == seq![']' as u8]);
        assert(s[i3] == ']' as u8);
        assert(spec_parse_peer_list(s, i3) == Some((Seq::<Seq<u8>>::empty(), i3 + 1)));
        assert(l =~= Seq::<Seq<u8>>::empty());
    } else {
        assert(s[i3] == el[0]);
        assert(s[i3] == q_mark());
        assert(s[i3] != ']' as u8);
        lemma_parse_peer_items_enc(s, i3, l);
    }
}

/// Writing any advertise packet and reading the bytes back yields a
/// packet equal to the original.
pub proof fn lemma_advertise_round_trip(m: PacketModel)
    ensures
        spec_parse_advertise(spec_enc_advertise(m)) == Some(m),
{
    match m {
        PacketModel::AdvertiseSelf(b) => {
            lemma_rt_advertise_self(b);
        },
        PacketModel::QueryAdvertisedPeer => {
            lemma_rt_query();
        },
        PacketModel::AnswerAdvertisedPeer(opt) => {
            match opt {
                None => {
                    lemma_rt_answer_none();
                },
                Some(l) => {
                    lemma_rt_answer_some(l);
                },
            }
        },
    }
}

} // verus!
