//! The messaging protocol: real-time text messages between peers.
//!
//! The behaviour keeps the set of peers that negotiated the protocol,
//! turns a send command into a packet for the peer's handler — or an
//! immediate error when the peer is not connected — and surfaces incoming
//! messages to the application. The packet codec writes the message as a
//! tagged JSON object and is proved to read back what it wrote.

use vstd::prelude::*;
use crate::peer::{PeerId, PeerSet};
use crate::codec::{
    dec_i64, enc_hex, enc_i64, enc_str, esc, expect_lit, hex_enc, lemma_expect_lit,
    lemma_parse_hex_enc, lemma_parse_i64_enc, lemma_parse_str_esc, parse_hex_at, parse_i64_at,
    parse_str_at, put_bytes, q_mark, spec_expect_lit, spec_parse_hex, spec_parse_i64,
    spec_parse_str,
};

verus! {

/// The multistream-select name of the messaging protocol.
pub const PROTOCOL_NAME: &'static str = "/owlnest/messaging/0.0.1";

/// The greatest body a message may carry: 64 KiB.
pub const MAX_BODY_LEN: usize = 65536;

/// Configuration of the messaging protocol.
#[derive(Debug, Clone)]
pub struct Config {
    /// How long a send on a substream may take, in milliseconds.
    pub timeout_ms: u64,
}

impl Default for Config {
    /// The default send timeout is twenty seconds.
    fn default() -> (r: Config)
        ensures
            r.timeout_ms == 20000,
    {
        Config { timeout_ms: 20000 }
    }
}

/// Errors surfaced by the messaging protocol.
#[derive(Debug)]
pub enum Error {
    /// The target peer has not negotiated this protocol.
    PeerNotFound(PeerId),
    /// An operation outlived its timeout.
    Timeout,
    /// The connection closed while a send was in flight.
    ConnectionClosed,
    /// A packet could not be decoded; holds the raw bytes.
    UnrecognizedMessage(Vec<u8>),
    /// An I/O failure, described by the transport.
    IO(Vec<u8>),
    /// The reply channel closed before a reply was sent.
    Channel,
}

/// The ghost shape of a message: identifier bytes, a timestamp and the
/// UTF-8 bytes of the body.
pub struct MessageModel {
    /// The sender's identifier bytes.
    pub from: Seq<u8>,
    /// The recipient's identifier bytes.
    pub to: Seq<u8>,
    /// Seconds since the epoch, as the sender stated them.
    pub timestamp: int,
    /// The UTF-8 bytes of the body.
    pub body: Seq<u8>,
}

/// A message between two peers.
#[derive(Debug)]
pub struct Message {
    /// The sender.
    pub from: PeerId,
    /// The recipient.
    pub to: PeerId,
    /// Seconds since the epoch, as the sender states them.
    pub timestamp: i64,
    /// The UTF-8 bytes of the body.
    pub body: Vec<u8>,
}

impl View for Message {
    type V = MessageModel;

    open spec fn view(&self) -> MessageModel {
        MessageModel {
            from: self.from@,
            to: self.to@,
            timestamp: self.timestamp as int,
            body: self.body@,
        }
    }
}

impl Message {
    /// Assemble a message. The body is bounded by `MAX_BODY_LEN`.
    pub fn new(from: PeerId, to: PeerId, timestamp: i64, body: Vec<u8>) -> (r: Message)
        requires
            body@.len() <= MAX_BODY_LEN,
        ensures
            r@.from == from@,
            r@.to == to@,
            r@.timestamp == timestamp as int,
            r@.body == body@,
    {
        Message { from, to, timestamp, body }
    }
}

/// The packet of the messaging protocol.
#[derive(Debug)]
pub enum Packet {
    /// A message in flight.
    Msg(Message),
}

/// Commands a handle submits to the behaviour.
#[derive(Debug)]
pub enum InEvent {
    /// Send a message to a peer; the id correlates the result event.
    SendMessage(PeerId, Message, u64),
    /// Snapshot the set of peers that negotiated this protocol.
    ListConnected,
}

/// Events a connection handler reports to the behaviour.
#[derive(Debug)]
pub enum ToBehaviour {
    /// A message arrived on the inbound substream.
    IncomingMessage(Message),
    /// The send correlated with the id reached the wire.
    SuccessfulSend(u64),
    /// The handler hit an error.
    Error(Error),
    /// The peer did not negotiate this protocol.
    Unsupported,
    /// The inbound substream finished negotiation.
    InboundNegotiated,
    /// The outbound substream finished negotiation.
    OutboundNegotiated,
}

/// Events the behaviour surfaces to the application.
#[derive(Debug)]
pub enum OutEvent {
    /// A message arrived from `from`.
    IncomingMessage { from: PeerId, msg: Message },
    /// The send correlated with the id reached the wire.
    SuccessfulSend(u64),
    /// A snapshot of the connected set.
    Connected(Vec<PeerId>),
    /// An error to surface.
    Error(Error),
    /// The peer does not support this protocol.
    Unsupported(PeerId),
    /// The inbound substream to the peer finished negotiation.
    InboundNegotiated(PeerId),
    /// The outbound substream to the peer finished negotiation.
    OutboundNegotiated(PeerId),
}

/// What one step of the behaviour decides to do.
#[derive(Debug)]
pub enum Action {
    /// Hand a packet to the handler of `peer` for sending.
    SendPacket { peer: PeerId, packet: Packet },
    /// Surface an event to the application.
    GenerateEvent(OutEvent),
}

/// Per-node state of the messaging protocol.
#[derive(Debug)]
pub struct Behaviour {
    /// Events waiting to be surfaced to the application.
    pub pending_out_events: Vec<OutEvent>,
    /// Commands waiting to be processed.
    pub in_events: Vec<InEvent>,
    /// Peers that negotiated this protocol.
    pub connected_peers: PeerSet,
}

impl Behaviour {
    /// The connected set is duplicate-free.
    pub open spec fn wf(&self) -> bool {
        self.connected_peers.wf()
    }

    /// A fresh behaviour with no peers and empty queues.
    pub fn new() -> (r: Behaviour)
        ensures
            r.wf(),
            r.connected_peers@ =~= Set::<Seq<u8>>::empty(),
            r.pending_out_events@ =~= Seq::<OutEvent>::empty(),
            r.in_events@ =~= Seq::<InEvent>::empty(),
    {
        Behaviour {
            pending_out_events: Vec::new(),
            in_events: Vec::new(),
            connected_peers: PeerSet::new(),
        }
    }

    /// Queue a command for processing.
    pub fn push_event(&mut self, ev: InEvent)
        ensures
            final(self).in_events@ == old(self).in_events@.push(ev),
            final(self).pending_out_events == old(self).pending_out_events,
            final(self).connected_peers == old(self).connected_peers,
    {
        self.in_events.push(ev);
    }

    /// Digest one event from a connection handler for `peer_id`.
    pub fn on_connection_handler_event(&mut self, peer_id: PeerId, event: ToBehaviour)
        requires
            old(self).wf(),
        ensures
            final(self).wf(),
            final(self).in_events == old(self).in_events,
            event matches ToBehaviour::IncomingMessage(m) ==> final(self).pending_out_events@
                == old(self).pending_out_events@.push(
                OutEvent::IncomingMessage { from: peer_id, msg: m },
            ) && final(self).connected_peers == old(self).connected_peers,
            event matches ToBehaviour::SuccessfulSend(id) ==> final(self).pending_out_events@
                == old(self).pending_out_events@.push(OutEvent::SuccessfulSend(id)) && final(self).connected_peers == old(self).connected_peers,
            event matches ToBehaviour::Error(e) ==> final(self).pending_out_events@ == old(self).pending_out_events@.push(OutEvent::Error(e)) && final(self).connected_peers == old(self).connected_peers,
            event matches ToBehaviour::Unsupported ==> final(self).pending_out_events@ == old(self).pending_out_events@.push(OutEvent::Unsupported(peer_id)) && final(self).connected_peers == old(self).connected_peers,
            event matches ToBehaviour::InboundNegotiated ==> final(self).pending_out_events@
                == old(self).pending_out_events@.push(OutEvent::InboundNegotiated(peer_id))
                && final(self).connected_peers == old(self).connected_peers,
            event matches ToBehaviour::OutboundNegotiated ==> final(self).pending_out_events@
                == old(self).pending_out_events@.push(OutEvent::OutboundNegotiated(peer_id))
                && final(self).connected_peers@ =~= old(self).connected_peers@.insert(peer_id@),
    {
        match event {
            ToBehaviour::IncomingMessage(m) => {
                self.pending_out_events.push(OutEvent::IncomingMessage { from: peer_id, msg: m });
            },
            ToBehaviour::SuccessfulSend(id) => {
                self.pending_out_events.push(OutEvent::SuccessfulSend(id));
            },
            ToBehaviour::Error(e) => {
                self.pending_out_events.push(OutEvent::Error(e));
            },
            ToBehaviour::Unsupported => {
                self.pending_out_events.push(OutEvent::Unsupported(peer_id));
            },
            ToBehaviour::InboundNegotiated => {
                self.pending_out_events.push(OutEvent::InboundNegotiated(peer_id));
            },
            ToBehaviour::OutboundNegotiated => {
                let p = peer_id.duplicate();
                self.pending_out_events.push(OutEvent::OutboundNegotiated(peer_id));
                let _ = self.connected_peers.insert(p);
            },
        }
    }

    /// Note a newly established connection to `peer`.
    pub fn on_connection_established(&mut self, peer: &PeerId)
        requires
            old(self).wf(),
        ensures
            final(self).wf(),
            final(self).connected_peers@ =~= old(self).connected_peers@.insert(peer@),
            final(self).pending_out_events == old(self).pending_out_events,
            final(self).in_events == old(self).in_events,
    {
        let _ = self.connected_peers.insert(peer.duplicate());
    }

    /// Note a closed connection to `peer`; the last one evicts the peer.
    pub fn on_connection_closed(&mut self, peer: &PeerId, remaining_established: u32)
        requires
            old(self).wf(),
        ensures
            final(self).wf(),
            remaining_established == 0 ==> final(self).connected_peers@ =~= old(self).connected_peers@.remove(peer@),
            remaining_established != 0 ==> final(self).connected_peers == old(self).connected_peers,
            final(self).pending_out_events == old(self).pending_out_events,
            final(self).in_events == old(self).in_events,
    {
        if remaining_established == 0 {
            let _ = self.connected_peers.remove(peer);
        }
    }

    /// Digest one command: a message to a connected peer becomes a packet
    /// for its handler; to anyone else the send fails at once.
    pub fn handle_in_event(&mut self, ev: InEvent) -> (r: Option<Action>)
        requires
            old(self).wf(),
        ensures
            final(self).wf(),
            final(self).in_events == old(self).in_events,
            final(self).connected_peers == old(self).connected_peers,
            ev matches InEvent::SendMessage(to, msg, id) ==> (
            old(self).connected_peers@.contains(to@) ==> (r matches Some(
                Action::SendPacket { peer, packet },
            ) && peer@ == to@ && packet == Packet::Msg(msg) && final(self).pending_out_events
                == old(self).pending_out_events)),
            ev matches InEvent::SendMessage(to, msg, id) ==> (!old(self).connected_peers@.contains(to@) ==> r is None && final(self).pending_out_events@
                == old(self).pending_out_events@.push(
                OutEvent::Error(Error::PeerNotFound(to)),
            )),
            ev matches InEvent::ListConnected ==> (r matches Some(
                Action::GenerateEvent(OutEvent::Connected(l)),
            ) && crate::peer::views(l@).to_set() == old(self).connected_peers@ && final(self).pending_out_events == old(self).pending_out_events),
    {
        match ev {
            InEvent::SendMessage(to, msg, _id) => {
                if self.connected_peers.contains(&to) {
                    Some(Action::SendPacket { peer: to, packet: Packet::Msg(msg) })
                } else {
                    self.pending_out_events.push(OutEvent::Error(Error::PeerNotFound(to)));
                    None
                }
            },
            InEvent::ListConnected => {
                let l = self.connected_peers.snapshot();
                Some(Action::GenerateEvent(OutEvent::Connected(l)))
            },
        }
    }

    /// One step of the behaviour: surface the oldest queued event, else
    /// digest the oldest command.
    pub fn poll(&mut self) -> (r: Option<Action>)
        requires
            old(self).wf(),
        ensures
            final(self).wf(),
            old(self).pending_out_events@.len() > 0 ==> r == Some(
                Action::GenerateEvent(old(self).pending_out_events@[0]),
            ) && final(self).pending_out_events@ == old(self).pending_out_events@.drop_first()
                && final(self).in_events == old(self).in_events && final(self).connected_peers
                == old(self).connected_peers,
            old(self).pending_out_events@.len() == 0 && old(self).in_events@.len() > 0 ==> final(self).in_events@ == old(self).in_events@.drop_first() && final(self).connected_peers
                == old(self).connected_peers,
            ({
                let ready = old(self).pending_out_events@.len() == 0 && old(
                    self,
                ).in_events@.len() > 0;
                &&& (ready ==> (old(self).in_events@[0] matches InEvent::SendMessage(to, msg, id)
                    ==> (old(self).connected_peers@.contains(to@) ==> (r matches Some(
                    Action::SendPacket { peer, packet },
                ) && peer@ == to@ && packet == Packet::Msg(msg) && final(self).pending_out_events
                    == old(self).pending_out_events))))
                &&& (ready ==> (old(self).in_events@[0] matches InEvent::SendMessage(to, msg, id)
                    ==> (!old(self).connected_peers@.contains(to@) ==> r is None && final(self).pending_out_events@ == old(self).pending_out_events@.push(
                    OutEvent::Error(Error::PeerNotFound(to)),
                ))))
                &&& (ready ==> (old(self).in_events@[0] matches InEvent::ListConnected ==> (
                r matches Some(Action::GenerateEvent(OutEvent::Connected(l)))
                    && crate::peer::views(l@).to_set() == old(self).connected_peers@ && final(self).pending_out_events == old(self).pending_out_events)))
            }),
            old(self).pending_out_events@.len() == 0 && old(self).in_events@.len() == 0 ==> r
                is None && *final(self) == *old(self),
    {
        if self.pending_out_events.len() > 0 {
            let ev = self.pending_out_events.remove(0);
            return Some(Action::GenerateEvent(ev));
        }
        if self.in_events.len() > 0 {
            let ev = self.in_events.remove(0);
            return self.handle_in_event(ev);
        }
        None
    }
}

/// The bytes before the sender field of the message packet.
pub open spec fn lit_from() -> Seq<u8> {
    seq!['{' as u8, '"' as u8, 'M' as u8, 's' as u8, 'g' as u8, '"' as u8, ':' as u8, '{' as u8, '"' as u8, 'f' as u8, 'r' as u8, 'o' as u8, 'm' as u8, '"' as u8, ':' as u8, '"' as u8]
}

/// The bytes before the sender field of the message packet.
fn lit_from_vec() -> (r: Vec<u8>)
    ensures
        r@ == lit_from(),
{
    let mut v: Vec<u8> = Vec::new();
    v.push('{' as u8);
    v.push('"' as u8);
    v.push('M' as u8);
    v.push('s' as u8);
    v.push('g' as u8);
    v.push('"' as u8);
    v.push(':' as u8);
    v.push('{' as u8);
    v.push('"' as u8);
    v.push('f' as u8);
    v.push('r' as u8);
    v.push('o' as u8);
    v.push('m' as u8);
    v.push('"' as u8);
    v.push(':' as u8);
    v.push('"' as u8);
    proof {
        assert(v@ =~= lit_from());
    }
    v
}

/// The bytes between the sender and recipient fields of the message packet.
pub open spec fn lit_to() -> Seq<u8> {
    seq!['"' as u8, ',' as u8, '"' as u8, 't' as u8, 'o' as u8, '"' as u8, ':' as u8, '"' as u8]
}

/// The bytes between the sender and recipient fields of the message packet.
fn lit_to_vec() -> (r: Vec<u8>)
    ensures
        r@ == lit_to(),
{
    let mut v: Vec<u8> = Vec::new();
    v.push('"' as u8);
    v.push(',' as u8);
    v.push('"' as u8);
    v.push('t' as u8);
    v.push('o' as u8);
    v.push('"' as u8);
    v.push(':' as u8);
    v.push('"' as u8);
    proof {
        assert(v@ =~= lit_to());
    }
    v
}

/// The bytes between the recipient and timestamp fields of the message packet.
pub open spec fn lit_ts() -> Seq<u8> {
    seq!['"' as u8, ',' as u8, '"' as u8, 't' as u8, 'i' as u8, 'm' as u8, 'e' as u8, 's' as u8, 't' as u8, 'a' as u8, 'm' as u8, 'p' as u8, '"' as u8, ':' as u8]
}

/// The bytes between the recipient and timestamp fields of the message packet.
fn lit_ts_vec() -> (r: Vec<u8>)
    ensures
        r@ == lit_ts(),
{
    let mut v: Vec<u8> = Vec::new();
    v.push('"' as u8);
    v.push(',' as u8);
    v.push('"' as u8);
    v.push('t' as u8);
    v.push('i' as u8);
    v.push('m' as u8);
    v.push('e' as u8);
    v.push('s' as u8);
    v.push('t' as u8);
    v.push('a' as u8);
    v.push('m' as u8);
    v.push('p' as u8);
    v.push('"' as u8);
    v.push(':' as u8);
    proof {
        assert(v@ =~= lit_ts());
    }
    v
}

/// The bytes between the timestamp and body fields of the message packet.
pub open spec fn lit_body() -> Seq<u8> {
    seq![',' as u8, '"' as u8, 'b' as u8, 'o' as u8, 'd' as u8, 'y' as u8, '"' as u8, ':' as u8, '"' as u8]
}

/// The bytes between the timestamp and body fields of the message packet.
fn lit_body_vec() -> (r: Vec<u8>)
    ensures
        r@ == lit_body(),
{
    let mut v: Vec<u8> = Vec::new();
    v.push(',' as u8);
    v.push('"' as u8);
    v.push('b' as u8);
    v.push('o' as u8);
    v.push('d' as u8);
    v.push('y' as u8);
    v.push('"' as u8);
    v.push(':' as u8);
    v.push('"' as u8);
    proof {
        assert(v@ =~= lit_body());
    }
    v
}

/// The bytes closing the packet of the message packet.
pub open spec fn lit_tail() -> Seq<u8> {
    seq!['}' as u8, '}' as u8]
}

/// The bytes closing the packet of the message packet.
fn lit_tail_vec() -> (r: Vec<u8>)
    ensures
        r@ == lit_tail(),
{
    let mut v: Vec<u8> = Vec::new();
    v.push('}' as u8);
    v.push('}' as u8);
    proof {
        assert(v@ =~= lit_tail());
    }
    v
}


/// The wire form of a message: a tagged JSON object holding the sender
/// and recipient in hexadecimal, the timestamp in decimal and the body as
/// an escaped string.
pub open spec fn spec_enc_message(m: MessageModel) -> Seq<u8> {
    lit_from() + hex_enc(m.from) + lit_to() + hex_enc(m.to) + lit_ts() + dec_i64(m.timestamp)
        + lit_body() + esc(m.body) + seq![q_mark()] + lit_tail()
}

/// The message a full buffer holds, if it parses.
pub open spec fn spec_parse_message(s: Seq<u8>) -> Option<MessageModel> {
    match spec_expect_lit(s, 0, lit_from()) {
        None => None,
        Some(i1) => match spec_parse_hex(s, i1) {
            None => None,
            Some((from, i2)) => match spec_expect_lit(s, i2, lit_to()) {
                None => None,
                Some(i3) => match spec_parse_hex(s, i3) {
                    None => None,
                    Some((to, i4)) => match spec_expect_lit(s, i4, lit_ts()) {
                        None => None,
                        Some(i5) => match spec_parse_i64(s, i5) {
                            None => None,
                            Some((ts, i6)) => match spec_expect_lit(s, i6, lit_body()) {
                                None => None,
                                Some(i7) => match spec_parse_str(s, i7) {
                                    None => None,
                                    Some((body, i8)) => match spec_expect_lit(s, i8, lit_tail()) {
                                        None => None,
                                        Some(i9) => if i9 == s.len() {
                                            Some(MessageModel { from, to, timestamp: ts, body })
                                        } else {
                                            None
                                        },
                                    },
                                },
                            },
                        },
                    },
                },
            },
        },
    }
}

impl Packet {
    /// The JSON bytes of this packet.
    pub fn as_bytes(&self) -> (r: Vec<u8>)
        ensures
            self matches Packet::Msg(m) ==> r@ == spec_enc_message(m@),
    {
        match self {
            Packet::Msg(m) => {
                let mut out: Vec<u8> = Vec::new();
                let l1 = lit_from_vec();
                put_bytes(&mut out, &l1);
                let h1 = enc_hex(&m.from.bytes);
                put_bytes(&mut out, &h1);
                let l2 = lit_to_vec();
                put_bytes(&mut out, &l2);
                let h2 = enc_hex(&m.to.bytes);
                put_bytes(&mut out, &h2);
                let l3 = lit_ts_vec();
                put_bytes(&mut out, &l3);
                let ts = enc_i64(m.timestamp);
                put_bytes(&mut out, &ts);
                let l4 = lit_body_vec();
                put_bytes(&mut out, &l4);
                let b = enc_str(&m.body);
                put_bytes(&mut out, &b);
                out.push('"' as u8);
                let l5 = lit_tail_vec();
                put_bytes(&mut out, &l5);
                proof {
                    assert(out@ =~= spec_enc_message(m@));
                }
                out
            },
        }
    }

    /// Read a packet back from JSON bytes; the whole buffer must be one
    /// packet.
    pub fn from_bytes(buf: &Vec<u8>) -> (r: Option<Packet>)
        ensures
            match r {
                Some(p) => p matches Packet::Msg(m) && spec_parse_message(buf@) == Some(m@),
                None => spec_parse_message(buf@) is None,
            },
    {
        let l1 = lit_from_vec();
        let i1 = match expect_lit(buf, 0, &l1) {
            Some(i) => i,
            None => {
                return None;
            },
        };
        let (from, i2) = match parse_hex_at(buf, i1) {
            Some(v) => v,
            None => {
                return None;
            },
        };
        let l2 = lit_to_vec();
        let i3 = match expect_lit(buf, i2, &l2) {
            Some(i) => i,
            None => {
                return None;
            },
        };
        proof {
            assert(i3 <= buf@.len());
        }
        let (to, i4) = match parse_hex_at(buf, i3) {
            Some(v) => v,
            None => {
                return None;
            },
        };
        let l3 = lit_ts_vec();
        let i5 = match expect_lit(buf, i4, &l3) {
            Some(i) => i,
            None => {
                return None;
            },
        };
        let (ts, i6) = match parse_i64_at(buf, i5) {
            Some(v) => v,
            None => {
                return None;
            },
        };
        let l4 = lit_body_vec();
        let i7 = match expect_lit(buf, i6, &l4) {
            Some(i) => i,
            None => {
                return None;
            },
        };
        proof {
            assert(i7 <= buf@.len());
        }
        let (body, i8) = match parse_str_at(buf, i7) {
            Some(v) => v,
            None => {
                return None;
            },
        };
        let l5 = lit_tail_vec();
        let i9 = match expect_lit(buf, i8, &l5) {
            Some(i) => i,
            None => {
                return None;
            },
        };
        if i9 != buf.len() {
            return None;
        }
        Some(
            Packet::Msg(
                Message {
                    from: PeerId::new(from),
                    to: PeerId::new(to),
                    timestamp: ts,
                    body,
                },
            ),
        )
    }
}

/// Writing a message and reading the bytes back yields the message.
#[verifier::rlimit(100)]
pub proof fn lemma_message_round_trip(m: MessageModel)
    requires
        i64::MIN <= m.timestamp <= i64::MAX,
    ensures
        spec_parse_message(spec_enc_message(m)) == Some(m),
{
    let s = spec_enc_message(m);
    let o1 = lit_from().len() as int;
    let o2 = o1 + hex_enc(m.from).len();
    let o3 = o2 + lit_to().len();
    let o4 = o3 + hex_enc(m.to).len();
    let o5 = o4 + lit_ts().len();
    let o6 = o5 + dec_i64(m.timestamp).len();
    let o7 = o6 + lit_body().len();
    let o8 = o7 + esc(m.body).len() + 1;
    let o9 = o8 + lit_tail().len();
    assert(s.len() == o9);
    assert(s.subrange(0, o1) =~= lit_from());
    lemma_expect_lit(s, 0, lit_from());
    assert(s.subrange(o1, o2) =~= hex_enc(m.from));
    assert(s[o2] == '"' as u8);
    lemma_parse_hex_enc(s, o1, m.from);
    assert(s.subrange(o2, o3) =~= lit_to());
    lemma_expect_lit(s, o2, lit_to());
    assert(s.subrange(o3, o4) =~= hex_enc(m.to));
    assert(s[o4] == '"' as u8);
    lemma_parse_hex_enc(s, o3, m.to);
    assert(s.subrange(o4, o5) =~= lit_ts());
    lemma_expect_lit(s, o4, lit_ts());
    assert(s.subrange(o5, o6) =~= dec_i64(m.timestamp));
    assert(s[o6] == ',' as u8);
    lemma_parse_i64_enc(s, o5, m.timestamp);
    assert(s.subrange(o6, o7) =~= lit_body());
    lemma_expect_lit(s, o6, lit_body());
    assert(s.subrange(o7, o7 + esc(m.body).len()) =~= esc(m.body));
    assert(s[o7 + esc(m.body).len()] == q_mark());
    lemma_parse_str_esc(s, o7, m.body);
    assert(s.subrange(o8, o9) =~= lit_tail());
    lemma_expect_lit(s, o8, lit_tail());
    assert(spec_parse_message(s) == Some(
        MessageModel { from: m.from, to: m.to, timestamp: m.timestamp, body: m.body },
    ));
    assert(MessageModel { from: m.from, to: m.to, timestamp: m.timestamp, body: m.body } == m);
}

} // verus!
