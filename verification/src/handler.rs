//! The per-connection protocol handler state machine.
//!
//! One handler exists per peer-connection and protocol. It drives one
//! inbound and one outbound substream: the outbound side walks from no
//! stream, through a requested stream, to idle, and is busy while a frame
//! is on the wire; the inbound side hands arriving frames up. The streams
//! and timers themselves live with the caller, which feeds their outcomes
//! in as events; the decisions — what to send, when to request a stream,
//! what to report — are made here.

use vstd::prelude::*;

verus! {

/// Whether the peer negotiated this protocol.
#[derive(Debug, Clone, Copy, PartialEq, Eq, Structural)]
pub enum State {
    /// The peer did not negotiate the protocol; `reported` once the
    /// failure has been surfaced.
    Inactive { reported: bool },
    /// The protocol is available.
    Active,
}

/// The outbound substream, as far as the handler decides about it.
#[derive(Debug, Clone, Copy, PartialEq, Eq, Structural)]
pub enum OutboundState {
    /// No substream and none requested.
    NoStream,
    /// A substream was requested and has not opened yet.
    OpenStream,
    /// The substream is open and free.
    Idle,
    /// A frame is being sent on the substream.
    Busy,
}

/// What the handler reports to its behaviour.
#[derive(Debug)]
pub enum ToBehaviour {
    /// The peer did not negotiate the protocol; sent once.
    Unsupported,
    /// The inbound substream finished negotiation.
    InboundNegotiated,
    /// The outbound substream finished negotiation.
    OutboundNegotiated,
    /// A frame arrived on the inbound substream.
    IncomingBytes(Vec<u8>),
    /// A send outlived the timeout.
    TimeoutError,
    /// The transport failed; holds its description.
    IOError(Vec<u8>),
}

/// What one poll of the handler decides to do.
#[derive(Debug)]
pub enum PollResult {
    /// Ask the connection for an outbound substream.
    RequestOutboundStream,
    /// Start sending this frame on the idle substream.
    StartSend(Vec<u8>),
    /// Report an event to the behaviour.
    NotifyBehaviour(ToBehaviour),
    /// Nothing to do.
    Idle,
}

/// The handler of one connection for one protocol.
#[derive(Debug)]
pub struct Handler {
    /// Whether the peer negotiated the protocol.
    pub state: State,
    /// How long a send may take, in milliseconds; the caller arms the
    /// timer.
    pub timeout_ms: u64,
    /// Frames from the behaviour waiting for the outbound substream,
    /// oldest first.
    pub pending_in_events: Vec<Vec<u8>>,
    /// Events waiting to be reported to the behaviour, oldest first.
    pub pending_out_events: Vec<ToBehaviour>,
    /// Whether the inbound substream is open and being read.
    pub inbound_armed: bool,
    /// The outbound substream state.
    pub outbound: OutboundState,
}

/// The queues of `pre` and `post` are the same.
pub open spec fn same_queues(pre: Handler, post: Handler) -> bool {
    &&& post.pending_in_events == pre.pending_in_events
    &&& post.pending_out_events == pre.pending_out_events
}

impl Handler {
    /// A fresh handler: active, nothing queued, no substreams.
    pub fn new(timeout_ms: u64) -> (r: Handler)
        ensures
            r.state == State::Active,
            r.timeout_ms == timeout_ms,
            r.pending_in_events@ =~= Seq::<Vec<u8>>::empty(),
            r.pending_out_events@ =~= Seq::<ToBehaviour>::empty(),
            !r.inbound_armed,
            r.outbound == OutboundState::NoStream,
    {
        Handler {
            state: State::Active,
            timeout_ms,
            pending_in_events: Vec::new(),
            pending_out_events: Vec::new(),
            inbound_armed: false,
            outbound: OutboundState::NoStream,
        }
    }

    /// Queue a frame from the behaviour for sending.
    pub fn on_behaviour_event(&mut self, frame: Vec<u8>)
        ensures
            final(self).pending_in_events@ == old(self).pending_in_events@.push(frame),
            final(self).pending_out_events == old(self).pending_out_events,
            final(self).state == old(self).state,
            final(self).inbound_armed == old(self).inbound_armed,
            final(self).outbound == old(self).outbound,
            final(self).timeout_ms == old(self).timeout_ms,
    {
        self.pending_in_events.push(frame);
    }

    /// The inbound substream finished negotiation: reading begins.
    pub fn on_fully_negotiated_inbound(&mut self)
        ensures
            final(self).inbound_armed,
            final(self).pending_out_events@ == old(self).pending_out_events@.push(
                ToBehaviour::InboundNegotiated,
            ),
            final(self).pending_in_events == old(self).pending_in_events,
            final(self).state == old(self).state,
            final(self).outbound == old(self).outbound,
            final(self).timeout_ms == old(self).timeout_ms,
    {
        self.inbound_armed = true;
        self.pending_out_events.push(ToBehaviour::InboundNegotiated);
    }

    /// The outbound substream finished negotiation: it is idle now.
    pub fn on_fully_negotiated_outbound(&mut self)
        ensures
            final(self).outbound == OutboundState::Idle,
            final(self).pending_out_events@ == old(self).pending_out_events@.push(
                ToBehaviour::OutboundNegotiated,
            ),
            final(self).pending_in_events == old(self).pending_in_events,
            final(self).state == old(self).state,
            final(self).inbound_armed == old(self).inbound_armed,
            final(self).timeout_ms == old(self).timeout_ms,
    {
        self.outbound = OutboundState::Idle;
        self.pending_out_events.push(ToBehaviour::OutboundNegotiated);
    }

    /// The outbound upgrade failed. A failed negotiation marks the peer
    /// unsupported, to be reported once; any other failure only drops
    /// the outbound stream so the next command retries.
    pub fn on_dial_upgrade_error(&mut self, negotiation_failed: bool)
        ensures
            final(self).outbound == OutboundState::NoStream,
            negotiation_failed ==> final(self).state == (State::Inactive { reported: false }),
            !negotiation_failed ==> final(self).state == old(self).state,
            same_queues(*old(self), *final(self)),
            final(self).inbound_armed == old(self).inbound_armed,
            final(self).timeout_ms == old(self).timeout_ms,
    {
        self.outbound = OutboundState::NoStream;
        if negotiation_failed {
            self.state = State::Inactive { reported: false };
        }
    }

    /// The frame on the wire went through: the substream is idle again.
    pub fn on_send_success(&mut self)
        ensures
            old(self).outbound == OutboundState::Busy ==> final(self).outbound
                == OutboundState::Idle,
            old(self).outbound != OutboundState::Busy ==> final(self).outbound == old(self).outbound,
            same_queues(*old(self), *final(self)),
            final(self).state == old(self).state,
            final(self).inbound_armed == old(self).inbound_armed,
            final(self).timeout_ms == old(self).timeout_ms,
    {
        if self.outbound == OutboundState::Busy {
            self.outbound = OutboundState::Idle;
        }
    }

    /// The send outlived its timeout: the timeout is reported and the
    /// stream dropped, so a fresh one is requested on the next poll.
    pub fn on_send_timeout(&mut self)
        ensures
            final(self).outbound == OutboundState::NoStream,
            final(self).pending_out_events@ == old(self).pending_out_events@.push(
                ToBehaviour::TimeoutError,
            ),
            final(self).pending_in_events == old(self).pending_in_events,
            final(self).state == old(self).state,
            final(self).inbound_armed == old(self).inbound_armed,
            final(self).timeout_ms == old(self).timeout_ms,
    {
        self.outbound = OutboundState::NoStream;
        self.pending_out_events.push(ToBehaviour::TimeoutError);
    }

    /// The send failed in the transport: the failure is reported and the
    /// stream dropped.
    pub fn on_send_error(&mut self, detail: Vec<u8>)
        ensures
            final(self).outbound == OutboundState::NoStream,
            final(self).pending_out_events@ == old(self).pending_out_events@.push(
                ToBehaviour::IOError(detail),
            ),
            final(self).pending_in_events == old(self).pending_in_events,
            final(self).state == old(self).state,
            final(self).inbound_armed == old(self).inbound_armed,
            final(self).timeout_ms == old(self).timeout_ms,
    {
        self.outbound = OutboundState::NoStream;
        self.pending_out_events.push(ToBehaviour::IOError(detail));
    }

    /// A frame arrived: it goes to the behaviour and reading continues.
    /// A frame that does not decode is the behaviour's to refuse; the
    /// substream is not torn down by a bad frame.
    pub fn on_inbound_frame(&mut self, bytes: Vec<u8>)
        requires
            old(self).inbound_armed,
        ensures
            final(self).inbound_armed,
            final(self).pending_out_events@ == old(self).pending_out_events@.push(
                ToBehaviour::IncomingBytes(bytes),
            ),
            final(self).pending_in_events == old(self).pending_in_events,
            final(self).state == old(self).state,
            final(self).outbound == old(self).outbound,
            final(self).timeout_ms == old(self).timeout_ms,
    {
        self.pending_out_events.push(ToBehaviour::IncomingBytes(bytes));
    }

    /// Reading the inbound substream failed: the failure is reported and
    /// that direction dropped.
    pub fn on_inbound_error(&mut self, detail: Vec<u8>)
        ensures
            !final(self).inbound_armed,
            final(self).pending_out_events@ == old(self).pending_out_events@.push(
                ToBehaviour::IOError(detail),
            ),
            final(self).pending_in_events == old(self).pending_in_events,
            final(self).state == old(self).state,
            final(self).outbound == old(self).outbound,
            final(self).timeout_ms == old(self).timeout_ms,
    {
        self.inbound_armed = false;
        self.pending_out_events.push(ToBehaviour::IOError(detail));
    }

    /// Whether the connection should be kept alive: only while the
    /// protocol is available.
    pub fn connection_keep_alive(&self) -> (r: bool)
        ensures
            r == (self.state == State::Active),
    {
        self.state == State::Active
    }

    /// One step of the handler. An unsupported peer is reported exactly
    /// once, then the handler is silent. Otherwise: an idle substream
    /// takes the oldest queued frame; a missing substream is requested;
    /// else the oldest queued event is reported.
    pub fn poll(&mut self) -> (r: PollResult)
        ensures
            final(self).timeout_ms == old(self).timeout_ms,
            final(self).inbound_armed == old(self).inbound_armed,
            old(self).state == (State::Inactive { reported: true }) ==> r is Idle && *final(self)
                == *old(self),
            old(self).state == (State::Inactive { reported: false }) ==> (r matches
            PollResult::NotifyBehaviour(ev) && ev is Unsupported) && final(self).state == (
            State::Inactive { reported: true }) && same_queues(*old(self), *final(self)) && final(self).outbound == old(self).outbound,
            old(self).state is Active ==> final(self).state is Active,
            old(self).state is Active && old(self).outbound == OutboundState::Idle && old(self).pending_in_events@.len() > 0 ==> (r matches PollResult::StartSend(frame) && frame
                == old(self).pending_in_events@[0]) && final(self).pending_in_events@ == old(self).pending_in_events@.drop_first() && final(self).outbound == OutboundState::Busy
                && final(self).pending_out_events == old(self).pending_out_events,
            old(self).state is Active && old(self).outbound == OutboundState::NoStream ==> r
                is RequestOutboundStream && final(self).outbound == OutboundState::OpenStream
                && same_queues(*old(self), *final(self)),
            old(self).state is Active && (old(self).outbound == OutboundState::OpenStream || old(self).outbound == OutboundState::Busy || (old(self).outbound == OutboundState::Idle && old(self).pending_in_events@.len() == 0)) ==> final(self).outbound == old(self).outbound
                && final(self).pending_in_events == old(self).pending_in_events && (
            old(self).pending_out_events@.len() > 0 ==> r == PollResult::NotifyBehaviour(
                old(self).pending_out_events@[0],
            ) && final(self).pending_out_events@ == old(self).pending_out_events@.drop_first()),
            old(self).state is Active && (old(self).outbound == OutboundState::OpenStream || old(self).outbound == OutboundState::Busy || (old(self).outbound == OutboundState::Idle && old(self).pending_in_events@.len() == 0)) && old(self).pending_out_events@.len() == 0 ==> r
                is Idle && *final(self) == *old(self),
    {
        match self.state {
            State::Inactive { reported: true } => {
                return PollResult::Idle;
            },
            State::Inactive { reported: false } => {
                self.state = State::Inactive { reported: true };
                return PollResult::NotifyBehaviour(ToBehaviour::Unsupported);
            },
            State::Active => {},
        }
        if self.outbound == OutboundState::Idle && self.pending_in_events.len() > 0 {
            let frame = self.pending_in_events.remove(0);
            self.outbound = OutboundState::Busy;
            return PollResult::StartSend(frame);
        }
        if self.outbound == OutboundState::NoStream {
            self.outbound = OutboundState::OpenStream;
            return PollResult::RequestOutboundStream;
        }
        if self.pending_out_events.len() > 0 {
            let ev = self.pending_out_events.remove(0);
            return PollResult::NotifyBehaviour(ev);
        }
        PollResult::Idle
    }
}

} // verus!
