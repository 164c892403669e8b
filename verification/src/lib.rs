//! Verified core of a peer-to-peer node runtime.
//!
//! The crate holds the protocol orchestration logic of the node: the wire
//! codec shared by the custom protocols, the per-connection handler state
//! machine, and the three protocol behaviours (messaging, advertise, blob
//! transfer), together with the swarm configuration. All I/O — sockets,
//! files, timers — lives outside the library; the functions here are pure
//! state transitions from plain values to plain values.

use vstd::prelude::*;

pub mod peer;
pub mod wire;
pub mod codec;
pub mod advertise;
pub mod messaging;
pub mod blob;
pub mod handler;
pub mod swarm;

verus! {

/// Greatest payload length a peer may declare in a frame: 16 MiB.
pub const MAX_FRAME_LEN: u32 = 16777216;

/// Build one node from the default configuration: the three protocol
/// behaviours, fresh and well formed.
pub fn setup_peer() -> (r: swarm::Node)
    ensures
        r.wf(),
        r.config.swarm.swarm_event_buffer_size == 16,
        r.messaging.connected_peers@ =~= Set::<Seq<u8>>::empty(),
        r.advertise.connected_peers@ =~= Set::<Seq<u8>>::empty(),
        r.advertise.advertised_peers@ =~= Set::<Seq<u8>>::empty(),
        !r.advertise.is_providing,
        r.blob.next_send_id == 0,
        r.blob.next_recv_id == 0,
{
    let config = swarm::SwarmConfig::default();
    swarm::Builder::new(config).build()
}

} // verus!
