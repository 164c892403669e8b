//! Swarm composition and the event-loop arithmetic.
//!
//! A node owns one swarm: the three protocol behaviours over a shared
//! transport. The loop that owns the sockets lives with the caller; what
//! stands here is the composition of the behaviours from a configuration
//! and the backpressure rules of the event loop — when the swarm may be
//! polled and when a slow reader is to be flagged.

use vstd::prelude::*;

verus! {

/// Configuration of the swarm itself.
#[derive(Debug, Clone)]
pub struct Config {
    /// Path to the identity file; empty means a fresh random identity.
    pub identity_path: String,
    /// How many events the broadcast queue holds.
    pub swarm_event_buffer_size: usize,
    /// How often the loop wakes without activity, in milliseconds.
    pub swarm_event_timeout: u64,
}

impl Default for Config {
    /// An empty identity path, sixteen event slots, a 200 ms timer.
    fn default() -> (r: Config)
        ensures
            r.identity_path@ =~= Seq::<char>::empty(),
            r.swarm_event_buffer_size == 16,
            r.swarm_event_timeout == 200,
    {
        let p: String = "".to_owned();
        proof {
            reveal_strlit("");
        }
        Config { identity_path: p, swarm_event_buffer_size: 16, swarm_event_timeout: 200 }
    }
}

/// Configuration of a node: the swarm and each protocol.
#[derive(Debug, Clone)]
pub struct SwarmConfig {
    /// The swarm's own options.
    pub swarm: Config,
    /// Options of the messaging protocol.
    pub messaging: crate::messaging::Config,
    /// Options of the advertise protocol.
    pub advertise: crate::advertise::Config,
    /// Options of the blob protocol.
    pub blob: crate::blob::Config,
}

impl Default for SwarmConfig {
    /// Every part takes its own default.
    fn default() -> (r: SwarmConfig)
        ensures
            r.swarm.swarm_event_buffer_size == 16,
            r.swarm.swarm_event_timeout == 200,
            r.messaging.timeout_ms == 20000,
            r.advertise.timeout_ms == 20000,
            r.blob.timeout_ms == 20000,
            r.blob.chunk_size == 16384,
    {
        SwarmConfig {
            swarm: Config::default(),
            messaging: crate::messaging::Config::default(),
            advertise: crate::advertise::Config::default(),
            blob: crate::blob::Config::default(),
        }
    }
}

/// The verified state of one node: the three protocol behaviours and the
/// swarm configuration they were built from.
#[derive(Debug)]
pub struct Node {
    /// The configuration the node was built with.
    pub config: SwarmConfig,
    /// The messaging behaviour.
    pub messaging: crate::messaging::Behaviour,
    /// The advertise behaviour.
    pub advertise: crate::advertise::Behaviour,
    /// The blob transfer behaviour.
    pub blob: crate::blob::Behaviour,
}

impl Node {
    /// Every behaviour is well formed.
    pub open spec fn wf(&self) -> bool {
        &&& self.messaging.wf()
        &&& self.advertise.wf()
        &&& self.blob.wf()
    }
}

/// Builder for a node's swarm.
pub struct Builder {
    /// The configuration the node will be built with.
    pub config: SwarmConfig,
}

impl Builder {
    /// Remember the configuration.
    pub fn new(config: SwarmConfig) -> (r: Builder)
        ensures
            r.config == config,
    {
        Builder { config }
    }

    /// Compose the behaviours into a fresh node.
    pub fn build(self) -> (r: Node)
        requires
            self.config.blob.chunk_size >= 1,
        ensures
            r.wf(),
            r.config == self.config,
            r.messaging.connected_peers@ =~= Set::<Seq<u8>>::empty(),
            r.advertise.connected_peers@ =~= Set::<Seq<u8>>::empty(),
            r.advertise.advertised_peers@ =~= Set::<Seq<u8>>::empty(),
            !r.advertise.is_providing,
            r.blob.send_records@ =~= Seq::<crate::blob::SendRecord>::empty(),
            r.blob.recv_records@ =~= Seq::<crate::blob::RecvRecord>::empty(),
            r.blob.next_send_id == 0,
            r.blob.next_recv_id == 0,
    {
        let blob_config = crate::blob::Config {
            timeout_ms: self.config.blob.timeout_ms,
            chunk_size: self.config.blob.chunk_size,
        };
        Node {
            messaging: crate::messaging::Behaviour::new(),
            advertise: crate::advertise::Behaviour::new(),
            blob: crate::blob::Behaviour::new(blob_config),
            config: self.config,
        }
    }
}

/// The greatest queue length at which the swarm is still polled: the
/// buffer size rounded down to a multiple of four.
pub fn event_buffer_upper_bound(buffer_size: usize) -> (r: usize)
    ensures
        r == (buffer_size / 4) * 4,
        r <= buffer_size,
        buffer_size - r < 4,
        r % 4 == 0,
{
    proof {
        vstd::arithmetic::div_mod::lemma_fundamental_div_mod(buffer_size as int, 4);
        vstd::arithmetic::div_mod::lemma_mod_bound(buffer_size as int, 4);
        assert(((buffer_size as int / 4) * 4) % 4 == 0) by (nonlinear_arith);
    }
    (buffer_size / 4) * 4
}

/// The queue length above which a slow receiver is flagged: half the
/// buffer.
pub fn event_buffer_high_mark(buffer_size: usize) -> (r: usize)
    ensures
        r == buffer_size / 2,
{
    buffer_size / 2
}

/// Whether the swarm may be polled for another event: only while the
/// broadcast queue is below the upper bound, so a lagging reader stalls
/// the swarm instead of losing events.
pub fn should_poll_swarm(queue_len: usize, buffer_size: usize) -> (r: bool)
    ensures
        r == (queue_len < (buffer_size / 4) * 4),
{
    let bound = event_buffer_upper_bound(buffer_size);
    queue_len < bound
}

/// Whether the periodic timer should warn about a slow receiver: the
/// queue stands above the high mark.
pub fn slow_receiver_warning(queue_len: usize, buffer_size: usize) -> (r: bool)
    ensures
        r == (queue_len > buffer_size / 2),
{
    let mark = event_buffer_high_mark(buffer_size);
    queue_len > mark
}

} // verus!
