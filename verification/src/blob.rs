//! The blob transfer protocol: request/accept/chunk/ack file transfer.
//!
//! A sender announces a file with a `SendRequest` carrying a fresh
//! `send_id`; the receiver records it under a fresh `recv_id` and may
//! accept. Chunks then flow one at a time, each acknowledged before the
//! next, at declared offsets. Either side may cancel. The behaviour here
//! is the bookkeeping of both roles; reading and writing the files is the
//! caller's, driven by the values these functions return.

use vstd::prelude::*;
use crate::peer::{PeerId, PeerSet};
use crate::codec::{
    bytes_eq, dec_digits, enc_hex, enc_str, enc_u64, esc, expect_lit, hex_enc, lemma_esc_plain,
    lemma_expect_lit, lemma_parse_hex_enc, lemma_parse_str_esc, lemma_parse_u64_enc, parse_hex_at,
    parse_str_at, parse_u64_at, put_bytes, q_mark, b_slash, is_hex, spec_expect_lit,
    spec_parse_hex, spec_parse_str, spec_parse_u64,
};


verus! {

/// The multistream-select name of the blob protocol.
pub const PROTOCOL_NAME: &'static str = "/owlnest/blob/0.0.1";

/// Configuration of the blob protocol.
#[derive(Debug, Clone)]
pub struct Config {
    /// How long a send on a substream may take, in milliseconds.
    pub timeout_ms: u64,
    /// How many bytes one chunk carries at most.
    pub chunk_size: u64,
}

impl Default for Config {
    /// Twenty-second timeout, 16 KiB chunks.
    fn default() -> (r: Config)
        ensures
            r.timeout_ms == 20000,
            r.chunk_size == 16384,
    {
        Config { timeout_ms: 20000, chunk_size: 16384 }
    }
}

/// A filesystem failure, as the caller classified it.
#[derive(Debug, Clone, Copy, PartialEq, Eq, Structural)]
pub enum FsErrorKind {
    /// The path already names a file.
    AlreadyExists,
    /// The path names nothing.
    NotFound,
    /// The caller may not touch the path.
    PermissionDenied,
    /// The path names a directory.
    IsADirectory,
    /// Any other failure.
    Other,
}

/// Why a send could not be started.
#[derive(Debug, Clone, Copy, PartialEq, Eq, Structural)]
pub enum FileSendError {
    /// The source path names a directory.
    IsDirectory,
    /// The source file does not exist.
    FileNotFound,
    /// The source file may not be read.
    PermissionDenied,
    /// Another filesystem failure.
    OtherFsError(FsErrorKind),
    /// The operation outlived its timeout.
    Timeout,
    /// The target peer has not negotiated this protocol.
    PeerNotFound,
    /// The transfer was cancelled.
    Cancelled,
}

/// Why a receive could not be accepted.
#[derive(Debug)]
pub enum FileRecvError {
    /// The destination could not be opened; holds the path bytes and kind.
    FsError { path: Vec<u8>, kind: FsErrorKind },
    /// The operation outlived its timeout.
    Timeout,
    /// The transfer was cancelled.
    Cancelled,
    /// No pending receive carries the given id.
    UnknownRecvId,
}

/// Why a cancellation was refused.
#[derive(Debug, Clone, Copy, PartialEq, Eq, Structural)]
pub enum CancellationError {
    /// No live transfer carries the given id.
    UnknownId,
}

/// How the caller's attempt to open a source file ended.
#[derive(Debug)]
pub enum FileOpenOutcome {
    /// The file is open for reading and holds this many bytes.
    Opened(u64),
    /// The path names a directory.
    Directory,
    /// The path names nothing.
    NotFound,
    /// The file may not be read.
    PermissionDenied,
    /// Any other failure.
    Other(FsErrorKind),
}

/// One live outgoing transfer.
#[derive(Debug)]
pub struct SendRecord {
    /// This node's identifier for the transfer; never reused.
    pub local_send_id: u64,
    /// The receiving peer.
    pub remote: PeerId,
    /// The announced file name bytes.
    pub file_name: Vec<u8>,
    /// The size of the source file.
    pub bytes_total: u64,
    /// How many bytes have been handed to the wire.
    pub bytes_sent: u64,
    /// How many bytes the remote has acknowledged; chunks go out one at
    /// a time, so the next chunk waits until this catches up with
    /// `bytes_sent`.
    pub bytes_acked: u64,
    /// Whether the remote accepted and streaming began.
    pub started: bool,
    /// Whether the remote accepted.
    pub accepted: bool,
}

/// One live incoming transfer.
#[derive(Debug)]
pub struct RecvRecord {
    /// This node's identifier for the transfer; never reused.
    pub local_recv_id: u64,
    /// The sending peer.
    pub from: PeerId,
    /// The sender's identifier for the transfer.
    pub remote_send_id: u64,
    /// The announced file name bytes.
    pub file_name: Vec<u8>,
    /// The announced size.
    pub bytes_total: u64,
    /// How many bytes have been written so far.
    pub bytes_received: u64,
    /// Whether this node accepted the transfer.
    pub accepted: bool,
}

/// A pending outgoing transfer, as handed to the application.
#[derive(Debug)]
pub struct SendInfo {
    /// The transfer's identifier on this node.
    pub local_send_id: u64,
    /// The receiving peer.
    pub remote: PeerId,
    /// The announced file name bytes.
    pub file_name: Vec<u8>,
    /// Whether streaming began.
    pub started: bool,
}

/// A pending incoming transfer, as handed to the application.
#[derive(Debug)]
pub struct RecvInfo {
    /// The transfer's identifier on this node.
    pub local_recv_id: u64,
    /// The sending peer.
    pub from: PeerId,
    /// The announced file name bytes.
    pub file_name: Vec<u8>,
    /// The announced size.
    pub bytes_total: u64,
}

/// The packet of the blob protocol.
#[derive(Debug)]
pub enum Packet {
    /// Announce a file.
    SendRequest { file_name: Vec<u8>, bytes_total: u64, send_id: u64 },
    /// Accept an announced file.
    Accept { send_id: u64 },
    /// Refuse an announced file.
    Reject { send_id: u64 },
    /// Carry bytes at an offset.
    Chunk { send_id: u64, offset: u64, bytes: Vec<u8> },
    /// Drop a transfer, from either side.
    Cancel { id: u64 },
    /// Confirm bytes up to an offset.
    Ack { send_id: u64, offset: u64 },
}

/// An instruction to write bytes at an offset of the destination file of
/// a receive.
#[derive(Debug)]
pub struct WriteInstr {
    /// Which receive's destination file to write.
    pub local_recv_id: u64,
    /// Where the bytes belong.
    pub offset: u64,
    /// The bytes to write.
    pub bytes: Vec<u8>,
}

/// Events the behaviour surfaces to the application.
#[derive(Debug)]
pub enum OutEvent {
    /// A peer announced a file.
    IncomingFile { from: PeerId, file_name: Vec<u8>, local_recv_id: u64, bytes_total: u64 },
    /// An incoming transfer advanced; `finished` when complete.
    RecvProgressed { local_recv_id: u64, finished: bool },
    /// An outgoing transfer advanced; `finished` when complete.
    SendProgressed { local_send_id: u64, finished: bool },
    /// An outgoing transfer was dropped at the remote's wish.
    CancelledSend(u64),
    /// An incoming transfer was dropped at the remote's wish.
    CancelledRecv(u64),
    /// The peer does not support this protocol.
    Unsupported(PeerId),
    /// The inbound substream to the peer finished negotiation.
    InboundNegotiated(PeerId),
    /// The outbound substream to the peer finished negotiation.
    OutboundNegotiated(PeerId),
}

/// No two records carry the same send id.
pub open spec fn distinct_send_ids(s: Seq<SendRecord>) -> bool {
    forall|i: int, j: int|
        0 <= i < j < s.len() ==> s[i].local_send_id != s[j].local_send_id
}

/// Every send id was drawn below the counter.
pub open spec fn send_ids_below(s: Seq<SendRecord>, n: int) -> bool {
    forall|i: int| 0 <= i < s.len() ==> (#[trigger] s[i]).local_send_id < n
}

/// No two records carry the same recv id.
pub open spec fn distinct_recv_ids(s: Seq<RecvRecord>) -> bool {
    forall|i: int, j: int|
        0 <= i < j < s.len() ==> s[i].local_recv_id != s[j].local_recv_id
}

/// Every recv id was drawn below the counter.
pub open spec fn recv_ids_below(s: Seq<RecvRecord>, n: int) -> bool {
    forall|i: int| 0 <= i < s.len() ==> (#[trigger] s[i]).local_recv_id < n
}

/// No two records name the same transfer of the same peer.
pub open spec fn distinct_remote_pairs(s: Seq<RecvRecord>) -> bool {
    forall|i: int, j: int|
        0 <= i < j < s.len() ==> !(s[i].from@ == s[j].from@ && s[i].remote_send_id
            == s[j].remote_send_id)
}

/// Per-node state of the blob protocol, covering both roles.
#[derive(Debug)]
pub struct Behaviour {
    /// The protocol configuration.
    pub config: Config,
    /// Events waiting to be surfaced to the application.
    pub pending_out_events: Vec<OutEvent>,
    /// Peers that negotiated this protocol.
    pub connected_peers: PeerSet,
    /// Live outgoing transfers.
    pub send_records: Vec<SendRecord>,
    /// Live incoming transfers.
    pub recv_records: Vec<RecvRecord>,
    /// The next send id to assign.
    pub next_send_id: u64,
    /// The next recv id to assign.
    pub next_recv_id: u64,
}

impl Behaviour {
    /// Ids are unique and below their counters; per-peer transfer names
    /// are unique; the connected set is duplicate-free; chunks are sized.
    pub open spec fn wf(&self) -> bool {
        &&& self.connected_peers.wf()
        &&& distinct_send_ids(self.send_records@)
        &&& send_ids_below(self.send_records@, self.next_send_id as int)
        &&& distinct_recv_ids(self.recv_records@)
        &&& recv_ids_below(self.recv_records@, self.next_recv_id as int)
        &&& distinct_remote_pairs(self.recv_records@)
        &&& self.config.chunk_size >= 1
    }

    /// A fresh behaviour with no transfers; ids start at zero.
    pub fn new(config: Config) -> (r: Behaviour)
        requires
            config.chunk_size >= 1,
        ensures
            r.wf(),
            r.send_records@ =~= Seq::<SendRecord>::empty(),
            r.recv_records@ =~= Seq::<RecvRecord>::empty(),
            r.next_send_id == 0,
            r.next_recv_id == 0,
            r.connected_peers@ =~= Set::<Seq<u8>>::empty(),
            r.pending_out_events@ =~= Seq::<OutEvent>::empty(),
            r.config == config,
    {
        Behaviour {
            config,
            pending_out_events: Vec::new(),
            connected_peers: PeerSet::new(),
            send_records: Vec::new(),
            recv_records: Vec::new(),
            next_send_id: 0,
            next_recv_id: 0,
        }
    }

    /// The index of the outgoing transfer with this id.
    fn find_send(&self, local_send_id: u64) -> (r: Option<usize>)
        ensures
            match r {
                Some(i) => i < self.send_records@.len() && self.send_records@[i as int].local_send_id
                    == local_send_id,
                None => forall|i: int|
                    0 <= i < self.send_records@.len() ==> (#[trigger] self.send_records@[i]).local_send_id
                        != local_send_id,
            },
    {
        let n = self.send_records.len();
        let mut i: usize = 0;
        while i < n
            invariant
                n == self.send_records@.len(),
                0 <= i <= n,
                forall|k: int|
                    0 <= k < i ==> (#[trigger] self.send_records@[k]).local_send_id
                        != local_send_id,
            decreases n - i,
        {
            if self.send_records[i].local_send_id == local_send_id {
                return Some(i);
            }
            i = i + 1;
        }
        None
    }

    /// The index of the incoming transfer with this id.
    fn find_recv(&self, local_recv_id: u64) -> (r: Option<usize>)
        ensures
            match r {
                Some(i) => i < self.recv_records@.len() && self.recv_records@[i as int].local_recv_id
                    == local_recv_id,
                None => forall|i: int|
                    0 <= i < self.recv_records@.len() ==> (#[trigger] self.recv_records@[i]).local_recv_id
                        != local_recv_id,
            },
    {
        let n = self.recv_records.len();
        let mut i: usize = 0;
        while i < n
            invariant
                n == self.recv_records@.len(),
                0 <= i <= n,
                forall|k: int|
                    0 <= k < i ==> (#[trigger] self.recv_records@[k]).local_recv_id
                        != local_recv_id,
            decreases n - i,
        {
            if self.recv_records[i].local_recv_id == local_recv_id {
                return Some(i);
            }
            i = i + 1;
        }
        None
    }

    /// The index of the incoming transfer the peer calls `send_id`.
    fn find_recv_by_remote(&self, peer: &PeerId, send_id: u64) -> (r: Option<usize>)
        ensures
            match r {
                Some(i) => i < self.recv_records@.len() && self.recv_records@[i as int].from@
                    == peer@ && self.recv_records@[i as int].remote_send_id == send_id,
                None => forall|i: int|
                    0 <= i < self.recv_records@.len() ==> !((#[trigger] self.recv_records@[i]).from@
                        == peer@ && self.recv_records@[i].remote_send_id == send_id),
            },
    {
        let n = self.recv_records.len();
        let mut i: usize = 0;
        while i < n
            invariant
                n == self.recv_records@.len(),
                0 <= i <= n,
                forall|k: int|
                    0 <= k < i ==> !((#[trigger] self.recv_records@[k]).from@ == peer@
                        && self.recv_records@[k].remote_send_id == send_id),
            decreases n - i,
        {
            if self.recv_records[i].remote_send_id == send_id && self.recv_records[i].from
                == *peer {
                return Some(i);
            }
            i = i + 1;
        }
        None
    }

    /// The index of the outgoing transfer with this id toward this peer.
    fn find_send_by_remote(&self, peer: &PeerId, send_id: u64) -> (r: Option<usize>)
        ensures
            match r {
                Some(i) => i < self.send_records@.len() && self.send_records@[i as int].remote@
                    == peer@ && self.send_records@[i as int].local_send_id == send_id,
                None => forall|i: int|
                    0 <= i < self.send_records@.len() ==> !((#[trigger] self.send_records@[i]).remote@
                        == peer@ && self.send_records@[i].local_send_id == send_id),
            },
    {
        let n = self.send_records.len();
        let mut i: usize = 0;
        while i < n
            invariant
                n == self.send_records@.len(),
                0 <= i <= n,
                forall|k: int|
                    0 <= k < i ==> !((#[trigger] self.send_records@[k]).remote@ == peer@
                        && self.send_records@[k].local_send_id == send_id),
            decreases n - i,
        {
            if self.send_records[i].local_send_id == send_id && self.send_records[i].remote
                == *peer {
                return Some(i);
            }
            i = i + 1;
        }
        None
    }
}

/// How many bytes the next chunk carries: a full chunk, or what is left.
pub open spec fn chunk_len(total: int, sent: int, chunk: int) -> int {
    if total - sent < chunk {
        total - sent
    } else {
        chunk
    }
}

/// Whether a record may emit its next chunk: streaming has begun, bytes
/// remain, and everything sent so far has been acknowledged — chunks go
/// out one at a time, stop-and-wait.
pub open spec fn chunk_ready(rec: SendRecord, local_send_id: u64) -> bool {
    &&& rec.local_send_id == local_send_id
    &&& rec.started
    &&& rec.bytes_sent < rec.bytes_total
    &&& rec.bytes_acked == rec.bytes_sent
}

/// Everything but the recv records and their counter is the same.
pub open spec fn unchanged_but_recv(pre: Behaviour, post: Behaviour) -> bool {
    &&& post.config == pre.config
    &&& post.connected_peers == pre.connected_peers
    &&& post.send_records == pre.send_records
    &&& post.next_send_id == pre.next_send_id
}

/// Everything but the send records and their counter is the same.
pub open spec fn unchanged_but_send(pre: Behaviour, post: Behaviour) -> bool {
    &&& post.config == pre.config
    &&& post.connected_peers == pre.connected_peers
    &&& post.recv_records == pre.recv_records
    &&& post.next_recv_id == pre.next_recv_id
}

impl Behaviour {
    /// Start sending a file: record the transfer under a fresh id and
    /// build the announcement packet for the remote. The caller reports
    /// how opening the source went; on any failure nothing is recorded
    /// and no packet is built.
    pub fn send_file(&mut self, to: PeerId, file_name: Vec<u8>, opened: FileOpenOutcome) -> (r:
        Result<(u64, Packet), FileSendError>)
        requires
            old(self).wf(),
            old(self).next_send_id < u64::MAX,
        ensures
            final(self).wf(),
            opened matches FileOpenOutcome::Directory ==> r == Err::<(u64, Packet), FileSendError>(
                FileSendError::IsDirectory,
            ) && *final(self) == *old(self),
            opened matches FileOpenOutcome::NotFound ==> r == Err::<(u64, Packet), FileSendError>(
                FileSendError::FileNotFound,
            ) && *final(self) == *old(self),
            opened matches FileOpenOutcome::PermissionDenied ==> r == Err::<
                (u64, Packet),
                FileSendError,
            >(FileSendError::PermissionDenied) && *final(self) == *old(self),
            opened matches FileOpenOutcome::Other(k) ==> r == Err::<(u64, Packet), FileSendError>(
                FileSendError::OtherFsError(k),
            ) && *final(self) == *old(self),
            opened matches FileOpenOutcome::Opened(total) ==> (!old(self).connected_peers@.contains(to@) ==> r == Err::<(u64, Packet), FileSendError>(
                FileSendError::PeerNotFound,
            ) && *final(self) == *old(self)),
            opened matches FileOpenOutcome::Opened(total) ==> (old(self).connected_peers@.contains(
                to@,
            ) ==> (r matches Ok((id, p)) && id == old(self).next_send_id && (
            p matches Packet::SendRequest { file_name: fnm, bytes_total: bt, send_id: sid }
                && fnm@ == file_name@ && bt == total && sid == id) && final(self).next_send_id
                == old(self).next_send_id + 1 && final(self).send_records@.len() == old(self).send_records@.len() + 1 && final(self).send_records@.subrange(
                0,
                old(self).send_records@.len() as int,
            ) == old(self).send_records@ && ({
                let rec = final(self).send_records@.last();
                &&& rec.local_send_id == id
                &&& rec.remote@ == to@
                &&& rec.file_name@ == file_name@
                &&& rec.bytes_total == total
                &&& rec.bytes_sent == 0
                &&& rec.bytes_acked == 0
                &&& !rec.started
                &&& !rec.accepted
            }) && final(self).pending_out_events == old(self).pending_out_events && final(self).recv_records == old(self).recv_records && final(self).next_recv_id == old(self).next_recv_id && final(self).connected_peers == old(self).connected_peers && final(self).config
                == old(self).config)),
    {
        match opened {
            FileOpenOutcome::Directory => Err(FileSendError::IsDirectory),
            FileOpenOutcome::NotFound => Err(FileSendError::FileNotFound),
            FileOpenOutcome::PermissionDenied => Err(FileSendError::PermissionDenied),
            FileOpenOutcome::Other(k) => Err(FileSendError::OtherFsError(k)),
            FileOpenOutcome::Opened(total) => {
                if !self.connected_peers.contains(&to) {
                    return Err(FileSendError::PeerNotFound);
                }
                let id = self.next_send_id;
                self.next_send_id = self.next_send_id + 1;
                let rec = SendRecord {
                    local_send_id: id,
                    remote: to,
                    file_name: crate::peer::copy_bytes(&file_name),
                    bytes_total: total,
                    bytes_sent: 0,
                    bytes_acked: 0,
                    started: false,
                    accepted: false,
                };
                let ghost pre = self.send_records@;
                self.send_records.push(rec);
                proof {
                    assert(self.send_records@.subrange(0, pre.len() as int) =~= pre);
                    assert(distinct_send_ids(self.send_records@));
                    assert(send_ids_below(self.send_records@, self.next_send_id as int));
                }
                Ok((id, Packet::SendRequest { file_name, bytes_total: total, send_id: id }))
            },
        }
    }

    /// Record a peer's announcement of a file under a fresh recv id and
    /// surface it; an announcement already known from that peer is
    /// ignored.
    pub fn on_send_request(
        &mut self,
        from: PeerId,
        file_name: Vec<u8>,
        bytes_total: u64,
        remote_send_id: u64,
    ) -> (r: Option<u64>)
        requires
            old(self).wf(),
            old(self).next_recv_id < u64::MAX,
        ensures
            final(self).wf(),
            unchanged_but_recv(*old(self), *final(self)),
            (exists|i: int|
                0 <= i < old(self).recv_records@.len() && (#[trigger] old(self).recv_records@[i]).from@ == from@ && old(self).recv_records@[i].remote_send_id
                    == remote_send_id) ==> r is None && final(self).recv_records == old(self).recv_records && final(self).next_recv_id == old(self).next_recv_id && final(self).pending_out_events == old(self).pending_out_events,
            (forall|i: int|
                0 <= i < old(self).recv_records@.len() ==> !((#[trigger] old(self).recv_records@[i]).from@ == from@ && old(self).recv_records@[i].remote_send_id
                    == remote_send_id)) ==> r == Some(old(self).next_recv_id) && final(self).next_recv_id == old(self).next_recv_id + 1 && final(self).recv_records@.len() == old(self).recv_records@.len() + 1 && final(self).recv_records@.subrange(
                0,
                old(self).recv_records@.len() as int,
            ) == old(self).recv_records@ && ({
                let rec = final(self).recv_records@.last();
                &&& rec.local_recv_id == old(self).next_recv_id
                &&& rec.from@ == from@
                &&& rec.remote_send_id == remote_send_id
                &&& rec.file_name@ == file_name@
                &&& rec.bytes_total == bytes_total
                &&& rec.bytes_received == 0
                &&& !rec.accepted
            }) && final(self).pending_out_events@.len() == old(self).pending_out_events@.len() + 1
                && final(self).pending_out_events@.subrange(
                0,
                old(self).pending_out_events@.len() as int,
            ) == old(self).pending_out_events@ && (final(self).pending_out_events@.last()
                matches OutEvent::IncomingFile { from: f, file_name: fnm, local_recv_id: id, bytes_total: bt }
                && f@ == from@ && fnm@ == file_name@ && id == old(self).next_recv_id && bt
                == bytes_total),
    {
        if let Some(_) = self.find_recv_by_remote(&from, remote_send_id) {
            return None;
        }
        let id = self.next_recv_id;
        self.next_recv_id = self.next_recv_id + 1;
        let rec = RecvRecord {
            local_recv_id: id,
            from: from.duplicate(),
            remote_send_id,
            file_name: crate::peer::copy_bytes(&file_name),
            bytes_total,
            bytes_received: 0,
            accepted: false,
        };
        let ghost pre = self.recv_records@;
        let ghost preev = self.pending_out_events@;
        self.recv_records.push(rec);
        self.pending_out_events.push(
            OutEvent::IncomingFile { from, file_name, local_recv_id: id, bytes_total },
        );
        proof {
            assert(self.recv_records@.subrange(0, pre.len() as int) =~= pre);
            assert(self.pending_out_events@.subrange(0, preev.len() as int) =~= preev);
            assert(distinct_recv_ids(self.recv_records@));
            assert(recv_ids_below(self.recv_records@, self.next_recv_id as int));
            assert(distinct_remote_pairs(self.recv_records@));
        }
        Some(id)
    }

    /// Accept a pending receive: mark it accepted and build the `Accept`
    /// packet for the announcing peer. The caller reports how opening the
    /// destination went; on a filesystem failure, or an id that names no
    /// pending receive, nothing changes.
    pub fn accept_file(&mut self, local_recv_id: u64, open_err: Option<(Vec<u8>, FsErrorKind)>)
        -> (r: Result<(PeerId, Packet), FileRecvError>)
        requires
            old(self).wf(),
        ensures
            final(self).wf(),
            unchanged_but_recv(*old(self), *final(self)),
            final(self).pending_out_events == old(self).pending_out_events,
            final(self).next_recv_id == old(self).next_recv_id,
            (forall|i: int|
                0 <= i < old(self).recv_records@.len() ==> (#[trigger] old(self).recv_records@[i]).local_recv_id != local_recv_id) ==> (r matches Err(
                FileRecvError::UnknownRecvId,
            ) && final(self).recv_records == old(self).recv_records),
            forall|i: int|
                0 <= i < old(self).recv_records@.len() && (#[trigger] old(self).recv_records@[i]).local_recv_id == local_recv_id && old(self).recv_records@[i].accepted ==> (r matches Err(FileRecvError::UnknownRecvId)
                    && final(self).recv_records == old(self).recv_records),
            forall|i: int|
                0 <= i < old(self).recv_records@.len() && (#[trigger] old(self).recv_records@[i]).local_recv_id == local_recv_id && !old(self).recv_records@[i].accepted && open_err is Some ==> (r matches Err(
                    FileRecvError::FsError { path, kind },
                ) && path@ == open_err->Some_0.0@ && kind == open_err->Some_0.1) && final(self).recv_records == old(self).recv_records,
            forall|i: int|
                0 <= i < old(self).recv_records@.len() && (#[trigger] old(self).recv_records@[i]).local_recv_id == local_recv_id && !old(self).recv_records@[i].accepted && open_err is None ==> (r matches Ok((peer, p))
                    && peer@ == old(self).recv_records@[i].from@ && p == Packet::Accept {
                    send_id: old(self).recv_records@[i].remote_send_id,
                }) && final(self).recv_records@ == old(self).recv_records@.update(
                    i,
                    RecvRecord { accepted: true, ..old(self).recv_records@[i] },
                ),
    {
        let i = match self.find_recv(local_recv_id) {
            Some(i) => i,
            None => {
                return Err(FileRecvError::UnknownRecvId);
            },
        };
        if self.recv_records[i].accepted {
            return Err(FileRecvError::UnknownRecvId);
        }
        if let Some((path, kind)) = open_err {
            return Err(FileRecvError::FsError { path, kind });
        }
        self.recv_records[i].accepted = true;
        let peer = self.recv_records[i].from.duplicate();
        let send_id = self.recv_records[i].remote_send_id;
        proof {
            assert(distinct_recv_ids(self.recv_records@));
            assert(recv_ids_below(self.recv_records@, self.next_recv_id as int));
            assert(distinct_remote_pairs(self.recv_records@));
        }
        Ok((peer, Packet::Accept { send_id }))
    }

    /// Note the remote's acceptance of a transfer: streaming may begin.
    /// An unknown id changes nothing — a cancel may have crossed it.
    pub fn on_accept(&mut self, peer: &PeerId, send_id: u64) -> (r: bool)
        requires
            old(self).wf(),
        ensures
            final(self).wf(),
            unchanged_but_send(*old(self), *final(self)),
            final(self).pending_out_events == old(self).pending_out_events,
            final(self).next_send_id == old(self).next_send_id,
            r == (exists|i: int|
                0 <= i < old(self).send_records@.len() && (#[trigger] old(self).send_records@[i]).remote@ == peer@ && old(self).send_records@[i].local_send_id
                    == send_id),
            forall|i: int|
                0 <= i < old(self).send_records@.len() && (#[trigger] old(self).send_records@[i]).remote@ == peer@ && old(self).send_records@[i].local_send_id
                    == send_id ==> final(self).send_records@ == old(self).send_records@.update(
                    i,
                    SendRecord { started: true, accepted: true, ..old(self).send_records@[i] },
                ),
            !r ==> final(self).send_records == old(self).send_records,
    {
        let i = match self.find_send_by_remote(peer, send_id) {
            Some(i) => i,
            None => {
                return false;
            },
        };
        self.send_records[i].started = true;
        self.send_records[i].accepted = true;
        proof {
            assert(distinct_send_ids(self.send_records@));
            assert(send_ids_below(self.send_records@, self.next_send_id as int));
            assert forall|k: int|
                0 <= k < old(self).send_records@.len() && (#[trigger] old(self).send_records@[k]).remote@ == peer@ && old(self).send_records@[k].local_send_id
                    == send_id implies final(self).send_records@ == old(self).send_records@.update(
                k,
                SendRecord { started: true, accepted: true, ..old(self).send_records@[k] },
            ) by {
                if k != i as int {
                    assert(old(self).send_records@[k].local_send_id == old(self).send_records@[i as int].local_send_id);
                    assert(false);
                }
                assert(final(self).send_records@ =~= old(self).send_records@.update(
                    k,
                    SendRecord { started: true, accepted: true, ..old(self).send_records@[k] },
                ));
            };
        }
        true
    }

    /// What the sender should read next for this transfer: the offset and
    /// length of the next chunk. Nothing is due while the transfer is not
    /// streaming, is complete, or still waits for the acknowledgement of
    /// the chunk on the wire.
    pub fn next_chunk(&self, local_send_id: u64) -> (r: Option<(u64, u64)>)
        requires
            self.wf(),
        ensures
            match r {
                Some((offset, len)) => exists|i: int|
                    0 <= i < self.send_records@.len() && ({
                        let rec = #[trigger] self.send_records@[i];
                        &&& chunk_ready(rec, local_send_id)
                        &&& offset == rec.bytes_sent
                        &&& len as int == chunk_len(
                            rec.bytes_total as int,
                            rec.bytes_sent as int,
                            self.config.chunk_size as int,
                        )
                    }),
                None => forall|i: int|
                    0 <= i < self.send_records@.len() ==> !chunk_ready(
                        #[trigger] self.send_records@[i],
                        local_send_id,
                    ),
            },
    {
        let i = match self.find_send(local_send_id) {
            Some(i) => i,
            None => {
                return None;
            },
        };
        let rec = &self.send_records[i];
        if !rec.started || rec.bytes_sent >= rec.bytes_total || rec.bytes_acked
            != rec.bytes_sent {
            proof {
                assert forall|k: int|
                    0 <= k < self.send_records@.len() implies !chunk_ready(
                    #[trigger] self.send_records@[k],
                    local_send_id,
                ) by {
                    if self.send_records@[k].local_send_id == local_send_id && k != i as int {
                        assert(false);
                    }
                };
            }
            return None;
        }
        let remaining = rec.bytes_total - rec.bytes_sent;
        let len = if remaining < self.config.chunk_size {
            remaining
        } else {
            self.config.chunk_size
        };
        Some((rec.bytes_sent, len))
    }

    /// Emit the next chunk of a streaming transfer: the caller read the
    /// bytes at the offset `next_chunk` gave, and the record's sent count
    /// advances past them. A chunk is owed exactly when a record is ready
    /// — accepted, incomplete, all sent bytes acknowledged — and the
    /// bytes are exactly the next chunk; afterwards the record waits for
    /// the acknowledgement before another chunk can go out.
    pub fn chunk_out(&mut self, local_send_id: u64, bytes: Vec<u8>) -> (r: Option<Packet>)
        requires
            old(self).wf(),
        ensures
            final(self).wf(),
            unchanged_but_send(*old(self), *final(self)),
            final(self).pending_out_events == old(self).pending_out_events,
            final(self).next_send_id == old(self).next_send_id,
            match r {
                Some(p) => exists|i: int|
                    0 <= i < old(self).send_records@.len() && ({
                        let rec = #[trigger] old(self).send_records@[i];
                        &&& chunk_ready(rec, local_send_id)
                        &&& bytes@.len() == chunk_len(
                            rec.bytes_total as int,
                            rec.bytes_sent as int,
                            old(self).config.chunk_size as int,
                        )
                        &&& p matches Packet::Chunk { send_id, offset, bytes: b } && send_id
                            == local_send_id && offset == rec.bytes_sent && b@ == bytes@
                        &&& final(self).send_records@ == old(self).send_records@.update(
                            i,
                            SendRecord {
                                bytes_sent: (rec.bytes_sent + bytes@.len()) as u64,
                                ..rec
                            },
                        )
                    }),
                None => final(self).send_records == old(self).send_records && !(exists|i: int|
                    0 <= i < old(self).send_records@.len() && chunk_ready(
                        #[trigger] old(self).send_records@[i],
                        local_send_id,
                    ) && bytes@.len() == chunk_len(
                        old(self).send_records@[i].bytes_total as int,
                        old(self).send_records@[i].bytes_sent as int,
                        old(self).config.chunk_size as int,
                    )),
            },
    {
        let i = match self.find_send(local_send_id) {
            Some(i) => i,
            None => {
                return None;
            },
        };
        proof {
            assert forall|k: int|
                0 <= k < self.send_records@.len() && (#[trigger] self.send_records@[k]).local_send_id
                    == local_send_id implies k == i as int by {
                if k != i as int {
                    assert(self.send_records@[k].local_send_id == self.send_records@[
                        i as int].local_send_id);
                    assert(false);
                }
            };
        }
        let started = self.send_records[i].started;
        let sent = self.send_records[i].bytes_sent;
        let acked = self.send_records[i].bytes_acked;
        let total = self.send_records[i].bytes_total;
        if !started || sent >= total || acked != sent {
            return None;
        }
        let remaining = total - sent;
        let expect = if remaining < self.config.chunk_size {
            remaining
        } else {
            self.config.chunk_size
        };
        if bytes.len() as u64 != expect {
            return None;
        }
        self.send_records[i].bytes_sent = sent + expect;
        proof {
            assert(distinct_send_ids(self.send_records@));
            assert(send_ids_below(self.send_records@, self.next_send_id as int));
        }
        let b2 = crate::peer::copy_bytes(&bytes);
        Some(Packet::Chunk { send_id: local_send_id, offset: sent, bytes: b2 })
    }

    /// Note the remote's acknowledgement up to `offset`. When it confirms
    /// the whole file the record dies and the finish is surfaced; else
    /// the acknowledged count catches up with the sent count — releasing
    /// the next chunk — and progress is surfaced. A stale or unknown
    /// acknowledgement changes nothing.
    pub fn on_ack(&mut self, peer: &PeerId, send_id: u64, offset: u64)
        requires
            old(self).wf(),
        ensures
            final(self).wf(),
            unchanged_but_send(*old(self), *final(self)),
            final(self).next_send_id == old(self).next_send_id,
            forall|i: int|
                0 <= i < old(self).send_records@.len() && ({
                    let rec = #[trigger] old(self).send_records@[i];
                    rec.remote@ == peer@ && rec.local_send_id == send_id && rec.bytes_sent
                        == offset
                }) ==> (old(self).send_records@[i].bytes_sent == old(self).send_records@[i].bytes_total ==> final(self).send_records@ == old(self).send_records@.remove(i) && final(self).pending_out_events@ == old(self).pending_out_events@.push(
                    OutEvent::SendProgressed { local_send_id: send_id, finished: true },
                )),
            forall|i: int|
                0 <= i < old(self).send_records@.len() && ({
                    let rec = #[trigger] old(self).send_records@[i];
                    rec.remote@ == peer@ && rec.local_send_id == send_id && rec.bytes_sent
                        == offset
                }) ==> (old(self).send_records@[i].bytes_sent != old(self).send_records@[i].bytes_total ==> final(self).send_records@ == old(self).send_records@.update(
                    i,
                    SendRecord { bytes_acked: offset, ..old(self).send_records@[i] },
                ) && final(self).pending_out_events@ == old(self).pending_out_events@.push(
                    OutEvent::SendProgressed { local_send_id: send_id, finished: false },
                )),
            (forall|i: int|
                0 <= i < old(self).send_records@.len() ==> !({
                    let rec = #[trigger] old(self).send_records@[i];
                    rec.remote@ == peer@ && rec.local_send_id == send_id && rec.bytes_sent
                        == offset
                })) ==> *final(self) == *old(self),
    {
        let i = match self.find_send_by_remote(peer, send_id) {
            Some(i) => i,
            None => {
                return ;
            },
        };
        if self.send_records[i].bytes_sent != offset {
            proof {
                assert forall|k: int|
                    0 <= k < old(self).send_records@.len() implies !({
                        let rec = #[trigger] old(self).send_records@[k];
                        rec.remote@ == peer@ && rec.local_send_id == send_id && rec.bytes_sent
                            == offset
                    }) by {
                    if old(self).send_records@[k].local_send_id == send_id && k != i as int {
                        assert(false);
                    }
                };
            }
            return ;
        }
        let ghost pre = self.send_records@;
        if self.send_records[i].bytes_sent == self.send_records[i].bytes_total {
            let _ = self.send_records.remove(i);
            self.pending_out_events.push(
                OutEvent::SendProgressed { local_send_id: send_id, finished: true },
            );
            proof {
                pre.remove_ensures(i as int);
                assert(distinct_send_ids(self.send_records@));
                assert(send_ids_below(self.send_records@, self.next_send_id as int));
                assert forall|k: int|
                    0 <= k < pre.len() && ({
                        let rec = #[trigger] pre[k];
                        rec.remote@ == peer@ && rec.local_send_id == send_id && rec.bytes_sent
                            == offset
                    }) implies k == i as int by {
                    if k != i as int {
                        assert(pre[k].local_send_id == pre[i as int].local_send_id);
                        assert(false);
                    }
                };
            }
        } else {
            self.send_records[i].bytes_acked = offset;
            self.pending_out_events.push(
                OutEvent::SendProgressed { local_send_id: send_id, finished: false },
            );
            proof {
                assert(distinct_send_ids(self.send_records@));
                assert(send_ids_below(self.send_records@, self.next_send_id as int));
                assert forall|k: int|
                    0 <= k < pre.len() && ({
                        let rec = #[trigger] pre[k];
                        rec.remote@ == peer@ && rec.local_send_id == send_id && rec.bytes_sent
                            == offset
                    }) implies k == i as int by {
                    if k != i as int {
                        assert(pre[k].local_send_id == pre[i as int].local_send_id);
                        assert(false);
                    }
                };
            }
        }
    }

    /// Digest a chunk from `peer`: when it is the expected continuation
    /// of an accepted transfer, the bytes become a write instruction and
    /// an acknowledgement packet; anything else is discarded. When the
    /// chunk completes the file the record dies.
    pub fn on_chunk(&mut self, peer: &PeerId, send_id: u64, offset: u64, bytes: Vec<u8>) -> (r:
        Option<(WriteInstr, Packet)>)
        requires
            old(self).wf(),
        ensures
            final(self).wf(),
            unchanged_but_recv(*old(self), *final(self)),
            final(self).next_recv_id == old(self).next_recv_id,
            match r {
                Some((w, p)) => exists|i: int|
                    0 <= i < old(self).recv_records@.len() && ({
                        let rec = #[trigger] old(self).recv_records@[i];
                        let done = rec.bytes_received + bytes@.len() == rec.bytes_total;
                        &&& rec.from@ == peer@
                        &&& rec.remote_send_id == send_id
                        &&& rec.accepted
                        &&& rec.bytes_received == offset
                        &&& rec.bytes_received + bytes@.len() <= rec.bytes_total
                        &&& w.local_recv_id == rec.local_recv_id
                        &&& w.offset == offset
                        &&& w.bytes@ == bytes@
                        &&& p == Packet::Ack {
                            send_id,
                            offset: (offset + bytes@.len()) as u64,
                        }
                        &&& (done ==> final(self).recv_records@ == old(self).recv_records@.remove(i))
                        &&& (!done ==> final(self).recv_records@ == old(self).recv_records@.update(
                            i,
                            RecvRecord {
                                bytes_received: (rec.bytes_received + bytes@.len()) as u64,
                                ..rec
                            },
                        ))
                        &&& final(self).pending_out_events@ == old(self).pending_out_events@.push(
                            OutEvent::RecvProgressed {
                                local_recv_id: rec.local_recv_id,
                                finished: done,
                            },
                        )
                    }),
                None => final(self).recv_records == old(self).recv_records && final(self).pending_out_events == old(self).pending_out_events && !(exists|i: int|
                    0 <= i < old(self).recv_records@.len() && ({
                        let rec = #[trigger] old(self).recv_records@[i];
                        &&& rec.from@ == peer@
                        &&& rec.remote_send_id == send_id
                        &&& rec.accepted
                        &&& rec.bytes_received == offset
                        &&& rec.bytes_received + bytes@.len() <= rec.bytes_total
                    })),
            },
    {
        let i = match self.find_recv_by_remote(peer, send_id) {
            Some(i) => i,
            None => {
                return None;
            },
        };
        let accepted = self.recv_records[i].accepted;
        let received = self.recv_records[i].bytes_received;
        let total = self.recv_records[i].bytes_total;
        proof {
            assert forall|k: int|
                0 <= k < self.recv_records@.len() && (#[trigger] self.recv_records@[k]).from@
                    == peer@ && self.recv_records@[k].remote_send_id == send_id implies k
                == i as int by {
                if k != i as int {
                    assert(false);
                }
            };
        }
        if !accepted || received != offset {
            return None;
        }
        if received > total || bytes.len() as u64 > total - received {
            return None;
        }
        let n = bytes.len() as u64;
        let recv_id = self.recv_records[i].local_recv_id;
        let done = received + n == total;
        let ghost pre = self.recv_records@;
        if done {
            let _ = self.recv_records.remove(i);
            proof {
                pre.remove_ensures(i as int);
                assert(distinct_recv_ids(self.recv_records@));
                assert(recv_ids_below(self.recv_records@, self.next_recv_id as int));
                assert(distinct_remote_pairs(self.recv_records@));
            }
        } else {
            self.recv_records[i].bytes_received = received + n;
            proof {
                assert(distinct_recv_ids(self.recv_records@));
                assert(recv_ids_below(self.recv_records@, self.next_recv_id as int));
                assert(distinct_remote_pairs(self.recv_records@));
            }
        }
        self.pending_out_events.push(
            OutEvent::RecvProgressed { local_recv_id: recv_id, finished: done },
        );
        Some(
            (
                WriteInstr { local_recv_id: recv_id, offset, bytes },
                Packet::Ack { send_id, offset: offset + n },
            ),
        )
    }

    /// Drop an outgoing transfer at this node's wish and build the
    /// cancel packet for the remote. Succeeds exactly when a live
    /// transfer carries the id; afterwards no chunk of it can be emitted.
    pub fn cancel_send(&mut self, local_send_id: u64) -> (r: Result<(PeerId, Packet), CancellationError>)
        requires
            old(self).wf(),
        ensures
            final(self).wf(),
            unchanged_but_send(*old(self), *final(self)),
            final(self).pending_out_events == old(self).pending_out_events,
            final(self).next_send_id == old(self).next_send_id,
            (forall|i: int|
                0 <= i < old(self).send_records@.len() ==> (#[trigger] old(self).send_records@[i]).local_send_id
                    != local_send_id) ==> r == Err::<(PeerId, Packet), CancellationError>(
                CancellationError::UnknownId,
            ) && final(self).send_records == old(self).send_records,
            forall|i: int|
                0 <= i < old(self).send_records@.len() && (#[trigger] old(self).send_records@[i]).local_send_id
                    == local_send_id ==> (r matches Ok((peer, p)) && peer@ == old(self).send_records@[i].remote@ && p == Packet::Cancel { id: local_send_id }
                    && final(self).send_records@ == old(self).send_records@.remove(i)),
    {
        let i = match self.find_send(local_send_id) {
            Some(i) => i,
            None => {
                return Err(CancellationError::UnknownId);
            },
        };
        let peer = self.send_records[i].remote.duplicate();
        let ghost pre = self.send_records@;
        let _ = self.send_records.remove(i);
        proof {
            pre.remove_ensures(i as int);
            assert(distinct_send_ids(self.send_records@));
            assert(send_ids_below(self.send_records@, self.next_send_id as int));
            assert forall|k: int|
                0 <= k < pre.len() && (#[trigger] pre[k]).local_send_id == local_send_id implies k
                == i as int by {
                if k != i as int {
                    assert(pre[k].local_send_id == pre[i as int].local_send_id);
                    assert(false);
                }
            };
        }
        Ok((peer, Packet::Cancel { id: local_send_id }))
    }

    /// Drop an incoming transfer at this node's wish and build the
    /// cancel packet for the sender, which names the transfer by the
    /// sender's id. Succeeds exactly when a live receive carries the id;
    /// afterwards no byte of it will be written.
    pub fn cancel_recv(&mut self, local_recv_id: u64) -> (r: Result<(PeerId, Packet), CancellationError>)
        requires
            old(self).wf(),
        ensures
            final(self).wf(),
            unchanged_but_recv(*old(self), *final(self)),
            final(self).pending_out_events == old(self).pending_out_events,
            final(self).next_recv_id == old(self).next_recv_id,
            (forall|i: int|
                0 <= i < old(self).recv_records@.len() ==> (#[trigger] old(self).recv_records@[i]).local_recv_id
                    != local_recv_id) ==> r == Err::<(PeerId, Packet), CancellationError>(
                CancellationError::UnknownId,
            ) && final(self).recv_records == old(self).recv_records,
            forall|i: int|
                0 <= i < old(self).recv_records@.len() && (#[trigger] old(self).recv_records@[i]).local_recv_id
                    == local_recv_id ==> (r matches Ok((peer, p)) && peer@ == old(self).recv_records@[i].from@ && p == Packet::Cancel {
                    id: old(self).recv_records@[i].remote_send_id,
                } && final(self).recv_records@ == old(self).recv_records@.remove(i)),
    {
        let i = match self.find_recv(local_recv_id) {
            Some(i) => i,
            None => {
                return Err(CancellationError::UnknownId);
            },
        };
        let peer = self.recv_records[i].from.duplicate();
        let id = self.recv_records[i].remote_send_id;
        let ghost pre = self.recv_records@;
        let _ = self.recv_records.remove(i);
        proof {
            pre.remove_ensures(i as int);
            assert(distinct_recv_ids(self.recv_records@));
            assert(recv_ids_below(self.recv_records@, self.next_recv_id as int));
            assert(distinct_remote_pairs(self.recv_records@));
            assert forall|k: int|
                0 <= k < pre.len() && (#[trigger] pre[k]).local_recv_id == local_recv_id implies k
                == i as int by {
                if k != i as int {
                    assert(pre[k].local_recv_id == pre[i as int].local_recv_id);
                    assert(false);
                }
            };
        }
        Ok((peer, Packet::Cancel { id }))
    }

    /// Drop the outgoing transfer the peer refuses or cancels; the
    /// cancellation is surfaced. An unknown id changes nothing.
    pub fn on_remote_cancel_send(&mut self, peer: &PeerId, send_id: u64)
        requires
            old(self).wf(),
        ensures
            final(self).wf(),
            unchanged_but_send(*old(self), *final(self)),
            final(self).next_send_id == old(self).next_send_id,
            (forall|i: int|
                0 <= i < old(self).send_records@.len() ==> !((#[trigger] old(self).send_records@[i]).remote@
                    == peer@ && old(self).send_records@[i].local_send_id == send_id)) ==> *final(self)
                == *old(self),
            forall|i: int|
                0 <= i < old(self).send_records@.len() && (#[trigger] old(self).send_records@[i]).remote@
                    == peer@ && old(self).send_records@[i].local_send_id == send_id ==> final(self).send_records@
                    == old(self).send_records@.remove(i) && final(self).pending_out_events@ == old(self).pending_out_events@.push(OutEvent::CancelledSend(send_id)),
    {
        let i = match self.find_send_by_remote(peer, send_id) {
            Some(i) => i,
            None => {
                return ;
            },
        };
        let ghost pre = self.send_records@;
        let _ = self.send_records.remove(i);
        self.pending_out_events.push(OutEvent::CancelledSend(send_id));
        proof {
            pre.remove_ensures(i as int);
            assert(distinct_send_ids(self.send_records@));
            assert(send_ids_below(self.send_records@, self.next_send_id as int));
            assert forall|k: int|
                0 <= k < pre.len() && (#[trigger] pre[k]).remote@ == peer@ && pre[k].local_send_id
                    == send_id implies k == i as int by {
                if k != i as int {
                    assert(pre[k].local_send_id == pre[i as int].local_send_id);
                    assert(false);
                }
            };
        }
    }

    /// Drop the incoming transfer the peer cancelled; the cancellation
    /// is surfaced under this node's id. An unknown id changes nothing.
    pub fn on_remote_cancel_recv(&mut self, peer: &PeerId, send_id: u64)
        requires
            old(self).wf(),
        ensures
            final(self).wf(),
            unchanged_but_recv(*old(self), *final(self)),
            final(self).next_recv_id == old(self).next_recv_id,
            (forall|i: int|
                0 <= i < old(self).recv_records@.len() ==> !((#[trigger] old(self).recv_records@[i]).from@
                    == peer@ && old(self).recv_records@[i].remote_send_id == send_id)) ==> *final(self)
                == *old(self),
            forall|i: int|
                0 <= i < old(self).recv_records@.len() && (#[trigger] old(self).recv_records@[i]).from@
                    == peer@ && old(self).recv_records@[i].remote_send_id == send_id ==> final(self).recv_records@
                    == old(self).recv_records@.remove(i) && final(self).pending_out_events@ == old(self).pending_out_events@.push(
                    OutEvent::CancelledRecv(old(self).recv_records@[i].local_recv_id),
                ),
    {
        let i = match self.find_recv_by_remote(peer, send_id) {
            Some(i) => i,
            None => {
                return ;
            },
        };
        let id = self.recv_records[i].local_recv_id;
        let ghost pre = self.recv_records@;
        let _ = self.recv_records.remove(i);
        self.pending_out_events.push(OutEvent::CancelledRecv(id));
        proof {
            pre.remove_ensures(i as int);
            assert(distinct_recv_ids(self.recv_records@));
            assert(recv_ids_below(self.recv_records@, self.next_recv_id as int));
            assert(distinct_remote_pairs(self.recv_records@));
            assert forall|k: int|
                0 <= k < pre.len() && (#[trigger] pre[k]).from@ == peer@ && pre[k].remote_send_id
                    == send_id implies k == i as int by {
                if k != i as int {
                    assert(false);
                }
            };
        }
    }

    /// The live outgoing transfers, as records for the application.
    pub fn list_pending_send(&self) -> (r: Vec<SendInfo>)
        ensures
            r@.len() == self.send_records@.len(),
            forall|i: int|
                0 <= i < r@.len() ==> (#[trigger] r@[i]).local_send_id
                    == self.send_records@[i].local_send_id && r@[i].started
                    == self.send_records@[i].started && r@[i].remote@
                    == self.send_records@[i].remote@ && r@[i].file_name@
                    == self.send_records@[i].file_name@,
    {
        let n = self.send_records.len();
        let mut out: Vec<SendInfo> = Vec::new();
        let mut i: usize = 0;
        while i < n
            invariant
                n == self.send_records@.len(),
                0 <= i <= n,
                out@.len() == i,
                forall|k: int|
                    0 <= k < i ==> (#[trigger] out@[k]).local_send_id
                        == self.send_records@[k].local_send_id && out@[k].started
                        == self.send_records@[k].started && out@[k].remote@
                        == self.send_records@[k].remote@ && out@[k].file_name@
                        == self.send_records@[k].file_name@,
            decreases n - i,
        {
            let rec = &self.send_records[i];
            out.push(
                SendInfo {
                    local_send_id: rec.local_send_id,
                    remote: rec.remote.duplicate(),
                    file_name: crate::peer::copy_bytes(&rec.file_name),
                    started: rec.started,
                },
            );
            i = i + 1;
        }
        out
    }

    /// The live incoming transfers, as records for the application.
    pub fn list_pending_recv(&self) -> (r: Vec<RecvInfo>)
        ensures
            r@.len() == self.recv_records@.len(),
            forall|i: int|
                0 <= i < r@.len() ==> (#[trigger] r@[i]).local_recv_id
                    == self.recv_records@[i].local_recv_id && r@[i].from@
                    == self.recv_records@[i].from@ && r@[i].file_name@
                    == self.recv_records@[i].file_name@ && r@[i].bytes_total
                    == self.recv_records@[i].bytes_total,
    {
        let n = self.recv_records.len();
        let mut out: Vec<RecvInfo> = Vec::new();
        let mut i: usize = 0;
        while i < n
            invariant
                n == self.recv_records@.len(),
                0 <= i <= n,
                out@.len() == i,
                forall|k: int|
                    0 <= k < i ==> (#[trigger] out@[k]).local_recv_id
                        == self.recv_records@[k].local_recv_id && out@[k].from@
                        == self.recv_records@[k].from@ && out@[k].file_name@
                        == self.recv_records@[k].file_name@ && out@[k].bytes_total
                        == self.recv_records@[k].bytes_total,
            decreases n - i,
        {
            let rec = &self.recv_records[i];
            out.push(
                RecvInfo {
                    local_recv_id: rec.local_recv_id,
                    from: rec.from.duplicate(),
                    file_name: crate::peer::copy_bytes(&rec.file_name),
                    bytes_total: rec.bytes_total,
                },
            );
            i = i + 1;
        }
        out
    }

    /// Note a peer that negotiated this protocol.
    pub fn on_peer_connected(&mut self, peer: &PeerId)
        requires
            old(self).wf(),
        ensures
            final(self).wf(),
            final(self).connected_peers@ =~= old(self).connected_peers@.insert(peer@),
            final(self).send_records == old(self).send_records,
            final(self).recv_records == old(self).recv_records,
            final(self).next_send_id == old(self).next_send_id,
            final(self).next_recv_id == old(self).next_recv_id,
            final(self).pending_out_events == old(self).pending_out_events,
            final(self).config == old(self).config,
    {
        let _ = self.connected_peers.insert(peer.duplicate());
    }

    /// Surface that a peer does not support this protocol.
    pub fn on_unsupported(&mut self, peer: &PeerId)
        ensures
            final(self).pending_out_events@.len() == old(self).pending_out_events@.len() + 1,
            final(self).pending_out_events@.subrange(
                0,
                old(self).pending_out_events@.len() as int,
            ) == old(self).pending_out_events@,
            final(self).pending_out_events@.last() matches OutEvent::Unsupported(p) && p@ == peer@,
            final(self).send_records == old(self).send_records,
            final(self).recv_records == old(self).recv_records,
            final(self).connected_peers == old(self).connected_peers,
            final(self).next_send_id == old(self).next_send_id,
            final(self).next_recv_id == old(self).next_recv_id,
            final(self).config == old(self).config,
    {
        let ghost pre = self.pending_out_events@;
        self.pending_out_events.push(OutEvent::Unsupported(peer.duplicate()));
        proof {
            assert(self.pending_out_events@.subrange(0, pre.len() as int) =~= pre);
        }
    }

    /// Note a closed connection. When it was the peer's last one, the
    /// peer leaves the connected set and every transfer with it dies.
    pub fn on_connection_closed(&mut self, peer: &PeerId, remaining_established: u32)
        requires
            old(self).wf(),
        ensures
            final(self).wf(),
            final(self).pending_out_events == old(self).pending_out_events,
            final(self).next_send_id == old(self).next_send_id,
            final(self).next_recv_id == old(self).next_recv_id,
            final(self).config == old(self).config,
            remaining_established == 0 ==> final(self).connected_peers@ =~= old(self).connected_peers@.remove(peer@) && final(self).send_records@ == old(self).send_records@.filter(
                |rec: SendRecord| rec.remote@ != peer@,
            ) && final(self).recv_records@ == old(self).recv_records@.filter(
                |rec: RecvRecord| rec.from@ != peer@,
            ),
            remaining_established != 0 ==> *final(self) == *old(self),
    {
        if remaining_established != 0 {
            return ;
        }
        let _ = self.connected_peers.remove(peer);
        let ghost spred = (|rec: SendRecord| rec.remote@ != peer@);
        let ghost pre = self.send_records@;
        let ghost mid = *self;
        let mut kept: Vec<SendRecord> = Vec::new();
        while self.send_records.len() > 0
            invariant
                self.recv_records == mid.recv_records,
                self.pending_out_events == mid.pending_out_events,
                self.connected_peers == mid.connected_peers,
                self.next_send_id == mid.next_send_id,
                self.next_recv_id == mid.next_recv_id,
                self.config == mid.config,
                self.send_records@.len() <= pre.len(),
                self.send_records@ == pre.subrange(
                    pre.len() - self.send_records@.len(),
                    pre.len() as int,
                ),
                kept@ == pre.subrange(0, pre.len() - self.send_records@.len()).filter(spred),
                spred == (|rec: SendRecord| rec.remote@ != peer@),
            decreases self.send_records@.len(),
        {
            let ghost k = pre.len() - self.send_records@.len();
            let rec = self.send_records.remove(0);
            proof {
                assert(rec == pre[k as int]);
                assert(self.send_records@ =~= pre.subrange(k + 1, pre.len() as int));
                assert(pre.subrange(0, k + 1) =~= pre.subrange(0, k as int).push(pre[k as int]));
                lemma_filter_snoc(pre.subrange(0, k as int), pre[k as int], spred);
            }
            if !(rec.remote == *peer) {
                kept.push(rec);
            }
        }
        proof {
            assert(pre.subrange(0, pre.len() as int) =~= pre);
        }
        self.send_records = kept;
        let ghost rpred = (|rec: RecvRecord| rec.from@ != peer@);
        let ghost rpre = self.recv_records@;
        let ghost mid2 = *self;
        let mut rkept: Vec<RecvRecord> = Vec::new();
        while self.recv_records.len() > 0
            invariant
                self.send_records == mid2.send_records,
                self.pending_out_events == mid2.pending_out_events,
                self.connected_peers == mid2.connected_peers,
                self.next_send_id == mid2.next_send_id,
                self.next_recv_id == mid2.next_recv_id,
                self.config == mid2.config,
                self.recv_records@.len() <= rpre.len(),
                self.recv_records@ == rpre.subrange(
                    rpre.len() - self.recv_records@.len(),
                    rpre.len() as int,
                ),
                rkept@ == rpre.subrange(0, rpre.len() - self.recv_records@.len()).filter(rpred),
                rpred == (|rec: RecvRecord| rec.from@ != peer@),
            decreases self.recv_records@.len(),
        {
            let ghost k = rpre.len() - self.recv_records@.len();
            let rec = self.recv_records.remove(0);
            proof {
                assert(rec == rpre[k as int]);
                assert(self.recv_records@ =~= rpre.subrange(k + 1, rpre.len() as int));
                assert(rpre.subrange(0, k + 1) =~= rpre.subrange(0, k as int).push(
                    rpre[k as int],
                ));
                lemma_filter_snoc(rpre.subrange(0, k as int), rpre[k as int], rpred);
            }
            if !(rec.from == *peer) {
                rkept.push(rec);
            }
        }
        proof {
            assert(rpre.subrange(0, rpre.len() as int) =~= rpre);
        }
        self.recv_records = rkept;
        proof {
            lemma_send_filter_wf(pre, spred, self.next_send_id as int);
            lemma_recv_filter_wf(rpre, rpred, self.next_recv_id as int);
        }
    }

    /// One step of the behaviour: surface the oldest queued event.
    pub fn poll(&mut self) -> (r: Option<OutEvent>)
        requires
            old(self).wf(),
        ensures
            final(self).wf(),
            old(self).pending_out_events@.len() > 0 ==> r == Some(
                old(self).pending_out_events@[0],
            ) && final(self).pending_out_events@ == old(self).pending_out_events@.drop_first()
                && final(self).send_records == old(self).send_records && final(self).recv_records
                == old(self).recv_records && final(self).connected_peers == old(self).connected_peers && final(self).next_send_id == old(self).next_send_id && final(self).next_recv_id == old(self).next_recv_id && final(self).config == old(self).config,
            old(self).pending_out_events@.len() == 0 ==> r is None && *final(self) == *old(self),
    {
        if self.pending_out_events.len() > 0 {
            let ev = self.pending_out_events.remove(0);
            return Some(ev);
        }
        None
    }
}

/// Appending an element extends a filtered sequence by that element
/// exactly when the element passes the predicate.
proof fn lemma_filter_snoc<T>(s: Seq<T>, x: T, pred: spec_fn(T) -> bool)
    ensures
        (s.push(x)).filter(pred) == (if pred(x) {
            s.filter(pred).push(x)
        } else {
            s.filter(pred)
        }),
{
    reveal(Seq::filter);
    assert(s.push(x).drop_last() =~= s);
    assert(s.push(x).last() == x);
}

/// Every element of a filtered sequence stands somewhere in the source.
proof fn lemma_filter_element_index<T>(s: Seq<T>, pred: spec_fn(T) -> bool, i: int) -> (k: int)
    requires
        0 <= i < s.filter(pred).len(),
    ensures
        0 <= k < s.len(),
        s[k] == s.filter(pred)[i],
    decreases s.len(),
{
    reveal(Seq::filter);
    let d = s.drop_last();
    if pred(s.last()) && i == s.filter(pred).len() - 1 {
        s.len() - 1
    } else {
        let k = lemma_filter_element_index(d, pred, i);
        assert(s[k] == d[k]);
        k
    }
}

/// Dropping records keeps send ids distinct and below the counter.
proof fn lemma_send_filter_wf(s: Seq<SendRecord>, pred: spec_fn(SendRecord) -> bool, n: int)
    requires
        distinct_send_ids(s),
        send_ids_below(s, n),
    ensures
        distinct_send_ids(s.filter(pred)),
        send_ids_below(s.filter(pred), n),
{
    let f = s.filter(pred);
    assert forall|i: int, j: int|
        0 <= i < j < f.len() implies f[i].local_send_id != f[j].local_send_id by {
        let ki = lemma_filter_element_index(s, pred, i);
        let kj = lemma_filter_element_index(s, pred, j);
        lemma_filter_index_increases(s, pred, i, j);
    };
    assert forall|i: int| 0 <= i < f.len() implies (#[trigger] f[i]).local_send_id < n by {
        let k = lemma_filter_element_index(s, pred, i);
    };
}

/// Dropping records keeps recv ids distinct and below the counter, and
/// per-peer transfer names distinct.
proof fn lemma_recv_filter_wf(s: Seq<RecvRecord>, pred: spec_fn(RecvRecord) -> bool, n: int)
    requires
        distinct_recv_ids(s),
        recv_ids_below(s, n),
        distinct_remote_pairs(s),
    ensures
        distinct_recv_ids(s.filter(pred)),
        recv_ids_below(s.filter(pred), n),
        distinct_remote_pairs(s.filter(pred)),
{
    let f = s.filter(pred);
    assert forall|i: int, j: int|
        0 <= i < j < f.len() implies f[i].local_recv_id != f[j].local_recv_id && !(f[i].from@
        == f[j].from@ && f[i].remote_send_id == f[j].remote_send_id) by {
        let ki = lemma_filter_element_index(s, pred, i);
        let kj = lemma_filter_element_index(s, pred, j);
        lemma_recv_filter_index_increases(s, pred, i, j);
    };
    assert forall|i: int| 0 <= i < f.len() implies (#[trigger] f[i]).local_recv_id < n by {
        let k = lemma_filter_element_index(s, pred, i);
    };
}

/// Two positions of a filtered sequence come from two distinct positions
/// of the source.
proof fn lemma_filter_index_increases(s: Seq<SendRecord>, pred: spec_fn(SendRecord) -> bool, i: int, j: int)
    requires
        0 <= i < j < s.filter(pred).len(),
        distinct_send_ids(s),
    ensures
        s.filter(pred)[i].local_send_id != s.filter(pred)[j].local_send_id,
    decreases s.len(),
{
    reveal(Seq::filter);
    let d = s.drop_last();
    let f = s.filter(pred);
    if pred(s.last()) && j == f.len() - 1 {
        let ki = lemma_filter_element_index(d, pred, i);
        assert(s[ki] == d[ki]);
        assert(s[ki].local_send_id != s[s.len() - 1].local_send_id);
    } else {
        lemma_filter_index_increases(d, pred, i, j);
    }
}

/// Two positions of a filtered sequence come from two distinct positions
/// of the source.
proof fn lemma_recv_filter_index_increases(s: Seq<RecvRecord>, pred: spec_fn(RecvRecord) -> bool, i: int, j: int)
    requires
        0 <= i < j < s.filter(pred).len(),
        distinct_recv_ids(s),
        distinct_remote_pairs(s),
    ensures
        s.filter(pred)[i].local_recv_id != s.filter(pred)[j].local_recv_id,
        !(s.filter(pred)[i].from@ == s.filter(pred)[j].from@ && s.filter(pred)[i].remote_send_id
            == s.filter(pred)[j].remote_send_id),
    decreases s.len(),
{
    reveal(Seq::filter);
    let d = s.drop_last();
    let f = s.filter(pred);
    if pred(s.last()) && j == f.len() - 1 {
        let ki = lemma_filter_element_index(d, pred, i);
        assert(s[ki] == d[ki]);
        assert(s[ki].local_recv_id != s[s.len() - 1].local_recv_id);
        assert(!(s[ki].from@ == s[s.len() - 1].from@ && s[ki].remote_send_id == s[s.len()
            - 1].remote_send_id));
    } else {
        lemma_recv_filter_index_increases(d, pred, i, j);
    }
}

/// In a well-formed node no two live transfers share a send id, and the
/// next id to be assigned differs from every live one: assigned ids
/// strictly increase and are never reused while the node runs.
pub proof fn lemma_send_ids_fresh(s: Seq<SendRecord>, n: int)
    requires
        distinct_send_ids(s),
        send_ids_below(s, n),
    ensures
        forall|i: int| 0 <= i < s.len() ==> (#[trigger] s[i]).local_send_id != n,
        forall|i: int, j: int|
            0 <= i < j < s.len() ==> s[i].local_send_id != s[j].local_send_id,
{
}

/// The chunks of a byte run: full chunks in offset order, the last one
/// holding what remains.
pub open spec fn chunks_of(data: Seq<u8>, chunk: int) -> Seq<Seq<u8>>
    decreases data.len() when chunk >= 1
{
    if data.len() == 0 {
        Seq::empty()
    } else if data.len() <= chunk {
        seq![data]
    } else {
        seq![data.take(chunk)] + chunks_of(data.skip(chunk), chunk)
    }
}

/// The bytes of a sequence of chunks, one after the other.
pub open spec fn concat_chunks(cs: Seq<Seq<u8>>) -> Seq<u8>
    decreases cs.len(),
{
    if cs.len() == 0 {
        Seq::empty()
    } else {
        cs[0] + concat_chunks(cs.drop_first())
    }
}

/// From any offset inside the data, the chunk the sender's arithmetic
/// produces — `chunk_len` bytes at `sent` — is exactly the next chunk of
/// the remaining data, and what follows it is the rest.
pub proof fn lemma_next_chunk_split(data: Seq<u8>, c: int, sent: int)
    requires
        1 <= c,
        0 <= sent < data.len(),
    ensures
        ({
            let cl = chunk_len(data.len() as int, sent, c);
            chunks_of(data.skip(sent), c) == seq![data.subrange(sent, sent + cl)] + chunks_of(
                data.skip(sent + cl),
                c,
            )
        }),
{
    let cl = chunk_len(data.len() as int, sent, c);
    let rest = data.skip(sent);
    if data.len() - sent <= c {
        assert(rest =~= data.subrange(sent, sent + cl));
        assert(chunks_of(rest, c) == seq![rest]);
        assert(data.skip(sent + cl) =~= Seq::<u8>::empty());
        assert(chunks_of(Seq::<u8>::empty(), c) == Seq::<Seq<u8>>::empty());
        assert(seq![data.subrange(sent, sent + cl)] + Seq::<Seq<u8>>::empty() =~= seq![
            data.subrange(sent, sent + cl),
        ]);
    } else {
        assert(chunks_of(rest, c) == seq![rest.take(c)] + chunks_of(rest.skip(c), c));
        assert(rest.take(c) =~= data.subrange(sent, sent + cl));
        assert(rest.skip(c) =~= data.skip(sent + cl));
    }
}

/// A transfer cut into chunks and written back in offset order carries
/// the source bytes exactly: what a receiver assembles from an
/// uncancelled, completed transfer equals what the sender read.
pub proof fn lemma_chunks_reassemble(data: Seq<u8>, chunk: int)
    requires
        chunk >= 1,
    ensures
        concat_chunks(chunks_of(data, chunk)) =~= data,
    decreases data.len(),
{
    if data.len() == 0 {
    } else if data.len() <= chunk {
        assert(chunks_of(data, chunk) == seq![data]);
        assert(seq![data].drop_first() =~= Seq::<Seq<u8>>::empty());
        assert(concat_chunks(seq![data]) == seq![data][0] + concat_chunks(
            seq![data].drop_first(),
        ));
        assert(concat_chunks(Seq::<Seq<u8>>::empty()) == Seq::<u8>::empty());
        assert(data + Seq::<u8>::empty() =~= data);
    } else {
        lemma_chunks_reassemble(data.skip(chunk), chunk);
        let cs = chunks_of(data, chunk);
        assert(cs == seq![data.take(chunk)] + chunks_of(data.skip(chunk), chunk));
        assert(cs.drop_first() =~= chunks_of(data.skip(chunk), chunk));
        assert(cs[0] == data.take(chunk));
        assert(data.take(chunk) + data.skip(chunk) =~= data);
    }
}

/// The opening brace and quote before the packet tag.
pub open spec fn lit_open() -> Seq<u8> {
    seq!['{' as u8, '"' as u8]
}

/// The opening brace and quote before the packet tag.
fn lit_open_vec() -> (r: Vec<u8>)
    ensures
        r@ == lit_open(),
{
    let mut v: Vec<u8> = Vec::new();
    v.push('{' as u8);
    v.push('"' as u8);
    proof {
        assert(v@ =~= lit_open());
    }
    v
}

/// The tag of a file announcement.
pub open spec fn tag_send_request() -> Seq<u8> {
    seq!['S' as u8, 'e' as u8, 'n' as u8, 'd' as u8, 'R' as u8, 'e' as u8, 'q' as u8, 'u' as u8, 'e' as u8, 's' as u8, 't' as u8]
}

/// The tag of a file announcement.
fn tag_send_request_vec() -> (r: Vec<u8>)
    ensures
        r@ == tag_send_request(),
{
    let mut v: Vec<u8> = Vec::new();
    v.push('S' as u8);
    v.push('e' as u8);
    v.push('n' as u8);
    v.push('d' as u8);
    v.push('R' as u8);
    v.push('e' as u8);
    v.push('q' as u8);
    v.push('u' as u8);
    v.push('e' as u8);
    v.push('s' as u8);
    v.push('t' as u8);
    proof {
        assert(v@ =~= tag_send_request());
    }
    v
}

/// The tag of an acceptance.
pub open spec fn tag_accept() -> Seq<u8> {
    seq!['A' as u8, 'c' as u8, 'c' as u8, 'e' as u8, 'p' as u8, 't' as u8]
}

/// The tag of an acceptance.
fn tag_accept_vec() -> (r: Vec<u8>)
    ensures
        r@ == tag_accept(),
{
    let mut v: Vec<u8> = Vec::new();
    v.push('A' as u8);
    v.push('c' as u8);
    v.push('c' as u8);
    v.push('e' as u8);
    v.push('p' as u8);
    v.push('t' as u8);
    proof {
        assert(v@ =~= tag_accept());
    }
    v
}

/// The tag of a refusal.
pub open spec fn tag_reject() -> Seq<u8> {
    seq!['R' as u8, 'e' as u8, 'j' as u8, 'e' as u8, 'c' as u8, 't' as u8]
}

/// The tag of a refusal.
fn tag_reject_vec() -> (r: Vec<u8>)
    ensures
        r@ == tag_reject(),
{
    let mut v: Vec<u8> = Vec::new();
    v.push('R' as u8);
    v.push('e' as u8);
    v.push('j' as u8);
    v.push('e' as u8);
    v.push('c' as u8);
    v.push('t' as u8);
    proof {
        assert(v@ =~= tag_reject());
    }
    v
}

/// The tag of a chunk of bytes.
pub open spec fn tag_chunk() -> Seq<u8> {
    seq!['C' as u8, 'h' as u8, 'u' as u8, 'n' as u8, 'k' as u8]
}

/// The tag of a chunk of bytes.
fn tag_chunk_vec() -> (r: Vec<u8>)
    ensures
        r@ == tag_chunk(),
{
    let mut v: Vec<u8> = Vec::new();
    v.push('C' as u8);
    v.push('h' as u8);
    v.push('u' as u8);
    v.push('n' as u8);
    v.push('k' as u8);
    proof {
        assert(v@ =~= tag_chunk());
    }
    v
}

/// The tag of a cancellation.
pub open spec fn tag_cancel() -> Seq<u8> {
    seq!['C' as u8, 'a' as u8, 'n' as u8, 'c' as u8, 'e' as u8, 'l' as u8]
}

/// The tag of a cancellation.
fn tag_cancel_vec() -> (r: Vec<u8>)
    ensures
        r@ == tag_cancel(),
{
    let mut v: Vec<u8> = Vec::new();
    v.push('C' as u8);
    v.push('a' as u8);
    v.push('n' as u8);
    v.push('c' as u8);
    v.push('e' as u8);
    v.push('l' as u8);
    proof {
        assert(v@ =~= tag_cancel());
    }
    v
}

/// The tag of an acknowledgement.
pub open spec fn tag_ack() -> Seq<u8> {
    seq!['A' as u8, 'c' as u8, 'k' as u8]
}

/// The tag of an acknowledgement.
fn tag_ack_vec() -> (r: Vec<u8>)
    ensures
        r@ == tag_ack(),
{
    let mut v: Vec<u8> = Vec::new();
    v.push('A' as u8);
    v.push('c' as u8);
    v.push('k' as u8);
    proof {
        assert(v@ =~= tag_ack());
    }
    v
}

/// The bytes before the file name.
pub open spec fn lit_fname() -> Seq<u8> {
    seq![':' as u8, '{' as u8, '"' as u8, 'f' as u8, 'i' as u8, 'l' as u8, 'e' as u8, '_' as u8, 'n' as u8, 'a' as u8, 'm' as u8, 'e' as u8, '"' as u8, ':' as u8, '"' as u8]
}

/// The bytes before the file name.
fn lit_fname_vec() -> (r: Vec<u8>)
    ensures
        r@ == lit_fname(),
{
    let mut v: Vec<u8> = Vec::new();
    v.push(':' as u8);
    v.push('{' as u8);
    v.push('"' as u8);
    v.push('f' as u8);
    v.push('i' as u8);
    v.push('l' as u8);
    v.push('e' as u8);
    v.push('_' as u8);
    v.push('n' as u8);
    v.push('a' as u8);
    v.push('m' as u8);
    v.push('e' as u8);
    v.push('"' as u8);
    v.push(':' as u8);
    v.push('"' as u8);
    proof {
        assert(v@ =~= lit_fname());
    }
    v
}

/// The bytes between the file name and the size.
pub open spec fn lit_btotal() -> Seq<u8> {
    seq![',' as u8, '"' as u8, 'b' as u8, 'y' as u8, 't' as u8, 'e' as u8, 's' as u8, '_' as u8, 't' as u8, 'o' as u8, 't' as u8, 'a' as u8, 'l' as u8, '"' as u8, ':' as u8]
}

/// The bytes between the file name and the size.
fn lit_btotal_vec() -> (r: Vec<u8>)
    ensures
        r@ == lit_btotal(),
{
    let mut v: Vec<u8> = Vec::new();
    v.push(',' as u8);
    v.push('"' as u8);
    v.push('b' as u8);
    v.push('y' as u8);
    v.push('t' as u8);
    v.push('e' as u8);
    v.push('s' as u8);
    v.push('_' as u8);
    v.push('t' as u8);
    v.push('o' as u8);
    v.push('t' as u8);
    v.push('a' as u8);
    v.push('l' as u8);
    v.push('"' as u8);
    v.push(':' as u8);
    proof {
        assert(v@ =~= lit_btotal());
    }
    v
}

/// The bytes before a send id after another field.
pub open spec fn lit_sid_mid() -> Seq<u8> {
    seq![',' as u8, '"' as u8, 's' as u8, 'e' as u8, 'n' as u8, 'd' as u8, '_' as u8, 'i' as u8, 'd' as u8, '"' as u8, ':' as u8]
}

/// The bytes before a send id after another field.
fn lit_sid_mid_vec() -> (r: Vec<u8>)
    ensures
        r@ == lit_sid_mid(),
{
    let mut v: Vec<u8> = Vec::new();
    v.push(',' as u8);
    v.push('"' as u8);
    v.push('s' as u8);
    v.push('e' as u8);
    v.push('n' as u8);
    v.push('d' as u8);
    v.push('_' as u8);
    v.push('i' as u8);
    v.push('d' as u8);
    v.push('"' as u8);
    v.push(':' as u8);
    proof {
        assert(v@ =~= lit_sid_mid());
    }
    v
}

/// The bytes before a send id at the start of a body.
pub open spec fn lit_sid() -> Seq<u8> {
    seq![':' as u8, '{' as u8, '"' as u8, 's' as u8, 'e' as u8, 'n' as u8, 'd' as u8, '_' as u8, 'i' as u8, 'd' as u8, '"' as u8, ':' as u8]
}

/// The bytes before a send id at the start of a body.
fn lit_sid_vec() -> (r: Vec<u8>)
    ensures
        r@ == lit_sid(),
{
    let mut v: Vec<u8> = Vec::new();
    v.push(':' as u8);
    v.push('{' as u8);
    v.push('"' as u8);
    v.push('s' as u8);
    v.push('e' as u8);
    v.push('n' as u8);
    v.push('d' as u8);
    v.push('_' as u8);
    v.push('i' as u8);
    v.push('d' as u8);
    v.push('"' as u8);
    v.push(':' as u8);
    proof {
        assert(v@ =~= lit_sid());
    }
    v
}

/// The bytes before the id of a cancellation.
pub open spec fn lit_id() -> Seq<u8> {
    seq![':' as u8, '{' as u8, '"' as u8, 'i' as u8, 'd' as u8, '"' as u8, ':' as u8]
}

/// The bytes before the id of a cancellation.
fn lit_id_vec() -> (r: Vec<u8>)
    ensures
        r@ == lit_id(),
{
    let mut v: Vec<u8> = Vec::new();
    v.push(':' as u8);
    v.push('{' as u8);
    v.push('"' as u8);
    v.push('i' as u8);
    v.push('d' as u8);
    v.push('"' as u8);
    v.push(':' as u8);
    proof {
        assert(v@ =~= lit_id());
    }
    v
}

/// The bytes before an offset.
pub open spec fn lit_offset() -> Seq<u8> {
    seq![',' as u8, '"' as u8, 'o' as u8, 'f' as u8, 'f' as u8, 's' as u8, 'e' as u8, 't' as u8, '"' as u8, ':' as u8]
}

/// The bytes before an offset.
fn lit_offset_vec() -> (r: Vec<u8>)
    ensures
        r@ == lit_offset(),
{
    let mut v: Vec<u8> = Vec::new();
    v.push(',' as u8);
    v.push('"' as u8);
    v.push('o' as u8);
    v.push('f' as u8);
    v.push('f' as u8);
    v.push('s' as u8);
    v.push('e' as u8);
    v.push('t' as u8);
    v.push('"' as u8);
    v.push(':' as u8);
    proof {
        assert(v@ =~= lit_offset());
    }
    v
}

/// The bytes before the chunk bytes.
pub open spec fn lit_bytes() -> Seq<u8> {
    seq![',' as u8, '"' as u8, 'b' as u8, 'y' as u8, 't' as u8, 'e' as u8, 's' as u8, '"' as u8, ':' as u8, '"' as u8]
}

/// The bytes before the chunk bytes.
fn lit_bytes_vec() -> (r: Vec<u8>)
    ensures
        r@ == lit_bytes(),
{
    let mut v: Vec<u8> = Vec::new();
    v.push(',' as u8);
    v.push('"' as u8);
    v.push('b' as u8);
    v.push('y' as u8);
    v.push('t' as u8);
    v.push('e' as u8);
    v.push('s' as u8);
    v.push('"' as u8);
    v.push(':' as u8);
    v.push('"' as u8);
    proof {
        assert(v@ =~= lit_bytes());
    }
    v
}

/// The bytes closing a packet.
pub open spec fn lit_close() -> Seq<u8> {
    seq!['}' as u8, '}' as u8]
}

/// The bytes closing a packet.
fn lit_close_vec() -> (r: Vec<u8>)
    ensures
        r@ == lit_close(),
{
    let mut v: Vec<u8> = Vec::new();
    v.push('}' as u8);
    v.push('}' as u8);
    proof {
        assert(v@ =~= lit_close());
    }
    v
}

/// The quote and braces closing a chunk packet.
pub open spec fn lit_qclose() -> Seq<u8> {
    seq!['"' as u8, '}' as u8, '}' as u8]
}

/// The quote and braces closing a chunk packet.
fn lit_qclose_vec() -> (r: Vec<u8>)
    ensures
        r@ == lit_qclose(),
{
    let mut v: Vec<u8> = Vec::new();
    v.push('"' as u8);
    v.push('}' as u8);
    v.push('}' as u8);
    proof {
        assert(v@ =~= lit_qclose());
    }
    v
}

/// The ghost shape of a blob packet.
pub enum PacketModel {
    /// Announce a file.
    SendRequest { file_name: Seq<u8>, bytes_total: int, send_id: int },
    /// Accept an announced file.
    Accept { send_id: int },
    /// Refuse an announced file.
    Reject { send_id: int },
    /// Carry bytes at an offset.
    Chunk { send_id: int, offset: int, bytes: Seq<u8> },
    /// Drop a transfer, from either side.
    Cancel { id: int },
    /// Confirm bytes up to an offset.
    Ack { send_id: int, offset: int },
}

impl View for Packet {
    type V = PacketModel;

    open spec fn view(&self) -> PacketModel {
        match self {
            Packet::SendRequest { file_name, bytes_total, send_id } => PacketModel::SendRequest {
                file_name: file_name@,
                bytes_total: *bytes_total as int,
                send_id: *send_id as int,
            },
            Packet::Accept { send_id } => PacketModel::Accept { send_id: *send_id as int },
            Packet::Reject { send_id } => PacketModel::Reject { send_id: *send_id as int },
            Packet::Chunk { send_id, offset, bytes } => PacketModel::Chunk {
                send_id: *send_id as int,
                offset: *offset as int,
                bytes: bytes@,
            },
            Packet::Cancel { id } => PacketModel::Cancel { id: *id as int },
            Packet::Ack { send_id, offset } => PacketModel::Ack {
                send_id: *send_id as int,
                offset: *offset as int,
            },
        }
    }
}

/// The opening of a packet: brace, quoted tag, colon territory.
pub open spec fn enc_head(tag: Seq<u8>) -> Seq<u8> {
    lit_open() + tag + seq![q_mark()]
}

/// The wire form of a blob packet: a JSON object tagged with the variant.
pub open spec fn spec_enc_blob(m: PacketModel) -> Seq<u8> {
    match m {
        PacketModel::SendRequest { file_name, bytes_total, send_id } => enc_head(
            tag_send_request(),
        ) + lit_fname() + esc(file_name) + seq![q_mark()] + lit_btotal() + dec_digits(
            bytes_total,
        ) + lit_sid_mid()
            + dec_digits(send_id) + lit_close(),
        PacketModel::Accept { send_id } => enc_head(tag_accept()) + lit_sid() + dec_digits(send_id)
            + lit_close(),
        PacketModel::Reject { send_id } => enc_head(tag_reject()) + lit_sid() + dec_digits(send_id)
            + lit_close(),
        PacketModel::Chunk { send_id, offset, bytes } => enc_head(tag_chunk()) + lit_sid()
            + dec_digits(send_id) + lit_offset() + dec_digits(offset) + lit_bytes() + hex_enc(
            bytes,
        ) + lit_qclose(),
        PacketModel::Cancel { id } => enc_head(tag_cancel()) + lit_id() + dec_digits(id)
            + lit_close(),
        PacketModel::Ack { send_id, offset } => enc_head(tag_ack()) + lit_sid() + dec_digits(
            send_id,
        ) + lit_offset() + dec_digits(offset) + lit_close(),
    }
}

/// A body holding one number behind `head`, closing the packet.
pub open spec fn spec_parse_one_num(s: Seq<u8>, i: int, head: Seq<u8>) -> Option<int> {
    match spec_expect_lit(s, i, head) {
        None => None,
        Some(j) => match spec_parse_u64(s, j) {
            None => None,
            Some((v, k)) => match spec_expect_lit(s, k, lit_close()) {
                None => None,
                Some(e) => if e == s.len() {
                    Some(v)
                } else {
                    None
                },
            },
        },
    }
}

/// A body holding a send id and an offset, closing the packet.
pub open spec fn spec_parse_two_nums(s: Seq<u8>, i: int) -> Option<(int, int)> {
    match spec_expect_lit(s, i, lit_sid()) {
        None => None,
        Some(j) => match spec_parse_u64(s, j) {
            None => None,
            Some((v1, k)) => match spec_expect_lit(s, k, lit_offset()) {
                None => None,
                Some(j2) => match spec_parse_u64(s, j2) {
                    None => None,
                    Some((v2, k2)) => match spec_expect_lit(s, k2, lit_close()) {
                        None => None,
                        Some(e) => if e == s.len() {
                            Some((v1, v2))
                        } else {
                            None
                        },
                    },
                },
            },
        },
    }
}

/// The body of a chunk packet: send id, offset and the bytes.
pub open spec fn spec_parse_chunk_body(s: Seq<u8>, i: int) -> Option<(int, int, Seq<u8>)> {
    match spec_expect_lit(s, i, lit_sid()) {
        None => None,
        Some(j) => match spec_parse_u64(s, j) {
            None => None,
            Some((v1, k)) => match spec_expect_lit(s, k, lit_offset()) {
                None => None,
                Some(j2) => match spec_parse_u64(s, j2) {
                    None => None,
                    Some((v2, k2)) => match spec_expect_lit(s, k2, lit_bytes()) {
                        None => None,
                        Some(j3) => match spec_parse_hex(s, j3) {
                            None => None,
                            Some((b, k3)) => match spec_expect_lit(s, k3, lit_qclose()) {
                                None => None,
                                Some(e) => if e == s.len() {
                                    Some((v1, v2, b))
                                } else {
                                    None
                                },
                            },
                        },
                    },
                },
            },
        },
    }
}

/// The body of a file announcement: name, size and send id.
pub open spec fn spec_parse_send_request_body(s: Seq<u8>, i: int) -> Option<(Seq<u8>, int, int)> {
    match spec_expect_lit(s, i, lit_fname()) {
        None => None,
        Some(j) => match spec_parse_str(s, j) {
            None => None,
            Some((name, k)) => match spec_expect_lit(s, k, lit_btotal()) {
                None => None,
                Some(j2) => match spec_parse_u64(s, j2) {
                    None => None,
                    Some((total, k2)) => match spec_expect_lit(s, k2, lit_sid_mid()) {
                        None => None,
                        Some(j3) => match spec_parse_u64(s, j3) {
                            None => None,
                            Some((sid, k3)) => match spec_expect_lit(s, k3, lit_close()) {
                                None => None,
                                Some(e) => if e == s.len() {
                                    Some((name, total, sid))
                                } else {
                                    None
                                },
                            },
                        },
                    },
                },
            },
        },
    }
}

/// The blob packet a full buffer holds, if it parses. Numbers above
/// `u64::MAX` are refused by the number parser.
pub open spec fn spec_parse_blob(s: Seq<u8>) -> Option<PacketModel> {
    match spec_expect_lit(s, 0, lit_open()) {
        None => None,
        Some(i1) => match spec_parse_str(s, i1) {
            None => None,
            Some((tag, i2)) => if tag == tag_send_request() {
                match spec_parse_send_request_body(s, i2) {
                    None => None,
                    Some((name, total, sid)) => Some(
                        PacketModel::SendRequest {
                            file_name: name,
                            bytes_total: total,
                            send_id: sid,
                        },
                    ),
                }
            } else if tag == tag_accept() {
                match spec_parse_one_num(s, i2, lit_sid()) {
                    None => None,
                    Some(v) => Some(PacketModel::Accept { send_id: v }),
                }
            } else if tag == tag_reject() {
                match spec_parse_one_num(s, i2, lit_sid()) {
                    None => None,
                    Some(v) => Some(PacketModel::Reject { send_id: v }),
                }
            } else if tag == tag_chunk() {
                match spec_parse_chunk_body(s, i2) {
                    None => None,
                    Some((sid, off, b)) => Some(
                        PacketModel::Chunk { send_id: sid, offset: off, bytes: b },
                    ),
                }
            } else if tag == tag_cancel() {
                match spec_parse_one_num(s, i2, lit_id()) {
                    None => None,
                    Some(v) => Some(PacketModel::Cancel { id: v }),
                }
            } else if tag == tag_ack() {
                match spec_parse_two_nums(s, i2) {
                    None => None,
                    Some((sid, off)) => Some(PacketModel::Ack { send_id: sid, offset: off }),
                }
            } else {
                None
            },
        },
    }
}

impl Packet {
    /// The JSON bytes of this packet.
    #[verifier::rlimit(100)]
    pub fn as_bytes(&self) -> (r: Vec<u8>)
        ensures
            r@ == spec_enc_blob(self@),
    {
        let mut out: Vec<u8> = Vec::new();
        let l_open = lit_open_vec();
        put_bytes(&mut out, &l_open);
        match self {
            Packet::SendRequest { file_name, bytes_total, send_id } => {
                let t = tag_send_request_vec();
                put_bytes(&mut out, &t);
                out.push('"' as u8);
                let l = lit_fname_vec();
                put_bytes(&mut out, &l);
                let e = enc_str(file_name);
                put_bytes(&mut out, &e);
                out.push('"' as u8);
                let l2 = lit_btotal_vec();
                put_bytes(&mut out, &l2);
                let d = enc_u64(*bytes_total);
                put_bytes(&mut out, &d);
                let l3 = lit_sid_mid_vec();
                put_bytes(&mut out, &l3);
                let d2 = enc_u64(*send_id);
                put_bytes(&mut out, &d2);
                let l4 = lit_close_vec();
                put_bytes(&mut out, &l4);
                proof {
                    assert(out@ =~= spec_enc_blob(self@));
                }
            },
            Packet::Accept { send_id } => {
                let t = tag_accept_vec();
                put_bytes(&mut out, &t);
                out.push('"' as u8);
                let l = lit_sid_vec();
                put_bytes(&mut out, &l);
                let d = enc_u64(*send_id);
                put_bytes(&mut out, &d);
                let l2 = lit_close_vec();
                put_bytes(&mut out, &l2);
                proof {
                    assert(out@ =~= spec_enc_blob(self@));
                }
            },
            Packet::Reject { send_id } => {
                let t = tag_reject_vec();
                put_bytes(&mut out, &t);
                out.push('"' as u8);
                let l = lit_sid_vec();
                put_bytes(&mut out, &l);
                let d = enc_u64(*send_id);
                put_bytes(&mut out, &d);
                let l2 = lit_close_vec();
                put_bytes(&mut out, &l2);
                proof {
                    assert(out@ =~= spec_enc_blob(self@));
                }
            },
            Packet::Chunk { send_id, offset, bytes } => {
                let t = tag_chunk_vec();
                put_bytes(&mut out, &t);
                out.push('"' as u8);
                let l = lit_sid_vec();
                put_bytes(&mut out, &l);
                let d = enc_u64(*send_id);
                put_bytes(&mut out, &d);
                let l2 = lit_offset_vec();
                put_bytes(&mut out, &l2);
                let d2 = enc_u64(*offset);
                put_bytes(&mut out, &d2);
                let l3 = lit_bytes_vec();
                put_bytes(&mut out, &l3);
                let h = enc_hex(bytes);
                put_bytes(&mut out, &h);
                let l4 = lit_qclose_vec();
                put_bytes(&mut out, &l4);
                proof {
                    assert(out@ =~= spec_enc_blob(self@));
                }
            },
            Packet::Cancel { id } => {
                let t = tag_cancel_vec();
                put_bytes(&mut out, &t);
                out.push('"' as u8);
                let l = lit_id_vec();
                put_bytes(&mut out, &l);
                let d = enc_u64(*id);
                put_bytes(&mut out, &d);
                let l2 = lit_close_vec();
                put_bytes(&mut out, &l2);
                proof {
                    assert(out@ =~= spec_enc_blob(self@));
                }
            },
            Packet::Ack { send_id, offset } => {
                let t = tag_ack_vec();
                put_bytes(&mut out, &t);
                out.push('"' as u8);
                let l = lit_sid_vec();
                put_bytes(&mut out, &l);
                let d = enc_u64(*send_id);
                put_bytes(&mut out, &d);
                let l2 = lit_offset_vec();
                put_bytes(&mut out, &l2);
                let d2 = enc_u64(*offset);
                put_bytes(&mut out, &d2);
                let l3 = lit_close_vec();
                put_bytes(&mut out, &l3);
                proof {
                    assert(out@ =~= spec_enc_blob(self@));
                }
            },
        }
        out
    }

    /// Read a blob packet back from JSON bytes; the whole buffer must be
    /// one packet.
    pub fn from_bytes(buf: &Vec<u8>) -> (r: Option<Packet>)
        ensures
            match r {
                Some(p) => spec_parse_blob(buf@) == Some(p@),
                None => spec_parse_blob(buf@) is None,
            },
    {
        let l_open = lit_open_vec();
        let i1 = match expect_lit(buf, 0, &l_open) {
            Some(i) => i,
            None => {
                return None;
            },
        };
        proof {
            assert(i1 <= buf@.len());
        }
        let (tag, i2) = match parse_str_at(buf, i1) {
            Some(v) => v,
            None => {
                return None;
            },
        };
        let t_sr = tag_send_request_vec();
        let t_acc = tag_accept_vec();
        let t_rej = tag_reject_vec();
        let t_chu = tag_chunk_vec();
        let t_can = tag_cancel_vec();
        let t_ack = tag_ack_vec();
        if bytes_eq(&tag, &t_sr) {
            let l = lit_fname_vec();
            let j = match expect_lit(buf, i2, &l) {
                Some(i) => i,
                None => {
                    return None;
                },
            };
            proof {
                assert(j <= buf@.len());
            }
            let (name, k) = match parse_str_at(buf, j) {
                Some(v) => v,
                None => {
                    return None;
                },
            };
            let l2 = lit_btotal_vec();
            let j2 = match expect_lit(buf, k, &l2) {
                Some(i) => i,
                None => {
                    return None;
                },
            };
            let (total, k2) = match parse_u64_at(buf, j2) {
                Some(v) => v,
                None => {
                    return None;
                },
            };
            let l3 = lit_sid_mid_vec();
            let j3 = match expect_lit(buf, k2, &l3) {
                Some(i) => i,
                None => {
                    return None;
                },
            };
            let (sid, k3) = match parse_u64_at(buf, j3) {
                Some(v) => v,
                None => {
                    return None;
                },
            };
            let l4 = lit_close_vec();
            let e = match expect_lit(buf, k3, &l4) {
                Some(i) => i,
                None => {
                    return None;
                },
            };
            if e != buf.len() {
                return None;
            }
            Some(Packet::SendRequest { file_name: name, bytes_total: total, send_id: sid })
        } else if bytes_eq(&tag, &t_acc) {
            match Self::parse_num_body(buf, i2, true) {
                Some(v) => Some(Packet::Accept { send_id: v }),
                None => None,
            }
        } else if bytes_eq(&tag, &t_rej) {
            match Self::parse_num_body(buf, i2, true) {
                Some(v) => Some(Packet::Reject { send_id: v }),
                None => None,
            }
        } else if bytes_eq(&tag, &t_chu) {
            let l = lit_sid_vec();
            let j = match expect_lit(buf, i2, &l) {
                Some(i) => i,
                None => {
                    return None;
                },
            };
            let (sid, k) = match parse_u64_at(buf, j) {
                Some(v) => v,
                None => {
                    return None;
                },
            };
            let l2 = lit_offset_vec();
            let j2 = match expect_lit(buf, k, &l2) {
                Some(i) => i,
                None => {
                    return None;
                },
            };
            let (off, k2) = match parse_u64_at(buf, j2) {
                Some(v) => v,
                None => {
                    return None;
                },
            };
            let l3 = lit_bytes_vec();
            let j3 = match expect_lit(buf, k2, &l3) {
                Some(i) => i,
                None => {
                    return None;
                },
            };
            proof {
                assert(j3 <= buf@.len());
            }
            let (b, k3) = match parse_hex_at(buf, j3) {
                Some(v) => v,
                None => {
                    return None;
                },
            };
            let l4 = lit_qclose_vec();
            let e = match expect_lit(buf, k3, &l4) {
                Some(i) => i,
                None => {
                    return None;
                },
            };
            if e != buf.len() {
                return None;
            }
            Some(Packet::Chunk { send_id: sid, offset: off, bytes: b })
        } else if bytes_eq(&tag, &t_can) {
            match Self::parse_num_body(buf, i2, false) {
                Some(v) => Some(Packet::Cancel { id: v }),
                None => None,
            }
        } else if bytes_eq(&tag, &t_ack) {
            let l = lit_sid_vec();
            let j = match expect_lit(buf, i2, &l) {
                Some(i) => i,
                None => {
                    return None;
                },
            };
            let (sid, k) = match parse_u64_at(buf, j) {
                Some(v) => v,
                None => {
                    return None;
                },
            };
            let l2 = lit_offset_vec();
            let j2 = match expect_lit(buf, k, &l2) {
                Some(i) => i,
                None => {
                    return None;
                },
            };
            let (off, k2) = match parse_u64_at(buf, j2) {
                Some(v) => v,
                None => {
                    return None;
                },
            };
            let l3 = lit_close_vec();
            let e = match expect_lit(buf, k2, &l3) {
                Some(i) => i,
                None => {
                    return None;
                },
            };
            if e != buf.len() {
                return None;
            }
            Some(Packet::Ack { send_id: sid, offset: off })
        } else {
            None
        }
    }

    /// Read a one-number body: the send id of an acceptance or refusal
    /// (`sid_head` set), or the id of a cancellation.
    fn parse_num_body(buf: &Vec<u8>, pos: usize, sid_head: bool) -> (r: Option<u64>)
        ensures
            match r {
                Some(v) => spec_parse_one_num(
                    buf@,
                    pos as int,
                    if sid_head {
                        lit_sid()
                    } else {
                        lit_id()
                    },
                ) == Some(v as int),
                None => spec_parse_one_num(
                    buf@,
                    pos as int,
                    if sid_head {
                        lit_sid()
                    } else {
                        lit_id()
                    },
                ) is None,
            },
    {
        let head = if sid_head {
            lit_sid_vec()
        } else {
            lit_id_vec()
        };
        let j = match expect_lit(buf, pos, &head) {
            Some(i) => i,
            None => {
                return None;
            },
        };
        let (v, k) = match parse_u64_at(buf, j) {
            Some(v) => v,
            None => {
                return None;
            },
        };
        let l = lit_close_vec();
        let e = match expect_lit(buf, k, &l) {
            Some(i) => i,
            None => {
                return None;
            },
        };
        if e != buf.len() {
            return None;
        }
        Some(v)
    }
}
/// The packet head parses back: the literal opens it and the tag reads
/// back as itself.
proof fn lemma_blob_head(s: Seq<u8>, tag: Seq<u8>)
    requires
        s.len() >= 3 + tag.len(),
        s.subrange(0, 2) =~= lit_open(),
        s.subrange(2, 2 + tag.len() as int) =~= tag,
        s[2 + tag.len() as int] == q_mark(),
        forall|k: int| 0 <= k < tag.len() ==> crate::codec::plain_byte(#[trigger] tag[k]),
    ensures
        spec_expect_lit(s, 0, lit_open()) == Some(2int),
        spec_parse_str(s, 2) == Some((tag, 3 + tag.len() as int)),
{
    lemma_expect_lit(s, 0, lit_open());
    lemma_esc_plain(tag);
    assert(s.subrange(2, 2 + esc(tag).len() as int) =~= esc(tag));
    lemma_parse_str_esc(s, 2, tag);
}

/// Every number a blob packet model holds fits in 64 bits.
pub open spec fn blob_model_bounds(m: PacketModel) -> bool {
    match m {
        PacketModel::SendRequest { file_name, bytes_total, send_id } => 0 <= bytes_total
            <= u64::MAX && 0 <= send_id <= u64::MAX,
        PacketModel::Accept { send_id } => 0 <= send_id <= u64::MAX,
        PacketModel::Reject { send_id } => 0 <= send_id <= u64::MAX,
        PacketModel::Chunk { send_id, offset, bytes } => 0 <= send_id <= u64::MAX && 0 <= offset
            <= u64::MAX,
        PacketModel::Cancel { id } => 0 <= id <= u64::MAX,
        PacketModel::Ack { send_id, offset } => 0 <= send_id <= u64::MAX && 0 <= offset
            <= u64::MAX,
    }
}

/// Writing this packet and reading the bytes back yields the packet.
#[verifier::rlimit(100)]
proof fn lemma_blob_rt_accept(v: int)
    requires
        0 <= v <= u64::MAX,
    ensures
        ({
            let m = PacketModel::Accept { send_id: v };
            spec_parse_blob(spec_enc_blob(m)) == Some(m)
        }),
{
    let m = PacketModel::Accept { send_id: v };
    let s = spec_enc_blob(m);
    let tl = tag_accept().len() as int;
    assert(s.subrange(0, 2) =~= lit_open());
    assert(s.subrange(2, 2 + tl) =~= tag_accept());
    assert(s[2 + tl] == q_mark());
    assert(forall|k: int| 0 <= k < tl ==> crate::codec::plain_byte(#[trigger] tag_accept()[k]));
    lemma_blob_head(s, tag_accept());
    assert(tag_accept().len() != tag_send_request().len());
    assert(tag_accept() != tag_send_request());
    let h = 3 + tl;
    let o1 = h + lit_sid().len() as int;
    let o2 = o1 + dec_digits(v).len() as int;
    let o3 = o2 + 2;
    assert(s.len() == o3);
    assert(s.subrange(h, o1) =~= lit_sid());
    assert(s.subrange(o1, o2) =~= dec_digits(v));
    assert(s.subrange(o2, o3) =~= lit_close());
    lemma_one_num_body(s, h, lit_sid(), v);
}


/// Writing this packet and reading the bytes back yields the packet.
#[verifier::rlimit(100)]
proof fn lemma_blob_rt_reject(v: int)
    requires
        0 <= v <= u64::MAX,
    ensures
        ({
            let m = PacketModel::Reject { send_id: v };
            spec_parse_blob(spec_enc_blob(m)) == Some(m)
        }),
{
    let m = PacketModel::Reject { send_id: v };
    let s = spec_enc_blob(m);
    let tl = tag_reject().len() as int;
    assert(s.subrange(0, 2) =~= lit_open());
    assert(s.subrange(2, 2 + tl) =~= tag_reject());
    assert(s[2 + tl] == q_mark());
    assert(forall|k: int| 0 <= k < tl ==> crate::codec::plain_byte(#[trigger] tag_reject()[k]));
    lemma_blob_head(s, tag_reject());
    assert(tag_reject().len() != tag_send_request().len());
    assert(tag_reject() != tag_send_request());
    assert(tag_reject()[0] != tag_accept()[0]);
    assert(tag_reject() != tag_accept());
    let h = 3 + tl;
    let o1 = h + lit_sid().len() as int;
    let o2 = o1 + dec_digits(v).len() as int;
    let o3 = o2 + 2;
    assert(s.len() == o3);
    assert(s.subrange(h, o1) =~= lit_sid());
    assert(s.subrange(o1, o2) =~= dec_digits(v));
    assert(s.subrange(o2, o3) =~= lit_close());
    lemma_one_num_body(s, h, lit_sid(), v);
}


/// Writing this packet and reading the bytes back yields the packet.
#[verifier::rlimit(100)]
proof fn lemma_blob_rt_cancel(v: int)
    requires
        0 <= v <= u64::MAX,
    ensures
        ({
            let m = PacketModel::Cancel { id: v };
            spec_parse_blob(spec_enc_blob(m)) == Some(m)
        }),
{
    let m = PacketModel::Cancel { id: v };
    let s = spec_enc_blob(m);
    let tl = tag_cancel().len() as int;
    assert(s.subrange(0, 2) =~= lit_open());
    assert(s.subrange(2, 2 + tl) =~= tag_cancel());
    assert(s[2 + tl] == q_mark());
    assert(forall|k: int| 0 <= k < tl ==> crate::codec::plain_byte(#[trigger] tag_cancel()[k]));
    lemma_blob_head(s, tag_cancel());
    assert(tag_cancel().len() != tag_send_request().len());
    assert(tag_cancel() != tag_send_request());
    assert(tag_cancel()[0] != tag_accept()[0]);
    assert(tag_cancel() != tag_accept());
    assert(tag_cancel()[0] != tag_reject()[0]);
    assert(tag_cancel() != tag_reject());
    assert(tag_cancel().len() != tag_chunk().len());
    assert(tag_cancel() != tag_chunk());
    let h = 3 + tl;
    let o1 = h + lit_id().len() as int;
    let o2 = o1 + dec_digits(v).len() as int;
    let o3 = o2 + 2;
    assert(s.len() == o3);
    assert(s.subrange(h, o1) =~= lit_id());
    assert(s.subrange(o1, o2) =~= dec_digits(v));
    assert(s.subrange(o2, o3) =~= lit_close());
    lemma_one_num_body(s, h, lit_id(), v);
}


/// A one-number body parses back to its number.
proof fn lemma_one_num_body(s: Seq<u8>, h: int, head: Seq<u8>, v: int)
    requires
        0 <= v <= u64::MAX,
        0 <= h,
        s.len() == h + head.len() + dec_digits(v).len() + 2,
        s.subrange(h, h + head.len() as int) =~= head,
        s.subrange(h + head.len() as int, h + head.len() + dec_digits(v).len()) =~= dec_digits(
            v,
        ),
        s.subrange(s.len() - 2, s.len() as int) =~= lit_close(),
    ensures
        spec_parse_one_num(s, h, head) == Some(v),
{
    let o1 = h + head.len() as int;
    let o2 = o1 + dec_digits(v).len() as int;
    let o3 = o2 + 2;
    lemma_expect_lit(s, h, head);
    assert(s[o2] == s.subrange(o2, o3)[0]);
    assert(s[o2] == '}' as u8);
    lemma_parse_u64_enc(s, o1, v);
    lemma_expect_lit(s, o2, lit_close());
}

/// A two-number body parses back to its numbers.
proof fn lemma_ack_body(s: Seq<u8>, h: int, sid: int, off: int)
    requires
        0 <= sid <= u64::MAX,
        0 <= off <= u64::MAX,
        0 <= h,
        s.len() == h + lit_sid().len() + dec_digits(sid).len() + lit_offset().len() + dec_digits(
            off,
        ).len() + 2,
        s.subrange(h, h + lit_sid().len() as int) =~= lit_sid(),
        s.subrange(
            h + lit_sid().len() as int,
            h + lit_sid().len() + dec_digits(sid).len(),
        ) =~= dec_digits(sid),
        s.subrange(
            h + lit_sid().len() + dec_digits(sid).len(),
            h + lit_sid().len() + dec_digits(sid).len() + lit_offset().len(),
        ) =~= lit_offset(),
        s.subrange(
            h + lit_sid().len() + dec_digits(sid).len() + lit_offset().len(),
            h + lit_sid().len() + dec_digits(sid).len() + lit_offset().len() + dec_digits(
                off,
            ).len(),
        ) =~= dec_digits(off),
        s.subrange(s.len() - 2, s.len() as int) =~= lit_close(),
    ensures
        spec_parse_two_nums(s, h) == Some((sid, off)),
{
    let o1 = h + lit_sid().len() as int;
    let o2 = o1 + dec_digits(sid).len() as int;
    let o3 = o2 + lit_offset().len() as int;
    let o4 = o3 + dec_digits(off).len() as int;
    let o5 = o4 + 2;
    lemma_expect_lit(s, h, lit_sid());
    assert(s[o2] == s.subrange(o2, o3)[0]);
    assert(s[o2] == ',' as u8);
    lemma_parse_u64_enc(s, o1, sid);
    lemma_expect_lit(s, o2, lit_offset());
    assert(s[o4] == s.subrange(o4, o5)[0]);
    assert(s[o4] == '}' as u8);
    lemma_parse_u64_enc(s, o3, off);
    lemma_expect_lit(s, o4, lit_close());
}

/// Writing this packet and reading the bytes back yields the packet.
#[verifier::rlimit(100)]
proof fn lemma_blob_rt_ack(sid: int, off: int)
    requires
        0 <= sid <= u64::MAX,
        0 <= off <= u64::MAX,
    ensures
        ({
            let m = PacketModel::Ack { send_id: sid, offset: off };
            spec_parse_blob(spec_enc_blob(m)) == Some(m)
        }),
{
    let m = PacketModel::Ack { send_id: sid, offset: off };
    let s = spec_enc_blob(m);
    let tl = tag_ack().len() as int;
    assert(s.subrange(0, 2) =~= lit_open());
    assert(s.subrange(2, 2 + tl) =~= tag_ack());
    assert(s[2 + tl] == q_mark());
    assert(forall|k: int| 0 <= k < tl ==> crate::codec::plain_byte(#[trigger] tag_ack()[k]));
    lemma_blob_head(s, tag_ack());
    assert(tag_ack().len() != tag_send_request().len());
    assert(tag_ack() != tag_send_request());
    assert(tag_ack().len() != tag_accept().len());
    assert(tag_ack() != tag_accept());
    assert(tag_ack().len() != tag_reject().len());
    assert(tag_ack() != tag_reject());
    assert(tag_ack().len() != tag_chunk().len());
    assert(tag_ack() != tag_chunk());
    assert(tag_ack().len() != tag_cancel().len());
    assert(tag_ack() != tag_cancel());
    let h = 3 + tl;
    let o1 = h + lit_sid().len() as int;
    let o2 = o1 + dec_digits(sid).len() as int;
    let o3 = o2 + lit_offset().len() as int;
    let o4 = o3 + dec_digits(off).len() as int;
    let o5 = o4 + 2;
    assert(s.len() == o5);
    assert(s.subrange(h, o1) =~= lit_sid());
    assert(s.subrange(o1, o2) =~= dec_digits(sid));
    assert(s.subrange(o2, o3) =~= lit_offset());
    assert(s.subrange(o3, o4) =~= dec_digits(off));
    assert(s.subrange(o4, o5) =~= lit_close());
    lemma_ack_body(s, h, sid, off);
}


/// A chunk body parses back to its numbers and bytes.
proof fn lemma_chunk_body(s: Seq<u8>, h: int, sid: int, off: int, bytes: Seq<u8>)
    requires
        0 <= sid <= u64::MAX,
        0 <= off <= u64::MAX,
        0 <= h,
        s.len() == h + lit_sid().len() + dec_digits(sid).len() + lit_offset().len() + dec_digits(
            off,
        ).len() + lit_bytes().len() + hex_enc(bytes).len() + 3,
        s.subrange(h, h + lit_sid().len() as int) =~= lit_sid(),
        s.subrange(
            h + lit_sid().len() as int,
            h + lit_sid().len() + dec_digits(sid).len(),
        ) =~= dec_digits(sid),
        s.subrange(
            h + lit_sid().len() + dec_digits(sid).len(),
            h + lit_sid().len() + dec_digits(sid).len() + lit_offset().len(),
        ) =~= lit_offset(),
        s.subrange(
            h + lit_sid().len() + dec_digits(sid).len() + lit_offset().len(),
            h + lit_sid().len() + dec_digits(sid).len() + lit_offset().len() + dec_digits(
                off,
            ).len(),
        ) =~= dec_digits(off),
        s.subrange(
            h + lit_sid().len() + dec_digits(sid).len() + lit_offset().len() + dec_digits(
                off,
            ).len(),
            h + lit_sid().len() + dec_digits(sid).len() + lit_offset().len() + dec_digits(
                off,
            ).len() + lit_bytes().len(),
        ) =~= lit_bytes(),
        s.subrange(
            s.len() - 3 - hex_enc(bytes).len(),
            s.len() - 3,
        ) =~= hex_enc(bytes),
        s.subrange(s.len() - 3, s.len() as int) =~= lit_qclose(),
    ensures
        spec_parse_chunk_body(s, h) == Some((sid, off, bytes)),
{
    let o1 = h + lit_sid().len() as int;
    let o2 = o1 + dec_digits(sid).len() as int;
    let o3 = o2 + lit_offset().len() as int;
    let o4 = o3 + dec_digits(off).len() as int;
    let o5 = o4 + lit_bytes().len() as int;
    let o6 = o5 + hex_enc(bytes).len() as int;
    let o7 = o6 + 3;
    lemma_expect_lit(s, h, lit_sid());
    assert(s[o2] == s.subrange(o2, o3)[0]);
    assert(s[o2] == ',' as u8);
    lemma_parse_u64_enc(s, o1, sid);
    lemma_expect_lit(s, o2, lit_offset());
    assert(s[o4] == s.subrange(o4, o5)[0]);
    assert(s[o4] == ',' as u8);
    lemma_parse_u64_enc(s, o3, off);
    lemma_expect_lit(s, o4, lit_bytes());
    assert(s[o6] == s.subrange(o6, o7)[0]);
    assert(s[o6] == '"' as u8);
    assert(!is_hex('"' as u8));
    lemma_parse_hex_enc(s, o5, bytes);
    lemma_expect_lit(s, o6, lit_qclose());
}

/// Writing this packet and reading the bytes back yields the packet.
#[verifier::rlimit(100)]
proof fn lemma_blob_rt_chunk(sid: int, off: int, bytes: Seq<u8>)
    requires
        0 <= sid <= u64::MAX,
        0 <= off <= u64::MAX,
    ensures
        ({
            let m = PacketModel::Chunk { send_id: sid, offset: off, bytes };
            spec_parse_blob(spec_enc_blob(m)) == Some(m)
        }),
{
    let m = PacketModel::Chunk { send_id: sid, offset: off, bytes };
    let s = spec_enc_blob(m);
    let tl = tag_chunk().len() as int;
    assert(s.subrange(0, 2) =~= lit_open());
    assert(s.subrange(2, 2 + tl) =~= tag_chunk());
    assert(s[2 + tl] == q_mark());
    assert(forall|k: int| 0 <= k < tl ==> crate::codec::plain_byte(#[trigger] tag_chunk()[k]));
    lemma_blob_head(s, tag_chunk());
    assert(tag_chunk().len() != tag_send_request().len());
    assert(tag_chunk() != tag_send_request());
    assert(tag_chunk().len() != tag_accept().len());
    assert(tag_chunk() != tag_accept());
    assert(tag_chunk().len() != tag_reject().len());
    assert(tag_chunk() != tag_reject());
    let h = 3 + tl;
    let o1 = h + lit_sid().len() as int;
    let o2 = o1 + dec_digits(sid).len() as int;
    let o3 = o2 + lit_offset().len() as int;
    let o4 = o3 + dec_digits(off).len() as int;
    let o5 = o4 + lit_bytes().len() as int;
    let o6 = o5 + hex_enc(bytes).len() as int;
    let o7 = o6 + 3;
    assert(s.len() == o7);
    assert(s.subrange(h, o1) =~= lit_sid());
    assert(s.subrange(o1, o2) =~= dec_digits(sid));
    assert(s.subrange(o2, o3) =~= lit_offset());
    assert(s.subrange(o3, o4) =~= dec_digits(off));
    assert(s.subrange(o4, o5) =~= lit_bytes());
    assert(s.subrange(o5, o6) =~= hex_enc(bytes));
    assert(s.subrange(o6, o7) =~= lit_qclose());
    lemma_chunk_body(s, h, sid, off, bytes);
}


/// A file announcement body parses back to its name, size and send id.
proof fn lemma_send_request_body(s: Seq<u8>, h: int, name: Seq<u8>, total: int, sid: int)
    requires
        0 <= total <= u64::MAX,
        0 <= sid <= u64::MAX,
        0 <= h,
        s.len() == h + lit_fname().len() + esc(name).len() + 1 + lit_btotal().len() + dec_digits(
            total,
        ).len() + lit_sid_mid().len() + dec_digits(sid).len() + 2,
        s.subrange(h, h + lit_fname().len() as int) =~= lit_fname(),
        s.subrange(
            h + lit_fname().len() as int,
            h + lit_fname().len() + esc(name).len(),
        ) =~= esc(name),
        s[h + lit_fname().len() + esc(name).len()] == q_mark(),
        s.subrange(
            h + lit_fname().len() + esc(name).len() + 1,
            h + lit_fname().len() + esc(name).len() + 1 + lit_btotal().len(),
        ) =~= lit_btotal(),
        s.subrange(
            h + lit_fname().len() + esc(name).len() + 1 + lit_btotal().len(),
            h + lit_fname().len() + esc(name).len() + 1 + lit_btotal().len() + dec_digits(
                total,
            ).len(),
        ) =~= dec_digits(total),
        s.subrange(
            s.len() - 2 - dec_digits(sid).len() - lit_sid_mid().len(),
            s.len() - 2 - dec_digits(sid).len(),
        ) =~= lit_sid_mid(),
        s.subrange(s.len() - 2 - dec_digits(sid).len(), s.len() - 2) =~= dec_digits(sid),
        s.subrange(s.len() - 2, s.len() as int) =~= lit_close(),
    ensures
        spec_parse_send_request_body(s, h) == Some((name, total, sid)),
{
    let o1 = h + lit_fname().len() as int;
    let o2 = o1 + esc(name).len() as int;
    let o3 = o2 + 1 + lit_btotal().len() as int;
    let o4 = o3 + dec_digits(total).len() as int;
    let o5 = o4 + lit_sid_mid().len() as int;
    let o6 = o5 + dec_digits(sid).len() as int;
    let o7 = o6 + 2;
    lemma_expect_lit(s, h, lit_fname());
    lemma_parse_str_esc(s, o1, name);
    lemma_expect_lit(s, o2 + 1, lit_btotal());
    assert(s[o4] == s.subrange(o4, o5)[0]);
    assert(s[o4] == ',' as u8);
    lemma_parse_u64_enc(s, o3, total);
    lemma_expect_lit(s, o4, lit_sid_mid());
    assert(s[o6] == s.subrange(o6, o7)[0]);
    assert(s[o6] == '}' as u8);
    lemma_parse_u64_enc(s, o5, sid);
    lemma_expect_lit(s, o6, lit_close());
}

/// Writing this packet and reading the bytes back yields the packet.
#[verifier::rlimit(100)]
proof fn lemma_blob_rt_send_request(name: Seq<u8>, total: int, sid: int)
    requires
        0 <= total <= u64::MAX,
        0 <= sid <= u64::MAX,
    ensures
        ({
            let m = PacketModel::SendRequest { file_name: name, bytes_total: total, send_id: sid };
            spec_parse_blob(spec_enc_blob(m)) == Some(m)
        }),
{
    let m = PacketModel::SendRequest { file_name: name, bytes_total: total, send_id: sid };
    let s = spec_enc_blob(m);
    let tl = tag_send_request().len() as int;
    assert(s.subrange(0, 2) =~= lit_open());
    assert(s.subrange(2, 2 + tl) =~= tag_send_request());
    assert(s[2 + tl] == q_mark());
    assert(forall|k: int| 0 <= k < tl ==> crate::codec::plain_byte(#[trigger] tag_send_request()[k]));
    lemma_blob_head(s, tag_send_request());
    let h = 3 + tl;
    let o1 = h + lit_fname().len() as int;
    let o2 = o1 + esc(name).len() as int;
    let o3 = o2 + 1 + lit_btotal().len() as int;
    let o4 = o3 + dec_digits(total).len() as int;
    let o5 = o4 + lit_sid_mid().len() as int;
    let o6 = o5 + dec_digits(sid).len() as int;
    let o7 = o6 + 2;
    assert(s.len() == o7);
    assert(s.subrange(h, o1) =~= lit_fname());
    assert(s.subrange(o1, o2) =~= esc(name));
    assert(s[o2] == q_mark());
    assert(s.subrange(o2 + 1, o3) =~= lit_btotal());
    assert(s.subrange(o3, o4) =~= dec_digits(total));
    assert(s.subrange(o4, o5) =~= lit_sid_mid());
    assert(s.subrange(o5, o6) =~= dec_digits(sid));
    assert(s.subrange(o6, o7) =~= lit_close());
    lemma_send_request_body(s, h, name, total, sid);
}


/// Writing any blob packet and reading the bytes back yields a packet
/// equal to the original.
pub proof fn lemma_blob_round_trip(m: PacketModel)
    requires
        blob_model_bounds(m),
    ensures
        spec_parse_blob(spec_enc_blob(m)) == Some(m),
{
    match m {
        PacketModel::SendRequest { file_name, bytes_total, send_id } => {
            lemma_blob_rt_send_request(file_name, bytes_total, send_id);
        },
        PacketModel::Accept { send_id } => {
            lemma_blob_rt_accept(send_id);
        },
        PacketModel::Reject { send_id } => {
            lemma_blob_rt_reject(send_id);
        },
        PacketModel::Chunk { send_id, offset, bytes } => {
            lemma_blob_rt_chunk(send_id, offset, bytes);
        },
        PacketModel::Cancel { id } => {
            lemma_blob_rt_cancel(id);
        },
        PacketModel::Ack { send_id, offset } => {
            lemma_blob_rt_ack(send_id, offset);
        },
    }
}

} // verus!
