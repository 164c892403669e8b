//! State-machine tests of the blob transfer behaviour: two nodes whose
//! packets are carried by hand, as the swarm task would.

use owlnest::blob::{
    Behaviour, CancellationError, Config, FileOpenOutcome, FileRecvError, FileSendError,
    FsErrorKind, Packet,
};
use owlnest::peer::PeerId;

fn pid(n: u8) -> PeerId {
    PeerId::new(vec![n])
}

/// A pair of connected nodes with small chunks.
fn setup_pair() -> (Behaviour, PeerId, Behaviour, PeerId) {
    let config = Config { timeout_ms: 20000, chunk_size: 4 };
    let mut a = Behaviour::new(config.clone());
    let mut b = Behaviour::new(config);
    let a_id = pid(1);
    let b_id = pid(2);
    a.on_peer_connected(&b_id);
    b.on_peer_connected(&a_id);
    (a, a_id, b, b_id)
}

/// Announce `data` from `a` to `b` and return both transfer ids.
fn announce(
    a: &mut Behaviour,
    a_id: &PeerId,
    b: &mut Behaviour,
    b_id: &PeerId,
    data: &[u8],
) -> (u64, u64) {
    let (send_id, packet) = a
        .send_file(b_id.clone(), b"file".to_vec(), FileOpenOutcome::Opened(data.len() as u64))
        .expect("the send starts");
    let (file_name, bytes_total, wire_send_id) = match packet {
        Packet::SendRequest { file_name, bytes_total, send_id } => {
            (file_name, bytes_total, send_id)
        },
        _ => panic!("expected an announcement"),
    };
    assert_eq!(wire_send_id, send_id);
    let recv_id = b
        .on_send_request(a_id.clone(), file_name, bytes_total, wire_send_id)
        .expect("the announcement is new");
    (send_id, recv_id)
}

#[test]
fn send_ids_strictly_increase() {
    let (mut a, _a_id, _b, b_id) = setup_pair();
    let mut last: Option<u64> = None;
    for _ in 0..4 {
        let (id, _) = a
            .send_file(b_id.clone(), b"f".to_vec(), FileOpenOutcome::Opened(1))
            .expect("the send starts");
        if let Some(prev) = last {
            assert!(id > prev);
        }
        last = Some(id);
    }
    let list = a.list_pending_send();
    assert_eq!(list.len(), 4);
    for i in 0..list.len() {
        for j in 0..list.len() {
            if i != j {
                assert_ne!(list[i].local_send_id, list[j].local_send_id);
            }
        }
    }
}

#[test]
fn sending_directory_fails_without_record() {
    let (mut a, _a_id, _b, b_id) = setup_pair();
    let r = a.send_file(b_id.clone(), b"dir".to_vec(), FileOpenOutcome::Directory);
    assert_eq!(r.unwrap_err(), FileSendError::IsDirectory);
    assert_eq!(a.list_pending_send().len(), 0);
    // The id counter did not move: the next send takes id 0.
    let (id, _) = a
        .send_file(b_id.clone(), b"f".to_vec(), FileOpenOutcome::Opened(1))
        .expect("the send starts");
    assert_eq!(id, 0);
}

#[test]
fn sending_to_unconnected_peer_fails() {
    let config = Config { timeout_ms: 20000, chunk_size: 4 };
    let mut a = Behaviour::new(config);
    let r = a.send_file(pid(9), b"f".to_vec(), FileOpenOutcome::Opened(1));
    assert_eq!(r.unwrap_err(), FileSendError::PeerNotFound);
}

#[test]
fn accepting_existing_file_leaves_transfer_pending() {
    let (mut a, a_id, mut b, b_id) = setup_pair();
    let (_send_id, recv_id) = announce(&mut a, &a_id, &mut b, &b_id, b"hello");
    let r = b.accept_file(recv_id, Some((b"dest".to_vec(), FsErrorKind::AlreadyExists)));
    match r {
        Err(FileRecvError::FsError { path, kind }) => {
            assert_eq!(path, b"dest".to_vec());
            assert_eq!(kind, FsErrorKind::AlreadyExists);
        },
        _ => panic!("expected the filesystem error"),
    }
    // The receive is still pending and can be accepted into a fresh path.
    assert_eq!(b.list_pending_recv().len(), 1);
    assert!(b.accept_file(recv_id, None).is_ok());
}

#[test]
fn accepting_unknown_recv_id_fails() {
    let (_a, _a_id, mut b, _b_id) = setup_pair();
    let r = b.accept_file(42, None);
    assert!(matches!(r, Err(FileRecvError::UnknownRecvId)));
}

#[test]
fn single_send_recv() {
    let (mut a, a_id, mut b, b_id) = setup_pair();
    let source: Vec<u8> = (0u8..23).collect();
    let (send_id, recv_id) = announce(&mut a, &a_id, &mut b, &b_id, &source);
    assert_eq!(a.list_pending_send().len(), 1);
    assert_eq!(b.list_pending_recv().len(), 1);
    // b accepts; the packet reaches a and streaming begins.
    let (_to, accept_packet) = b.accept_file(recv_id, None).expect("the accept succeeds");
    match accept_packet {
        Packet::Accept { send_id: sid } => assert_eq!(sid, send_id),
        _ => panic!("expected an acceptance"),
    }
    assert!(a.on_accept(&b_id, send_id));
    // Chunks flow one at a time, each acknowledged before the next.
    let mut dest: Vec<u8> = Vec::new();
    loop {
        let (offset, len) = match a.next_chunk(send_id) {
            Some(v) => v,
            None => break,
        };
        let chunk = source[offset as usize..(offset + len) as usize].to_vec();
        let packet = a.chunk_out(send_id, chunk).expect("the chunk goes out");
        let (wire_sid, wire_off, wire_bytes) = match packet {
            Packet::Chunk { send_id, offset, bytes } => (send_id, offset, bytes),
            _ => panic!("expected a chunk"),
        };
        assert_eq!(wire_sid, send_id);
        assert_eq!(wire_off as usize, dest.len());
        let (write, ack) = b
            .on_chunk(&a_id, wire_sid, wire_off, wire_bytes)
            .expect("the chunk is expected");
        assert_eq!(write.offset as usize, dest.len());
        dest.extend_from_slice(&write.bytes);
        match ack {
            Packet::Ack { send_id: sid, offset } => {
                assert_eq!(sid, send_id);
                a.on_ack(&b_id, sid, offset);
            },
            _ => panic!("expected an acknowledgement"),
        }
    }
    // The bytes written at the receiver equal the source exactly, and
    // both records have died on completion.
    assert_eq!(dest, source);
    assert_eq!(a.list_pending_send().len(), 0);
    assert_eq!(b.list_pending_recv().len(), 0);
}

#[test]
fn cancel_single_send() {
    let (mut a, a_id, mut b, b_id) = setup_pair();
    let (send_id, _recv_id) = announce(&mut a, &a_id, &mut b, &b_id, b"data");
    assert_eq!(b.list_pending_recv().len(), 1);
    let (_to, packet) = a.cancel_send(send_id).expect("the send exists");
    match packet {
        Packet::Cancel { id } => b.on_remote_cancel_recv(&a_id, id),
        _ => panic!("expected a cancellation"),
    }
    assert_eq!(a.list_pending_send().len(), 0);
    assert_eq!(b.list_pending_recv().len(), 0);
}

#[test]
fn cancel_single_send_in_multiple() {
    let (mut a, a_id, mut b, b_id) = setup_pair();
    for _ in 0..4 {
        announce(&mut a, &a_id, &mut b, &b_id, b"data");
    }
    assert_eq!(b.list_pending_recv().len(), 4);
    let (_to, packet) = a.cancel_send(2).expect("the send exists");
    match packet {
        Packet::Cancel { id } => b.on_remote_cancel_recv(&a_id, id),
        _ => panic!("expected a cancellation"),
    }
    assert_eq!(b.list_pending_recv().len(), 3);
    assert!(!b.list_pending_recv().iter().any(|v| v.local_recv_id == 2));
    assert_eq!(a.list_pending_send().len(), 3);
    assert!(!a.list_pending_send().iter().any(|v| v.local_send_id == 2));
}

#[test]
fn cancel_single_recv() {
    let (mut a, a_id, mut b, b_id) = setup_pair();
    let (_send_id, recv_id) = announce(&mut a, &a_id, &mut b, &b_id, b"data");
    let (_to, packet) = b.cancel_recv(recv_id).expect("the receive exists");
    match packet {
        Packet::Cancel { id } => a.on_remote_cancel_send(&b_id, id),
        _ => panic!("expected a cancellation"),
    }
    assert_eq!(a.list_pending_send().len(), 0);
    assert_eq!(b.list_pending_recv().len(), 0);
}

#[test]
fn cancel_single_recv_in_multiple() {
    let (mut a, a_id, mut b, b_id) = setup_pair();
    for _ in 0..4 {
        announce(&mut a, &a_id, &mut b, &b_id, b"data");
    }
    assert_eq!(a.list_pending_send().len(), 4);
    let (_to, packet) = b.cancel_recv(2).expect("the receive exists");
    match packet {
        Packet::Cancel { id } => a.on_remote_cancel_send(&b_id, id),
        _ => panic!("expected a cancellation"),
    }
    assert_eq!(a.list_pending_send().len(), 3);
    assert!(!a.list_pending_send().iter().any(|v| v.local_send_id == 2));
    assert_eq!(b.list_pending_recv().len(), 3);
    assert!(!b.list_pending_recv().iter().any(|v| v.local_recv_id == 2));
}

#[test]
fn cancelling_unknown_ids_fails() {
    let (mut a, _a_id, mut b, _b_id) = setup_pair();
    assert_eq!(a.cancel_send(0).unwrap_err(), CancellationError::UnknownId);
    assert_eq!(b.cancel_recv(0).unwrap_err(), CancellationError::UnknownId);
}

#[test]
fn cancelled_send_emits_no_more_chunks() {
    let (mut a, a_id, mut b, b_id) = setup_pair();
    let (send_id, recv_id) = announce(&mut a, &a_id, &mut b, &b_id, b"0123456789");
    let _ = b.accept_file(recv_id, None).expect("the accept succeeds");
    assert!(a.on_accept(&b_id, send_id));
    let _ = a.cancel_send(send_id).expect("the send exists");
    assert!(a.next_chunk(send_id).is_none());
    assert!(a.chunk_out(send_id, vec![0, 1, 2, 3]).is_none());
}

#[test]
fn connection_closed_drops_transfers() {
    let (mut a, a_id, mut b, b_id) = setup_pair();
    announce(&mut a, &a_id, &mut b, &b_id, b"data");
    announce(&mut a, &a_id, &mut b, &b_id, b"data");
    a.on_connection_closed(&b_id, 0);
    b.on_connection_closed(&a_id, 0);
    assert_eq!(a.list_pending_send().len(), 0);
    assert_eq!(b.list_pending_recv().len(), 0);
}

#[test]
fn duplicate_announcement_is_ignored() {
    let (mut a, a_id, mut b, b_id) = setup_pair();
    let (send_id, _recv_id) = announce(&mut a, &a_id, &mut b, &b_id, b"data");
    assert!(b.on_send_request(a_id.clone(), b"file".to_vec(), 4, send_id).is_none());
    assert_eq!(b.list_pending_recv().len(), 1);
}

#[test]
fn multi_send_recv() {
    // Several transfers, both directions, on the same pair.
    let (mut a, a_id, mut b, b_id) = setup_pair();
    for round in 0..3 {
        let source: Vec<u8> = (0u8..50).map(|i| i.wrapping_mul(round + 1)).collect();
        let (send_id, recv_id) = announce(&mut a, &a_id, &mut b, &b_id, &source);
        let _ = b.accept_file(recv_id, None).expect("the accept succeeds");
        assert!(a.on_accept(&b_id, send_id));
        let mut dest: Vec<u8> = Vec::new();
        while let Some((offset, len)) = a.next_chunk(send_id) {
            let chunk = source[offset as usize..(offset + len) as usize].to_vec();
            let packet = a.chunk_out(send_id, chunk).expect("the chunk goes out");
            if let Packet::Chunk { send_id: sid, offset, bytes } = packet {
                let (write, ack) = b.on_chunk(&a_id, sid, offset, bytes).expect("expected");
                dest.extend_from_slice(&write.bytes);
                if let Packet::Ack { send_id: sid, offset } = ack {
                    a.on_ack(&b_id, sid, offset);
                }
            }
        }
        assert_eq!(dest, source);
    }
    // And one the other way.
    let source: Vec<u8> = (0u8..9).collect();
    let (send_id, recv_id) = announce(&mut b, &b_id, &mut a, &a_id, &source);
    let _ = a.accept_file(recv_id, None).expect("the accept succeeds");
    assert!(b.on_accept(&a_id, send_id));
    let mut dest: Vec<u8> = Vec::new();
    while let Some((offset, len)) = b.next_chunk(send_id) {
        let chunk = source[offset as usize..(offset + len) as usize].to_vec();
        if let Some(Packet::Chunk { send_id: sid, offset, bytes }) = b.chunk_out(send_id, chunk)
        {
            let (write, ack) = a.on_chunk(&b_id, sid, offset, bytes).expect("expected");
            dest.extend_from_slice(&write.bytes);
            if let Packet::Ack { send_id: sid, offset } = ack {
                b.on_ack(&a_id, sid, offset);
            }
        }
    }
    assert_eq!(dest, source);
    assert_eq!(a.list_pending_recv().len(), 0);
    assert_eq!(b.list_pending_send().len(), 0);
}

#[test]
fn rejected_send_is_dropped() {
    let (mut a, a_id, mut b, b_id) = setup_pair();
    let (send_id, _recv_id) = announce(&mut a, &a_id, &mut b, &b_id, b"data");
    // The remote refuses: the sender treats it as a remote cancellation.
    a.on_remote_cancel_send(&b_id, send_id);
    assert_eq!(a.list_pending_send().len(), 0);
    assert!(a.next_chunk(send_id).is_none());
}

#[test]
fn accepting_remote_unknown_send_is_ignored() {
    let (mut a, _a_id, _b, b_id) = setup_pair();
    assert!(!a.on_accept(&b_id, 77));
}

#[test]
fn stop_and_wait_gates_chunks() {
    let (mut a, a_id, mut b, b_id) = setup_pair();
    let source: Vec<u8> = (0u8..10).collect();
    let (send_id, recv_id) = announce(&mut a, &a_id, &mut b, &b_id, &source);
    let _ = b.accept_file(recv_id, None).expect("the accept succeeds");
    assert!(a.on_accept(&b_id, send_id));
    // The first chunk goes out; a second cannot until the first is
    // acknowledged.
    let (offset, len) = a.next_chunk(send_id).expect("the first chunk is due");
    assert_eq!(offset, 0);
    let chunk = source[..len as usize].to_vec();
    let packet = a.chunk_out(send_id, chunk.clone()).expect("the chunk goes out");
    assert!(a.next_chunk(send_id).is_none());
    assert!(a.chunk_out(send_id, source[len as usize..2 * len as usize].to_vec()).is_none());
    // The acknowledgement releases the next chunk.
    if let Packet::Chunk { send_id: sid, offset, bytes } = packet {
        let (_write, ack) = b.on_chunk(&a_id, sid, offset, bytes).expect("expected");
        if let Packet::Ack { send_id: sid, offset } = ack {
            a.on_ack(&b_id, sid, offset);
        }
    }
    let (offset2, _len2) = a.next_chunk(send_id).expect("the next chunk is due");
    assert_eq!(offset2, len);
}
