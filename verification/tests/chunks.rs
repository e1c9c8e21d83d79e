use tunnelproto::error::ProtocolError;
use tunnelproto::message::{Message, MessageType};
use tunnelproto::reassembly::{split_frame, Reassembler, CHUNK_SIZE};

fn feed_in_chunks(frame: &[u8], sizes: &[usize]) -> Vec<Message> {
    let mut reassembler = Reassembler::new(1 << 20);
    let mut collected: Vec<Message> = Vec::new();
    let mut pos = 0;
    let mut i = 0;
    while pos < frame.len() {
        let take = sizes[i % sizes.len()].min(frame.len() - pos);
        let chunk = frame[pos..pos + take].to_vec();
        pos += take;
        i += 1;
        let mut msgs = reassembler.push(&chunk).expect("no fatal error expected");
        collected.append(&mut msgs);
    }
    collected
}

#[test]
fn chunked_delivery_is_boundary_independent() {
    let m = Message::new(MessageType::Data, 5, vec![0xAB; 1500]);
    let frame = m.encode();
    for sizes in [
        vec![1],
        vec![7],
        vec![38],
        vec![39],
        vec![512],
        vec![511, 513],
        vec![600],
        vec![frame.len()],
        vec![3, 512, 40],
    ] {
        let msgs = feed_in_chunks(&frame, &sizes);
        assert_eq!(msgs.len(), 1);
        assert_eq!(msgs[0], m);
    }
}

#[test]
fn split_frame_feeds_back_to_one_message() {
    let m = Message::new(MessageType::Data, 6, vec![0x5A; 1300]);
    let frame = m.encode();
    let chunks = split_frame(&frame);
    assert_eq!(chunks.len(), (frame.len() + CHUNK_SIZE - 1) / CHUNK_SIZE);
    let mut total = 0;
    let mut glued: Vec<u8> = Vec::new();
    for c in &chunks {
        assert!(!c.is_empty());
        assert!(c.len() <= CHUNK_SIZE);
        total += c.len();
        glued.extend_from_slice(c);
    }
    assert_eq!(total, frame.len());
    assert_eq!(glued, frame);
    let mut reassembler = Reassembler::new(1 << 20);
    let mut collected: Vec<Message> = Vec::new();
    for c in &chunks {
        let mut msgs = reassembler.push(c).expect("no fatal error expected");
        collected.append(&mut msgs);
    }
    assert_eq!(collected.len(), 1);
    assert_eq!(collected[0], m);
}

#[test]
fn split_frame_of_small_frame_is_one_chunk() {
    let m = Message::new(MessageType::Ping, 6, Vec::new());
    let frame = m.encode();
    let chunks = split_frame(&frame);
    assert_eq!(chunks.len(), 1);
    assert_eq!(chunks[0], frame);
}

#[test]
fn back_to_back_frames_in_one_read() {
    let m1 = Message::new(MessageType::Data, 1, vec![1, 2, 3]);
    let m2 = Message::new(MessageType::Close, 2, Vec::new());
    let mut buf = m1.encode();
    buf.extend_from_slice(&m2.encode());
    let mut reassembler = Reassembler::new(1 << 20);
    let msgs = reassembler.push(&buf).expect("no fatal error expected");
    assert_eq!(msgs.len(), 2);
    assert_eq!(msgs[0], m1);
    assert_eq!(msgs[1], m2);
}

#[test]
fn trailing_bytes_are_retained_for_next_frame() {
    let m1 = Message::new(MessageType::Data, 1, vec![4, 5, 6, 7]);
    let m2 = Message::new(MessageType::Ping, 1, Vec::new());
    let f1 = m1.encode();
    let f2 = m2.encode();
    let mut first_read = f1.clone();
    first_read.extend_from_slice(&f2[..10]);
    let mut reassembler = Reassembler::new(1 << 20);
    let msgs = reassembler.push(&first_read).expect("no fatal error expected");
    assert_eq!(msgs.len(), 1);
    assert_eq!(msgs[0], m1);
    let rest = f2[10..].to_vec();
    let msgs2 = reassembler.push(&rest).expect("no fatal error expected");
    assert_eq!(msgs2.len(), 1);
    assert_eq!(msgs2[0], m2);
}

#[test]
fn oversized_incomplete_frame_is_fatal() {
    let m = Message::new(MessageType::Data, 9, vec![0xCC; 400]);
    let frame = m.encode();
    let mut reassembler = Reassembler::new(100);
    let partial = frame[..150].to_vec();
    assert_eq!(reassembler.push(&partial), Err(ProtocolError::FrameTooLarge));
}

#[test]
fn complete_frame_within_bound_is_not_fatal() {
    let m = Message::new(MessageType::Data, 9, vec![0xCC; 400]);
    let frame = m.encode();
    let mut reassembler = Reassembler::new(100);
    let msgs = reassembler.push(&frame).expect("a fully arrived frame is drained");
    assert_eq!(msgs.len(), 1);
    assert_eq!(msgs[0], m);
}

#[test]
fn malformed_frame_poisons_the_stream() {
    let m = Message::new(MessageType::Data, 9, vec![1, 2]);
    let mut frame = m.encode();
    frame[1] = 0x07;
    let mut reassembler = Reassembler::new(1 << 20);
    assert_eq!(reassembler.push(&frame), Err(ProtocolError::InvalidVersion));
}

#[test]
fn good_frame_before_malformed_frame_is_lost_with_the_stream() {
    let m1 = Message::new(MessageType::Data, 1, vec![1]);
    let m2 = Message::new(MessageType::Data, 1, vec![2]);
    let mut buf = m1.encode();
    let mut bad = m2.encode();
    bad[2] = 0x55;
    buf.extend_from_slice(&bad);
    let mut reassembler = Reassembler::new(1 << 20);
    assert_eq!(reassembler.push(&buf), Err(ProtocolError::InvalidType));
}
