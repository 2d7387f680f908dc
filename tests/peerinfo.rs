use gnunet::error::{NextPeerError, ReadMessageError};
use gnunet::framing::{read_message, write_message, ByteReader};
use gnunet::peerinfo::{
    iterate_peers, PeerIdentity, Peers, MESSAGE_TYPE_PEERINFO_INFO, MESSAGE_TYPE_PEERINFO_INFO_END,
};

fn frame(tpe: u16, payload: &[u8]) -> Vec<u8> {
    let total = (payload.len() + 4) as u16;
    let mut v = vec![(total >> 8) as u8, total as u8, (tpe >> 8) as u8, tpe as u8];
    v.extend_from_slice(payload);
    v
}

fn identity_bytes(i: u8) -> Vec<u8> {
    (0..32).map(|j| i.wrapping_mul(31).wrapping_add(j)).collect()
}

fn item(i: u8, hello: &[u8]) -> Vec<u8> {
    let mut p = vec![0u8, 0, 0, 0];
    p.extend(identity_bytes(i));
    p.extend_from_slice(hello);
    frame(MESSAGE_TYPE_PEERINFO_INFO, &p)
}

fn listing(stream: Vec<u8>) -> Peers {
    let mut out = Vec::new();
    iterate_peers(&mut out, ByteReader::new(stream))
}

fn items_then_end(n: u8) {
    let mut stream = Vec::new();
    for i in 0..n {
        stream.extend(item(i, &[]));
    }
    stream.extend(frame(MESSAGE_TYPE_PEERINFO_INFO_END, &[]));
    let mut peers = listing(stream);
    for i in 0..n {
        match peers.next() {
            Some(Ok((id, hello))) => {
                assert_eq!(id.as_bytes(), &identity_bytes(i));
                assert!(hello.is_none());
            }
            other => panic!("unexpected {:?}", other),
        }
    }
    assert!(peers.next().is_none());
    assert!(peers.next().is_none());
}

#[test]
fn no_items_then_end() {
    items_then_end(0);
}

#[test]
fn one_item_then_end() {
    items_then_end(1);
}

#[test]
fn five_items_then_end() {
    items_then_end(5);
}

#[test]
fn two_items_then_disconnect() {
    let mut stream = item(1, &[]);
    stream.extend(item(2, &[]));
    let mut peers = listing(stream);
    assert!(matches!(peers.next(), Some(Ok(_))));
    assert!(matches!(peers.next(), Some(Ok(_))));
    assert_eq!(peers.next().unwrap().unwrap_err(), NextPeerError::Disconnected);
    assert!(peers.next().is_none());
}

#[test]
fn unexpected_message_type_ends_listing() {
    let mut stream = frame(0xFFFF, &[1, 2, 3]);
    stream.extend(item(1, &[]));
    let mut peers = listing(stream);
    assert_eq!(peers.next().unwrap().unwrap_err(), NextPeerError::UnexpectedMessageType(0xFFFF));
    assert!(peers.next().is_none());
}

#[test]
fn item_with_hello_keeps_its_bytes() {
    let mut peers = listing(item(3, &[9, 8, 7]));
    let (id, hello) = peers.next().unwrap().unwrap();
    assert_eq!(id.as_bytes(), &identity_bytes(3));
    assert_eq!(hello.unwrap().bytes, vec![9, 8, 7]);
}

#[test]
fn nonzero_reserved_field_is_invalid() {
    let mut p = vec![0u8, 0, 0, 1];
    p.extend(identity_bytes(0));
    let mut peers = listing(frame(MESSAGE_TYPE_PEERINFO_INFO, &p));
    assert_eq!(peers.next().unwrap().unwrap_err(), NextPeerError::InvalidResponse);
    assert!(peers.next().is_none());
}

#[test]
fn short_item_is_io_error() {
    let mut p = vec![0u8, 0, 0, 0];
    p.extend(&identity_bytes(0)[..20]);
    let mut peers = listing(frame(MESSAGE_TYPE_PEERINFO_INFO, &p));
    match peers.next() {
        Some(Err(NextPeerError::Io(e))) => assert_eq!(e.description, "failed to fill whole buffer"),
        other => panic!("unexpected {:?}", other),
    }
    let mut peers = listing(frame(MESSAGE_TYPE_PEERINFO_INFO, &[0, 0]));
    assert_eq!(peers.next().unwrap().unwrap_err(), NextPeerError::Disconnected);
}

#[test]
fn truncated_frame_is_read_error() {
    let mut stream = item(1, &[]);
    stream.truncate(10);
    let mut peers = listing(stream);
    assert_eq!(
        peers.next().unwrap().unwrap_err(),
        NextPeerError::ReadMessage(ReadMessageError::Truncated)
    );
    assert!(peers.next().is_none());
}

#[test]
fn iterate_peers_sends_get_all_request() {
    let mut out = vec![0xaa];
    let _ = iterate_peers(&mut out, ByteReader::new(Vec::new()));
    assert_eq!(out, vec![0xaa, 0, 8, 0x01, 0x4b, 0, 0, 0, 0]);
}

#[test]
fn read_message_outcomes() {
    let mut r = ByteReader::new(Vec::new());
    assert_eq!(read_message(&mut r).unwrap_err(), ReadMessageError::Disconnected);
    let mut r = ByteReader::new(vec![0, 8, 0]);
    assert_eq!(read_message(&mut r).unwrap_err(), ReadMessageError::Truncated);
    let mut r = ByteReader::new(vec![0, 2, 0, 1]);
    assert_eq!(read_message(&mut r).unwrap_err(), ReadMessageError::ShortMessage(2));
    let mut r = ByteReader::new(vec![0, 6, 1, 2, 7, 8, 0, 4, 0, 9]);
    let (t, mut p) = read_message(&mut r).unwrap();
    assert_eq!(t, 0x0102);
    assert_eq!(p.read_to_end(), vec![7, 8]);
    let (t, p) = read_message(&mut r).unwrap();
    assert_eq!(t, 9);
    assert_eq!(p.remaining(), 0);
    assert_eq!(read_message(&mut r).unwrap_err(), ReadMessageError::Disconnected);
}

#[test]
fn message_writer_checks_length() {
    let mut mw = write_message(8, 0x0102);
    mw.write_u32(0x0a0b0c0d);
    let mut out = Vec::new();
    assert!(mw.send(&mut out).is_ok());
    assert_eq!(out, vec![0, 8, 1, 2, 0x0a, 0x0b, 0x0c, 0x0d]);
    let mut mw = write_message(9, 1);
    mw.write_all(&vec![1, 2]);
    let mut out = Vec::new();
    let e = mw.send(&mut out).unwrap_err();
    assert_eq!((e.announced, e.actual), (9, 6));
    assert!(out.is_empty());
}

#[test]
fn peer_identity_text_and_bytes() {
    let id = PeerIdentity::deserialize(&mut ByteReader::new(vec![0xff; 32])).unwrap();
    let s = id.to_string();
    assert_eq!(s, format!("{}G", "Z".repeat(51)));
    let back = PeerIdentity::from_str(&s).unwrap();
    assert_eq!(back.as_bytes(), &vec![0xff; 32]);
    let mut w = vec![1];
    back.serialize(&mut w);
    assert_eq!(w.len(), 33);
    assert!(PeerIdentity::from_str(&s[1..]).is_err());
    assert!(PeerIdentity::from_str(&format!("{}O", &s[..51])).is_err());
}

#[test]
fn peer_identity_short_read_reads_nothing() {
    let mut r = ByteReader::new(vec![1; 31]);
    let e = PeerIdentity::deserialize(&mut r).unwrap_err();
    assert_eq!(e.description, "failed to fill whole buffer");
    assert_eq!(r.remaining(), 31);
}
