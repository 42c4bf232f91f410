use netlink_packet_sock_diag::{
    unix::{nlas::Nla, ShowFlags, UnixResponse, UnixResponseHeader},
    NetlinkHeader, NetlinkMessage, NetlinkPayload, SockDiagMessage,
};
use ttymon::socket::{peer_request, scan_replies, Scan};

fn encode(payload: NetlinkPayload<SockDiagMessage>) -> Vec<u8> {
    let mut packet = NetlinkMessage { header: NetlinkHeader::default(), payload };
    packet.finalize();
    let mut buf = vec![0; packet.buffer_len()];
    packet.serialize(&mut buf[..]);
    buf
}

fn response(nlas: Vec<Nla>) -> Vec<u8> {
    let header = UnixResponseHeader { kind: 1, state: 1, inode: 5, cookie: [0; 8] };
    let message = SockDiagMessage::UnixResponse(Box::new(UnixResponse { header, nlas: nlas.into() }));
    encode(NetlinkPayload::InnerMessage(message))
}

#[test]
fn request_asks_for_the_peer_of_the_inode() {
    let bytes = peer_request(77);
    assert_eq!(bytes.len(), 40);
    assert_eq!(&bytes[0..4], &40u32.to_ne_bytes());
    assert_eq!(&bytes[4..6], &20u16.to_ne_bytes());
    assert_eq!(bytes[16], 1);
    assert_eq!(&bytes[24..28], &77u32.to_ne_bytes());
    assert_eq!(&bytes[28..32], &ShowFlags::PEER.bits().to_ne_bytes());
    assert_eq!(&bytes[32..40], &[0xff; 8]);
}

#[test]
fn response_gives_the_peer() {
    assert_eq!(scan_replies(&response(vec![Nla::Peer(42)])), Scan::Peer(42));
}

#[test]
fn response_without_peer_gives_zero() {
    assert_eq!(scan_replies(&response(vec![])), Scan::Peer(0));
}

#[test]
fn noop_is_passed_over() {
    let mut bytes = encode(NetlinkPayload::Noop);
    bytes.extend(response(vec![Nla::Peer(9)]));
    assert_eq!(scan_replies(&bytes), Scan::Peer(9));
}

#[test]
fn done_fails_and_nothing_asks_for_more() {
    assert_eq!(scan_replies(&encode(NetlinkPayload::Done)), Scan::Failed);
    assert_eq!(scan_replies(&[]), Scan::More);
    assert_eq!(scan_replies(&[1, 2, 3]), Scan::Failed);
}
