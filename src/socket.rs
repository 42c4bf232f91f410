// The SOCK_DIAG query for the peer of a unix socket: the request is encoded
// and the replies decoded with the netlink crates; which reply answers the
// query is decided here. Sending and receiving are left to the caller.
use netlink_packet_sock_diag::{
    constants::NLM_F_REQUEST,
    unix::{nlas::Nla, ShowFlags, StateFlags, UnixRequest},
    NetlinkHeader, NetlinkMessage, NetlinkPayload, SockDiagMessage,
};
use vstd::prelude::*;
use vstd::slice::slice_subrange;

verus! {

/// A netlink message, as far as the peer query reads it.
pub enum Reply {
    Noop,
    Ack,
    /// A unix socket's description: one entry per attribute, `Some(inode)`
    /// for its peer and `None` for any other attribute.
    UnixResponse(Vec<Option<u32>>),
    OtherMessage,
    Done,
    Error(i32),
    Overrun,
}

pub enum ReplyModel {
    Noop,
    Ack,
    UnixResponse(Seq<Option<u32>>),
    OtherMessage,
    Done,
    Error(i32),
    Overrun,
}

impl View for Reply {
    type V = ReplyModel;

    open spec fn view(&self) -> ReplyModel {
        match self {
            Reply::Noop => ReplyModel::Noop,
            Reply::Ack => ReplyModel::Ack,
            Reply::UnixResponse(a) => ReplyModel::UnixResponse(a@),
            Reply::OtherMessage => ReplyModel::OtherMessage,
            Reply::Done => ReplyModel::Done,
            Reply::Error(c) => ReplyModel::Error(*c),
            Reply::Overrun => ReplyModel::Overrun,
        }
    }
}

/// The bytes of a SOCK_DIAG request for the unix socket `inode`, asking for
/// its peer.
pub uninterp spec fn sock_diag_peer_request(inode: u32) -> Seq<u8>;

/// The message at the start of `b`: the length from its header, and what it
/// carries; `None` where it cannot be decoded.
pub uninterp spec fn sock_diag_reply(b: Seq<u8>) -> Option<(nat, ReplyModel)>;

/// Relies on `NetlinkMessage::finalize` and `NetlinkMessage::serialize`: the
/// encoded request, in a buffer of the length that its header gives.
#[verifier::external_body]
fn encode_peer_request(inode: u32) -> (r: Vec<u8>)
    ensures
        r@ == sock_diag_peer_request(inode),
{
    let header = NetlinkHeader { flags: NLM_F_REQUEST, ..Default::default() };
    let (state_flags, show_flags, cookie) = (StateFlags::all(), ShowFlags::PEER, [0xff; 8]);
    let request = UnixRequest { state_flags, inode, show_flags, cookie };
    let payload = SockDiagMessage::UnixRequest(request).into();
    let mut packet = NetlinkMessage { header, payload };
    packet.finalize();
    let mut buf = vec![0; packet.header.length as usize];
    packet.serialize(&mut buf[..]);
    buf
}

/// Relies on `NetlinkMessage::<SockDiagMessage>::deserialize`: the message at
/// the start of the buffer, with the length from its header.
#[verifier::external_body]
fn decode_reply(b: &[u8]) -> (r: Option<(u32, Reply)>)
    ensures
        r matches Some((len, rep)) ==> sock_diag_reply(b@) == Some((len as nat, rep@)),
        r is None ==> sock_diag_reply(b@) is None,
{
    let m = NetlinkMessage::<SockDiagMessage>::deserialize(b).ok()?;
    let reply = match m.payload {
        NetlinkPayload::Noop => Reply::Noop,
        NetlinkPayload::Ack(_) => Reply::Ack,
        NetlinkPayload::InnerMessage(SockDiagMessage::UnixResponse(u)) => Reply::UnixResponse(
            u.nlas.into_iter().map(|n| if let Nla::Peer(x) = n { Some(x) } else { None }).collect(),
        ),
        NetlinkPayload::InnerMessage(_) => Reply::OtherMessage,
        NetlinkPayload::Done => Reply::Done,
        NetlinkPayload::Error(e) => Reply::Error(e.code),
        NetlinkPayload::Overrun(_) => Reply::Overrun,
    };
    Some((m.header.length, reply))
}

/// The request that asks the kernel for the peer of unix socket `socket_ino`.
pub fn peer_request(socket_ino: u32) -> (r: Vec<u8>)
    ensures
        r@ == sock_diag_peer_request(socket_ino),
{
    encode_peer_request(socket_ino)
}

/// What a batch of replies says of the query.
#[derive(PartialEq, Eq, Structural, Clone, Copy, Debug)]
pub enum Scan {
    /// The peer's inode; zero when the socket has none.
    Peer(u32),
    /// The kernel answered with something else, or an error.
    Failed,
    /// Nothing decisive yet: receive more.
    More,
}

/// The peer named by a socket's attributes: the last peer attribute, or zero.
pub open spec fn peer_of(attrs: Seq<Option<u32>>) -> u32
    decreases attrs.len(),
{
    if attrs.len() == 0 {
        0
    } else if attrs.last() is Some {
        attrs.last()->0
    } else {
        peer_of(attrs.drop_last())
    }
}

/// Reading the messages of `buf` from `offset` on: no-ops and
/// acknowledgements are passed over, a unix socket description answers, and
/// anything else fails.
pub open spec fn scan_spec(buf: Seq<u8>, offset: nat) -> Scan
    decreases buf.len() - offset,
{
    if offset >= buf.len() {
        Scan::More
    } else {
        match sock_diag_reply(buf.skip(offset as int)) {
            None => Scan::Failed,
            Some((len, rep)) => match rep {
                ReplyModel::Noop | ReplyModel::Ack => if len == 0 || offset + len >= buf.len() {
                    Scan::More
                } else {
                    scan_spec(buf, offset + len)
                },
                ReplyModel::UnixResponse(attrs) => Scan::Peer(peer_of(attrs)),
                _ => Scan::Failed,
            },
        }
    }
}

fn peer_attribute(attrs: &Vec<Option<u32>>) -> (r: u32)
    ensures
        r == peer_of(attrs@),
{
    let mut i: usize = attrs.len();
    assert(attrs@.take(i as int) =~= attrs@);
    while i > 0
        invariant
            i <= attrs@.len(),
            peer_of(attrs@) == peer_of(attrs@.take(i as int)),
        decreases i,
    {
        assert(attrs@.take(i as int).drop_last() =~= attrs@.take(i as int - 1));
        if let Some(p) = attrs[i - 1] {
            return p;
        }
        i = i - 1;
    }
    0
}

/// Reads the replies received in one batch.
pub fn scan_replies(buf: &[u8]) -> (r: Scan)
    ensures
        r == scan_spec(buf@, 0),
{
    let mut offset: usize = 0;
    while offset < buf.len()
        invariant
            offset <= buf@.len(),
            scan_spec(buf@, 0) == scan_spec(buf@, offset as nat),
        decreases buf@.len() - offset,
    {
        let rest = slice_subrange(buf, offset, buf.len());
        assert(rest@ =~= buf@.skip(offset as int));
        match decode_reply(rest) {
            None => return Scan::Failed,
            Some((len, reply)) => match reply {
                Reply::Noop | Reply::Ack => {
                    if len == 0 {
                        return Scan::More;
                    }
                    if len as usize >= buf.len() - offset {
                        return Scan::More;
                    }
                    offset = offset + len as usize;
                },
                Reply::UnixResponse(attrs) => return Scan::Peer(peer_attribute(&attrs)),
                _ => return Scan::Failed,
            },
        }
    }
    Scan::More
}

} // verus!
