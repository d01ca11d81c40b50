//! The UDP tracker wire format: the datagrams a session sends, and what a
//! received datagram decodes to.
//!
//! Encoding and decoding are done by `bip_utracker`; hashing by `bip_util`.
//! The functions that call them are the only trusted items of this module.
//! Each one states, over the spec functions below, what the outside code is
//! relied on to do.

use vstd::prelude::*;

use bip_utracker::announce;
use bip_utracker::announce::{ClientState, DesiredPeers, SourceIP};
use bip_utracker::contact::CompactPeers;
use bip_utracker::option::AnnounceOptions;
use bip_utracker::request::{RequestType, TrackerRequest, CONNECT_ID_PROTOCOL_ID};
use bip_utracker::response::{ResponseType, TrackerResponse};
use nom::IResult;

verus! {

/// Size of the buffer every request is written into and every reply is read
/// into. A request is sent as the whole buffer: the frame, then zeros.
pub const BUFFER_LEN: usize = 1024;

/// The connection id that a CONNECT request carries.
pub const PROTOCOL_ID: u64 = 0x41727101980;

/// What a client reports to have happened since its last announce.
#[derive(Clone, Copy, Debug, PartialEq, Eq, Structural)]
pub enum AnnounceEvent {
    Unspecified,
    Completed,
    Started,
    Stopped,
}

/// The address a tracker should register for the announcing peer. Both forms
/// leave it to the tracker to take the datagram's source address; they differ
/// in the address family, and with it in the request's action code.
#[derive(Clone, Copy, Debug, PartialEq, Eq, Structural)]
pub enum SourceIp {
    ImpliedV4,
    ImpliedV6,
}

/// The fields of an ANNOUNCE request. No options are sent.
#[derive(Clone, Copy, Debug)]
pub struct AnnounceRequest {
    pub info_hash: [u8; 20],
    pub peer_id: [u8; 20],
    pub downloaded: i64,
    pub left: i64,
    pub uploaded: i64,
    pub event: AnnounceEvent,
    pub source_ip: SourceIp,
    pub key: u32,
    /// Number of peers asked for; -1 leaves the number to the tracker.
    pub num_want: i32,
    pub port: u16,
}

/// The mathematical value of an [`AnnounceRequest`].
pub struct RequestView {
    pub info_hash: Seq<u8>,
    pub peer_id: Seq<u8>,
    pub downloaded: i64,
    pub left: i64,
    pub uploaded: i64,
    pub event: AnnounceEvent,
    pub source_ip: SourceIp,
    pub key: u32,
    pub num_want: i32,
    pub port: u16,
}

impl View for AnnounceRequest {
    type V = RequestView;

    open spec fn view(&self) -> RequestView {
        RequestView {
            info_hash: self.info_hash@,
            peer_id: self.peer_id@,
            downloaded: self.downloaded,
            left: self.left,
            uploaded: self.uploaded,
            event: self.event,
            source_ip: self.source_ip,
            key: self.key,
            num_want: self.num_want,
            port: self.port,
        }
    }
}

/// What a received datagram decodes to.
#[derive(Clone, Debug)]
pub enum TrackerReply {
    /// A CONNECT response with its connection id.
    Connect(u64),
    /// An ANNOUNCE response. `peers` is the compact peer list as received:
    /// 6 bytes a peer, or 18 where `ipv6` is set.
    Announce { interval: i32, leechers: i32, seeders: i32, ipv6: bool, peers: Vec<u8> },
    /// A SCRAPE response.
    Scrape,
    /// An ERROR response.
    Error,
    /// The datagram ends before the response does.
    Incomplete,
    /// The datagram is no response of any known type.
    Malformed,
}

/// The mathematical value of a [`TrackerReply`].
pub enum ReplyView {
    Connect(u64),
    Announce { interval: i32, leechers: i32, seeders: i32, ipv6: bool, peers: Seq<u8> },
    Scrape,
    Error,
    Incomplete,
    Malformed,
}

impl View for TrackerReply {
    type V = ReplyView;

    open spec fn view(&self) -> ReplyView {
        match *self {
            TrackerReply::Connect(id) => ReplyView::Connect(id),
            TrackerReply::Announce { interval, leechers, seeders, ipv6, peers } => ReplyView::Announce {
                interval,
                leechers,
                seeders,
                ipv6,
                peers: peers@,
            },
            TrackerReply::Scrape => ReplyView::Scrape,
            TrackerReply::Error => ReplyView::Error,
            TrackerReply::Incomplete => ReplyView::Incomplete,
            TrackerReply::Malformed => ReplyView::Malformed,
        }
    }
}

/// A socket address, by its parts.
#[allow(inconsistent_fields)]
#[derive(Clone, Copy, Debug, PartialEq, Eq)]
pub enum SocketAddress {
    V4 { ip: [u8; 4], port: u16 },
    V6 { ip: [u8; 16], port: u16, flowinfo: u32, scope_id: u32 },
}

/// The mathematical value of a [`SocketAddress`].
pub enum AddressView {
    V4 { ip: Seq<u8>, port: u16 },
    V6 { ip: Seq<u8>, port: u16, flowinfo: u32, scope_id: u32 },
}

impl AddressView {
    pub open spec fn port(self) -> u16 {
        match self {
            AddressView::V4 { port, .. } => port,
            AddressView::V6 { port, .. } => port,
        }
    }
}

impl View for SocketAddress {
    type V = AddressView;

    open spec fn view(&self) -> AddressView {
        match *self {
            SocketAddress::V4 { ip, port } => AddressView::V4 { ip: ip@, port },
            SocketAddress::V6 { ip, port, flowinfo, scope_id } => AddressView::V6 { ip: ip@, port, flowinfo, scope_id },
        }
    }
}

impl SocketAddress {
    pub fn port(&self) -> (port: u16)
        ensures
            port == self@.port(),
    {
        match self {
            SocketAddress::V4 { port, .. } => *port,
            SocketAddress::V6 { port, .. } => *port,
        }
    }

    pub fn is_ipv6(&self) -> (ipv6: bool)
        ensures
            ipv6 == (self@ is V6),
    {
        match self {
            SocketAddress::V4 { .. } => false,
            SocketAddress::V6 { .. } => true,
        }
    }
}

/// The views of a list of addresses, in order.
pub open spec fn address_views(addresses: Seq<SocketAddress>) -> Seq<AddressView> {
    addresses.map_values(|address: SocketAddress| address@)
}

/// The `width` low-order base-256 digits of `value`, most significant first.
pub open spec fn be_bytes(value: nat, width: nat) -> Seq<u8>
    decreases width,
{
    if width == 0 {
        Seq::empty()
    } else {
        be_bytes(value / 256, (width - 1) as nat).push((value % 256) as u8)
    }
}

/// The number whose base-256 digits, most significant first, are `bytes`.
pub open spec fn be_value(bytes: Seq<u8>) -> nat
    decreases bytes.len(),
{
    if bytes.len() == 0 {
        0
    } else {
        be_value(bytes.drop_last()) * 256 + bytes.last() as nat
    }
}

/// The unsigned number with the same 64 two's complement bits as `value`.
pub open spec fn unsigned_64(value: i64) -> nat {
    if value < 0 {
        (value + 0x1_0000_0000_0000_0000) as nat
    } else {
        value as nat
    }
}

/// The unsigned number with the same 32 two's complement bits as `value`.
pub open spec fn unsigned_32(value: i32) -> nat {
    if value < 0 {
        (value + 0x1_0000_0000) as nat
    } else {
        value as nat
    }
}

/// The signed 32-bit number with the same two's complement bits as `value`.
pub open spec fn signed_32(value: nat) -> i32 {
    if value >= 0x8000_0000 {
        (value - 0x1_0000_0000) as i32
    } else {
        value as i32
    }
}

/// `count` zero bytes.
pub open spec fn zeros(count: nat) -> Seq<u8> {
    Seq::new(count, |i: int| 0u8)
}

/// `frame` filled up with zeros to the size of the buffer.
pub open spec fn padded(frame: Seq<u8>) -> Seq<u8> {
    frame + zeros((BUFFER_LEN - frame.len()) as nat)
}

/// The 16 bytes of a CONNECT request: protocol id, action 0, transaction id.
pub open spec fn connect_frame(transaction_id: u32) -> Seq<u8> {
    be_bytes(PROTOCOL_ID as nat, 8) + be_bytes(0, 4) + be_bytes(transaction_id as nat, 4)
}

/// The number that stands for an event in an ANNOUNCE request.
pub open spec fn event_code(event: AnnounceEvent) -> nat {
    match event {
        AnnounceEvent::Unspecified => 0,
        AnnounceEvent::Completed => 1,
        AnnounceEvent::Started => 2,
        AnnounceEvent::Stopped => 3,
    }
}

/// The action code of an ANNOUNCE request: 1 for IPv4, 4 for IPv6.
pub open spec fn announce_action(source_ip: SourceIp) -> nat {
    match source_ip {
        SourceIp::ImpliedV4 => 1,
        SourceIp::ImpliedV6 => 4,
    }
}

/// The address field of an ANNOUNCE request: all zero, 4 or 16 bytes long.
pub open spec fn source_ip_bytes(source_ip: SourceIp) -> Seq<u8> {
    match source_ip {
        SourceIp::ImpliedV4 => zeros(4),
        SourceIp::ImpliedV6 => zeros(16),
    }
}

/// The bytes of an ANNOUNCE request, field by field, closed by the byte that
/// ends the (empty) list of options.
pub open spec fn announce_frame(connection_id: u64, transaction_id: u32, request: RequestView) -> Seq<u8> {
    be_bytes(connection_id as nat, 8)
        + be_bytes(announce_action(request.source_ip), 4)
        + be_bytes(transaction_id as nat, 4)
        + request.info_hash
        + request.peer_id
        + be_bytes(unsigned_64(request.downloaded), 8)
        + be_bytes(unsigned_64(request.left), 8)
        + be_bytes(unsigned_64(request.uploaded), 8)
        + be_bytes(event_code(request.event), 4)
        + source_ip_bytes(request.source_ip)
        + be_bytes(request.key as nat, 4)
        + be_bytes(unsigned_32(request.num_want), 4)
        + be_bytes(request.port as nat, 2)
        + zeros(1)
}

/// Whether `bytes` begins with a whole CONNECT response: action 0,
/// transaction id, connection id.
pub open spec fn is_connect_reply(bytes: Seq<u8>) -> bool {
    bytes.len() >= 16 && be_value(bytes.subrange(0, 4)) == 0
}

/// Whether `bytes` is a whole ANNOUNCE response: action 1 or 4, transaction
/// id, three counters, and a peer list of 6 or 18 bytes a peer.
pub open spec fn is_announce_reply(bytes: Seq<u8>) -> bool {
    bytes.len() >= 20 && {
        let action = be_value(bytes.subrange(0, 4));
        ||| action == 1 && (bytes.len() - 20) % 6 == 0
        ||| action == 4 && (bytes.len() - 20) % 18 == 0
    }
}

/// What a whole ANNOUNCE response holds.
pub open spec fn announce_reply(bytes: Seq<u8>) -> ReplyView {
    ReplyView::Announce {
        interval: signed_32(be_value(bytes.subrange(8, 12))),
        leechers: signed_32(be_value(bytes.subrange(12, 16))),
        seeders: signed_32(be_value(bytes.subrange(16, 20))),
        ipv6: be_value(bytes.subrange(0, 4)) == 4,
        peers: bytes.skip(20),
    }
}

/// Bytes a peer takes in a compact peer list.
pub open spec fn peer_stride(ipv6: bool) -> nat {
    if ipv6 {
        18
    } else {
        6
    }
}

/// The peer that stands at `index` in a compact peer list: its address
/// bytes, then its port, big-endian.
pub open spec fn compact_peer(bytes: Seq<u8>, ipv6: bool, index: int) -> AddressView {
    let start = index * peer_stride(ipv6);
    if ipv6 {
        AddressView::V6 {
            ip: bytes.subrange(start, start + 16),
            port: (bytes[start + 16] * 256 + bytes[start + 17]) as u16,
            flowinfo: 0,
            scope_id: 0,
        }
    } else {
        AddressView::V4 {
            ip: bytes.subrange(start, start + 4),
            port: (bytes[start + 4] * 256 + bytes[start + 5]) as u16,
        }
    }
}

/// The peers of a compact peer list: as many as fit in whole.
pub open spec fn compact_peers(bytes: Seq<u8>, ipv6: bool) -> Seq<AddressView> {
    Seq::new(bytes.len() / peer_stride(ipv6), |index: int| compact_peer(bytes, ipv6, index))
}

/// What `bip_utracker` decodes a datagram to. It is a function of the bytes
/// alone; [`decode_reply`] says what is known of it.
pub uninterp spec fn decoded_reply(bytes: Seq<u8>) -> ReplyView;

/// The SHA-1 digest of `data`, as `bip_util` computes it.
pub uninterp spec fn sha1_digest(data: Seq<u8>) -> Seq<u8>;

/// Writes a CONNECT request with `bip_utracker`'s
/// `TrackerRequest::write_bytes` into a zeroed buffer and returns the buffer.
///
/// Trusted: that the buffer then holds the protocol id, action 0 and the
/// transaction id, each big-endian, and zeros after them.
#[verifier::external_body]
pub(crate) fn encode_connect(transaction_id: u32) -> (datagram: Vec<u8>)
    ensures
        datagram@ == padded(connect_frame(transaction_id)),
{
    let mut buffer = [0u8; BUFFER_LEN];
    TrackerRequest::new(CONNECT_ID_PROTOCOL_ID, transaction_id, RequestType::Connect)
        .write_bytes(&mut buffer[..])
        .unwrap();
    buffer.to_vec()
}

/// Writes an ANNOUNCE request with `bip_utracker`'s
/// `TrackerRequest::write_bytes` into a zeroed buffer and returns the buffer.
///
/// Trusted: that the buffer then holds the fields as [`announce_frame`] lays
/// them out, and zeros after them.
#[verifier::external_body]
pub(crate) fn encode_announce(connection_id: u64, transaction_id: u32, request: &AnnounceRequest) -> (datagram: Vec<u8>)
    ensures
        datagram@ == padded(announce_frame(connection_id, transaction_id, request@)),
{
    let event = match request.event {
        AnnounceEvent::Unspecified => announce::AnnounceEvent::None,
        AnnounceEvent::Completed => announce::AnnounceEvent::Completed,
        AnnounceEvent::Started => announce::AnnounceEvent::Started,
        AnnounceEvent::Stopped => announce::AnnounceEvent::Stopped,
    };
    let source = match request.source_ip { SourceIp::ImpliedV4 => SourceIP::ImpliedV4, SourceIp::ImpliedV6 => SourceIP::ImpliedV6 };
    let state = ClientState::new(request.downloaded, request.left, request.uploaded, event);
    let body = announce::AnnounceRequest::new(request.info_hash.into(), request.peer_id.into(), state, source, request.key, DesiredPeers::Specified(request.num_want), request.port, AnnounceOptions::new());
    let mut buffer = [0u8; BUFFER_LEN];
    TrackerRequest::new(connection_id, transaction_id, RequestType::Announce(body)).write_bytes(&mut buffer[..]).unwrap();
    buffer.to_vec()
}

/// Decodes a datagram with `bip_utracker`'s `TrackerResponse::from_bytes`.
/// The peers of an ANNOUNCE response are handed on as the bytes that
/// `CompactPeers::write_bytes` gives for them.
///
/// Trusted: that the outcome depends on the bytes alone; that the datagrams
/// which begin with a whole CONNECT response, and no others, decode to one,
/// with the connection id they carry; and that the datagrams which are a
/// whole ANNOUNCE response, and no others, decode to one, with their three
/// counters, their address family, and the rest of the datagram as the peer
/// list.
#[verifier::external_body]
pub(crate) fn decode_reply(bytes: &[u8]) -> (reply: TrackerReply)
    ensures
        reply@ == decoded_reply(bytes@),
        reply@ is Connect <==> is_connect_reply(bytes@),
        reply@ is Connect ==> reply@ == ReplyView::Connect(be_value(bytes@.subrange(8, 16)) as u64),
        reply@ is Announce <==> is_announce_reply(bytes@),
        reply@ is Announce ==> reply@ == announce_reply(bytes@),
{
    match TrackerResponse::from_bytes(bytes) {
        IResult::Done(_, response) => match response.response_type() {
            ResponseType::Connect(id) => TrackerReply::Connect(*id),
            ResponseType::Announce(body) => {
                let mut peers = Vec::new();
                body.peers().write_bytes(&mut peers).unwrap();
                let ipv6 = match body.peers() { CompactPeers::V4(_) => false, CompactPeers::V6(_) => true };
                TrackerReply::Announce { interval: body.interval(), leechers: body.leechers(), seeders: body.seeders(), ipv6, peers }
            },
            ResponseType::Scrape(_) => TrackerReply::Scrape,
            ResponseType::Error(_) => TrackerReply::Error,
        },
        IResult::Incomplete(_) => TrackerReply::Incomplete,
        IResult::Error(_) => TrackerReply::Malformed,
    }
}

/// Hashes `data` with `bip_util`'s `ShaHash::from_bytes`.
///
/// Trusted: that the digest depends on the data alone.
#[verifier::external_body]
pub(crate) fn sha1(data: &[u8]) -> (digest: [u8; 20])
    ensures
        digest@ == sha1_digest(data@),
{
    bip_util::sha::ShaHash::from_bytes(data).into()
}

/// Reads the peers out of a compact peer list.
pub fn peers_from_compact(bytes: &[u8], ipv6: bool) -> (peers: Vec<SocketAddress>)
    ensures
        address_views(peers@) == compact_peers(bytes@, ipv6),
{
    let stride: usize = if ipv6 { 18 } else { 6 };
    let count: usize = bytes.len() / stride;
    let mut peers: Vec<SocketAddress> = Vec::new();
    let mut index: usize = 0;
    while index < count
        invariant
            stride == peer_stride(ipv6),
            count == bytes.len() / stride,
            index <= count,
            peers.len() == index,
            forall|k: int| 0 <= k < index ==> (#[trigger] peers[k])@ == compact_peer(bytes@, ipv6, k),
        decreases count - index,
    {
        assert((index + 1) * stride <= bytes.len()) by (nonlinear_arith)
            requires
                index < count,
                count == bytes.len() / stride,
                stride > 0,
        ;
        assert(index * stride + stride == (index + 1) * stride) by (nonlinear_arith);
        let start: usize = index * stride;
        let peer = if ipv6 {
            let ip: [u8; 16] = [
                bytes[start],
                bytes[start + 1],
                bytes[start + 2],
                bytes[start + 3],
                bytes[start + 4],
                bytes[start + 5],
                bytes[start + 6],
                bytes[start + 7],
                bytes[start + 8],
                bytes[start + 9],
                bytes[start + 10],
                bytes[start + 11],
                bytes[start + 12],
                bytes[start + 13],
                bytes[start + 14],
                bytes[start + 15],
            ];
            assert(ip@ =~= bytes@.subrange(start as int, start + 16));
            let high: u16 = bytes[start + 16] as u16;
            let low: u16 = bytes[start + 17] as u16;
            SocketAddress::V6 { ip, port: high * 256 + low, flowinfo: 0, scope_id: 0 }
        } else {
            let ip: [u8; 4] = [bytes[start], bytes[start + 1], bytes[start + 2], bytes[start + 3]];
            assert(ip@ =~= bytes@.subrange(start as int, start + 4));
            let high: u16 = bytes[start + 4] as u16;
            let low: u16 = bytes[start + 5] as u16;
            SocketAddress::V4 { ip, port: high * 256 + low }
        };
        peers.push(peer);
        index += 1;
    }
    assert(address_views(peers@) =~= compact_peers(bytes@, ipv6));
    peers
}

} // verus!
