//! One tracker session: the CONNECT exchange, then ANNOUNCE exchanges.
//!
//! The session sends and receives nothing itself. It says which datagram to
//! send, and is told what the socket did: how many bytes went out, and what
//! came back. Each exchange is therefore three calls: the request, the check
//! on what was sent, and the reply.

use vstd::prelude::*;

use std::collections::hash_map::DefaultHasher;
use std::hash::{Hash, Hasher};
use std::time::SystemTime;

use crate::wire::{
    address_views, announce_frame, be_value, compact_peers, connect_frame, decode_reply,
    decoded_reply, encode_announce, encode_connect, is_announce_reply, is_connect_reply, padded,
    peers_from_compact, signed_32, AddressView, AnnounceRequest, ReplyView, RequestView,
    SocketAddress, TrackerReply, BUFFER_LEN,
};

verus! {

/// `std::time::SystemTime`, a reading of the clock. Nothing is known of what
/// a value of it holds.
#[verifier::external_type_specification]
#[verifier::external_body]
pub struct ExSystemTime(std::time::SystemTime);

/// `SystemTime::now` reads the clock: nothing is known of what it returns.
pub assume_specification[ SystemTime::now ]() -> (now: SystemTime);

/// `SystemTime`'s `Hash::hash` feeds the time to a hasher: nothing is known
/// of the hasher afterwards.
pub assume_specification<H: Hasher>[ <SystemTime as Hash>::hash::<H> ](time: &SystemTime, state: &mut H);

/// Seconds to wait for a reply.
pub const REPLY_TIMEOUT_SECS: u64 = 5;

/// Why a socket operation failed, as far as a session cares.
#[derive(Clone, Copy, Debug, PartialEq, Eq, Structural)]
pub enum IoFailure {
    /// No reply came in time.
    TimedOut,
    /// Any other failure of the socket.
    Other,
}

/// Why an exchange failed.
#[derive(Clone, Copy, Debug)]
pub enum UdpTrackerClientError {
    /// The socket did something a datagram socket should not.
    GeneralError(&'static str),
    /// The socket failed.
    IoError(IoFailure),
    /// The tracker's reply, or the caller's use of the session, was wrong.
    ApplicationError(&'static str),
}

pub type UdpTrackerClientResult<T> = Result<T, UdpTrackerClientError>;

/// The mathematical value of a [`UdpTrackerClientError`]: its kind and the
/// text of its message.
pub enum ErrorView {
    General(Seq<char>),
    Io(IoFailure),
    Application(Seq<char>),
}

impl View for UdpTrackerClientError {
    type V = ErrorView;

    open spec fn view(&self) -> ErrorView {
        match *self {
            UdpTrackerClientError::GeneralError(message) => ErrorView::General(message@),
            UdpTrackerClientError::IoError(failure) => ErrorView::Io(failure),
            UdpTrackerClientError::ApplicationError(message) => ErrorView::Application(message@),
        }
    }
}

impl From<IoFailure> for UdpTrackerClientError {
    fn from(failure: IoFailure) -> (error: UdpTrackerClientError) {
        UdpTrackerClientError::IoError(failure)
    }
}

impl vstd::std_specs::convert::FromSpecImpl<IoFailure> for UdpTrackerClientError {
    open spec fn obeys_from_spec() -> bool {
        true
    }

    open spec fn from_spec(failure: IoFailure) -> UdpTrackerClientError {
        UdpTrackerClientError::IoError(failure)
    }
}

/// What a tracker answered to an announce.
#[derive(Clone, Debug, PartialEq, Eq)]
pub struct AnnounceResponse {
    pub interval: i32,
    pub leechers: i32,
    pub seeders: i32,
    pub peers: Vec<SocketAddress>,
}

/// The mathematical value of an [`AnnounceResponse`].
pub struct AnnounceView {
    pub interval: i32,
    pub leechers: i32,
    pub seeders: i32,
    pub peers: Seq<AddressView>,
}

impl View for AnnounceResponse {
    type V = AnnounceView;

    open spec fn view(&self) -> AnnounceView {
        AnnounceView {
            interval: self.interval,
            leechers: self.leechers,
            seeders: self.seeders,
            peers: address_views(self.peers@),
        }
    }
}

/// Where a session stands.
#[derive(Clone, Copy, Debug, PartialEq, Eq, Structural)]
pub enum SessionState {
    /// No CONNECT exchange has succeeded yet.
    Unconnected,
    /// The tracker has handed out a connection id, which is never zero.
    Connected { connection_id: u64 },
}

/// What is said of a datagram, or of the failure in its place.
pub open spec fn received_view(received: Result<Vec<u8>, IoFailure>) -> Result<Seq<u8>, IoFailure> {
    match received {
        Ok(bytes) => Ok(bytes@),
        Err(failure) => Err(failure),
    }
}

/// The verdict on a send: the whole buffer has to have gone out at once.
pub open spec fn sent_outcome(sent: Result<usize, IoFailure>, message: Seq<char>) -> Result<(), ErrorView> {
    match sent {
        Err(failure) => Err(ErrorView::Io(failure)),
        Ok(count) => if count == BUFFER_LEN {
            Ok(())
        } else {
            Err(ErrorView::General(message))
        },
    }
}

/// The verdict on the send of a CONNECT request.
pub open spec fn connect_sent_outcome(sent: Result<usize, IoFailure>) -> Result<(), ErrorView> {
    sent_outcome(sent, "Failed to send the entire CONNECT request"@)
}

/// The verdict on the send of an ANNOUNCE request.
pub open spec fn announce_sent_outcome(sent: Result<usize, IoFailure>) -> Result<(), ErrorView> {
    sent_outcome(sent, "Failed to send the entire ANNOUNCE request"@)
}

/// The connection id that a decoded reply to CONNECT yields, or the error.
pub open spec fn connect_outcome(reply: ReplyView) -> Result<u64, ErrorView> {
    match reply {
        ReplyView::Connect(connection_id) => Ok(connection_id),
        ReplyView::Announce { .. } => Err(ErrorView::Application("Expected CONNECT response, got ANNOUNCE response"@)),
        ReplyView::Scrape => Err(ErrorView::Application("Expected CONNECT response, got SCRAPE response"@)),
        ReplyView::Error => Err(ErrorView::Application("Expected CONNECT response, got ERROR response"@)),
        ReplyView::Incomplete => Err(ErrorView::Application("Incomplete CONNECT response"@)),
        ReplyView::Malformed => Err(ErrorView::Application("Unknown CONNECT response error"@)),
    }
}

/// The connection id that the socket's answer to CONNECT yields, or the
/// error: a failed read, a datagram longer than the buffer, or a reply that
/// is no CONNECT response.
pub open spec fn connect_received(received: Result<Seq<u8>, IoFailure>) -> Result<u64, ErrorView> {
    match received {
        Err(failure) => Err(ErrorView::Io(failure)),
        Ok(bytes) => if bytes.len() > BUFFER_LEN {
            Err(ErrorView::General("Failed to read the entire CONNECT response. Buffer too small?"@))
        } else {
            connect_outcome(decoded_reply(bytes))
        },
    }
}

/// The state a session is in once the tracker has answered with
/// `connection_id`. Zero stands for no connection.
pub open spec fn session_after(connection_id: u64) -> SessionState {
    if connection_id == 0 {
        SessionState::Unconnected
    } else {
        SessionState::Connected { connection_id }
    }
}

/// What a decoded reply to ANNOUNCE yields.
pub open spec fn announce_outcome(reply: ReplyView) -> Result<AnnounceView, ErrorView> {
    match reply {
        ReplyView::Announce { interval, leechers, seeders, ipv6, peers } => Ok(
            AnnounceView { interval, leechers, seeders, peers: compact_peers(peers, ipv6) },
        ),
        ReplyView::Connect(_) => Err(ErrorView::Application("Expected ANNOUNCE response, got CONNECT response"@)),
        ReplyView::Scrape => Err(ErrorView::Application("Expected ANNOUNCE response, got SCRAPE response"@)),
        ReplyView::Error => Err(ErrorView::Application("Expected ANNOUNCE response, got ERROR response"@)),
        ReplyView::Incomplete => Err(ErrorView::Application("Incomplete ANNOUNCE response"@)),
        ReplyView::Malformed => Err(ErrorView::Application("Unknown ANNOUNCE response error"@)),
    }
}

/// What a whole ANNOUNCE response holds: its counters and its peers.
pub open spec fn announce_response(bytes: Seq<u8>) -> AnnounceView {
    AnnounceView {
        interval: signed_32(be_value(bytes.subrange(8, 12))),
        leechers: signed_32(be_value(bytes.subrange(12, 16))),
        seeders: signed_32(be_value(bytes.subrange(16, 20))),
        peers: compact_peers(bytes.skip(20), be_value(bytes.subrange(0, 4)) == 4),
    }
}

/// The error of an announce on a session that is not connected.
pub open spec fn not_connected() -> ErrorView {
    ErrorView::Application("You have to run connect first!"@)
}

/// What the socket's answer to ANNOUNCE yields in a given state: nothing but
/// an error while unconnected; else a failed read, a datagram that fills the
/// buffer (and so may have been cut), or what the reply decodes to.
pub open spec fn announce_received(state: SessionState, received: Result<Seq<u8>, IoFailure>) -> Result<
    AnnounceView,
    ErrorView,
> {
    match state {
        SessionState::Unconnected => Err(not_connected()),
        SessionState::Connected { .. } => match received {
            Err(failure) => Err(ErrorView::Io(failure)),
            Ok(bytes) => if bytes.len() >= BUFFER_LEN {
                Err(ErrorView::General("Failed to read the entire ANNOUNCE response. Buffer too small?"@))
            } else {
                announce_outcome(decoded_reply(bytes))
            },
        },
    }
}

/// The datagram that announces `request` in a given state, or the error
/// while unconnected.
pub open spec fn announce_datagram(state: SessionState, transaction_id: u32, request: RequestView) -> Result<
    Seq<u8>,
    ErrorView,
> {
    match state {
        SessionState::Unconnected => Err(not_connected()),
        SessionState::Connected { connection_id } => Ok(
            padded(announce_frame(connection_id, transaction_id, request)),
        ),
    }
}

/// While a session is not connected, an announce is an application error
/// whatever is asked and whatever came back: there is no datagram to send
/// and no reply to take.
pub proof fn lemma_announce_needs_connect(
    transaction_id: u32,
    request: RequestView,
    received: Result<Seq<u8>, IoFailure>,
)
    ensures
        announce_datagram(SessionState::Unconnected, transaction_id, request) == Err::<Seq<u8>, ErrorView>(
            not_connected(),
        ),
        announce_received(SessionState::Unconnected, received) == Err::<AnnounceView, ErrorView>(not_connected()),
        not_connected() is Application,
{
}

/// A session with one tracker address.
#[derive(Clone, Copy, Debug)]
pub struct UdpTrackerClient {
    state: SessionState,
    timeout_secs: u64,
}

impl UdpTrackerClient {
    #[verifier::type_invariant]
    spec fn connected_id_is_nonzero(self) -> bool {
        self.state matches SessionState::Connected { connection_id } ==> connection_id != 0
    }

    /// Where the session stands.
    pub closed spec fn state(&self) -> SessionState {
        self.state
    }

    /// Seconds the session waits for a reply.
    pub closed spec fn timeout(&self) -> u64 {
        self.timeout_secs
    }

    /// A session that has not connected yet and waits five seconds for each
    /// reply.
    pub fn new() -> (client: Self)
        ensures
            client.state() == SessionState::Unconnected,
            client.timeout() == REPLY_TIMEOUT_SECS,
    {
        UdpTrackerClient { state: SessionState::Unconnected, timeout_secs: REPLY_TIMEOUT_SECS }
    }

    /// Where the session stands. A connection id it reports is not zero.
    pub fn session(&self) -> (state: SessionState)
        ensures
            state == self.state(),
            state matches SessionState::Connected { connection_id } ==> connection_id != 0,
    {
        proof {
            use_type_invariant(self);
        }
        self.state
    }

    /// Whether a CONNECT exchange has succeeded.
    pub fn is_connected(&self) -> (connected: bool)
        ensures
            connected == (self.state() is Connected),
    {
        match self.state {
            SessionState::Unconnected => false,
            SessionState::Connected { .. } => true,
        }
    }

    /// Seconds to wait for a reply.
    pub fn timeout_secs(&self) -> (secs: u64)
        ensures
            secs == self.timeout(),
    {
        self.timeout_secs
    }

    /// The CONNECT request with the given transaction id.
    pub fn connect_request_with(&self, transaction_id: u32) -> (datagram: Vec<u8>)
        ensures
            datagram@ == padded(connect_frame(transaction_id)),
    {
        encode_connect(transaction_id)
    }

    /// A CONNECT request with a fresh transaction id.
    pub fn connect_request(&self) -> (datagram: Vec<u8>)
        ensures
            exists|transaction_id: u32| datagram@ == padded(connect_frame(transaction_id)),
    {
        let transaction_id: u32 = Self::create_random_transaction_id();
        self.connect_request_with(transaction_id)
    }

    /// Judges the send of a CONNECT request: `sent` is what the socket
    /// reported.
    pub fn connect_sent(&self, sent: Result<usize, IoFailure>) -> (outcome: UdpTrackerClientResult<()>)
        ensures
            match connect_sent_outcome(sent) {
                Ok(_) => outcome is Ok,
                Err(error) => outcome is Err && outcome->Err_0@ == error,
            },
    {
        match sent {
            Err(failure) => Err(UdpTrackerClientError::IoError(failure)),
            Ok(count) => {
                if count != BUFFER_LEN {
                    Err(UdpTrackerClientError::GeneralError("Failed to send the entire CONNECT request"))
                } else {
                    Ok(())
                }
            },
        }
    }

    /// Takes a decoded reply to CONNECT. A CONNECT response moves the
    /// session to the state its connection id stands for; anything else is
    /// an error and leaves the session as it was.
    pub fn accept_connect(&mut self, reply: TrackerReply) -> (outcome: UdpTrackerClientResult<()>)
        ensures
            final(self).timeout() == old(self).timeout(),
            match connect_outcome(reply@) {
                Ok(connection_id) => outcome is Ok && final(self).state() == session_after(connection_id),
                Err(error) => outcome is Err && outcome->Err_0@ == error && final(self).state() == old(
                    self,
                ).state(),
            },
    {
        match reply {
            TrackerReply::Connect(connection_id) => {
                if connection_id == 0 {
                    self.state = SessionState::Unconnected;
                } else {
                    self.state = SessionState::Connected { connection_id };
                }
                Ok(())
            },
            TrackerReply::Announce { .. } => Err(
                UdpTrackerClientError::ApplicationError("Expected CONNECT response, got ANNOUNCE response"),
            ),
            TrackerReply::Scrape => Err(
                UdpTrackerClientError::ApplicationError("Expected CONNECT response, got SCRAPE response"),
            ),
            TrackerReply::Error => Err(
                UdpTrackerClientError::ApplicationError("Expected CONNECT response, got ERROR response"),
            ),
            TrackerReply::Incomplete => Err(UdpTrackerClientError::ApplicationError("Incomplete CONNECT response")),
            TrackerReply::Malformed => Err(UdpTrackerClientError::ApplicationError("Unknown CONNECT response error")),
        }
    }

    /// Finishes the CONNECT exchange: `received` is the datagram that came
    /// back, or why none did. On success the session holds the tracker's
    /// connection id; on any error it is as it was. The datagrams that begin
    /// with a whole CONNECT response are a success, and no others; what else
    /// fits the buffer is an application error.
    pub fn connect(&mut self, received: Result<Vec<u8>, IoFailure>) -> (outcome: UdpTrackerClientResult<()>)
        ensures
            final(self).timeout() == old(self).timeout(),
            match connect_received(received_view(received)) {
                Ok(connection_id) => outcome is Ok && final(self).state() == session_after(connection_id),
                Err(error) => outcome is Err && outcome->Err_0@ == error && final(self).state() == old(
                    self,
                ).state(),
            },
            outcome is Ok <==> received is Ok && received->Ok_0.len() <= BUFFER_LEN && is_connect_reply(
                received->Ok_0@,
            ),
            outcome is Ok ==> final(self).state() == session_after(
                be_value(received->Ok_0@.subrange(8, 16)) as u64,
            ),
            received is Ok && received->Ok_0.len() <= BUFFER_LEN && !is_connect_reply(received->Ok_0@)
                ==> outcome is Err && outcome->Err_0 is ApplicationError,
    {
        match received {
            Err(failure) => Err(UdpTrackerClientError::IoError(failure)),
            Ok(bytes) => {
                if bytes.len() > BUFFER_LEN {
                    Err(
                        UdpTrackerClientError::GeneralError(
                            "Failed to read the entire CONNECT response. Buffer too small?",
                        ),
                    )
                } else {
                    let reply = decode_reply(bytes.as_slice());
                    self.accept_connect(reply)
                }
            },
        }
    }

    /// The ANNOUNCE request for `request` with the given transaction id,
    /// under the session's connection id. Unconnected, there is no request
    /// to send.
    pub fn announce_request_with(&self, request: &AnnounceRequest, transaction_id: u32) -> (outcome:
        UdpTrackerClientResult<Vec<u8>>)
        ensures
            match announce_datagram(self.state(), transaction_id, request@) {
                Ok(datagram) => outcome is Ok && outcome->Ok_0@ == datagram,
                Err(error) => outcome is Err && outcome->Err_0@ == error,
            },
    {
        match self.state {
            SessionState::Unconnected => Err(
                UdpTrackerClientError::ApplicationError("You have to run connect first!"),
            ),
            SessionState::Connected { connection_id } => Ok(
                encode_announce(connection_id, transaction_id, request),
            ),
        }
    }

    /// An ANNOUNCE request for `request` with a fresh transaction id.
    pub fn announce_request(&self, request: &AnnounceRequest) -> (outcome: UdpTrackerClientResult<Vec<u8>>)
        ensures
            exists|transaction_id: u32|
                match #[trigger] announce_datagram(self.state(), transaction_id, request@) {
                    Ok(datagram) => outcome is Ok && outcome->Ok_0@ == datagram,
                    Err(error) => outcome is Err && outcome->Err_0@ == error,
                },
    {
        let transaction_id: u32 = Self::create_random_transaction_id();
        self.announce_request_with(request, transaction_id)
    }

    /// Judges the send of an ANNOUNCE request: `sent` is what the socket
    /// reported.
    pub fn announce_sent(&self, sent: Result<usize, IoFailure>) -> (outcome: UdpTrackerClientResult<()>)
        ensures
            match announce_sent_outcome(sent) {
                Ok(_) => outcome is Ok,
                Err(error) => outcome is Err && outcome->Err_0@ == error,
            },
    {
        match sent {
            Err(failure) => Err(UdpTrackerClientError::IoError(failure)),
            Ok(count) => {
                if count != BUFFER_LEN {
                    Err(UdpTrackerClientError::GeneralError("Failed to send the entire ANNOUNCE request"))
                } else {
                    Ok(())
                }
            },
        }
    }

    /// Takes a decoded reply to ANNOUNCE: an ANNOUNCE response gives its
    /// counters and its peers, anything else is an error.
    pub fn accept_announce(&self, reply: TrackerReply) -> (outcome: UdpTrackerClientResult<AnnounceResponse>)
        ensures
            match announce_outcome(reply@) {
                Ok(response) => outcome is Ok && outcome->Ok_0@ == response,
                Err(error) => outcome is Err && outcome->Err_0@ == error,
            },
    {
        match reply {
            TrackerReply::Announce { interval, leechers, seeders, ipv6, peers } => {
                let peers = peers_from_compact(peers.as_slice(), ipv6);
                Ok(AnnounceResponse { interval, leechers, seeders, peers })
            },
            TrackerReply::Connect(_) => Err(
                UdpTrackerClientError::ApplicationError("Expected ANNOUNCE response, got CONNECT response"),
            ),
            TrackerReply::Scrape => Err(
                UdpTrackerClientError::ApplicationError("Expected ANNOUNCE response, got SCRAPE response"),
            ),
            TrackerReply::Error => Err(
                UdpTrackerClientError::ApplicationError("Expected ANNOUNCE response, got ERROR response"),
            ),
            TrackerReply::Incomplete => Err(UdpTrackerClientError::ApplicationError("Incomplete ANNOUNCE response")),
            TrackerReply::Malformed => Err(UdpTrackerClientError::ApplicationError("Unknown ANNOUNCE response error")),
        }
    }

    /// Finishes an ANNOUNCE exchange: `received` is the datagram that came
    /// back, or why none did. The session stays as it is, so it may announce
    /// again. Unconnected, every announce is an error. Connected, the
    /// datagrams that are a whole ANNOUNCE response and leave room in the
    /// buffer are a success, and no others; what else leaves room is an
    /// application error.
    pub fn announce(&self, received: Result<Vec<u8>, IoFailure>) -> (outcome: UdpTrackerClientResult<
        AnnounceResponse,
    >)
        ensures
            match announce_received(self.state(), received_view(received)) {
                Ok(response) => outcome is Ok && outcome->Ok_0@ == response,
                Err(error) => outcome is Err && outcome->Err_0@ == error,
            },
            outcome is Ok <==> self.state() is Connected && received is Ok && received->Ok_0.len() < BUFFER_LEN
                && is_announce_reply(received->Ok_0@),
            outcome is Ok ==> outcome->Ok_0@ == announce_response(received->Ok_0@),
            self.state() is Connected && received is Ok && received->Ok_0.len() < BUFFER_LEN
                && !is_announce_reply(received->Ok_0@) ==> outcome is Err && outcome->Err_0 is ApplicationError,
    {
        match self.state {
            SessionState::Unconnected => Err(
                UdpTrackerClientError::ApplicationError("You have to run connect first!"),
            ),
            SessionState::Connected { .. } => match received {
                Err(failure) => Err(UdpTrackerClientError::IoError(failure)),
                Ok(bytes) => {
                    if bytes.len() >= BUFFER_LEN {
                        Err(
                            UdpTrackerClientError::GeneralError(
                                "Failed to read the entire ANNOUNCE response. Buffer too small?",
                            ),
                        )
                    } else {
                        let reply = decode_reply(bytes.as_slice());
                        self.accept_announce(reply)
                    }
                },
            },
        }
    }

    /// A transaction id to tell a request's reply from others on the same
    /// socket: the low half of a hash of the current time. It is not meant
    /// to be hard to guess.
    pub fn create_random_transaction_id() -> (transaction_id: u32) {
        let mut hasher = DefaultHasher::new();
        let now = SystemTime::now();
        now.hash(&mut hasher);
        let digest: u64 = hasher.finish();
        Self::transaction_id_of(digest)
    }

    /// The transaction id that a digest gives: its low 32 bits.
    pub fn transaction_id_of(digest: u64) -> (transaction_id: u32)
        ensures
            transaction_id == digest % 0x1_0000_0000,
    {
        let low: u64 = digest & 0xffff_ffff;
        assert(low == digest % 0x1_0000_0000) by (bit_vector)
            requires
                low == digest & 0xffff_ffff,
        ;
        low as u32
    }
}

} // verus!
