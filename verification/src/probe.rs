//! The probe of one tracker address: connect, announce, and look for the
//! probe's own port among the peers that the tracker lists. A tracker that
//! lists it is taken to work; the probe then announces that it has stopped,
//! and does not care whether that is heard.
//!
//! The probe touches no socket. It is told what happened and answers with
//! what to do next: send a datagram, wait for one, or stop with the outcome.

use vstd::prelude::*;
use vstd::string::StringSliceAdditionalSpecFns;

use crate::tracker_check::{io_check_error, CheckError};
use crate::tracker_client::{
    announce_datagram, announce_response, received_view, session_after, AnnounceView, IoFailure,
    SessionState, UdpTrackerClient,
};
use crate::wire::{
    address_views, be_value, connect_frame, is_announce_reply, is_connect_reply, padded, sha1,
    sha1_digest, AddressView, AnnounceEvent, AnnounceRequest, RequestView, SocketAddress,
    SourceIp, BUFFER_LEN,
};

verus! {

/// How far a probe has come.
#[derive(Clone, Copy, Debug, PartialEq, Eq)]
pub enum ProbePhase {
    /// Nothing has happened yet.
    Ready,
    /// The CONNECT request is with the socket.
    SendingConnect,
    /// The reply to CONNECT is waited for.
    AwaitingConnect,
    /// The ANNOUNCE request is with the socket.
    SendingAnnounce,
    /// The reply to ANNOUNCE is waited for.
    AwaitingAnnounce,
    /// The tracker works; the request that takes the probe off its list is
    /// with the socket.
    SendingStop { latency_ms: u32 },
    /// The tracker works; the reply to that request is waited for.
    AwaitingStop { latency_ms: u32 },
    /// The probe is over.
    Finished { outcome: Result<u32, CheckError> },
}

/// What a probe is told.
#[derive(Debug, PartialEq, Eq)]
pub enum ProbeEvent {
    /// The probe may begin.
    Started,
    /// The socket has sent so many bytes of the datagram, or failed to.
    Sent(Result<usize, IoFailure>),
    /// The socket has received a datagram, or failed to in time.
    Received(Result<Vec<u8>, IoFailure>),
}

/// The mathematical value of a [`ProbeEvent`].
pub enum EventView {
    Started,
    Sent(Result<usize, IoFailure>),
    Received(Result<Seq<u8>, IoFailure>),
}

impl View for ProbeEvent {
    type V = EventView;

    open spec fn view(&self) -> EventView {
        match *self {
            ProbeEvent::Started => EventView::Started,
            ProbeEvent::Sent(sent) => EventView::Sent(sent),
            ProbeEvent::Received(received) => EventView::Received(received_view(received)),
        }
    }
}

/// What a probe asks for.
#[derive(Debug, PartialEq, Eq)]
pub enum ProbeAction {
    /// Send this datagram to the tracker, and tell how it went.
    Send(Vec<u8>),
    /// Wait so many seconds for a datagram from the tracker, and tell what
    /// came.
    Receive { timeout_secs: u64 },
    /// Nothing more: this is the outcome, the time in milliseconds that
    /// connect and announce took, or the reason for the failure.
    Finish(Result<u32, CheckError>),
}

/// The mathematical value of a [`ProbeAction`].
pub enum ActionView {
    Send(Seq<u8>),
    Receive { timeout_secs: u64 },
    Finish(Result<u32, CheckError>),
}

impl View for ProbeAction {
    type V = ActionView;

    open spec fn view(&self) -> ActionView {
        match *self {
            ProbeAction::Send(datagram) => ActionView::Send(datagram@),
            ProbeAction::Receive { timeout_secs } => ActionView::Receive { timeout_secs },
            ProbeAction::Finish(outcome) => ActionView::Finish(outcome),
        }
    }
}

/// The probe of one address.
#[derive(Clone, Copy, Debug)]
pub struct AddressProbe {
    client: UdpTrackerClient,
    source_ip: SourceIp,
    local_port: u16,
    phase: ProbePhase,
}

/// The mathematical value of an [`AddressProbe`].
pub struct ProbeView {
    /// Where the session with the tracker stands.
    pub session: SessionState,
    /// Seconds the probe waits for a reply.
    pub timeout: u64,
    /// The address family of the tracker's address.
    pub source_ip: SourceIp,
    /// The local port that the probe's socket is bound to.
    pub local_port: u16,
    /// How far the probe has come.
    pub phase: ProbePhase,
}

impl View for AddressProbe {
    type V = ProbeView;

    closed spec fn view(&self) -> ProbeView {
        ProbeView {
            session: self.client.state(),
            timeout: self.client.timeout(),
            source_ip: self.source_ip,
            local_port: self.local_port,
            phase: self.phase,
        }
    }
}

/// The name of the torrent that a probe announces. No such torrent exists.
pub open spec fn probe_torrent() -> Seq<u8> {
    "tracker_test".spec_bytes()
}

/// The name that a probe announces itself under.
pub open spec fn probe_peer() -> Seq<u8> {
    "tracker".spec_bytes()
}

/// The request that a probe announces with: the hashes of the two names,
/// nothing transferred, a hundred bytes left, and the probe's own port.
pub open spec fn probe_request(event: AnnounceEvent, source_ip: SourceIp, port: u16) -> RequestView {
    RequestView {
        info_hash: sha1_digest(probe_torrent()),
        peer_id: sha1_digest(probe_peer()),
        downloaded: 0,
        left: 100,
        uploaded: 0,
        event,
        source_ip,
        key: 0,
        num_want: -1i32,
        port,
    }
}

/// Whether some peer of the list has the given port.
pub open spec fn lists_port(peers: Seq<AddressView>, port: u16) -> bool {
    exists|k: int| 0 <= k < peers.len() && (#[trigger] peers[k]).port() == port
}

/// The address family that a probe of `address` announces.
pub open spec fn family_of(address: AddressView) -> SourceIp {
    match address {
        AddressView::V4 { .. } => SourceIp::ImpliedV4,
        AddressView::V6 { .. } => SourceIp::ImpliedV6,
    }
}

/// The probe at its end, and the action that says so.
pub open spec fn finish(probe: ProbeView, outcome: Result<u32, CheckError>) -> (ProbeView, ActionView) {
    (ProbeView { phase: ProbePhase::Finished { outcome }, ..probe }, ActionView::Finish(outcome))
}

/// The probe in another phase.
pub open spec fn in_phase(probe: ProbeView, phase: ProbePhase) -> ProbeView {
    ProbeView { phase, ..probe }
}

/// What the send of a request counts as: the whole buffer has to have gone
/// out at once.
pub open spec fn sent_result(sent: Result<usize, IoFailure>) -> Result<(), CheckError> {
    match sent {
        Err(failure) => Err(io_check_error(failure)),
        Ok(count) => if count == BUFFER_LEN {
            Ok(())
        } else {
            Err(CheckError::OperationalError)
        },
    }
}

/// What the answer to CONNECT counts as: the connection id of a datagram
/// that fits the buffer and begins with a whole CONNECT response; for
/// anything else that came, an operational error.
pub open spec fn connect_result(received: Result<Seq<u8>, IoFailure>) -> Result<u64, CheckError> {
    match received {
        Err(failure) => Err(io_check_error(failure)),
        Ok(bytes) => if bytes.len() <= BUFFER_LEN && is_connect_reply(bytes) {
            Ok(be_value(bytes.subrange(8, 16)) as u64)
        } else {
            Err(CheckError::OperationalError)
        },
    }
}

/// What the answer to ANNOUNCE counts as in a connected session: what a
/// datagram holds that leaves room in the buffer and is a whole ANNOUNCE
/// response; for anything else that came, an operational error.
pub open spec fn announce_result(received: Result<Seq<u8>, IoFailure>) -> Result<AnnounceView, CheckError> {
    match received {
        Err(failure) => Err(io_check_error(failure)),
        Ok(bytes) => if bytes.len() < BUFFER_LEN && is_announce_reply(bytes) {
            Ok(announce_response(bytes))
        } else {
            Err(CheckError::OperationalError)
        },
    }
}

/// What a probe does with the outcome of its CONNECT exchange. An error
/// ends it. A connection id lets it announce that it has started; zero is no
/// connection id, so that announce fails and ends the probe.
pub open spec fn after_connect(probe: ProbeView, outcome: Result<u64, CheckError>, transaction_id: u32) -> (
    ProbeView,
    ActionView,
) {
    match outcome {
        Err(error) => finish(probe, Err(error)),
        Ok(connection_id) => {
            let connected = ProbeView { session: session_after(connection_id), ..probe };
            let request = probe_request(AnnounceEvent::Started, probe.source_ip, probe.local_port);
            match announce_datagram(connected.session, transaction_id, request) {
                Ok(datagram) => (in_phase(connected, ProbePhase::SendingAnnounce), ActionView::Send(datagram)),
                Err(_) => finish(connected, Err(CheckError::OperationalError)),
            }
        },
    }
}

/// What a probe does with the outcome of its ANNOUNCE exchange. An error
/// ends it, and so does a response that does not list the probe's own port.
/// One that does shows that the tracker works: the time is taken, and the
/// probe announces that it has stopped.
pub open spec fn after_announce(
    probe: ProbeView,
    outcome: Result<AnnounceView, CheckError>,
    elapsed_ms: u32,
    transaction_id: u32,
) -> (ProbeView, ActionView) {
    match outcome {
        Err(error) => finish(probe, Err(error)),
        Ok(response) => if lists_port(response.peers, probe.local_port) {
            let request = probe_request(AnnounceEvent::Stopped, probe.source_ip, probe.local_port);
            match announce_datagram(probe.session, transaction_id, request) {
                Ok(datagram) => (
                    in_phase(probe, ProbePhase::SendingStop { latency_ms: elapsed_ms }),
                    ActionView::Send(datagram),
                ),
                Err(_) => finish(probe, Ok(elapsed_ms)),
            }
        } else {
            finish(probe, Err(CheckError::OperationalError))
        },
    }
}

/// What a probe becomes and asks for when it is told of an event.
/// `elapsed_ms` is the time since the probe began, `transaction_id` the id
/// for a request that the step may send.
///
/// A probe goes through its phases in order. Each send has to go out whole,
/// and each reply has to be the one that is due. Any failure before the
/// tracker is known to work ends the probe with what the failure counts as.
/// An announce reply that does not list the probe's port ends it with an
/// operational error. Once the tracker is known to work, the probe ends well
/// whatever happens to its last request. An event that is not due ends the
/// probe with an operational error. A probe that has ended stays as it is.
pub open spec fn probe_step(probe: ProbeView, event: EventView, elapsed_ms: u32, transaction_id: u32) -> (
    ProbeView,
    ActionView,
) {
    match probe.phase {
        ProbePhase::Finished { outcome } => (probe, ActionView::Finish(outcome)),
        ProbePhase::Ready => match event {
            EventView::Started => (
                in_phase(probe, ProbePhase::SendingConnect),
                ActionView::Send(padded(connect_frame(transaction_id))),
            ),
            _ => finish(probe, Err(CheckError::OperationalError)),
        },
        ProbePhase::SendingConnect => match event {
            EventView::Sent(sent) => match sent_result(sent) {
                Ok(_) => (
                    in_phase(probe, ProbePhase::AwaitingConnect),
                    ActionView::Receive { timeout_secs: probe.timeout },
                ),
                Err(error) => finish(probe, Err(error)),
            },
            _ => finish(probe, Err(CheckError::OperationalError)),
        },
        ProbePhase::AwaitingConnect => match event {
            EventView::Received(received) => after_connect(probe, connect_result(received), transaction_id),
            _ => finish(probe, Err(CheckError::OperationalError)),
        },
        ProbePhase::SendingAnnounce => match event {
            EventView::Sent(sent) => match sent_result(sent) {
                Ok(_) => (
                    in_phase(probe, ProbePhase::AwaitingAnnounce),
                    ActionView::Receive { timeout_secs: probe.timeout },
                ),
                Err(error) => finish(probe, Err(error)),
            },
            _ => finish(probe, Err(CheckError::OperationalError)),
        },
        ProbePhase::AwaitingAnnounce => match event {
            EventView::Received(received) => match probe.session {
                SessionState::Unconnected => finish(probe, Err(CheckError::OperationalError)),
                SessionState::Connected { .. } => after_announce(
                    probe,
                    announce_result(received),
                    elapsed_ms,
                    transaction_id,
                ),
            },
            _ => finish(probe, Err(CheckError::OperationalError)),
        },
        ProbePhase::SendingStop { latency_ms } => match event {
            EventView::Sent(sent) => match sent_result(sent) {
                Ok(_) => (
                    in_phase(probe, ProbePhase::AwaitingStop { latency_ms }),
                    ActionView::Receive { timeout_secs: probe.timeout },
                ),
                Err(_) => finish(probe, Ok(latency_ms)),
            },
            _ => finish(probe, Err(CheckError::OperationalError)),
        },
        ProbePhase::AwaitingStop { latency_ms } => match event {
            EventView::Received(_) => finish(probe, Ok(latency_ms)),
            _ => finish(probe, Err(CheckError::OperationalError)),
        },
    }
}

/// Whether a probe's session fits its phase: not connected until the reply
/// to CONNECT is in, connected from the first announce on.
pub open spec fn consistent(probe: ProbeView) -> bool {
    match probe.phase {
        ProbePhase::Ready => probe.session is Unconnected,
        ProbePhase::SendingConnect => probe.session is Unconnected,
        ProbePhase::AwaitingConnect => probe.session is Unconnected,
        ProbePhase::SendingAnnounce => probe.session is Connected,
        ProbePhase::AwaitingAnnounce => probe.session is Connected,
        ProbePhase::SendingStop { .. } => probe.session is Connected,
        ProbePhase::AwaitingStop { .. } => probe.session is Connected,
        ProbePhase::Finished { .. } => true,
    }
}

/// How many phases lie behind a probe.
pub open spec fn progress(phase: ProbePhase) -> nat {
    match phase {
        ProbePhase::Ready => 0,
        ProbePhase::SendingConnect => 1,
        ProbePhase::AwaitingConnect => 2,
        ProbePhase::SendingAnnounce => 3,
        ProbePhase::AwaitingAnnounce => 4,
        ProbePhase::SendingStop { .. } => 5,
        ProbePhase::AwaitingStop { .. } => 6,
        ProbePhase::Finished { .. } => 7,
    }
}

/// A session that fits its phase still does after a step.
pub proof fn lemma_step_keeps_consistent(probe: ProbeView, event: EventView, elapsed_ms: u32, transaction_id: u32)
    requires
        consistent(probe),
    ensures
        consistent(probe_step(probe, event, elapsed_ms, transaction_id).0),
{
}

/// Every step takes a probe that has not ended to a later phase, and asks
/// for nothing more exactly when the probe has ended: no exchange is tried
/// twice, and seven events end every probe.
pub proof fn lemma_step_advances(probe: ProbeView, event: EventView, elapsed_ms: u32, transaction_id: u32)
    requires
        !(probe.phase is Finished),
    ensures
        progress(probe_step(probe, event, elapsed_ms, transaction_id).0.phase) > progress(probe.phase),
        probe_step(probe, event, elapsed_ms, transaction_id).1 is Finish <==> probe_step(
            probe,
            event,
            elapsed_ms,
            transaction_id,
        ).0.phase is Finished,
{
}

/// A step changes nothing of a probe but its session and its phase.
pub proof fn lemma_step_keeps_settings(probe: ProbeView, event: EventView, elapsed_ms: u32, transaction_id: u32)
    ensures
        probe_step(probe, event, elapsed_ms, transaction_id).0.timeout == probe.timeout,
        probe_step(probe, event, elapsed_ms, transaction_id).0.source_ip == probe.source_ip,
        probe_step(probe, event, elapsed_ms, transaction_id).0.local_port == probe.local_port,
{
}

/// A probe that has ended stays as it is and repeats its outcome.
pub proof fn lemma_finished_is_final(probe: ProbeView, event: EventView, elapsed_ms: u32, transaction_id: u32)
    requires
        probe.phase is Finished,
    ensures
        probe_step(probe, event, elapsed_ms, transaction_id) == (
            probe,
            ActionView::Finish(probe.phase->Finished_outcome),
        ),
{
}

/// Whether the tracker is known to work: the probe's port was listed.
pub open spec fn accepted(phase: ProbePhase) -> bool {
    match phase {
        ProbePhase::SendingStop { .. } => true,
        ProbePhase::AwaitingStop { .. } => true,
        ProbePhase::Finished { outcome } => outcome is Ok,
        _ => false,
    }
}

/// A tracker comes to be known to work in one way only: by an announce reply
/// that lists the probe's own port. The time taken is the time of that
/// reply.
pub proof fn lemma_accepted_by_own_port(probe: ProbeView, event: EventView, elapsed_ms: u32, transaction_id: u32)
    requires
        !accepted(probe.phase),
        accepted(probe_step(probe, event, elapsed_ms, transaction_id).0.phase),
    ensures
        probe.phase is AwaitingAnnounce,
        probe.session is Connected,
        event is Received,
        announce_result(event->Received_0) is Ok,
        lists_port(announce_result(event->Received_0)->Ok_0.peers, probe.local_port),
        match probe_step(probe, event, elapsed_ms, transaction_id).0.phase {
            ProbePhase::SendingStop { latency_ms } => latency_ms == elapsed_ms,
            ProbePhase::Finished { outcome } => outcome == Ok::<u32, CheckError>(elapsed_ms),
            _ => false,
        },
{
}

/// Once the tracker is known to work, the probe ends well whatever happens:
/// every later step keeps the time taken, and an outcome is that time.
pub proof fn lemma_accepted_stays(probe: ProbeView, event: EventView, elapsed_ms: u32, transaction_id: u32)
    requires
        probe.phase matches ProbePhase::SendingStop { latency_ms } || probe.phase matches ProbePhase::AwaitingStop {
            latency_ms,
        },
    ensures
        ({
            let latency = match probe.phase {
                ProbePhase::SendingStop { latency_ms } => latency_ms,
                ProbePhase::AwaitingStop { latency_ms } => latency_ms,
                _ => 0,
            };
            let after = probe_step(probe, event, elapsed_ms, transaction_id);
            ||| after.0.phase == (ProbePhase::AwaitingStop { latency_ms: latency })
            ||| after.0.phase == (ProbePhase::Finished { outcome: Ok(latency) })
            ||| (!(probe.phase is SendingStop && event is Sent) && !(probe.phase is AwaitingStop && event is Received)
                && after.0.phase == (ProbePhase::Finished { outcome: Err(CheckError::OperationalError) }))
        }),
{
}

/// A probe that waits for a reply and gets none in time ends with a
/// timeout, as long as the tracker is not yet known to work.
pub proof fn lemma_silence_times_out(probe: ProbeView, elapsed_ms: u32, transaction_id: u32)
    requires
        probe.phase is AwaitingConnect || (probe.phase is AwaitingAnnounce && probe.session is Connected),
    ensures
        probe_step(probe, EventView::Received(Err(IoFailure::TimedOut)), elapsed_ms, transaction_id) == finish(
            probe,
            Err(CheckError::Timeout),
        ),
{
}

/// A reply whose action is not that of the request it answers ends the
/// probe with an operational error: the reply to CONNECT has to have
/// action 0, the reply to ANNOUNCE action 1 or 4.
pub proof fn lemma_wrong_action_is_refused(
    probe: ProbeView,
    bytes: Seq<u8>,
    elapsed_ms: u32,
    transaction_id: u32,
)
    requires
        probe.phase is AwaitingConnect || probe.phase is AwaitingAnnounce,
        probe.phase is AwaitingConnect ==> be_value(bytes.subrange(0, 4)) != 0,
        probe.phase is AwaitingAnnounce ==> be_value(bytes.subrange(0, 4)) != 1 && be_value(bytes.subrange(0, 4))
            != 4,
    ensures
        probe_step(probe, EventView::Received(Ok(bytes)), elapsed_ms, transaction_id) == finish(
            probe,
            Err(CheckError::OperationalError),
        ),
{
}

/// A probe sends an ANNOUNCE request only under a connection id that the
/// tracker handed out: the first one right after a CONNECT response with an
/// id that is not zero, the last one in a session that is connected.
pub proof fn lemma_announce_follows_connect(
    probe: ProbeView,
    event: EventView,
    elapsed_ms: u32,
    transaction_id: u32,
)
    requires
        !(probe.phase is Ready),
        probe_step(probe, event, elapsed_ms, transaction_id).1 is Send,
    ensures
        probe_step(probe, event, elapsed_ms, transaction_id).0.session is Connected,
        probe.phase is AwaitingConnect ==> event is Received && connect_result(event->Received_0) is Ok
            && connect_result(event->Received_0)->Ok_0 != 0,
        probe.phase is AwaitingAnnounce ==> probe.session is Connected,
{
}

/// The request that a probe announces with.
pub fn probe_announce(event: AnnounceEvent, source_ip: SourceIp, port: u16) -> (request: AnnounceRequest)
    ensures
        request@ == probe_request(event, source_ip, port),
{
    AnnounceRequest {
        info_hash: sha1("tracker_test".as_bytes()),
        peer_id: sha1("tracker".as_bytes()),
        downloaded: 0,
        left: 100,
        uploaded: 0,
        event,
        source_ip,
        key: 0,
        num_want: -1,
        port,
    }
}

/// Whether some peer of the list has the given port.
pub fn lists_local_port(peers: &Vec<SocketAddress>, port: u16) -> (listed: bool)
    ensures
        listed == lists_port(address_views(peers@), port),
{
    let mut index: usize = 0;
    while index < peers.len()
        invariant
            index <= peers.len(),
            forall|k: int| 0 <= k < index ==> (#[trigger] address_views(peers@)[k]).port() != port,
        decreases peers.len() - index,
    {
        if peers[index].port() == port {
            assert(address_views(peers@)[index as int].port() == port);
            return true;
        }
        index += 1;
    }
    false
}

/// The local address to bind the socket of a probe to: any address and any
/// port, in the address family of the tracker's address.
pub fn bind_address(address: &SocketAddress) -> (local: &'static str)
    ensures
        local@ == if address@ is V6 {
            "[::]:0"@
        } else {
            "0.0.0.0:0"@
        },
{
    match address {
        SocketAddress::V4 { .. } => "0.0.0.0:0",
        SocketAddress::V6 { .. } => "[::]:0",
    }
}

impl AddressProbe {
    /// A probe of the tracker at `address`, through a socket bound to
    /// `local_port`. Its session is not connected yet.
    pub fn new(address: &SocketAddress, local_port: u16) -> (probe: AddressProbe)
        ensures
            probe@ == (ProbeView {
                session: SessionState::Unconnected,
                timeout: crate::tracker_client::REPLY_TIMEOUT_SECS,
                source_ip: family_of(address@),
                local_port,
                phase: ProbePhase::Ready,
            }),
    {
        let source_ip = match address {
            SocketAddress::V4 { .. } => SourceIp::ImpliedV4,
            SocketAddress::V6 { .. } => SourceIp::ImpliedV6,
        };
        AddressProbe { client: UdpTrackerClient::new(), source_ip, local_port, phase: ProbePhase::Ready }
    }

    /// How far the probe has come.
    pub fn phase(&self) -> (phase: ProbePhase)
        ensures
            phase == self@.phase,
    {
        self.phase
    }

    /// Where the probe's session stands.
    pub fn session(&self) -> (session: SessionState)
        ensures
            session == self@.session,
    {
        self.client.session()
    }

    /// Ends the probe.
    fn end(&mut self, outcome: Result<u32, CheckError>) -> (action: ProbeAction)
        ensures
            (final(self)@, action@) == finish(old(self)@, outcome),
    {
        self.phase = ProbePhase::Finished { outcome };
        ProbeAction::Finish(outcome)
    }

    /// Tells the probe of an event and returns what to do next.
    /// `elapsed_ms` is the time since the probe began; a request that the
    /// step sends carries `transaction_id`.
    pub fn step_with(&mut self, event: ProbeEvent, elapsed_ms: u32, transaction_id: u32) -> (action: ProbeAction)
        ensures
            (final(self)@, action@) == probe_step(old(self)@, event@, elapsed_ms, transaction_id),
    {
        match self.phase {
            ProbePhase::Finished { outcome } => ProbeAction::Finish(outcome),
            ProbePhase::Ready => match event {
                ProbeEvent::Started => {
                    let datagram = self.client.connect_request_with(transaction_id);
                    self.phase = ProbePhase::SendingConnect;
                    ProbeAction::Send(datagram)
                },
                _ => self.end(Err(CheckError::OperationalError)),
            },
            ProbePhase::SendingConnect => match event {
                ProbeEvent::Sent(sent) => match self.client.connect_sent(sent) {
                    Ok(_) => {
                        self.phase = ProbePhase::AwaitingConnect;
                        ProbeAction::Receive { timeout_secs: self.client.timeout_secs() }
                    },
                    Err(error) => self.end(Err(CheckError::from(error))),
                },
                _ => self.end(Err(CheckError::OperationalError)),
            },
            ProbePhase::AwaitingConnect => match event {
                ProbeEvent::Received(received) => match self.client.connect(received) {
                    Err(error) => self.end(Err(CheckError::from(error))),
                    Ok(_) => {
                        let request = probe_announce(AnnounceEvent::Started, self.source_ip, self.local_port);
                        match self.client.announce_request_with(&request, transaction_id) {
                            Ok(datagram) => {
                                self.phase = ProbePhase::SendingAnnounce;
                                ProbeAction::Send(datagram)
                            },
                            Err(error) => self.end(Err(CheckError::from(error))),
                        }
                    },
                },
                _ => self.end(Err(CheckError::OperationalError)),
            },
            ProbePhase::SendingAnnounce => match event {
                ProbeEvent::Sent(sent) => match self.client.announce_sent(sent) {
                    Ok(_) => {
                        self.phase = ProbePhase::AwaitingAnnounce;
                        ProbeAction::Receive { timeout_secs: self.client.timeout_secs() }
                    },
                    Err(error) => self.end(Err(CheckError::from(error))),
                },
                _ => self.end(Err(CheckError::OperationalError)),
            },
            ProbePhase::AwaitingAnnounce => match event {
                ProbeEvent::Received(received) => match self.client.announce(received) {
                    Err(error) => self.end(Err(CheckError::from(error))),
                    Ok(response) => {
                        if lists_local_port(&response.peers, self.local_port) {
                            let request = probe_announce(AnnounceEvent::Stopped, self.source_ip, self.local_port);
                            match self.client.announce_request_with(&request, transaction_id) {
                                Ok(datagram) => {
                                    self.phase = ProbePhase::SendingStop { latency_ms: elapsed_ms };
                                    ProbeAction::Send(datagram)
                                },
                                Err(_) => self.end(Ok(elapsed_ms)),
                            }
                        } else {
                            self.end(Err(CheckError::OperationalError))
                        }
                    },
                },
                _ => self.end(Err(CheckError::OperationalError)),
            },
            ProbePhase::SendingStop { latency_ms } => match event {
                ProbeEvent::Sent(sent) => match self.client.announce_sent(sent) {
                    Ok(_) => {
                        self.phase = ProbePhase::AwaitingStop { latency_ms };
                        ProbeAction::Receive { timeout_secs: self.client.timeout_secs() }
                    },
                    Err(_) => self.end(Ok(latency_ms)),
                },
                _ => self.end(Err(CheckError::OperationalError)),
            },
            ProbePhase::AwaitingStop { latency_ms } => match event {
                ProbeEvent::Received(_) => self.end(Ok(latency_ms)),
                _ => self.end(Err(CheckError::OperationalError)),
            },
        }
    }

    /// Tells the probe of an event and returns what to do next. A request
    /// that the step sends carries a fresh transaction id.
    pub fn step(&mut self, event: ProbeEvent, elapsed_ms: u32) -> (action: ProbeAction)
        ensures
            exists|transaction_id: u32|
                (final(self)@, action@) == #[trigger] probe_step(old(self)@, event@, elapsed_ms, transaction_id),
    {
        let transaction_id: u32 = UdpTrackerClient::create_random_transaction_id();
        self.step_with(event, elapsed_ms, transaction_id)
    }
}

} // verus!
