use tracker_checker::tracker_client::{
    IoFailure, SessionState, UdpTrackerClient, UdpTrackerClientError, REPLY_TIMEOUT_SECS,
};
use tracker_checker::wire::{
    peers_from_compact, AnnounceEvent, AnnounceRequest, SocketAddress, SourceIp, TrackerReply,
    BUFFER_LEN,
};

fn connect_reply(connection_id: u64) -> Vec<u8> {
    let mut bytes = vec![0, 0, 0, 0, 0xde, 0xad, 0xbe, 0xef];
    bytes.extend_from_slice(&connection_id.to_be_bytes());
    bytes
}

fn announce_reply(action: u32, interval: i32, leechers: i32, seeders: i32, peers: &[u8]) -> Vec<u8> {
    let mut bytes = Vec::new();
    bytes.extend_from_slice(&action.to_be_bytes());
    bytes.extend_from_slice(&[0xde, 0xad, 0xbe, 0xef]);
    bytes.extend_from_slice(&interval.to_be_bytes());
    bytes.extend_from_slice(&leechers.to_be_bytes());
    bytes.extend_from_slice(&seeders.to_be_bytes());
    bytes.extend_from_slice(peers);
    bytes
}

fn connected(connection_id: u64) -> UdpTrackerClient {
    let mut client = UdpTrackerClient::new();
    client.connect(Ok(connect_reply(connection_id))).unwrap();
    client
}

fn sample_request(source_ip: SourceIp, event: AnnounceEvent) -> AnnounceRequest {
    AnnounceRequest {
        info_hash: [0x11; 20],
        peer_id: [0x22; 20],
        downloaded: 1,
        left: -2,
        uploaded: 3,
        event,
        source_ip,
        key: 0x0a0b0c0d,
        num_want: -1,
        port: 0x1f90,
    }
}

fn application(outcome: Result<(), UdpTrackerClientError>) -> &'static str {
    match outcome {
        Err(UdpTrackerClientError::ApplicationError(message)) => message,
        other => panic!("no application error: {:?}", other),
    }
}

fn general<T: std::fmt::Debug>(outcome: Result<T, UdpTrackerClientError>) -> &'static str {
    match outcome {
        Err(UdpTrackerClientError::GeneralError(message)) => message,
        other => panic!("no general error: {:?}", other),
    }
}

#[test]
fn new_session_is_unconnected_and_waits_five_seconds() {
    let client = UdpTrackerClient::new();
    assert_eq!(client.session(), SessionState::Unconnected);
    assert!(!client.is_connected());
    assert_eq!(client.timeout_secs(), 5);
    assert_eq!(REPLY_TIMEOUT_SECS, 5);
    assert_eq!(BUFFER_LEN, 1024);
}

#[test]
fn connect_request_is_the_padded_frame() {
    let client = UdpTrackerClient::new();
    let datagram = client.connect_request_with(0x01020304);
    assert_eq!(datagram.len(), 1024);
    assert_eq!(
        &datagram[..16],
        &[0, 0, 0x04, 0x17, 0x27, 0x10, 0x19, 0x80, 0, 0, 0, 0, 1, 2, 3, 4]
    );
    assert!(datagram[16..].iter().all(|byte| *byte == 0));
}

#[test]
fn connect_request_with_a_fresh_id_is_a_connect_frame() {
    let client = UdpTrackerClient::new();
    let datagram = client.connect_request();
    assert_eq!(datagram.len(), 1024);
    assert_eq!(&datagram[..12], &[0, 0, 0x04, 0x17, 0x27, 0x10, 0x19, 0x80, 0, 0, 0, 0]);
    assert!(datagram[16..].iter().all(|byte| *byte == 0));
    let _: u32 = UdpTrackerClient::create_random_transaction_id();
}

#[test]
fn a_send_has_to_go_out_whole() {
    let client = UdpTrackerClient::new();
    assert!(client.connect_sent(Ok(1024)).is_ok());
    assert!(client.announce_sent(Ok(1024)).is_ok());
    assert_eq!(general(client.connect_sent(Ok(16))), "Failed to send the entire CONNECT request");
    assert_eq!(general(client.connect_sent(Ok(0))), "Failed to send the entire CONNECT request");
    assert_eq!(general(client.connect_sent(Ok(1025))), "Failed to send the entire CONNECT request");
    assert_eq!(general(client.announce_sent(Ok(99))), "Failed to send the entire ANNOUNCE request");
    assert!(matches!(
        client.connect_sent(Err(IoFailure::Other)),
        Err(UdpTrackerClientError::IoError(IoFailure::Other))
    ));
    assert!(matches!(
        client.announce_sent(Err(IoFailure::TimedOut)),
        Err(UdpTrackerClientError::IoError(IoFailure::TimedOut))
    ));
}

#[test]
fn connect_on_a_connect_response_connects() {
    let mut client = UdpTrackerClient::new();
    let outcome = client.connect(Ok(connect_reply(0x0102030405060708)));
    assert!(outcome.is_ok());
    assert!(client.is_connected());
    assert_eq!(
        client.session(),
        SessionState::Connected { connection_id: 0x0102030405060708 }
    );
}

#[test]
fn connect_takes_a_response_with_bytes_after_it() {
    let mut client = UdpTrackerClient::new();
    let mut reply = connect_reply(9);
    reply.extend_from_slice(&[1, 2, 3]);
    assert!(client.connect(Ok(reply)).is_ok());
    assert_eq!(client.session(), SessionState::Connected { connection_id: 9 });
    let mut full = connect_reply(10);
    full.resize(1024, 0);
    assert!(client.connect(Ok(full)).is_ok());
    assert_eq!(client.session(), SessionState::Connected { connection_id: 10 });
}

#[test]
fn connection_id_zero_is_no_connection() {
    let mut client = connected(5);
    assert!(client.connect(Ok(connect_reply(0))).is_ok());
    assert_eq!(client.session(), SessionState::Unconnected);
    let request = sample_request(SourceIp::ImpliedV4, AnnounceEvent::Started);
    assert!(matches!(
        client.announce_request_with(&request, 1),
        Err(UdpTrackerClientError::ApplicationError("You have to run connect first!"))
    ));
}

#[test]
fn connect_refuses_every_other_reply_and_keeps_its_state() {
    let mut client = connected(5);
    let announce = announce_reply(1, 1800, 1, 2, &[]);
    assert_eq!(
        application(client.connect(Ok(announce))),
        "Expected CONNECT response, got ANNOUNCE response"
    );
    assert_eq!(
        application(client.connect(Ok(vec![0, 0, 0, 2, 0, 0, 0, 1]))),
        "Expected CONNECT response, got SCRAPE response"
    );
    assert_eq!(
        application(client.connect(Ok(vec![0, 0, 0, 3, 0, 0, 0, 1, b'n', b'o']))),
        "Expected CONNECT response, got ERROR response"
    );
    assert_eq!(
        application(client.connect(Ok(vec![0, 0, 0, 0, 0, 0, 0, 1, 9, 9]))),
        "Incomplete CONNECT response"
    );
    assert_eq!(application(client.connect(Ok(vec![]))), "Incomplete CONNECT response");
    assert_eq!(
        application(client.connect(Ok(vec![0, 0, 0, 9, 0, 0, 0, 1, 1, 2, 3, 4, 5, 6, 7, 8]))),
        "Unknown CONNECT response error"
    );
    assert_eq!(
        general(client.connect(Ok(vec![0; 1025]))),
        "Failed to read the entire CONNECT response. Buffer too small?"
    );
    assert!(matches!(
        client.connect(Err(IoFailure::TimedOut)),
        Err(UdpTrackerClientError::IoError(IoFailure::TimedOut))
    ));
    assert!(matches!(
        client.connect(Err(IoFailure::Other)),
        Err(UdpTrackerClientError::IoError(IoFailure::Other))
    ));
    assert_eq!(client.session(), SessionState::Connected { connection_id: 5 });
}

#[test]
fn accept_connect_goes_by_the_kind_of_reply() {
    let mut client = UdpTrackerClient::new();
    assert_eq!(
        application(client.accept_connect(TrackerReply::Scrape)),
        "Expected CONNECT response, got SCRAPE response"
    );
    assert_eq!(
        application(client.accept_connect(TrackerReply::Error)),
        "Expected CONNECT response, got ERROR response"
    );
    assert_eq!(
        application(client.accept_connect(TrackerReply::Incomplete)),
        "Incomplete CONNECT response"
    );
    assert_eq!(
        application(client.accept_connect(TrackerReply::Malformed)),
        "Unknown CONNECT response error"
    );
    assert_eq!(client.session(), SessionState::Unconnected);
    assert!(client.accept_connect(TrackerReply::Connect(3)).is_ok());
    assert_eq!(client.session(), SessionState::Connected { connection_id: 3 });
}

#[test]
fn announce_request_lays_out_every_field() {
    let client = connected(0x0102030405060708);
    let request = sample_request(SourceIp::ImpliedV4, AnnounceEvent::Started);
    let datagram = client.announce_request_with(&request, 0xa1a2a3a4).unwrap();
    let mut expected = vec![1, 2, 3, 4, 5, 6, 7, 8, 0, 0, 0, 1, 0xa1, 0xa2, 0xa3, 0xa4];
    expected.extend_from_slice(&[0x11; 20]);
    expected.extend_from_slice(&[0x22; 20]);
    expected.extend_from_slice(&[0, 0, 0, 0, 0, 0, 0, 1]);
    expected.extend_from_slice(&[0xff, 0xff, 0xff, 0xff, 0xff, 0xff, 0xff, 0xfe]);
    expected.extend_from_slice(&[0, 0, 0, 0, 0, 0, 0, 3]);
    expected.extend_from_slice(&[0, 0, 0, 2]);
    expected.extend_from_slice(&[0, 0, 0, 0]);
    expected.extend_from_slice(&[0x0a, 0x0b, 0x0c, 0x0d]);
    expected.extend_from_slice(&[0xff, 0xff, 0xff, 0xff]);
    expected.extend_from_slice(&[0x1f, 0x90]);
    expected.push(0);
    assert_eq!(expected.len(), 99);
    expected.resize(1024, 0);
    assert_eq!(datagram, expected);
}

#[test]
fn announce_request_for_ipv6_has_its_own_action_and_a_longer_address() {
    let client = connected(1);
    let mut request = sample_request(SourceIp::ImpliedV6, AnnounceEvent::Stopped);
    request.num_want = 50;
    request.downloaded = i64::MIN;
    let datagram = client.announce_request_with(&request, 2).unwrap();
    assert_eq!(&datagram[..16], &[0, 0, 0, 0, 0, 0, 0, 1, 0, 0, 0, 4, 0, 0, 0, 2]);
    assert_eq!(&datagram[56..64], &[0x80, 0, 0, 0, 0, 0, 0, 0]);
    assert_eq!(&datagram[80..84], &[0, 0, 0, 3]);
    assert_eq!(&datagram[84..100], &[0; 16]);
    assert_eq!(&datagram[100..104], &[0x0a, 0x0b, 0x0c, 0x0d]);
    assert_eq!(&datagram[104..108], &[0, 0, 0, 50]);
    assert_eq!(&datagram[108..110], &[0x1f, 0x90]);
    assert!(datagram[110..].iter().all(|byte| *byte == 0));
    assert_eq!(datagram.len(), 1024);
}

#[test]
fn announce_request_carries_each_event() {
    let client = connected(1);
    let codes = [
        (AnnounceEvent::Unspecified, 0),
        (AnnounceEvent::Completed, 1),
        (AnnounceEvent::Started, 2),
        (AnnounceEvent::Stopped, 3),
    ];
    for (event, code) in codes {
        let request = sample_request(SourceIp::ImpliedV4, event);
        let datagram = client.announce_request_with(&request, 0).unwrap();
        assert_eq!(&datagram[80..84], &[0, 0, 0, code]);
    }
    let request = sample_request(SourceIp::ImpliedV4, AnnounceEvent::Started);
    let fresh = client.announce_request(&request).unwrap();
    assert_eq!(&fresh[..12], &[0, 0, 0, 0, 0, 0, 0, 1, 0, 0, 0, 1]);
    assert_eq!(&fresh[16..36], &[0x11; 20]);
}

#[test]
fn announce_before_connect_is_an_application_error() {
    let client = UdpTrackerClient::new();
    let request = sample_request(SourceIp::ImpliedV4, AnnounceEvent::Started);
    match client.announce_request_with(&request, 7) {
        Err(UdpTrackerClientError::ApplicationError(message)) => {
            assert_eq!(message, "You have to run connect first!")
        }
        other => panic!("unexpected outcome {:?}", other),
    }
    assert!(matches!(
        client.announce_request(&request),
        Err(UdpTrackerClientError::ApplicationError("You have to run connect first!"))
    ));
    let reply = announce_reply(1, 1800, 1, 2, &[]);
    for received in [Ok(reply), Err(IoFailure::TimedOut), Err(IoFailure::Other)] {
        match client.announce(received) {
            Err(UdpTrackerClientError::ApplicationError(message)) => {
                assert_eq!(message, "You have to run connect first!")
            }
            other => panic!("unexpected outcome {:?}", other),
        }
    }
    assert_eq!(client.session(), SessionState::Unconnected);
}

#[test]
fn announce_reads_counters_and_peers() {
    let client = connected(1);
    let peers = [10, 0, 0, 1, 0x1a, 0xe1, 192, 168, 1, 2, 0xff, 0xff];
    let response = client.announce(Ok(announce_reply(1, 1800, -1, 7, &peers))).unwrap();
    assert_eq!(response.interval, 1800);
    assert_eq!(response.leechers, -1);
    assert_eq!(response.seeders, 7);
    assert_eq!(
        response.peers,
        vec![
            SocketAddress::V4 { ip: [10, 0, 0, 1], port: 6881 },
            SocketAddress::V4 { ip: [192, 168, 1, 2], port: 65535 },
        ]
    );
    let empty = client.announce(Ok(announce_reply(1, 0, 0, 0, &[]))).unwrap();
    assert!(empty.peers.is_empty());
    assert!(client.is_connected());
}

#[test]
fn announce_reads_ipv6_peers() {
    let client = connected(1);
    let mut peers = vec![0x20, 0x01, 0x0d, 0xb8, 0, 0, 0, 0, 0, 0, 0, 0, 0, 0, 0, 1];
    peers.extend_from_slice(&[0x1a, 0xe1]);
    let response = client.announce(Ok(announce_reply(4, 60, 3, 4, &peers))).unwrap();
    assert_eq!(response.interval, 60);
    assert_eq!(
        response.peers,
        vec![SocketAddress::V6 {
            ip: [0x20, 0x01, 0x0d, 0xb8, 0, 0, 0, 0, 0, 0, 0, 0, 0, 0, 0, 1],
            port: 6881,
            flowinfo: 0,
            scope_id: 0,
        }]
    );
}

#[test]
fn announce_refuses_every_other_reply() {
    let client = connected(1);
    let message = |received| match client.announce(received) {
        Err(UdpTrackerClientError::ApplicationError(message)) => message,
        other => panic!("no application error: {:?}", other),
    };
    assert_eq!(
        message(Ok(connect_reply(3))),
        "Expected ANNOUNCE response, got CONNECT response"
    );
    assert_eq!(
        message(Ok(vec![0, 0, 0, 2, 0, 0, 0, 1])),
        "Expected ANNOUNCE response, got SCRAPE response"
    );
    assert_eq!(
        message(Ok(vec![0, 0, 0, 3, 0, 0, 0, 1, b'n', b'o'])),
        "Expected ANNOUNCE response, got ERROR response"
    );
    assert_eq!(
        message(Ok(announce_reply(1, 1, 1, 1, &[1, 2, 3, 4, 5]))),
        "Incomplete ANNOUNCE response"
    );
    assert_eq!(
        message(Ok(announce_reply(4, 1, 1, 1, &[1, 2, 3, 4, 5, 6]))),
        "Incomplete ANNOUNCE response"
    );
    assert_eq!(message(Ok(vec![0, 0, 0, 1])), "Incomplete ANNOUNCE response");
    assert_eq!(
        message(Ok(vec![0, 0, 0, 7, 0, 0, 0, 1])),
        "Unknown ANNOUNCE response error"
    );
    assert_eq!(
        general(client.announce(Ok(vec![0; 1024]))),
        "Failed to read the entire ANNOUNCE response. Buffer too small?"
    );
    assert!(matches!(
        client.announce(Err(IoFailure::TimedOut)),
        Err(UdpTrackerClientError::IoError(IoFailure::TimedOut))
    ));
    assert!(matches!(
        client.announce(Err(IoFailure::Other)),
        Err(UdpTrackerClientError::IoError(IoFailure::Other))
    ));
}

#[test]
fn announce_takes_a_reply_one_short_of_the_buffer() {
    let client = connected(1);
    let peers = vec![7u8; 1002];
    let reply = announce_reply(1, 1, 2, 3, &peers);
    assert_eq!(reply.len(), 1022);
    let response = client.announce(Ok(reply)).unwrap();
    assert_eq!(response.peers.len(), 167);
    assert_eq!(response.peers[166], SocketAddress::V4 { ip: [7; 4], port: 0x0707 });
}

#[test]
fn accept_announce_goes_by_the_kind_of_reply() {
    let client = UdpTrackerClient::new();
    let reply = TrackerReply::Announce {
        interval: 5,
        leechers: 6,
        seeders: 7,
        ipv6: false,
        peers: vec![1, 2, 3, 4, 0, 80, 9, 9],
    };
    let response = client.accept_announce(reply).unwrap();
    assert_eq!((response.interval, response.leechers, response.seeders), (5, 6, 7));
    assert_eq!(response.peers, vec![SocketAddress::V4 { ip: [1, 2, 3, 4], port: 80 }]);
    assert!(matches!(
        client.accept_announce(TrackerReply::Connect(1)),
        Err(UdpTrackerClientError::ApplicationError("Expected ANNOUNCE response, got CONNECT response"))
    ));
    assert!(matches!(
        client.accept_announce(TrackerReply::Incomplete),
        Err(UdpTrackerClientError::ApplicationError("Incomplete ANNOUNCE response"))
    ));
    assert!(matches!(
        client.accept_announce(TrackerReply::Malformed),
        Err(UdpTrackerClientError::ApplicationError("Unknown ANNOUNCE response error"))
    ));
}

#[test]
fn compact_peers_are_read_in_whole_entries() {
    assert!(peers_from_compact(&[], false).is_empty());
    assert!(peers_from_compact(&[1, 2, 3, 4, 5], false).is_empty());
    let v4 = peers_from_compact(&[1, 2, 3, 4, 1, 0, 5, 6, 7, 8, 0, 1, 9], false);
    assert_eq!(
        v4,
        vec![
            SocketAddress::V4 { ip: [1, 2, 3, 4], port: 256 },
            SocketAddress::V4 { ip: [5, 6, 7, 8], port: 1 },
        ]
    );
    let bytes: Vec<u8> = (1..=18).collect();
    let v6 = peers_from_compact(&bytes, true);
    assert_eq!(
        v6,
        vec![SocketAddress::V6 {
            ip: [1, 2, 3, 4, 5, 6, 7, 8, 9, 10, 11, 12, 13, 14, 15, 16],
            port: 17 * 256 + 18,
            flowinfo: 0,
            scope_id: 0,
        }]
    );
    assert_eq!(v6[0].port(), 4370);
    assert!(v6[0].is_ipv6());
    assert!(!v4[0].is_ipv6());
    assert_eq!(peers_from_compact(&bytes, false).len(), 3);
}

#[test]
fn replies_are_told_apart_by_action_and_length() {
    let actions: [u32; 9] = [0, 1, 2, 3, 4, 5, 0x0100_0000, 0x0000_0100, u32::MAX];
    for action in actions {
        for length in 0..80usize {
            let mut bytes = action.to_be_bytes().to_vec();
            bytes.extend((4..80).map(|index| (index * 7 + 3) as u8));
            bytes.truncate(length);

            let is_connect = length >= 16 && action == 0;
            let mut client = UdpTrackerClient::new();
            let outcome = client.connect(Ok(bytes.clone()));
            assert_eq!(outcome.is_ok(), is_connect, "action {} length {}", action, length);
            if is_connect {
                let mut id = [0u8; 8];
                id.copy_from_slice(&bytes[8..16]);
                assert_eq!(
                    client.session(),
                    SessionState::Connected { connection_id: u64::from_be_bytes(id) }
                );
            } else {
                assert!(matches!(outcome, Err(UdpTrackerClientError::ApplicationError(_))));
                assert_eq!(client.session(), SessionState::Unconnected);
            }

            let is_announce = length >= 20
                && ((action == 1 && (length - 20) % 6 == 0) || (action == 4 && (length - 20) % 18 == 0));
            let outcome = connected(1).announce(Ok(bytes.clone()));
            assert_eq!(outcome.is_ok(), is_announce, "action {} length {}", action, length);
            match outcome {
                Ok(response) => {
                    let number = |at: usize| i32::from_be_bytes([bytes[at], bytes[at + 1], bytes[at + 2], bytes[at + 3]]);
                    assert_eq!(response.interval, number(8));
                    assert_eq!(response.leechers, number(12));
                    assert_eq!(response.seeders, number(16));
                    assert_eq!(response.peers, peers_from_compact(&bytes[20..], action == 4));
                    assert_eq!(response.peers.len(), (length - 20) / if action == 4 { 18 } else { 6 });
                }
                Err(error) => assert!(matches!(error, UdpTrackerClientError::ApplicationError(_))),
            }
        }
    }
}

#[test]
fn a_transaction_id_is_the_low_half_of_a_digest() {
    assert_eq!(UdpTrackerClient::transaction_id_of(0), 0);
    assert_eq!(UdpTrackerClient::transaction_id_of(5), 5);
    assert_eq!(UdpTrackerClient::transaction_id_of(0xffff_ffff), 0xffff_ffff);
    assert_eq!(UdpTrackerClient::transaction_id_of(0x1_0000_0000), 0);
    assert_eq!(UdpTrackerClient::transaction_id_of(0x0123_4567_89ab_cdef), 0x89ab_cdef);
    assert_eq!(UdpTrackerClient::transaction_id_of(u64::MAX), u32::MAX);
}
