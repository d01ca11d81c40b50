use tracker_checker::candidates::{TrackerCandidate, TransportType};
use tracker_checker::tracker_check::{
    check_udp_candidate, classify, lookup_target, AddressReport, CheckError,
};
use tracker_checker::tracker_client::{IoFailure, UdpTrackerClientError};
use tracker_checker::wire::SocketAddress;

fn address(last: u8) -> SocketAddress {
    SocketAddress::V4 { ip: [192, 0, 2, last], port: 6969 }
}

fn reports(outcomes: &[Result<u32, CheckError>]) -> Vec<AddressReport> {
    outcomes
        .iter()
        .enumerate()
        .map(|(index, outcome)| AddressReport { address: address(index as u8), outcome: *outcome })
        .collect()
}

fn candidate() -> TrackerCandidate {
    TrackerCandidate {
        host: String::from("tracker.example.org"),
        port: 6969,
        transport_type: TransportType::UDP,
        suffix: None,
    }
}

const TIMEOUT: Result<u32, CheckError> = Err(CheckError::Timeout);
const OPERATIONAL: Result<u32, CheckError> = Err(CheckError::OperationalError);

#[test]
fn operational_error_outranks_timeout() {
    assert_eq!(classify(&reports(&[OPERATIONAL, TIMEOUT])), Err(CheckError::OperationalError));
    assert_eq!(classify(&reports(&[TIMEOUT, OPERATIONAL])), Err(CheckError::OperationalError));
    assert_eq!(
        classify(&reports(&[Ok(5), TIMEOUT, OPERATIONAL])),
        Err(CheckError::OperationalError)
    );
    assert_eq!(classify(&reports(&[Ok(5), OPERATIONAL])), Err(CheckError::OperationalError));
    assert_eq!(classify(&reports(&[OPERATIONAL])), Err(CheckError::OperationalError));
}

#[test]
fn every_address_timing_out_is_a_timeout() {
    assert_eq!(classify(&reports(&[TIMEOUT, TIMEOUT])), Err(CheckError::Timeout));
    assert_eq!(classify(&reports(&[TIMEOUT])), Err(CheckError::Timeout));
}

#[test]
fn some_addresses_timing_out_is_a_partial_timeout() {
    assert_eq!(classify(&reports(&[TIMEOUT, Ok(12)])), Err(CheckError::PartialTimeout));
    assert_eq!(classify(&reports(&[Ok(12), Ok(1), TIMEOUT])), Err(CheckError::PartialTimeout));
}

#[test]
fn round_trip_time_is_the_mean() {
    assert_eq!(classify(&reports(&[Ok(10), Ok(30)])), Ok(20));
    assert_eq!(classify(&reports(&[Ok(7)])), Ok(7));
    assert_eq!(classify(&reports(&[Ok(1), Ok(2)])), Ok(1));
    assert_eq!(classify(&reports(&[Ok(0), Ok(0), Ok(2)])), Ok(0));
    assert_eq!(classify(&reports(&[Ok(u32::MAX), Ok(u32::MAX), Ok(u32::MAX)])), Ok(u32::MAX));
    assert_eq!(classify(&reports(&[Ok(u32::MAX), Ok(u32::MAX - 1)])), Ok(u32::MAX - 1));
}

#[test]
fn no_address_is_a_failed_resolution() {
    assert_eq!(classify(&Vec::new()), Err(CheckError::DnsResolutionFailed));
    assert_eq!(
        check_udp_candidate(candidate(), Some(Vec::new())),
        Err(CheckError::DnsResolutionFailed)
    );
    assert_eq!(check_udp_candidate(candidate(), None), Err(CheckError::DnsResolutionFailed));
}

#[test]
fn a_candidate_passes_when_every_address_does() {
    let profile = check_udp_candidate(candidate(), Some(reports(&[Ok(10), Ok(30)]))).unwrap();
    assert_eq!(profile.candidate, candidate());
    assert_eq!(profile.addrs, vec![address(0), address(1)]);
    assert_eq!(profile.rtt_ms, 20);
}

#[test]
fn a_candidate_fails_with_the_verdict_of_its_addresses() {
    assert_eq!(
        check_udp_candidate(candidate(), Some(reports(&[TIMEOUT]))),
        Err(CheckError::Timeout)
    );
    assert_eq!(
        check_udp_candidate(candidate(), Some(reports(&[Ok(3), TIMEOUT]))),
        Err(CheckError::PartialTimeout)
    );
    assert_eq!(
        check_udp_candidate(candidate(), Some(reports(&[Ok(3), OPERATIONAL, TIMEOUT]))),
        Err(CheckError::OperationalError)
    );
}

#[test]
fn failures_count_as_timeouts_or_operational_errors() {
    assert_eq!(CheckError::from(IoFailure::TimedOut), CheckError::Timeout);
    assert_eq!(CheckError::from(IoFailure::Other), CheckError::OperationalError);
    assert_eq!(
        CheckError::from(UdpTrackerClientError::IoError(IoFailure::TimedOut)),
        CheckError::Timeout
    );
    assert_eq!(
        CheckError::from(UdpTrackerClientError::IoError(IoFailure::Other)),
        CheckError::OperationalError
    );
    assert_eq!(
        CheckError::from(UdpTrackerClientError::ApplicationError("x")),
        CheckError::OperationalError
    );
    assert_eq!(
        CheckError::from(UdpTrackerClientError::GeneralError("x")),
        CheckError::OperationalError
    );
}

#[test]
fn addresses_are_looked_up_by_host_and_port() {
    assert_eq!(lookup_target(&candidate()), "tracker.example.org:6969");
    let mut other = candidate();
    other.host = String::from("::1");
    other.port = 0;
    other.suffix = Some(String::from("/announce"));
    assert_eq!(lookup_target(&other), "::1:0");
}
