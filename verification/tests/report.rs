use tracker_checker::candidates::{TrackerCandidate, TransportType};
use tracker_checker::report::{
    passed_addresses, passed_hosts, shuffled_text, tally, udp_candidates, unique_lines, Tally,
    MAX_CONCURRENT_CHECKS,
};
use tracker_checker::tracker_check::{CandidateProfile, CheckError};
use tracker_checker::wire::SocketAddress;

fn candidate(transport_type: TransportType, host: &str) -> TrackerCandidate {
    TrackerCandidate { host: String::from(host), port: 80, transport_type, suffix: None }
}

fn v4(last: u8) -> SocketAddress {
    SocketAddress::V4 { ip: [192, 0, 2, last], port: 80 }
}

fn v6(last: u8) -> SocketAddress {
    SocketAddress::V6 { ip: [last; 16], port: 80, flowinfo: 0, scope_id: 0 }
}

fn profile(host: &str, addrs: Vec<SocketAddress>) -> Result<CandidateProfile, CheckError> {
    Ok(CandidateProfile { candidate: candidate(TransportType::UDP, host), addrs, rtt_ms: 1 })
}

fn run() -> Vec<Result<CandidateProfile, CheckError>> {
    vec![
        profile("a", vec![v4(1), v6(1)]),
        Err(CheckError::Timeout),
        Err(CheckError::DnsResolutionFailed),
        profile("b", vec![v6(2), v4(1), v4(2)]),
        Err(CheckError::Timeout),
        Err(CheckError::OperationalError),
        Err(CheckError::PartialTimeout),
        Err(CheckError::Timeout),
        profile("c", vec![]),
    ]
}

#[test]
fn ten_candidates_are_checked_at_a_time() {
    assert_eq!(MAX_CONCURRENT_CHECKS, 10);
}

#[test]
fn only_udp_candidates_are_kept() {
    let list = vec![
        candidate(TransportType::UDP, "a"),
        candidate(TransportType::HTTP, "b"),
        candidate(TransportType::UDP, "c"),
        candidate(TransportType::HTTPS, "d"),
    ];
    assert_eq!(
        udp_candidates(list),
        vec![candidate(TransportType::UDP, "a"), candidate(TransportType::UDP, "c")]
    );
    assert!(udp_candidates(Vec::new()).is_empty());
}

#[test]
fn verdicts_are_counted_by_kind() {
    assert_eq!(
        tally(&run()),
        Tally {
            all_ok: 3,
            dns_unresolved: 1,
            partial_timeout: 1,
            complete_timeout: 3,
            operational_error: 1,
        }
    );
    assert_eq!(
        tally(&Vec::new()),
        Tally { all_ok: 0, dns_unresolved: 0, partial_timeout: 0, complete_timeout: 0, operational_error: 0 }
    );
}

#[test]
fn hosts_that_passed_are_listed_in_order() {
    assert_eq!(passed_hosts(&run()), vec!["udp://a:80", "udp://b:80", "udp://c:80"]);
}

#[test]
fn addresses_that_passed_are_listed_by_family() {
    assert_eq!(passed_addresses(&run(), false), vec![v4(1), v4(1), v4(2)]);
    assert_eq!(passed_addresses(&run(), true), vec![v6(1), v6(2)]);
}

#[test]
fn lines_are_kept_once() {
    let lines = vec!["b", "a", "b", "c", "a", ""].into_iter().map(String::from).collect();
    assert_eq!(unique_lines(lines), vec!["b", "a", "c", ""]);
}

#[test]
fn shuffled_text_holds_every_line() {
    let lines: Vec<String> = (0..50).map(|number| format!("line {}", number)).collect();
    let text = shuffled_text(lines.clone());
    assert_ne!(text, lines.join("\n"));
    let mut written: Vec<String> = text.split('\n').map(String::from).collect();
    assert_eq!(written.len(), 50);
    written.sort();
    let mut expected = lines;
    expected.sort();
    assert_eq!(written, expected);
    assert_eq!(shuffled_text(Vec::new()), "");
    assert_eq!(shuffled_text(vec![String::from("one")]), "one");
    let twice = shuffled_text(vec![String::from("x"), String::from("x")]);
    assert_eq!(twice, "x\nx");
}
