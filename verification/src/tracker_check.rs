//! The verdict on a candidate: what the probes of its addresses add up to.

use vstd::prelude::*;

use crate::candidates::{CandidateView, TrackerCandidate};
use crate::text::{append_chars, chars_of, decimal, decimal_chars, string_of};
use crate::tracker_client::{ErrorView, IoFailure, UdpTrackerClientError};
use crate::wire::SocketAddress;

verus! {

/// Why a candidate failed its check.
#[derive(Clone, Copy, Debug, PartialEq, Eq, Structural)]
pub enum CheckError {
    /// The host resolved to no address.
    DnsResolutionFailed,
    /// An address answered wrongly, or its socket failed.
    OperationalError,
    /// Some addresses answered in time, others not.
    PartialTimeout,
    /// No address answered in time.
    Timeout,
}

/// What a socket failure counts as: a timeout, or an operational error.
pub open spec fn io_check_error(failure: IoFailure) -> CheckError {
    match failure {
        IoFailure::TimedOut => CheckError::Timeout,
        IoFailure::Other => CheckError::OperationalError,
    }
}

/// What a failed exchange counts as: a timeout where the socket timed out,
/// an operational error in every other case.
pub open spec fn check_error(error: ErrorView) -> CheckError {
    match error {
        ErrorView::Io(failure) => io_check_error(failure),
        ErrorView::General(_) => CheckError::OperationalError,
        ErrorView::Application(_) => CheckError::OperationalError,
    }
}

impl From<IoFailure> for CheckError {
    fn from(failure: IoFailure) -> (error: CheckError) {
        match failure {
            IoFailure::TimedOut => CheckError::Timeout,
            IoFailure::Other => CheckError::OperationalError,
        }
    }
}

impl vstd::std_specs::convert::FromSpecImpl<IoFailure> for CheckError {
    open spec fn obeys_from_spec() -> bool {
        true
    }

    open spec fn from_spec(failure: IoFailure) -> CheckError {
        io_check_error(failure)
    }
}

impl From<UdpTrackerClientError> for CheckError {
    fn from(error: UdpTrackerClientError) -> (converted: CheckError) {
        match error {
            UdpTrackerClientError::IoError(failure) => CheckError::from(failure),
            UdpTrackerClientError::ApplicationError(_) => CheckError::OperationalError,
            UdpTrackerClientError::GeneralError(_) => CheckError::OperationalError,
        }
    }
}

impl vstd::std_specs::convert::FromSpecImpl<UdpTrackerClientError> for CheckError {
    open spec fn obeys_from_spec() -> bool {
        true
    }

    open spec fn from_spec(error: UdpTrackerClientError) -> CheckError {
        check_error(error@)
    }
}

/// How the probe of one address ended: with the time that connect and
/// announce took together, in milliseconds, or with the reason it failed.
#[derive(Clone, Copy, Debug, PartialEq, Eq)]
pub struct AddressReport {
    pub address: SocketAddress,
    pub outcome: Result<u32, CheckError>,
}

/// A candidate that passed its check.
#[derive(Clone, Debug, PartialEq, Eq)]
pub struct CandidateProfile {
    pub candidate: TrackerCandidate,
    /// Every address the host resolved to.
    pub addrs: Vec<SocketAddress>,
    /// Mean time of connect and announce over the addresses, in milliseconds.
    pub rtt_ms: u32,
}

/// The name under which a candidate's addresses are looked up: `host:port`.
pub open spec fn lookup_name(candidate: CandidateView) -> Seq<char> {
    candidate.host + seq![':'] + decimal(candidate.port as nat)
}

/// The name under which to look up a candidate's addresses.
pub fn lookup_target(candidate: &TrackerCandidate) -> (target: String)
    ensures
        target@ == lookup_name(candidate@),
{
    let mut name = chars_of(candidate.host.as_str());
    name.push(':');
    let port = decimal_chars(candidate.port);
    append_chars(&mut name, &port);
    assert(name@ =~= lookup_name(candidate@));
    string_of(&name)
}

/// The outcomes of a list of reports, in order.
pub open spec fn outcomes(reports: Seq<AddressReport>) -> Seq<Result<u32, CheckError>> {
    reports.map_values(|report: AddressReport| report.outcome)
}

/// The addresses of a list of reports, in order.
pub open spec fn addresses(reports: Seq<AddressReport>) -> Seq<SocketAddress> {
    reports.map_values(|report: AddressReport| report.address)
}

/// Whether every probe succeeded.
pub open spec fn all_succeeded(outcomes: Seq<Result<u32, CheckError>>) -> bool {
    forall|k: int| 0 <= k < outcomes.len() ==> (#[trigger] outcomes[k]) is Ok
}

/// Whether some probe ended in an operational error.
pub open spec fn any_operational(outcomes: Seq<Result<u32, CheckError>>) -> bool {
    exists|k: int| 0 <= k < outcomes.len() && #[trigger] outcomes[k] == Err::<u32, CheckError>(CheckError::OperationalError)
}

/// Number of probes that timed out.
pub open spec fn timeouts(outcomes: Seq<Result<u32, CheckError>>) -> nat
    decreases outcomes.len(),
{
    if outcomes.len() == 0 {
        0
    } else {
        timeouts(outcomes.drop_last()) + if outcomes.last() == Err::<u32, CheckError>(CheckError::Timeout) {
            1nat
        } else {
            0nat
        }
    }
}

/// Sum of the times of the probes that succeeded.
pub open spec fn total_latency(outcomes: Seq<Result<u32, CheckError>>) -> nat
    decreases outcomes.len(),
{
    if outcomes.len() == 0 {
        0
    } else {
        total_latency(outcomes.drop_last()) + match outcomes.last() {
            Ok(latency) => latency as nat,
            Err(_) => 0nat,
        }
    }
}

/// The verdict that the probes of a candidate's addresses add up to. With
/// no address there is nothing to probe: the host did not resolve. With
/// every probe a success the verdict is the mean of their times, rounded
/// down. Else an operational error outranks everything; without one, the
/// candidate timed out, in part unless every probe did.
pub open spec fn verdict(outcomes: Seq<Result<u32, CheckError>>) -> Result<u32, CheckError> {
    if outcomes.len() == 0 {
        Err(CheckError::DnsResolutionFailed)
    } else if all_succeeded(outcomes) {
        Ok((total_latency(outcomes) / outcomes.len()) as u32)
    } else if any_operational(outcomes) {
        Err(CheckError::OperationalError)
    } else if timeouts(outcomes) < outcomes.len() {
        Err(CheckError::PartialTimeout)
    } else {
        Err(CheckError::Timeout)
    }
}

/// The times of `count` probes add up to no more than `count` times the
/// longest time there can be, and no more probes time out than there are.
pub proof fn lemma_totals_bounded(outcomes: Seq<Result<u32, CheckError>>)
    ensures
        total_latency(outcomes) <= outcomes.len() * u32::MAX,
        timeouts(outcomes) <= outcomes.len(),
    decreases outcomes.len(),
{
    if outcomes.len() > 0 {
        lemma_totals_bounded(outcomes.drop_last());
        assert((outcomes.len() - 1) * u32::MAX + u32::MAX == outcomes.len() * u32::MAX) by (nonlinear_arith);
    }
}

/// Every probe timed out exactly when as many timed out as there are.
pub proof fn lemma_all_timed_out(outcomes: Seq<Result<u32, CheckError>>)
    ensures
        timeouts(outcomes) == outcomes.len() <==> forall|k: int|
            0 <= k < outcomes.len() ==> #[trigger] outcomes[k] == Err::<u32, CheckError>(CheckError::Timeout),
    decreases outcomes.len(),
{
    if outcomes.len() > 0 {
        let shorter = outcomes.drop_last();
        lemma_all_timed_out(shorter);
        lemma_totals_bounded(shorter);
        if timeouts(outcomes) == outcomes.len() {
            assert forall|k: int| 0 <= k < outcomes.len() implies #[trigger] outcomes[k] == Err::<u32, CheckError>(
                CheckError::Timeout,
            ) by {
                if k < shorter.len() {
                    assert(shorter[k] == outcomes[k]);
                }
            }
        }
        if forall|k: int| 0 <= k < outcomes.len() ==> #[trigger] outcomes[k] == Err::<u32, CheckError>(
            CheckError::Timeout,
        ) {
            assert forall|k: int| 0 <= k < shorter.len() implies #[trigger] shorter[k] == Err::<u32, CheckError>(
                CheckError::Timeout,
            ) by {
                assert(shorter[k] == outcomes[k]);
            }
            assert(outcomes[outcomes.len() - 1] == Err::<u32, CheckError>(CheckError::Timeout));
        }
    }
}

/// A candidate passes exactly when it has an address and every probe
/// succeeded.
pub proof fn lemma_success_needs_every_address(outcomes: Seq<Result<u32, CheckError>>)
    ensures
        verdict(outcomes) is Ok <==> outcomes.len() > 0 && all_succeeded(outcomes),
{
}

/// An operational error at any address outranks every other outcome.
pub proof fn lemma_operational_error_outranks(outcomes: Seq<Result<u32, CheckError>>)
    requires
        any_operational(outcomes),
    ensures
        verdict(outcomes) == Err::<u32, CheckError>(CheckError::OperationalError),
{
    let k = choose|k: int| 0 <= k < outcomes.len() && #[trigger] outcomes[k] == Err::<u32, CheckError>(
        CheckError::OperationalError,
    );
    assert(outcomes[k] is Err);
}

/// Without an operational error, a candidate with a probe that timed out
/// and a probe that did not has timed out in part.
pub proof fn lemma_partial_timeout(outcomes: Seq<Result<u32, CheckError>>, late: int, other: int)
    requires
        !any_operational(outcomes),
        0 <= late < outcomes.len(),
        0 <= other < outcomes.len(),
        outcomes[late] == Err::<u32, CheckError>(CheckError::Timeout),
        outcomes[other] != Err::<u32, CheckError>(CheckError::Timeout),
    ensures
        verdict(outcomes) == Err::<u32, CheckError>(CheckError::PartialTimeout),
{
    lemma_all_timed_out(outcomes);
    lemma_totals_bounded(outcomes);
    assert(outcomes[late] is Err);
}

/// A candidate whose every probe timed out has timed out.
pub proof fn lemma_full_timeout(outcomes: Seq<Result<u32, CheckError>>)
    requires
        outcomes.len() > 0,
        forall|k: int| 0 <= k < outcomes.len() ==> #[trigger] outcomes[k] == Err::<u32, CheckError>(CheckError::Timeout),
    ensures
        verdict(outcomes) == Err::<u32, CheckError>(CheckError::Timeout),
{
    lemma_all_timed_out(outcomes);
    assert(outcomes[0] is Err);
    assert(!any_operational(outcomes)) by {
        if any_operational(outcomes) {
            let k = choose|k: int| 0 <= k < outcomes.len() && #[trigger] outcomes[k] == Err::<u32, CheckError>(
                CheckError::OperationalError,
            );
            assert(outcomes[k] == Err::<u32, CheckError>(CheckError::Timeout));
        }
    }
}

/// The mean time of a candidate that passes is no longer than the longest
/// time a probe can take.
pub proof fn lemma_mean_fits(outcomes: Seq<Result<u32, CheckError>>)
    requires
        outcomes.len() > 0,
    ensures
        total_latency(outcomes) / outcomes.len() <= u32::MAX,
{
    lemma_totals_bounded(outcomes);
    let count = outcomes.len() as int;
    vstd::arithmetic::div_mod::lemma_div_is_ordered(total_latency(outcomes) as int, count * u32::MAX, count);
    vstd::arithmetic::div_mod::lemma_div_multiples_vanish(u32::MAX as int, count);
}

/// Adds up the probes of a candidate's addresses to a verdict.
pub fn classify(reports: &Vec<AddressReport>) -> (result: Result<u32, CheckError>)
    ensures
        result == verdict(outcomes(reports@)),
{
    if reports.len() == 0 {
        return Err(CheckError::DnsResolutionFailed);
    }
    let ghost all = outcomes(reports@);
    let mut succeeded: usize = 0;
    let mut operational: usize = 0;
    let mut timed_out: usize = 0;
    let mut total: u128 = 0;
    let mut index: usize = 0;
    assert(all.take(0) =~= Seq::<Result<u32, CheckError>>::empty());
    while index < reports.len()
        invariant
            index <= reports.len(),
            all == outcomes(reports@),
            succeeded <= index,
            operational <= index,
            succeeded == index <==> all_succeeded(all.take(index as int)),
            operational > 0 <==> any_operational(all.take(index as int)),
            timed_out == timeouts(all.take(index as int)),
            total == total_latency(all.take(index as int)),
        decreases reports.len() - index,
    {
        let ghost before = all.take(index as int);
        let ghost longer = all.take(index + 1);
        assert(longer.drop_last() == before);
        assert(longer.last() == reports@[index as int].outcome);
        proof {
            lemma_totals_bounded(before);
            assert(index * u32::MAX <= usize::MAX * u32::MAX) by (nonlinear_arith)
                requires
                    index <= usize::MAX,
            ;
            assert(usize::MAX * u32::MAX + u32::MAX <= u128::MAX) by (nonlinear_arith)
                requires
                    usize::MAX <= u64::MAX,
            ;
        }
        match reports[index].outcome {
            Ok(latency) => {
                succeeded += 1;
                total += latency as u128;
                assert(any_operational(longer) <==> any_operational(before)) by {
                    if any_operational(longer) {
                        let k = choose|k: int| 0 <= k < longer.len() && #[trigger] longer[k] == Err::<u32, CheckError>(
                            CheckError::OperationalError,
                        );
                        assert(before[k] == longer[k]);
                    }
                    if any_operational(before) {
                        let k = choose|k: int| 0 <= k < before.len() && #[trigger] before[k] == Err::<u32, CheckError>(
                            CheckError::OperationalError,
                        );
                        assert(longer[k] == before[k]);
                    }
                }
                assert(all_succeeded(longer) <==> all_succeeded(before)) by {
                    if all_succeeded(before) {
                        assert forall|k: int| 0 <= k < longer.len() implies (#[trigger] longer[k]) is Ok by {
                            if k < before.len() {
                                assert(before[k] == longer[k]);
                            }
                        }
                    }
                    if all_succeeded(longer) {
                        assert forall|k: int| 0 <= k < before.len() implies (#[trigger] before[k]) is Ok by {
                            assert(before[k] == longer[k]);
                        }
                    }
                }
            },
            Err(error) => {
                assert(!all_succeeded(longer)) by {
                    assert(longer[index as int] is Err);
                }
                match error {
                    CheckError::OperationalError => {
                        operational += 1;
                        assert(any_operational(longer)) by {
                            assert(longer[index as int] == Err::<u32, CheckError>(CheckError::OperationalError));
                        }
                    },
                    _ => {
                        if let CheckError::Timeout = error {
                            timed_out += 1;
                        }
                        assert(any_operational(longer) <==> any_operational(before)) by {
                            if any_operational(longer) {
                                let k = choose|k: int| 0 <= k < longer.len() && #[trigger] longer[k] == Err::<
                                    u32,
                                    CheckError,
                                >(CheckError::OperationalError);
                                assert(before[k] == longer[k]);
                            }
                            if any_operational(before) {
                                let k = choose|k: int| 0 <= k < before.len() && #[trigger] before[k] == Err::<
                                    u32,
                                    CheckError,
                                >(CheckError::OperationalError);
                                assert(longer[k] == before[k]);
                            }
                        }
                    },
                }
            },
        }
        index += 1;
    }
    assert(all.take(index as int) == all);
    if succeeded == reports.len() {
        proof {
            lemma_mean_fits(all);
        }
        let mean: u128 = total / (reports.len() as u128);
        Ok(mean as u32)
    } else if operational > 0 {
        Err(CheckError::OperationalError)
    } else if timed_out < reports.len() {
        Err(CheckError::PartialTimeout)
    } else {
        Err(CheckError::Timeout)
    }
}

/// The verdict on a candidate. `resolved` is `None` where the host could not
/// be looked up; else it holds one report for each address the host resolved
/// to. A candidate passes only if it resolved to an address and every probe
/// succeeded; its profile then lists every address.
pub fn check_udp_candidate(candidate: TrackerCandidate, resolved: Option<Vec<AddressReport>>) -> (result: Result<
    CandidateProfile,
    CheckError,
>)
    ensures
        match resolved {
            None => result is Err && result->Err_0 == CheckError::DnsResolutionFailed,
            Some(reports) => match verdict(outcomes(reports@)) {
                Ok(rtt_ms) => result is Ok && result->Ok_0.candidate == candidate && result->Ok_0.addrs@
                    == addresses(reports@) && result->Ok_0.rtt_ms == rtt_ms,
                Err(error) => result is Err && result->Err_0 == error,
            },
        },
{
    let reports = match resolved {
        None => {
            return Err(CheckError::DnsResolutionFailed);
        },
        Some(reports) => reports,
    };
    match classify(&reports) {
        Err(error) => Err(error),
        Ok(rtt_ms) => {
            let mut addrs: Vec<SocketAddress> = Vec::new();
            let mut index: usize = 0;
            while index < reports.len()
                invariant
                    index <= reports.len(),
                    addrs@ == addresses(reports@).take(index as int),
                decreases reports.len() - index,
            {
                addrs.push(reports[index].address);
                index += 1;
            }
            assert(addresses(reports@).take(index as int) == addresses(reports@));
            Ok(CandidateProfile { candidate, addrs, rtt_ms })
        },
    }
}

} // verus!
