//! What a run adds up to: the tally of its verdicts, and the lists of the
//! trackers that passed.

use vstd::prelude::*;

use rand::seq::SliceRandom;

use crate::candidates::{views, CandidateView, TrackerCandidate, TransportType};
use crate::lists::{distinct, lemma_distinct};
use crate::text::{chars_of, join, join_chars, string_of, texts};
use crate::tracker_check::{CandidateProfile, CheckError};
use crate::wire::SocketAddress;

verus! {

/// Number of candidates that are checked at the same time, at most.
pub const MAX_CONCURRENT_CHECKS: usize = 10;

/// How many candidates ended in which way.
#[derive(Clone, Copy, Debug, PartialEq, Eq)]
pub struct Tally {
    pub all_ok: usize,
    pub dns_unresolved: usize,
    pub partial_timeout: usize,
    pub complete_timeout: usize,
    pub operational_error: usize,
}

/// The texts of a list of strings, in order.
pub open spec fn line_texts(lines: Seq<String>) -> Seq<Seq<char>> {
    lines.map_values(|line: String| line@)
}

/// The candidates that are spoken to over UDP, in order.
pub open spec fn udp_only(list: Seq<CandidateView>) -> Seq<CandidateView>
    decreases list.len(),
{
    if list.len() == 0 {
        Seq::empty()
    } else if list.last().transport_type == TransportType::UDP {
        udp_only(list.drop_last()).push(list.last())
    } else {
        udp_only(list.drop_last())
    }
}

/// Number of verdicts that are a pass.
pub open spec fn passes(results: Seq<Result<CandidateProfile, CheckError>>) -> nat
    decreases results.len(),
{
    if results.len() == 0 {
        0
    } else {
        passes(results.drop_last()) + if results.last() is Ok {
            1nat
        } else {
            0nat
        }
    }
}

/// Number of verdicts that are the given failure.
pub open spec fn failures(results: Seq<Result<CandidateProfile, CheckError>>, kind: CheckError) -> nat
    decreases results.len(),
{
    if results.len() == 0 {
        0
    } else {
        failures(results.drop_last(), kind) + if results.last() is Err && results.last()->Err_0 == kind {
            1nat
        } else {
            0nat
        }
    }
}

/// The strings of the candidates that passed, in order.
pub open spec fn host_lines(results: Seq<Result<CandidateProfile, CheckError>>) -> Seq<Seq<char>>
    decreases results.len(),
{
    if results.len() == 0 {
        Seq::empty()
    } else {
        match results.last() {
            Ok(profile) => host_lines(results.drop_last()).push(profile.candidate@.canonical()),
            Err(_) => host_lines(results.drop_last()),
        }
    }
}

/// The addresses of `addresses` that are of the given family, in order.
pub open spec fn of_family(addresses: Seq<SocketAddress>, ipv6: bool) -> Seq<SocketAddress>
    decreases addresses.len(),
{
    if addresses.len() == 0 {
        Seq::empty()
    } else if (addresses.last()@ is V6) == ipv6 {
        of_family(addresses.drop_last(), ipv6).push(addresses.last())
    } else {
        of_family(addresses.drop_last(), ipv6)
    }
}

/// The addresses of the given family of the candidates that passed, in
/// order.
pub open spec fn family_addresses(results: Seq<Result<CandidateProfile, CheckError>>, ipv6: bool) -> Seq<
    SocketAddress,
>
    decreases results.len(),
{
    if results.len() == 0 {
        Seq::empty()
    } else {
        match results.last() {
            Ok(profile) => family_addresses(results.drop_last(), ipv6) + of_family(profile.addrs@, ipv6),
            Err(_) => family_addresses(results.drop_last(), ipv6),
        }
    }
}

/// Every verdict is counted once.
pub proof fn lemma_tally_is_complete(results: Seq<Result<CandidateProfile, CheckError>>)
    ensures
        passes(results) + failures(results, CheckError::DnsResolutionFailed) + failures(
            results,
            CheckError::PartialTimeout,
        ) + failures(results, CheckError::Timeout) + failures(results, CheckError::OperationalError)
            == results.len(),
    decreases results.len(),
{
    if results.len() > 0 {
        lemma_tally_is_complete(results.drop_last());
    }
}

/// Shuffles with `rand`'s `SliceRandom::shuffle`, on the thread's generator.
///
/// Trusted: that the lines are the same afterwards, each as often as
/// before. Nothing is known of their order.
#[verifier::external_body]
fn shuffle(lines: &mut Vec<String>)
    ensures
        line_texts(final(lines)@).to_multiset() == line_texts(old(lines)@).to_multiset(),
{
    lines.shuffle(&mut rand::thread_rng());
}

/// Keeps the candidates that are spoken to over UDP.
pub fn udp_candidates(candidates: Vec<TrackerCandidate>) -> (kept: Vec<TrackerCandidate>)
    ensures
        views(kept@) == udp_only(views(candidates@)),
{
    let mut kept: Vec<TrackerCandidate> = Vec::new();
    let mut index: usize = 0;
    assert(views(candidates@).take(0) =~= Seq::<CandidateView>::empty());
    while index < candidates.len()
        invariant
            index <= candidates.len(),
            views(kept@) == udp_only(views(candidates@).take(index as int)),
        decreases candidates.len() - index,
    {
        let ghost longer = views(candidates@).take(index + 1);
        assert(longer.drop_last() == views(candidates@).take(index as int));
        assert(longer.last() == candidates@[index as int]@);
        if candidates[index].transport_type == TransportType::UDP {
            let candidate = candidates[index].duplicate();
            assert(views(kept@.push(candidate)) == views(kept@).push(candidate@));
            kept.push(candidate);
        }
        index += 1;
    }
    assert(views(candidates@).take(index as int) == views(candidates@));
    kept
}

/// Counts the verdicts of a run by their kind.
pub fn tally(results: &Vec<Result<CandidateProfile, CheckError>>) -> (counts: Tally)
    ensures
        counts.all_ok == passes(results@),
        counts.dns_unresolved == failures(results@, CheckError::DnsResolutionFailed),
        counts.partial_timeout == failures(results@, CheckError::PartialTimeout),
        counts.complete_timeout == failures(results@, CheckError::Timeout),
        counts.operational_error == failures(results@, CheckError::OperationalError),
{
    let mut counts = Tally {
        all_ok: 0,
        dns_unresolved: 0,
        partial_timeout: 0,
        complete_timeout: 0,
        operational_error: 0,
    };
    let mut index: usize = 0;
    while index < results.len()
        invariant
            index <= results.len(),
            counts.all_ok == passes(results@.take(index as int)),
            counts.dns_unresolved == failures(results@.take(index as int), CheckError::DnsResolutionFailed),
            counts.partial_timeout == failures(results@.take(index as int), CheckError::PartialTimeout),
            counts.complete_timeout == failures(results@.take(index as int), CheckError::Timeout),
            counts.operational_error == failures(results@.take(index as int), CheckError::OperationalError),
        decreases results.len() - index,
    {
        let ghost longer = results@.take(index + 1);
        assert(longer.drop_last() == results@.take(index as int));
        assert(longer.last() == results@[index as int]);
        proof {
            lemma_tally_is_complete(results@.take(index as int));
        }
        match &results[index] {
            Ok(_) => {
                counts.all_ok += 1;
            },
            Err(CheckError::DnsResolutionFailed) => {
                counts.dns_unresolved += 1;
            },
            Err(CheckError::PartialTimeout) => {
                counts.partial_timeout += 1;
            },
            Err(CheckError::Timeout) => {
                counts.complete_timeout += 1;
            },
            Err(CheckError::OperationalError) => {
                counts.operational_error += 1;
            },
        }
        index += 1;
    }
    assert(results@.take(index as int) == results@);
    counts
}

/// The strings of the candidates that passed, in the order of the verdicts.
pub fn passed_hosts(results: &Vec<Result<CandidateProfile, CheckError>>) -> (hosts: Vec<String>)
    ensures
        line_texts(hosts@) == host_lines(results@),
{
    let mut hosts: Vec<String> = Vec::new();
    let mut index: usize = 0;
    assert(line_texts(hosts@) =~= host_lines(results@.take(0)));
    while index < results.len()
        invariant
            index <= results.len(),
            line_texts(hosts@) == host_lines(results@.take(index as int)),
        decreases results.len() - index,
    {
        let ghost longer = results@.take(index + 1);
        assert(longer.drop_last() == results@.take(index as int));
        assert(longer.last() == results@[index as int]);
        match &results[index] {
            Ok(profile) => {
                let line = profile.candidate.to_string();
                assert(line_texts(hosts@.push(line)) == line_texts(hosts@).push(line@));
                hosts.push(line);
            },
            Err(_) => {},
        }
        index += 1;
    }
    assert(results@.take(index as int) == results@);
    hosts
}

/// The addresses of one family of the candidates that passed, in the order
/// of the verdicts and, within a candidate, of its addresses.
pub fn passed_addresses(results: &Vec<Result<CandidateProfile, CheckError>>, ipv6: bool) -> (found: Vec<
    SocketAddress,
>)
    ensures
        found@ == family_addresses(results@, ipv6),
{
    let mut found: Vec<SocketAddress> = Vec::new();
    let mut index: usize = 0;
    assert(found@ =~= family_addresses(results@.take(0), ipv6));
    while index < results.len()
        invariant
            index <= results.len(),
            found@ == family_addresses(results@.take(index as int), ipv6),
        decreases results.len() - index,
    {
        let ghost longer = results@.take(index + 1);
        let ghost before = found@;
        assert(longer.drop_last() == results@.take(index as int));
        assert(longer.last() == results@[index as int]);
        match &results[index] {
            Ok(profile) => {
                let mut at: usize = 0;
                assert(profile.addrs@.take(0) =~= Seq::<SocketAddress>::empty());
                assert(found@ =~= before + of_family(profile.addrs@.take(0), ipv6));
                while at < profile.addrs.len()
                    invariant
                        at <= profile.addrs.len(),
                        found@ == before + of_family(profile.addrs@.take(at as int), ipv6),
                    decreases profile.addrs.len() - at,
                {
                    let ghost more = profile.addrs@.take(at + 1);
                    assert(more.drop_last() == profile.addrs@.take(at as int));
                    assert(more.last() == profile.addrs@[at as int]);
                    if profile.addrs[at].is_ipv6() == ipv6 {
                        found.push(profile.addrs[at]);
                    }
                    assert(found@ =~= before + of_family(more, ipv6));
                    at += 1;
                }
                assert(profile.addrs@.take(at as int) == profile.addrs@);
            },
            Err(_) => {},
        }
        index += 1;
    }
    assert(results@.take(index as int) == results@);
    found
}

/// Whether `lines` holds `line`.
fn holds_line(lines: &Vec<String>, line: &String) -> (found: bool)
    ensures
        found == line_texts(lines@).contains(line@),
{
    let mut index: usize = 0;
    while index < lines.len()
        invariant
            index <= lines.len(),
            forall|k: int| 0 <= k < index ==> line_texts(lines@)[k] != line@,
        decreases lines.len() - index,
    {
        if lines[index] == *line {
            assert(line_texts(lines@)[index as int] == line@);
            return true;
        }
        index += 1;
    }
    false
}

/// Keeps every line once, where it first occurs.
pub fn unique_lines(lines: Vec<String>) -> (kept: Vec<String>)
    ensures
        line_texts(kept@) == distinct(line_texts(lines@)),
        line_texts(kept@).no_duplicates(),
        forall|line: Seq<char>| line_texts(kept@).contains(line) <==> line_texts(lines@).contains(line),
{
    let mut kept: Vec<String> = Vec::new();
    let mut index: usize = 0;
    assert(line_texts(lines@).take(0) =~= Seq::<Seq<char>>::empty());
    assert(line_texts(kept@) =~= Seq::<Seq<char>>::empty());
    while index < lines.len()
        invariant
            index <= lines.len(),
            line_texts(kept@) == distinct(line_texts(lines@).take(index as int)),
        decreases lines.len() - index,
    {
        let ghost longer = line_texts(lines@).take(index + 1);
        assert(longer.drop_last() == line_texts(lines@).take(index as int));
        assert(longer.last() == lines@[index as int]@);
        if !holds_line(&kept, &lines[index]) {
            let line = lines[index].clone();
            assert(line_texts(kept@.push(line)) == line_texts(kept@).push(line@));
            kept.push(line);
        }
        index += 1;
    }
    assert(line_texts(lines@).take(index as int) == line_texts(lines@));
    proof {
        lemma_distinct(line_texts(lines@));
    }
    kept
}

/// Writes the lines one to a line, in an order left to chance. Every line is
/// written as often as it was given.
pub fn shuffled_text(lines: Vec<String>) -> (text: String)
    ensures
        exists|order: Seq<Seq<char>>| #[trigger]
            order.to_multiset() == line_texts(lines@).to_multiset() && text@ == join(order, '\n'),
{
    let mut lines = lines;
    let ghost given = line_texts(lines@);
    shuffle(&mut lines);
    let mut rows: Vec<Vec<char>> = Vec::new();
    let mut index: usize = 0;
    while index < lines.len()
        invariant
            index <= lines.len(),
            rows.len() == index,
            forall|k: int| 0 <= k < index ==> (#[trigger] rows[k])@ == lines[k]@,
        decreases lines.len() - index,
    {
        rows.push(chars_of(lines[index].as_str()));
        index += 1;
    }
    assert(texts(rows@) =~= line_texts(lines@));
    let joined = join_chars(&rows, '\n');
    let text = string_of(&joined);
    assert(line_texts(lines@).to_multiset() == given.to_multiset() && text@ == join(line_texts(lines@), '\n'));
    text
}

} // verus!
