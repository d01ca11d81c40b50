use tracker_checker::candidates::{
    clean_candidates, get_candidates, remove_duplicates, sort_candidates, TrackerCandidate,
    TransportType,
};

fn candidate(transport_type: TransportType, host: &str, port: u16, suffix: Option<&str>) -> TrackerCandidate {
    TrackerCandidate {
        host: String::from(host),
        port,
        transport_type,
        suffix: suffix.map(String::from),
    }
}

#[test]
fn transport_names_round_trip() {
    assert_eq!(TransportType::UDP.to_string(), "udp");
    assert_eq!(TransportType::HTTP.to_string(), "http");
    assert_eq!(TransportType::HTTPS.to_string(), "https");
    assert_eq!(TransportType::from_string("udp"), Ok(TransportType::UDP));
    assert_eq!(TransportType::from_string("http"), Ok(TransportType::HTTP));
    assert_eq!(TransportType::from_string("https"), Ok(TransportType::HTTPS));
    assert_eq!(TransportType::from_string("ftp"), Err("Illegal protocol"));
    assert_eq!(TransportType::from_string("UDP"), Err("Illegal protocol"));
    assert_eq!(TransportType::from_string(""), Err("Illegal protocol"));
}

#[test]
fn candidate_string_has_every_field() {
    let plain = candidate(TransportType::UDP, "tracker.example.org", 6969, None);
    assert_eq!(plain.to_string(), "udp://tracker.example.org:6969");
    let with_suffix = candidate(TransportType::HTTPS, "t.example", 443, Some("/announce"));
    assert_eq!(with_suffix.to_string(), "https://t.example:443/announce");
    assert_eq!(candidate(TransportType::HTTP, "h", 0, None).to_string(), "http://h:0");
    assert_eq!(candidate(TransportType::HTTP, "h", 65535, None).to_string(), "http://h:65535");
    assert_eq!(candidate(TransportType::HTTP, "h", 10, None).to_string(), "http://h:10");
}

#[test]
fn candidate_string_is_read_back() {
    let samples = vec![
        candidate(TransportType::UDP, "tracker.example.org", 6969, None),
        candidate(TransportType::HTTPS, "t.example", 443, Some("/announce")),
        candidate(TransportType::HTTP, "", 0, Some("/")),
        candidate(TransportType::UDP, "10.0.0.1", 65535, Some("/a/b?c=d")),
    ];
    for sample in samples {
        assert_eq!(TrackerCandidate::from_string(&sample.to_string()), Ok(sample));
    }
}

#[test]
fn malformed_strings_are_refused() {
    assert_eq!(
        TrackerCandidate::from_string("udp://host"),
        Err("Invalid format. Expecting two ':'")
    );
    assert_eq!(
        TrackerCandidate::from_string("udp://host:1:2"),
        Err("Invalid format. Expecting two ':'")
    );
    assert_eq!(TrackerCandidate::from_string(""), Err("Invalid format. Expecting two ':'"));
    assert_eq!(TrackerCandidate::from_string("ftp://host:21"), Err("Illegal protocol"));
    assert_eq!(
        TrackerCandidate::from_string("udp:/host:80"),
        Err("Invalid format. Expecting proto://host:port[/suffix]. Missing '://' after proto")
    );
    assert_eq!(
        TrackerCandidate::from_string("udp://host:port"),
        Err("Expected port to be a numeric value")
    );
    assert_eq!(
        TrackerCandidate::from_string("udp://host:65536"),
        Err("Expected port to be a numeric value")
    );
    assert_eq!(
        TrackerCandidate::from_string("udp://host:/announce"),
        Err("Expected port to be a numeric value")
    );
    assert_eq!(
        TrackerCandidate::from_string("udp://host:-1"),
        Err("Expected port to be a numeric value")
    );
    assert_eq!(
        TrackerCandidate::from_string("udp://host: 80"),
        Err("Expected port to be a numeric value")
    );
}

#[test]
fn port_is_read_as_a_number() {
    assert_eq!(
        TrackerCandidate::from_string("udp://host:+80"),
        Ok(candidate(TransportType::UDP, "host", 80, None))
    );
    assert_eq!(
        TrackerCandidate::from_string("udp://host:00080/x"),
        Ok(candidate(TransportType::UDP, "host", 80, Some("/x")))
    );
    assert_eq!(
        TrackerCandidate::from_string("udp://host:+"),
        Err("Expected port to be a numeric value")
    );
}

#[test]
fn list_is_read_line_by_line() {
    let contents = "udp://a:1\n# a comment\n\n  http://b:2/x  \r\nnot a candidate\n#udp://c:3\nudp://a:1";
    let candidates = get_candidates(contents);
    assert_eq!(
        candidates,
        vec![
            candidate(TransportType::UDP, "a", 1, None),
            candidate(TransportType::HTTP, "b", 2, Some("/x")),
            candidate(TransportType::UDP, "a", 1, None),
        ]
    );
    assert!(get_candidates("").is_empty());
}

#[test]
fn duplicates_are_removed_where_they_recur() {
    let list = vec![
        candidate(TransportType::UDP, "b", 2, None),
        candidate(TransportType::UDP, "a", 1, None),
        candidate(TransportType::UDP, "b", 2, None),
        candidate(TransportType::UDP, "b", 2, Some("/x")),
        candidate(TransportType::UDP, "a", 1, None),
    ];
    assert_eq!(
        remove_duplicates(list),
        vec![
            candidate(TransportType::UDP, "b", 2, None),
            candidate(TransportType::UDP, "a", 1, None),
            candidate(TransportType::UDP, "b", 2, Some("/x")),
        ]
    );
}

#[test]
fn candidates_are_sorted_by_their_strings() {
    let list = vec![
        candidate(TransportType::UDP, "b", 2, None),
        candidate(TransportType::HTTP, "z", 1, None),
        candidate(TransportType::UDP, "a", 10, None),
        candidate(TransportType::UDP, "a", 9, None),
        candidate(TransportType::UDP, "a", 1, Some("/x")),
        candidate(TransportType::UDP, "a", 1, None),
    ];
    let sorted: Vec<String> = sort_candidates(list).iter().map(|entry| entry.to_string()).collect();
    let mut expected = vec![
        "udp://b:2",
        "http://z:1",
        "udp://a:10",
        "udp://a:9",
        "udp://a:1/x",
        "udp://a:1",
    ];
    expected.sort();
    assert_eq!(sorted, expected);
}

#[test]
fn cleaning_keeps_each_candidate_once_in_order() {
    let contents = "udp://b:2\nudp://a:1\n#note\nudp://b:2\nbroken\nhttp://c:3/p\nudp://a:1\n";
    let cleaned = clean_candidates(contents);
    assert_eq!(cleaned.loaded, 5);
    assert_eq!(cleaned.candidates.len(), 3);
    assert_eq!(cleaned.text, "http://c:3/p\nudp://a:1\nudp://b:2");
    let again = clean_candidates(&cleaned.text);
    assert_eq!(again.loaded, 3);
    assert_eq!(again.text, cleaned.text);
    assert_eq!(clean_candidates("").text, "");
}

#[test]
fn candidates_compare_by_their_strings() {
    let samples = vec![
        candidate(TransportType::UDP, "b", 2, None),
        candidate(TransportType::HTTP, "z", 1, None),
        candidate(TransportType::UDP, "a", 10, None),
        candidate(TransportType::UDP, "a", 9, Some("/x")),
        candidate(TransportType::UDP, "a", 9, None),
    ];
    for left in &samples {
        for right in &samples {
            assert_eq!(left.partial_cmp(right), left.to_string().partial_cmp(&right.to_string()));
            assert_eq!(left < right, left.to_string() < right.to_string());
            assert_eq!(left == right, left.to_string() == right.to_string());
            assert_eq!(left.same(right), left == right);
        }
    }
    let copy = samples[3].duplicate();
    assert_eq!(copy, samples[3]);
}

#[test]
fn a_candidate_that_is_not_well_formed_is_not_read_back() {
    let odd_host = candidate(TransportType::UDP, "a:b", 1, None);
    assert!(TrackerCandidate::from_string(&odd_host.to_string()).is_err());
    let empty_suffix = candidate(TransportType::UDP, "a", 1, Some(""));
    assert_eq!(
        TrackerCandidate::from_string(&empty_suffix.to_string()),
        Ok(candidate(TransportType::UDP, "a", 1, None))
    );
    let bare_suffix = candidate(TransportType::UDP, "a", 1, Some("x"));
    assert!(TrackerCandidate::from_string(&bare_suffix.to_string()).is_err());
}

#[test]
fn a_cleaned_list_is_read_back_as_it_is() {
    let contents = " udp://b:2/x y \nudp://a:1\n\nhttps://c:443/announce\nudp://a:1\n# udp://d:4\n";
    let cleaned = clean_candidates(contents);
    assert_eq!(cleaned.text, "https://c:443/announce\nudp://a:1\nudp://b:2/x y");
    assert_eq!(get_candidates(&cleaned.text), cleaned.candidates);
    let nothing = clean_candidates("# only a comment\nnot a candidate");
    assert_eq!(nothing.loaded, 0);
    assert!(nothing.candidates.is_empty());
    assert_eq!(nothing.text, "");
    assert!(get_candidates(&nothing.text).is_empty());
}

#[test]
fn candidates_with_the_same_string_keep_their_order() {
    let bare = candidate(TransportType::UDP, "a", 1, None);
    let empty = candidate(TransportType::UDP, "a", 1, Some(""));
    let first = candidate(TransportType::HTTP, "a", 1, None);
    let last = candidate(TransportType::UDP, "b", 1, None);
    assert_eq!(bare.to_string(), empty.to_string());
    assert_eq!(
        sort_candidates(vec![last.clone(), empty.clone(), first.clone(), bare.clone()]),
        vec![first.clone(), empty.clone(), bare.clone(), last.clone()]
    );
    assert_eq!(
        sort_candidates(vec![bare.clone(), last.clone(), empty.clone(), first.clone()]),
        vec![first, bare, empty, last]
    );
    assert!(sort_candidates(Vec::new()).is_empty());
}
