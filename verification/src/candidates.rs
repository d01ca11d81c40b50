//! Tracker candidates: one endpoint each, written `transport://host:port`
//! with an optional suffix that begins with `/`.

use vstd::prelude::*;

use crate::lists::{distinct, lemma_distinct};
use crate::text::{
    append_chars, chars_of, decimal, decimal_chars, first_index, free_of, is_digit,
    is_whitespace, join, join_chars, lemma_decimal, lemma_first_index, lemma_first_index_is,
    lemma_lex_le_reflexive, lemma_lex_le_total, lemma_lex_le_transitive, lemma_parse_decimal,
    lemma_split_after, lemma_split_free, lemma_split_join, lemma_split_last_ends,
    lemma_split_parts_free, lemma_split_parts_keep_free, lemma_strict_order_is_unique,
    lemma_trim, lemma_trim_stable, lex_le, parse_u16, parse_u16_chars, precedes, same_chars,
    slice_of, split, split_at_mark, strictly_ascending, string_of, texts, trim, trim_chars,
};

verus! {

/// How a tracker is spoken to.
#[derive(Clone, Copy, Debug, Eq, Hash, PartialEq, Structural)]
pub enum TransportType {
    UDP,
    HTTP,
    HTTPS,
}

impl TransportType {
    /// The name of a transport in a candidate string.
    pub open spec fn name(self) -> Seq<char> {
        match self {
            TransportType::UDP => seq!['u', 'd', 'p'],
            TransportType::HTTP => seq!['h', 't', 't', 'p'],
            TransportType::HTTPS => seq!['h', 't', 't', 'p', 's'],
        }
    }

    /// The transport that a name stands for, if any.
    pub open spec fn named(name: Seq<char>) -> Option<TransportType> {
        if name == TransportType::UDP.name() {
            Some(TransportType::UDP)
        } else if name == TransportType::HTTP.name() {
            Some(TransportType::HTTP)
        } else if name == TransportType::HTTPS.name() {
            Some(TransportType::HTTPS)
        } else {
            None
        }
    }

    /// The name of the transport.
    pub fn to_string(&self) -> (name: &'static str)
        ensures
            name@ == self.name(),
    {
        proof {
            reveal_strlit("udp");
            reveal_strlit("http");
            reveal_strlit("https");
        }
        match self {
            TransportType::UDP => {
                assert("udp"@ =~= TransportType::UDP.name());
                "udp"
            },
            TransportType::HTTP => {
                assert("http"@ =~= TransportType::HTTP.name());
                "http"
            },
            TransportType::HTTPS => {
                assert("https"@ =~= TransportType::HTTPS.name());
                "https"
            },
        }
    }

    /// The transport that `s` names. Any other text is an error.
    pub fn from_string(s: &str) -> (transport: Result<TransportType, &'static str>)
        ensures
            match TransportType::named(s@) {
                Some(found) => transport == Ok::<TransportType, &'static str>(found),
                None => transport is Err && transport->Err_0@ == "Illegal protocol"@,
            },
    {
        let name = chars_of(s);
        match Self::of_name(&name) {
            Some(found) => Ok(found),
            None => Err("Illegal protocol"),
        }
    }

    /// The transport that `name` stands for, if any.
    pub fn of_name(name: &Vec<char>) -> (transport: Option<TransportType>)
        ensures
            transport == TransportType::named(name@),
    {
        let udp = chars_of(TransportType::UDP.to_string());
        let http = chars_of(TransportType::HTTP.to_string());
        let https = chars_of(TransportType::HTTPS.to_string());
        if same_chars(name, &udp) {
            Some(TransportType::UDP)
        } else if same_chars(name, &http) {
            Some(TransportType::HTTP)
        } else if same_chars(name, &https) {
            Some(TransportType::HTTPS)
        } else {
            None
        }
    }
}

/// A tracker endpoint under evaluation.
#[derive(Clone, Debug, Eq, Hash)]
pub struct TrackerCandidate {
    pub host: String,
    pub port: u16,
    pub transport_type: TransportType,
    pub suffix: Option<String>,
}

/// The mathematical value of a [`TrackerCandidate`].
pub struct CandidateView {
    pub host: Seq<char>,
    pub port: u16,
    pub transport_type: TransportType,
    pub suffix: Option<Seq<char>>,
}

impl View for TrackerCandidate {
    type V = CandidateView;

    open spec fn view(&self) -> CandidateView {
        CandidateView {
            host: self.host@,
            port: self.port,
            transport_type: self.transport_type,
            suffix: match self.suffix {
                Some(suffix) => Some(suffix@),
                None => None,
            },
        }
    }
}

impl CandidateView {
    /// The suffix as it is written: nothing where there is none.
    pub open spec fn suffix_text(self) -> Seq<char> {
        match self.suffix {
            Some(suffix) => suffix,
            None => Seq::empty(),
        }
    }

    /// The candidate string: `transport://host:port`, then the suffix.
    pub open spec fn canonical(self) -> Seq<char> {
        self.transport_type.name() + seq![':', '/', '/'] + self.host + seq![':'] + decimal(self.port as nat)
            + self.suffix_text()
    }

    /// Whether the candidate can be read back from its string: the host holds
    /// no colon, and a suffix begins with a slash and holds no colon.
    pub open spec fn well_formed(self) -> bool {
        &&& free_of(self.host, ':')
        &&& self.suffix matches Some(suffix) ==> suffix.len() > 0 && suffix[0] == '/' && free_of(suffix, ':')
    }

    /// Whether the candidate can be read back from a line of a list: it is
    /// well formed, it holds no line break, and its suffix does not end with
    /// white space.
    pub open spec fn listable(self) -> bool {
        &&& self.well_formed()
        &&& free_of(self.host, '\n')
        &&& self.suffix matches Some(suffix) ==> free_of(suffix, '\n') && !is_whitespace(suffix.last())
    }
}

impl PartialEq for TrackerCandidate {
    /// Two candidates are equal where they are the same in every field.
    fn eq(&self, other: &TrackerCandidate) -> (equal: bool) {
        self.same(other)
    }
}

impl vstd::std_specs::cmp::PartialEqSpecImpl for TrackerCandidate {
    open spec fn obeys_eq_spec() -> bool {
        true
    }

    open spec fn eq_spec(&self, other: &TrackerCandidate) -> bool {
        self@ == other@
    }
}

/// Why a text is no candidate string.
pub enum ParseFailure {
    /// It does not hold exactly two colons.
    FieldCount,
    /// What stands before the first colon names no transport.
    IllegalProtocol,
    /// No `//` follows the first colon.
    MissingSlashes,
    /// What stands for the port is no 16-bit number.
    PortNotNumeric,
}

impl ParseFailure {
    /// The message that tells of the failure.
    pub open spec fn message(self) -> Seq<char> {
        match self {
            ParseFailure::FieldCount => "Invalid format. Expecting two ':'"@,
            ParseFailure::IllegalProtocol => "Illegal protocol"@,
            ParseFailure::MissingSlashes => "Invalid format. Expecting proto://host:port[/suffix]. Missing '://' after proto"@,
            ParseFailure::PortNotNumeric => "Expected port to be a numeric value"@,
        }
    }
}

/// What a text stands for as a candidate string. The text is cut at its
/// colons into transport, `//host` and the rest; the rest is cut at its first
/// slash into port and suffix. The checks are made in the order given.
pub open spec fn parse_candidate(text: Seq<char>) -> Result<CandidateView, ParseFailure> {
    let parts = split(text, ':');
    if parts.len() != 3 {
        Err(ParseFailure::FieldCount)
    } else {
        match TransportType::named(parts[0]) {
            None => Err(ParseFailure::IllegalProtocol),
            Some(transport_type) => {
                if !seq!['/', '/'].is_prefix_of(parts[1]) {
                    Err(ParseFailure::MissingSlashes)
                } else {
                    let cut = first_index(parts[2], '/');
                    match parse_u16(parts[2].take(cut)) {
                        None => Err(ParseFailure::PortNotNumeric),
                        Some(port) => Ok(
                            CandidateView {
                                host: parts[1].skip(2),
                                port,
                                transport_type,
                                suffix: if cut < parts[2].len() {
                                    Some(parts[2].skip(cut))
                                } else {
                                    None
                                },
                            },
                        ),
                    }
                }
            },
        }
    }
}

impl TrackerCandidate {
    /// The characters of the candidate string.
    pub fn canonical_chars(&self) -> (chars: Vec<char>)
        ensures
            chars@ == self@.canonical(),
    {
        let mut chars = chars_of(self.transport_type.to_string());
        chars.push(':');
        chars.push('/');
        chars.push('/');
        let host = chars_of(self.host.as_str());
        append_chars(&mut chars, &host);
        chars.push(':');
        let port = decimal_chars(self.port);
        append_chars(&mut chars, &port);
        match &self.suffix {
            Some(suffix) => {
                let suffix = chars_of(suffix.as_str());
                append_chars(&mut chars, &suffix);
            },
            None => {},
        }
        assert(chars@ =~= self@.canonical());
        chars
    }

    /// The candidate string.
    pub fn to_string(&self) -> (text: String)
        ensures
            text@ == self@.canonical(),
    {
        let chars = self.canonical_chars();
        string_of(&chars)
    }

    /// Reads a candidate string. A text that is none is an error, with the
    /// message of the first check it fails.
    pub fn from_string(string: &str) -> (candidate: Result<TrackerCandidate, &'static str>)
        ensures
            match parse_candidate(string@) {
                Ok(parsed) => candidate is Ok && candidate->Ok_0@ == parsed,
                Err(failure) => candidate is Err && candidate->Err_0@ == failure.message(),
            },
    {
        let text = chars_of(string);
        Self::from_chars(&text)
    }

    /// Reads a candidate string from its characters.
    pub fn from_chars(text: &Vec<char>) -> (candidate: Result<TrackerCandidate, &'static str>)
        ensures
            match parse_candidate(text@) {
                Ok(parsed) => candidate is Ok && candidate->Ok_0@ == parsed,
                Err(failure) => candidate is Err && candidate->Err_0@ == failure.message(),
            },
    {
        let parts = split_at_mark(text, ':');
        assert(texts(parts@).len() == parts.len());
        if parts.len() != 3 {
            return Err("Invalid format. Expecting two ':'");
        }
        assert(texts(parts@)[0] == parts[0]@);
        assert(texts(parts@)[1] == parts[1]@);
        assert(texts(parts@)[2] == parts[2]@);
        let transport_type = match TransportType::of_name(&parts[0]) {
            Some(found) => found,
            None => {
                return Err("Illegal protocol");
            },
        };
        let middle = &parts[1];
        if !(middle.len() >= 2 && middle[0] == '/' && middle[1] == '/') {
            return Err("Invalid format. Expecting proto://host:port[/suffix]. Missing '://' after proto");
        }
        assert(seq!['/', '/'].is_prefix_of(middle@)) by {
            assert(middle@.subrange(0, 2) =~= seq!['/', '/']);
        }
        let host = slice_of(middle, 2, middle.len());
        let rest = &parts[2];
        let mut cut: usize = 0;
        while cut < rest.len() && rest[cut] != '/'
            invariant
                cut <= rest.len(),
                forall|k: int| 0 <= k < cut ==> rest@[k] != '/',
            decreases rest.len() - cut,
        {
            cut += 1;
        }
        proof {
            lemma_first_index_is(rest@, '/', cut as int);
        }
        let digits = slice_of(rest, 0, cut);
        let port = match parse_u16_chars(&digits) {
            Some(port) => port,
            None => {
                return Err("Expected port to be a numeric value");
            },
        };
        let suffix = if cut < rest.len() {
            let tail = slice_of(rest, cut, rest.len());
            Some(string_of(&tail))
        } else {
            None
        };
        Ok(TrackerCandidate { host: string_of(&host), port, transport_type, suffix })
    }

    /// Whether two candidates are the same in every field.
    pub fn same(&self, other: &TrackerCandidate) -> (same: bool)
        ensures
            same == (self@ == other@),
    {
        let hosts: bool = self.host == other.host;
        let suffixes: bool = match &self.suffix {
            Some(left) => match &other.suffix {
                Some(right) => {
                    let equal: bool = *left == *right;
                    equal
                },
                None => false,
            },
            None => other.suffix.is_none(),
        };
        hosts && self.port == other.port && self.transport_type == other.transport_type && suffixes
    }

    /// A candidate that is the same in every field.
    pub fn duplicate(&self) -> (copy: TrackerCandidate)
        ensures
            copy@ == self@,
    {
        TrackerCandidate {
            host: self.host.clone(),
            port: self.port,
            transport_type: self.transport_type,
            suffix: match &self.suffix {
                Some(suffix) => Some(suffix.clone()),
                None => None,
            },
        }
    }
}

/// A well-formed candidate is read back from its own string.
pub proof fn lemma_canonical_round_trip(candidate: CandidateView)
    requires
        candidate.well_formed(),
    ensures
        parse_candidate(candidate.canonical()) == Ok::<CandidateView, ParseFailure>(candidate),
{
    let name = candidate.transport_type.name();
    let middle = seq!['/', '/'] + candidate.host;
    let digits = decimal(candidate.port as nat);
    let rest = digits + candidate.suffix_text();
    let text = candidate.canonical();
    lemma_decimal(candidate.port as nat);
    lemma_parse_decimal(candidate.port);
    assert(free_of(digits, ':') && free_of(digits, '/'));
    assert(free_of(name, ':'));
    assert(free_of(middle, ':'));
    assert(free_of(rest, ':'));
    assert(text =~= name + seq![':'] + (middle + seq![':'] + rest));
    lemma_split_after(name, ':', middle + seq![':'] + rest);
    lemma_split_after(middle, ':', rest);
    lemma_split_free(rest, ':');
    let parts = split(text, ':');
    assert(parts =~= seq![name, middle, rest]);
    assert(TransportType::named(name) == Some(candidate.transport_type)) by {
        assert(TransportType::UDP.name().len() == 3);
        assert(TransportType::HTTP.name().len() == 4);
        assert(TransportType::HTTPS.name().len() == 5);
    }
    assert(seq!['/', '/'].is_prefix_of(middle)) by {
        assert(middle.subrange(0, 2) =~= seq!['/', '/']);
    }
    assert(middle.skip(2) =~= candidate.host);
    lemma_first_index_is(rest, '/', digits.len() as int);
    assert(rest.take(digits.len() as int) =~= digits);
    match candidate.suffix {
        Some(suffix) => {
            assert(rest.skip(digits.len() as int) =~= suffix);
        },
        None => {
            assert(rest =~= digits);
        },
    }
}

/// A text is refused where it does not hold exactly two colons, where what
/// stands before the first names no transport, where `//` does not follow,
/// and where what stands for the port is no 16-bit number.
pub proof fn lemma_malformed_is_refused(text: Seq<char>)
    ensures
        split(text, ':').len() != 3 ==> parse_candidate(text) == Err::<CandidateView, ParseFailure>(
            ParseFailure::FieldCount,
        ),
        split(text, ':').len() == 3 && TransportType::named(split(text, ':')[0]) is None ==> parse_candidate(text)
            == Err::<CandidateView, ParseFailure>(ParseFailure::IllegalProtocol),
        split(text, ':').len() == 3 && !seq!['/', '/'].is_prefix_of(split(text, ':')[1]) ==> parse_candidate(
            text,
        ) is Err,
        split(text, ':').len() == 3 && parse_u16(
            split(text, ':')[2].take(first_index(split(text, ':')[2], '/')),
        ) is None ==> parse_candidate(text) is Err,
{
}

/// What is read from a text is well formed.
pub proof fn lemma_parsed_is_well_formed(text: Seq<char>)
    requires
        parse_candidate(text) is Ok,
    ensures
        parse_candidate(text)->Ok_0.well_formed(),
{
    let parts = split(text, ':');
    lemma_split_parts_free(text, ':');
    assert(free_of(parts[1], ':'));
    assert(free_of(parts[2], ':'));
    lemma_first_index(parts[2], '/');
}

/// Two well-formed candidates with the same string are the same candidate.
pub proof fn lemma_canonical_injective(left: CandidateView, right: CandidateView)
    requires
        left.well_formed(),
        right.well_formed(),
        left.canonical() == right.canonical(),
    ensures
        left == right,
{
    lemma_canonical_round_trip(left);
    lemma_canonical_round_trip(right);
}

/// The values of a list of candidates, in order.
pub open spec fn views(candidates: Seq<TrackerCandidate>) -> Seq<CandidateView> {
    candidates.map_values(|candidate: TrackerCandidate| candidate@)
}

/// The strings of a list of candidates, in order.
pub open spec fn canonical_lines(candidates: Seq<CandidateView>) -> Seq<Seq<char>> {
    candidates.map_values(|candidate: CandidateView| candidate.canonical())
}

/// The candidate that a line of a list stands for, if any. White space at
/// either end does not count; a line that then begins with `#` is a comment;
/// a line that is no candidate string is passed over.
pub open spec fn line_candidate(line: Seq<char>) -> Option<CandidateView> {
    let entry = trim(line);
    if entry.len() > 0 && entry[0] == '#' {
        None
    } else {
        match parse_candidate(entry) {
            Ok(candidate) => Some(candidate),
            Err(_) => None,
        }
    }
}

/// The candidates that lines stand for, in the order of the lines.
pub open spec fn candidates_of(lines: Seq<Seq<char>>) -> Seq<CandidateView>
    decreases lines.len(),
{
    if lines.len() == 0 {
        Seq::empty()
    } else {
        let before = candidates_of(lines.drop_last());
        match line_candidate(lines.last()) {
            Some(candidate) => before.push(candidate),
            None => before,
        }
    }
}

/// The candidates that a list holds, one line each.
pub open spec fn listed(contents: Seq<char>) -> Seq<CandidateView> {
    candidates_of(split(contents, '\n'))
}

/// Whether each candidate's string comes before, or equals, those of the
/// candidates after it.
pub open spec fn in_order(list: Seq<CandidateView>) -> bool {
    forall|i: int, j: int| 0 <= i <= j < list.len() ==> lex_le(#[trigger] list[i].canonical(), #[trigger] list[j].canonical())
}

/// Whether each candidate's string comes before those of the candidates
/// after it, and differs from them.
pub open spec fn strictly_in_order(list: Seq<CandidateView>) -> bool {
    forall|i: int, j: int|
        0 <= i < j < list.len() ==> lex_le(#[trigger] list[i].canonical(), #[trigger] list[j].canonical())
            && list[i].canonical() != list[j].canonical()
}

/// Every candidate read from lines is well formed.
pub proof fn lemma_listed_well_formed(lines: Seq<Seq<char>>)
    ensures
        forall|k: int| 0 <= k < candidates_of(lines).len() ==> (#[trigger] candidates_of(lines)[k]).well_formed(),
    decreases lines.len(),
{
    if lines.len() > 0 {
        let before = candidates_of(lines.drop_last());
        lemma_listed_well_formed(lines.drop_last());
        if line_candidate(lines.last()) is Some {
            lemma_parsed_is_well_formed(trim(lines.last()));
        }
        assert forall|k: int| 0 <= k < candidates_of(lines).len() implies (#[trigger] candidates_of(
            lines,
        )[k]).well_formed() by {
            if k < before.len() {
                assert(candidates_of(lines)[k] == before[k]);
            }
        }
    }
}

/// What is read from a text that holds no line break and does not end with
/// white space can be read back from a line of a list.
pub proof fn lemma_parsed_is_listable(text: Seq<char>)
    requires
        parse_candidate(text) is Ok,
        free_of(text, '\n'),
        text.len() > 0 ==> !is_whitespace(text.last()),
    ensures
        parse_candidate(text)->Ok_0.listable(),
{
    let parts = split(text, ':');
    lemma_parsed_is_well_formed(text);
    lemma_split_parts_keep_free(text, ':', '\n');
    lemma_split_last_ends(text, ':');
    assert(free_of(parts[1], '\n'));
    assert(free_of(parts[2], '\n'));
    assert(parts[2] == parts.last());
    lemma_first_index(parts[2], '/');
    let cut = first_index(parts[2], '/');
    if cut < parts[2].len() {
        assert(parts[2].skip(cut).last() == parts[2].last());
    }
}

/// Every candidate read from lines can be read back from a line.
pub proof fn lemma_listed_listable(lines: Seq<Seq<char>>)
    requires
        forall|k: int| 0 <= k < lines.len() ==> free_of(#[trigger] lines[k], '\n'),
    ensures
        forall|k: int| 0 <= k < candidates_of(lines).len() ==> (#[trigger] candidates_of(lines)[k]).listable(),
    decreases lines.len(),
{
    if lines.len() > 0 {
        let shorter = lines.drop_last();
        let before = candidates_of(shorter);
        assert forall|k: int| 0 <= k < shorter.len() implies free_of(#[trigger] shorter[k], '\n') by {
            assert(shorter[k] == lines[k]);
        }
        lemma_listed_listable(shorter);
        if line_candidate(lines.last()) is Some {
            assert(free_of(lines[lines.len() - 1], '\n'));
            lemma_trim(lines.last(), '\n');
            lemma_parsed_is_listable(trim(lines.last()));
        }
        assert forall|k: int| 0 <= k < candidates_of(lines).len() implies (#[trigger] candidates_of(
            lines,
        )[k]).listable() by {
            if k < before.len() {
                assert(candidates_of(lines)[k] == before[k]);
            }
        }
    }
}

/// The string of a candidate that can be read back from a line holds no
/// line break, and the candidate is what the line stands for.
pub proof fn lemma_listable_reads_back(candidate: CandidateView)
    requires
        candidate.listable(),
    ensures
        free_of(candidate.canonical(), '\n'),
        line_candidate(candidate.canonical()) == Some(candidate),
{
    let text = candidate.canonical();
    let digits = decimal(candidate.port as nat);
    lemma_decimal(candidate.port as nat);
    assert(is_digit(digits.last()));
    assert(free_of(digits, '\n')) by {
        assert forall|k: int| 0 <= k < digits.len() implies digits[k] != '\n' by {
            assert(is_digit(digits[k]));
        }
    }
    assert(text[0] == candidate.transport_type.name()[0]);
    assert(text.last() == if candidate.suffix_text().len() > 0 {
        candidate.suffix_text().last()
    } else {
        digits.last()
    });
    lemma_trim_stable(text);
    lemma_canonical_round_trip(candidate);
}

/// A list of candidates written one to a line is read back as it was.
pub proof fn lemma_list_reads_back(list: Seq<CandidateView>)
    requires
        forall|k: int| 0 <= k < list.len() ==> (#[trigger] list[k]).listable(),
    ensures
        listed(join(canonical_lines(list), '\n')) == list,
{
    let lines = canonical_lines(list);
    if list.len() == 0 {
        let nothing = Seq::<char>::empty();
        assert(join(lines, '\n') == nothing);
        lemma_split_free(nothing, '\n');
        lemma_split_free(nothing, ':');
        let single = seq![nothing];
        assert(split(nothing, '\n') == single);
        assert(single.drop_last() =~= Seq::<Seq<char>>::empty());
        assert(single.last() == nothing);
        assert(trim(nothing) == nothing);
        assert(split(nothing, ':').len() == 1);
        assert(parse_candidate(nothing) is Err);
        assert(line_candidate(nothing) is None);
        assert(candidates_of(single.drop_last()) =~= Seq::<CandidateView>::empty());
        assert(candidates_of(single) == candidates_of(single.drop_last()));
        assert(listed(join(lines, '\n')) =~= list);
    } else {
        assert forall|k: int| 0 <= k < lines.len() implies free_of(#[trigger] lines[k], '\n') by {
            lemma_listable_reads_back(list[k]);
        }
        lemma_split_join(lines, '\n');
        lemma_lines_read_back(list);
    }
}

/// The strings of candidates that can be read back from a line stand for
/// the candidates, in order.
proof fn lemma_lines_read_back(list: Seq<CandidateView>)
    requires
        forall|k: int| 0 <= k < list.len() ==> (#[trigger] list[k]).listable(),
    ensures
        candidates_of(canonical_lines(list)) == list,
    decreases list.len(),
{
    let lines = canonical_lines(list);
    if list.len() == 0 {
        assert(candidates_of(lines) =~= list);
    } else {
        let shorter = list.drop_last();
        assert forall|k: int| 0 <= k < shorter.len() implies (#[trigger] shorter[k]).listable() by {
            assert(shorter[k] == list[k]);
        }
        lemma_lines_read_back(shorter);
        assert(lines.drop_last() =~= canonical_lines(shorter));
        assert(list[list.len() - 1].listable());
        lemma_listable_reads_back(list.last());
        assert(lines.last() == list.last().canonical());
        assert(list =~= shorter.push(list.last()));
    }
}

/// The cleaned form of a list is determined by what the list holds: two
/// lists of well-formed candidates that are in strict order and hold the
/// same candidates are the same list.
pub proof fn lemma_strict_order_determines(left: Seq<CandidateView>, right: Seq<CandidateView>)
    requires
        strictly_in_order(left),
        strictly_in_order(right),
        forall|k: int| 0 <= k < left.len() ==> (#[trigger] left[k]).well_formed(),
        forall|k: int| 0 <= k < right.len() ==> (#[trigger] right[k]).well_formed(),
        forall|candidate: CandidateView| left.contains(candidate) <==> right.contains(candidate),
    ensures
        left == right,
{
    let left_lines = canonical_lines(left);
    let right_lines = canonical_lines(right);
    assert(strictly_ascending(left_lines)) by {
        assert forall|i: int, j: int| 0 <= i < j < left_lines.len() implies lex_le(
            #[trigger] left_lines[i],
            #[trigger] left_lines[j],
        ) && left_lines[i] != left_lines[j] by {
            assert(lex_le(left[i].canonical(), left[j].canonical()));
        }
    }
    assert(strictly_ascending(right_lines)) by {
        assert forall|i: int, j: int| 0 <= i < j < right_lines.len() implies lex_le(
            #[trigger] right_lines[i],
            #[trigger] right_lines[j],
        ) && right_lines[i] != right_lines[j] by {
            assert(lex_le(right[i].canonical(), right[j].canonical()));
        }
    }
    assert forall|line: Seq<char>| left_lines.contains(line) <==> right_lines.contains(line) by {
        if left_lines.contains(line) {
            let k = choose|k: int| 0 <= k < left_lines.len() && left_lines[k] == line;
            assert(left.contains(left[k]));
            let at = choose|at: int| 0 <= at < right.len() && right[at] == left[k];
            assert(right_lines[at] == line);
        }
        if right_lines.contains(line) {
            let k = choose|k: int| 0 <= k < right_lines.len() && right_lines[k] == line;
            assert(right.contains(right[k]));
            let at = choose|at: int| 0 <= at < left.len() && left[at] == right[k];
            assert(left_lines[at] == line);
        }
    }
    lemma_strict_order_is_unique(left_lines, right_lines);
    assert(left.len() == right.len());
    assert forall|k: int| 0 <= k < left.len() implies left[k] == right[k] by {
        assert(left_lines[k] == right_lines[k]);
        lemma_canonical_injective(left[k], right[k]);
    }
    assert(left =~= right);
}

/// Reads a list of candidates: one to a line, comments and lines that are
/// no candidate string left out.
pub fn get_candidates(contents: &str) -> (candidates: Vec<TrackerCandidate>)
    ensures
        views(candidates@) == listed(contents@),
{
    let text = chars_of(contents);
    let lines = split_at_mark(&text, '\n');
    let mut candidates: Vec<TrackerCandidate> = Vec::new();
    let mut index: usize = 0;
    assert(texts(lines@).take(0) =~= Seq::<Seq<char>>::empty());
    while index < lines.len()
        invariant
            index <= lines.len(),
            views(candidates@) == candidates_of(texts(lines@).take(index as int)),
        decreases lines.len() - index,
    {
        let ghost longer = texts(lines@).take(index + 1);
        assert(longer.drop_last() == texts(lines@).take(index as int));
        assert(longer.last() == lines@[index as int]@);
        let entry = trim_chars(&lines[index]);
        let comment: bool = entry.len() > 0 && entry[0] == '#';
        if !comment {
            match TrackerCandidate::from_chars(&entry) {
                Ok(candidate) => {
                    assert(views(candidates@.push(candidate)) == views(candidates@).push(candidate@));
                    candidates.push(candidate);
                },
                Err(_) => {},
            }
        }
        index += 1;
    }
    assert(texts(lines@).take(index as int) == texts(lines@));
    candidates
}

/// Whether `list` holds a candidate that is the same as `candidate`.
pub fn holds(list: &Vec<TrackerCandidate>, candidate: &TrackerCandidate) -> (found: bool)
    ensures
        found == views(list@).contains(candidate@),
{
    let mut index: usize = 0;
    while index < list.len()
        invariant
            index <= list.len(),
            forall|k: int| 0 <= k < index ==> views(list@)[k] != candidate@,
        decreases list.len() - index,
    {
        if list[index].same(candidate) {
            assert(views(list@)[index as int] == candidate@);
            return true;
        }
        index += 1;
    }
    false
}

/// Keeps every candidate once, where it first occurs.
pub fn remove_duplicates(candidates: Vec<TrackerCandidate>) -> (kept: Vec<TrackerCandidate>)
    ensures
        views(kept@) == distinct(views(candidates@)),
        views(kept@).no_duplicates(),
        forall|candidate: CandidateView|
            views(kept@).contains(candidate) <==> views(candidates@).contains(candidate),
{
    let mut kept: Vec<TrackerCandidate> = Vec::new();
    let mut index: usize = 0;
    assert(views(candidates@).take(0) =~= Seq::<CandidateView>::empty());
    while index < candidates.len()
        invariant
            index <= candidates.len(),
            views(kept@) == distinct(views(candidates@).take(index as int)),
        decreases candidates.len() - index,
    {
        let ghost longer = views(candidates@).take(index + 1);
        assert(longer.drop_last() == views(candidates@).take(index as int));
        assert(longer.last() == candidates@[index as int]@);
        if !holds(&kept, &candidates[index]) {
            let candidate = candidates[index].duplicate();
            assert(views(kept@.push(candidate)) == views(kept@).push(candidate@));
            kept.push(candidate);
        }
        index += 1;
    }
    assert(views(candidates@).take(index as int) == views(candidates@));
    proof {
        lemma_distinct(views(candidates@));
    }
    kept
}

/// Where a candidate belongs in a list that is in order: behind the last
/// candidate whose string comes before its own, or equals it.
pub open spec fn place_of(list: Seq<CandidateView>, candidate: CandidateView) -> int
    decreases list.len(),
{
    if list.len() == 0 {
        0
    } else if lex_le(list.last().canonical(), candidate.canonical()) {
        list.len() as int
    } else {
        place_of(list.drop_last(), candidate)
    }
}

/// `list` in the order of the candidates' strings: each candidate is put
/// where it belongs among those before it, so that candidates with the same
/// string stay in the order they came in.
pub open spec fn ordered(list: Seq<CandidateView>) -> Seq<CandidateView>
    decreases list.len(),
{
    if list.len() == 0 {
        Seq::empty()
    } else {
        let before = ordered(list.drop_last());
        before.insert(place_of(before, list.last()), list.last())
    }
}

/// Puts candidates in the order of their strings. Candidates with the same
/// string stay in the order they came in.
pub fn sort_candidates(candidates: Vec<TrackerCandidate>) -> (sorted: Vec<TrackerCandidate>)
    ensures
        views(sorted@) == ordered(views(candidates@)),
        in_order(views(sorted@)),
        views(sorted@).to_multiset() == views(candidates@).to_multiset(),
{
    let mut sorted: Vec<TrackerCandidate> = Vec::new();
    let mut sorted_keys: Vec<Vec<char>> = Vec::new();
    let mut index: usize = 0;
    assert(views(candidates@).take(0) =~= Seq::<CandidateView>::empty());
    assert(views(sorted@) =~= Seq::<CandidateView>::empty());
    while index < candidates.len()
        invariant
            index <= candidates.len(),
            sorted.len() == index,
            sorted_keys.len() == index,
            forall|k: int| 0 <= k < index ==> (#[trigger] sorted_keys[k])@ == sorted[k]@.canonical(),
            in_order(views(sorted@)),
            views(sorted@) == ordered(views(candidates@).take(index as int)),
            views(sorted@).to_multiset() == views(candidates@).take(index as int).to_multiset(),
        decreases candidates.len() - index,
    {
        let candidate = candidates[index].duplicate();
        let key = candidate.canonical_chars();
        let mut place: usize = sorted.len();
        assert(views(sorted@).take(place as int) == views(sorted@));
        while place > 0 && !precedes(&sorted_keys[place - 1], &key)
            invariant
                place <= sorted.len(),
                sorted.len() == sorted_keys.len(),
                key@ == candidate@.canonical(),
                forall|k: int| 0 <= k < sorted.len() ==> (#[trigger] sorted_keys[k])@ == sorted[k]@.canonical(),
                forall|k: int| place <= k < sorted.len() ==> lex_le(key@, #[trigger] sorted[k]@.canonical()),
                place_of(views(sorted@), candidate@) == place_of(views(sorted@).take(place as int), candidate@),
            decreases place,
        {
            proof {
                lemma_lex_le_total(sorted_keys[place - 1]@, key@);
                let part = views(sorted@).take(place as int);
                assert(part.last() == sorted[place - 1]@);
                assert(part.drop_last() == views(sorted@).take(place - 1));
            }
            place -= 1;
        }
        proof {
            let before = views(sorted@);
            let after = before.insert(place as int, candidate@);
            assert(place_of(before, candidate@) == place) by {
                let part = before.take(place as int);
                if place > 0 {
                    assert(part.last() == sorted[place - 1]@);
                }
            }
            let longer = views(candidates@).take(index + 1);
            assert(longer.drop_last() == views(candidates@).take(index as int));
            assert(longer.last() == candidate@);
            assert forall|i: int, j: int| 0 <= i <= j < after.len() implies lex_le(
                #[trigger] after[i].canonical(),
                #[trigger] after[j].canonical(),
            ) by {
                if i == place && j == place {
                    lemma_lex_le_reflexive(key@);
                } else if i == place {
                    assert(after[j] == sorted[j - 1]@);
                } else if j == place {
                    assert(after[i] == before[i]);
                    assert(sorted_keys[place - 1]@ == before[place - 1].canonical());
                    assert(lex_le(before[i].canonical(), before[place - 1].canonical()));
                    lemma_lex_le_transitive(before[i].canonical(), before[place - 1].canonical(), key@);
                } else {
                    let from = if i < place { i } else { i - 1 };
                    let to = if j < place { j } else { j - 1 };
                    assert(after[i] == before[from]);
                    assert(after[j] == before[to]);
                    assert(lex_le(before[from].canonical(), before[to].canonical()));
                }
            }
            assert(views(sorted@.insert(place as int, candidate)) =~= after);
            vstd::seq_lib::to_multiset_insert(before, place as int, candidate@);
            let taken = views(candidates@).take(index as int);
            assert(views(candidates@).take(index + 1) =~= taken.push(candidate@));
            vstd::seq_lib::to_multiset_build(taken, candidate@);
        }
        sorted.insert(place, candidate);
        sorted_keys.insert(place, key);
        index += 1;
    }
    assert(views(candidates@).take(index as int) == views(candidates@));
    sorted
}

/// A list of candidates put in order, and how many entries it was made from.
pub struct CleanedList {
    /// Number of candidates that the list held, duplicates counted.
    pub loaded: usize,
    /// The candidates, each once, in the order of their strings.
    pub candidates: Vec<TrackerCandidate>,
    /// The candidates' strings, one to a line.
    pub text: String,
}

/// Cleans a list of candidates: reads it, keeps every candidate once, puts
/// them in the order of their strings and writes them one to a line.
pub fn clean_candidates(contents: &str) -> (cleaned: CleanedList)
    ensures
        cleaned.loaded == listed(contents@).len(),
        views(cleaned.candidates@) == ordered(distinct(listed(contents@))),
        strictly_in_order(views(cleaned.candidates@)),
        forall|k: int|
            0 <= k < cleaned.candidates.len() ==> (#[trigger] views(cleaned.candidates@)[k]).listable(),
        forall|candidate: CandidateView|
            views(cleaned.candidates@).contains(candidate) <==> listed(contents@).contains(candidate),
        cleaned.text@ == join(canonical_lines(views(cleaned.candidates@)), '\n'),
        listed(cleaned.text@) == views(cleaned.candidates@),
{
    let loaded = get_candidates(contents);
    let count: usize = loaded.len();
    let unique = remove_duplicates(loaded);
    let ghost unique_views = views(unique@);
    let sorted = sort_candidates(unique);
    let mut lines: Vec<Vec<char>> = Vec::new();
    let mut index: usize = 0;
    while index < sorted.len()
        invariant
            index <= sorted.len(),
            lines.len() == index,
            forall|k: int| 0 <= k < index ==> (#[trigger] lines[k])@ == sorted[k]@.canonical(),
        decreases sorted.len() - index,
    {
        lines.push(sorted[index].canonical_chars());
        index += 1;
    }
    assert(texts(lines@) =~= canonical_lines(views(sorted@)));
    let joined = join_chars(&lines, '\n');
    let text = string_of(&joined);
    proof {
        let all = listed(contents@);
        let ordered = views(sorted@);
        broadcast use vstd::seq_lib::group_to_multiset_ensures;
        unique_views.lemma_multiset_has_no_duplicates();
        ordered.lemma_multiset_has_no_duplicates_conv();
        assert forall|candidate: CandidateView| ordered.contains(candidate) <==> all.contains(candidate) by {
            assert(ordered.contains(candidate) <==> ordered.to_multiset().count(candidate) > 0);
            assert(unique_views.contains(candidate) <==> unique_views.to_multiset().count(candidate) > 0);
        }
        lemma_split_parts_free(contents@, '\n');
        lemma_listed_listable(split(contents@, '\n'));
        assert forall|k: int| 0 <= k < ordered.len() implies (#[trigger] ordered[k]).listable() by {
            assert(ordered.contains(ordered[k]));
            let a = choose|a: int| 0 <= a < all.len() && all[a] == ordered[k];
            assert(all[a].listable());
        }
        lemma_list_reads_back(ordered);
        assert forall|i: int, j: int| 0 <= i < j < ordered.len() implies lex_le(
            #[trigger] ordered[i].canonical(),
            #[trigger] ordered[j].canonical(),
        ) && ordered[i].canonical() != ordered[j].canonical() by {
            assert(ordered[i].listable() && ordered[j].listable());
            if ordered[i].canonical() == ordered[j].canonical() {
                lemma_canonical_injective(ordered[i], ordered[j]);
            }
        }
    }
    CleanedList { loaded: count, candidates: sorted, text }
}

} // verus!
