//! Reading log lines: the address, the user agent and the bytes sent.
use vstd::prelude::*;
use vstd::slice::slice_subrange;

use crate::address;
use crate::address::IpAddress;
use crate::pattern;
use crate::pattern::PatternError;
use crate::text;

verus! {

broadcast use vstd::string::group_string_axioms;

/// What a log line says of one request.
#[derive(Debug)]
pub struct ParsedLine {
    pub ip: IpAddress,
    pub user_agent: Option<String>,
    pub bytes: u64,
}

/// A request as a mathematical value.
pub ghost struct Hit {
    pub ip: IpAddress,
    pub user_agent: Option<Seq<char>>,
    pub bytes: u64,
}

impl View for ParsedLine {
    type V = Hit;

    open spec fn view(&self) -> Hit {
        Hit { ip: self.ip, user_agent: text::opt_view(self.user_agent), bytes: self.bytes }
    }
}

/// What a line says as a mathematical value, if it says anything.
pub open spec fn line_view(p: Option<ParsedLine>) -> Option<Hit> {
    match p {
        Some(l) => Some(l@),
        None => None,
    }
}

/// A log format.
pub trait LogParser {
    /// What a line of this format says, if anything.
    spec fn hit(&self, line: Seq<char>) -> Option<Hit>;

    /// Does this format record the bytes sent?
    spec fn knows_bytes(&self) -> bool;

    fn parse_line(&self, line: &str) -> (r: Option<ParsedLine>)
        ensures
            line_view(r) == self.hit(line@),
    ;

    fn has_bytes(&self) -> (r: bool)
        ensures
            r == self.knows_bytes(),
    ;
}

// ---------------------------------------------------------------------------
// The combined format of nginx
// ---------------------------------------------------------------------------

/// Address, identity, user, time, request, status, bytes sent, referrer and user agent.
pub const NGINX_PATTERN: &'static str =
    "^(\\S+) \\S+ \\S+ \\[[^\\]]+\\] \"[^\"]*\" \\d+ (\\d+) \"[^\"]*\" \"([^\"]*)";

/// Lines of the combined log format of nginx.
pub struct NginxParser {
    re: regex::Regex,
}

/// An optional text, unless it is empty.
pub open spec fn unless_empty(t: Option<Seq<char>>) -> Option<Seq<char>> {
    match t {
        Some(s) => if s.len() == 0 {
            None
        } else {
            Some(s)
        },
        None => None,
    }
}

/// The number that an optional text writes; 0 where there is none.
pub open spec fn number_or_zero(t: Option<Seq<char>>) -> u64 {
    match t {
        Some(s) => match text::u64_value(s) {
            Some(n) => n,
            None => 0,
        },
        None => 0,
    }
}

/// What the groups of a match in the combined format say: the address, the bytes sent and the user
/// agent, in this order.
pub open spec fn combined_hit(groups: Seq<Option<Seq<char>>>) -> Option<Hit> {
    match pattern::group_text(groups, 1) {
        Some(host) => match address::parsed_address(host) {
            Some(ip) => Some(
                Hit {
                    ip,
                    user_agent: unless_empty(pattern::group_text(groups, 3)),
                    bytes: number_or_zero(pattern::group_text(groups, 2)),
                },
            ),
            None => None,
        },
        None => None,
    }
}

/// What the groups of a match in the combined format say.
pub fn read_combined(groups: &Vec<Option<String>>) -> (r: Option<ParsedLine>)
    ensures
        line_view(r) == combined_hit(pattern::group_views(groups@)),
{
    let ip = match pattern::group(groups, 1) {
        Some(host) => match IpAddress::parse(host.as_str()) {
            Some(ip) => ip,
            None => {
                return None;
            },
        },
        None => {
            return None;
        },
    };
    let bytes: u64 = match pattern::group(groups, 2) {
        Some(t) => match text::parse_u64(text::to_chars(t.as_str()).as_slice()) {
            Some(n) => n,
            None => 0,
        },
        None => 0,
    };
    let user_agent = match pattern::group(groups, 3) {
        Some(t) => if t.as_str().unicode_len() == 0 {
            None
        } else {
            Some(t.clone())
        },
        None => None,
    };
    Some(ParsedLine { ip, user_agent, bytes })
}

impl NginxParser {
    #[verifier::type_invariant]
    spec fn inv(self) -> bool {
        self.re == pattern::compiled(NGINX_PATTERN@)
    }

    /// The expression that lines are matched with.
    pub closed spec fn expression(&self) -> regex::Regex {
        self.re
    }

    /// The parser that comes of compiling the expression; where that failed, the error comes back.
    pub fn from_compiled(outcome: Result<regex::Regex, PatternError>) -> (r: Result<
        NginxParser,
        PatternError,
    >)
        requires
            outcome matches Ok(re) ==> re == pattern::compiled(NGINX_PATTERN@),
        ensures
            match outcome {
                Ok(re) => r matches Ok(p) && p.expression() == re,
                Err(e) => r == Err::<NginxParser, PatternError>(e),
            },
    {
        match outcome {
            Ok(re) => Ok(NginxParser { re }),
            Err(e) => Err(e),
        }
    }

    /// Compiles the expression for the combined format, and makes a parser that matches lines with
    /// it.
    pub fn new() -> (r: Result<NginxParser, PatternError>)
        ensures
            r matches Ok(p) ==> p.expression() == pattern::compiled(NGINX_PATTERN@),
            r matches Ok(p) ==> p.knows_bytes(),
    {
        NginxParser::from_compiled(pattern::compile(NGINX_PATTERN))
    }
}

impl LogParser for NginxParser {
    /// The groups of the combined format, where the line has it.
    open spec fn hit(&self, line: Seq<char>) -> Option<Hit> {
        match pattern::captured(NGINX_PATTERN@, line) {
            Some(groups) => combined_hit(groups),
            None => None,
        }
    }

    open spec fn knows_bytes(&self) -> bool {
        true
    }

    fn parse_line(&self, line: &str) -> (r: Option<ParsedLine>) {
        proof {
            use_type_invariant(self);
        }
        match pattern::captures(&self.re, line) {
            Some(groups) => read_combined(&groups),
            None => None,
        }
    }

    fn has_bytes(&self) -> (r: bool) {
        true
    }
}

// ---------------------------------------------------------------------------
// Fields between delimiters
// ---------------------------------------------------------------------------

/// Lines of fields with a delimiter between them. Fields are counted from 1.
#[derive(Debug)]
pub struct DelimiterParser {
    pub delimiter: String,
    pub ip_field: Option<usize>,
    pub ua_field: Option<usize>,
    pub bytes_field: Option<usize>,
}

/// The index of a field that is counted from 1; 0 stands for the first field too.
pub open spec fn field_index(n: usize) -> int {
    if n == 0 {
        0
    } else {
        n - 1
    }
}

/// A field by its number, where the number is given and the line has that field.
pub open spec fn field(fields: Seq<Seq<char>>, n: Option<usize>) -> Option<Seq<char>> {
    match n {
        Some(k) => if field_index(k) < fields.len() {
            Some(fields[field_index(k)])
        } else {
            None
        },
        None => None,
    }
}

/// The first field that is an address.
pub open spec fn first_address(fields: Seq<Seq<char>>) -> Option<IpAddress>
    decreases fields.len(),
{
    if fields.len() == 0 {
        None
    } else {
        match address::parsed_address(fields[0]) {
            Some(ip) => Some(ip),
            None => first_address(fields.drop_first()),
        }
    }
}

/// The last field that holds a character.
pub open spec fn last_filled(fields: Seq<Seq<char>>) -> Option<Seq<char>>
    decreases fields.len(),
{
    if fields.len() == 0 {
        None
    } else if fields.last().len() > 0 {
        Some(fields.last())
    } else {
        last_filled(fields.drop_last())
    }
}

/// What the fields of a line say. Where no number is given for the address, it is the first field
/// that is one, and the user agent is the last field that is not empty unless it has a number.
pub open spec fn fields_hit(
    fields: Seq<Seq<char>>,
    ip_field: Option<usize>,
    ua_field: Option<usize>,
    bytes_field: Option<usize>,
) -> Option<Hit> {
    let ip = match ip_field {
        Some(_) => match field(fields, ip_field) {
            Some(t) => address::parsed_address(t),
            None => None,
        },
        None => first_address(fields),
    };
    let user_agent = if ip_field is None && ua_field is None {
        last_filled(fields)
    } else {
        unless_empty(field(fields, ua_field))
    };
    let bytes = match field(fields, bytes_field) {
        Some(t) => number_or_zero(Some(text::trim(t))),
        None => 0,
    };
    match ip {
        Some(ip) => Some(Hit { ip, user_agent, bytes }),
        None => None,
    }
}

fn nth_field<'a>(fields: &Vec<&'a [char]>, n: Option<usize>) -> (r: Option<&'a [char]>)
    ensures
        match r {
            Some(t) => field(text::views(fields@), n) == Some(t@),
            None => field(text::views(fields@), n) is None,
        },
{
    match n {
        Some(k) => {
            let i: usize = if k == 0 {
                0
            } else {
                k - 1
            };
            if i < fields.len() {
                Some(fields[i])
            } else {
                None
            }
        },
        None => None,
    }
}

fn parse_chars(s: &[char]) -> (r: Option<IpAddress>)
    ensures
        r == address::parsed_address(s@),
{
    let t = text::from_chars(s);
    IpAddress::parse(t.as_str())
}

fn find_address(fields: &Vec<&[char]>) -> (r: Option<IpAddress>)
    ensures
        r == first_address(text::views(fields@)),
{
    let ghost all = text::views(fields@);
    assert(all.skip(0) =~= all);
    for i in 0..fields.len()
        invariant
            all == text::views(fields@),
            first_address(all) == first_address(all.skip(i as int)),
    {
        assert(all.skip(i as int).drop_first() =~= all.skip(i + 1));
        assert(all.skip(i as int)[0] == all[i as int]);
        let r = parse_chars(fields[i]);
        if r.is_some() {
            return r;
        }
    }
    assert(all.skip(all.len() as int).len() == 0);
    None
}

fn find_filled<'a>(fields: &Vec<&'a [char]>) -> (r: Option<&'a [char]>)
    ensures
        match r {
            Some(t) => last_filled(text::views(fields@)) == Some(t@),
            None => last_filled(text::views(fields@)) is None,
        },
{
    let ghost all = text::views(fields@);
    let mut n: usize = fields.len();
    assert(all.take(n as int) =~= all);
    while n > 0
        invariant
            n <= fields@.len(),
            all == text::views(fields@),
            last_filled(all) == last_filled(all.take(n as int)),
        decreases n,
    {
        assert(all.take(n as int).drop_last() =~= all.take(n - 1));
        assert(all.take(n as int).last() == all[n - 1]);
        if fields[n - 1].len() > 0 {
            return Some(fields[n - 1]);
        }
        n = n - 1;
    }
    None
}

fn filled_copy(t: Option<&[char]>) -> (r: Option<String>)
    ensures
        text::opt_view(r) == unless_empty(
            match t {
                Some(s) => Some(s@),
                None => None,
            },
        ),
{
    match t {
        Some(s) => if s.len() > 0 {
            Some(text::from_chars(s))
        } else {
            None
        },
        None => None,
    }
}

impl DelimiterParser {
    /// A parser for fields with this delimiter between them.
    pub fn new(
        delimiter: &str,
        ip_field: Option<usize>,
        ua_field: Option<usize>,
        bytes_field: Option<usize>,
    ) -> (r: DelimiterParser)
        ensures
            r.delimiter@ == delimiter@,
            r.ip_field == ip_field,
            r.ua_field == ua_field,
            r.bytes_field == bytes_field,
    {
        DelimiterParser { delimiter: delimiter.to_owned(), ip_field, ua_field, bytes_field }
    }
}

impl LogParser for DelimiterParser {
    open spec fn hit(&self, line: Seq<char>) -> Option<Hit> {
        fields_hit(
            text::split(line, self.delimiter@),
            self.ip_field,
            self.ua_field,
            self.bytes_field,
        )
    }

    open spec fn knows_bytes(&self) -> bool {
        self.bytes_field is Some
    }

    fn parse_line(&self, line: &str) -> (r: Option<ParsedLine>) {
        let chars = text::to_chars(line);
        let delimiter = text::to_chars(self.delimiter.as_str());
        let fields = text::pieces(&chars, &delimiter);
        let found = match self.ip_field {
            Some(_) => match nth_field(&fields, self.ip_field) {
                Some(t) => parse_chars(t),
                None => None,
            },
            None => find_address(&fields),
        };
        let ip = match found {
            Some(ip) => ip,
            None => {
                return None;
            },
        };
        let user_agent = if self.ip_field.is_none() && self.ua_field.is_none() {
            match find_filled(&fields) {
                Some(t) => Some(text::from_chars(t)),
                None => None,
            }
        } else {
            filled_copy(nth_field(&fields, self.ua_field))
        };
        let bytes: u64 = match nth_field(&fields, self.bytes_field) {
            Some(t) => match text::parse_u64(text::trimmed(t)) {
                Some(n) => n,
                None => 0,
            },
            None => 0,
        };
        Some(ParsedLine { ip, user_agent, bytes })
    }

    fn has_bytes(&self) -> (r: bool) {
        self.bytes_field.is_some()
    }
}

// ---------------------------------------------------------------------------
// Any line with an address in it
// ---------------------------------------------------------------------------

/// Four groups of up to three digits.
pub const IPV4_PATTERN: &'static str = "\\b(\\d{1,3}\\.\\d{1,3}\\.\\d{1,3}\\.\\d{1,3})\\b";

/// Eight groups of up to four hexadecimal digits, or fewer around a double colon. Of groups on both
/// sides of a double colon the match may leave out the last ones.
pub const IPV6_PATTERN: &'static str =
    "\\b((?:[0-9a-fA-F]{1,4}:){7}[0-9a-fA-F]{1,4}|(?:[0-9a-fA-F]{1,4}:){1,7}:|(?:[0-9a-fA-F]{1,4}:){1,6}:[0-9a-fA-F]{1,4}|(?:[0-9a-fA-F]{1,4}:){1,5}(?::[0-9a-fA-F]{1,4}){1,2}|(?:[0-9a-fA-F]{1,4}:){1,4}(?::[0-9a-fA-F]{1,4}){1,3}|(?:[0-9a-fA-F]{1,4}:){1,3}(?::[0-9a-fA-F]{1,4}){1,4}|(?:[0-9a-fA-F]{1,4}:){1,2}(?::[0-9a-fA-F]{1,4}){1,5}|[0-9a-fA-F]{1,4}:(?::[0-9a-fA-F]{1,4}){1,6}|:(?::[0-9a-fA-F]{1,4}){1,7}|::)\\b";

/// What the pattern for IPv4 addresses matches first, with all the groups in front of it that make
/// it an IPv6 address; without such groups nothing is captured.
pub const MIXED_PATTERN: &'static str =
    "(?:^|\\W)((?:[0-9a-fA-F]{1,4}(?::[0-9a-fA-F]{1,4})*)?::(?:[0-9a-fA-F]{1,4}:)*[0-9]{1,3}(?:\\.[0-9]{1,3}){3}|(?:[0-9a-fA-F]{1,4}:)+[0-9]{1,3}(?:\\.[0-9]{1,3}){3})(?:\\W|$)|\\b\\d{1,3}\\.\\d{1,3}\\.\\d{1,3}\\.\\d{1,3}\\b";

/// What the pattern for IPv6 addresses matches first, with all the groups behind the double colon;
/// without such groups nothing is captured.
pub const WHOLE_PATTERN: &'static str =
    "(?:^|\\W)([0-9a-fA-F]{1,4}(?::[0-9a-fA-F]{1,4})*::[0-9a-fA-F]{1,4}(?::[0-9a-fA-F]{1,4})*)(?:\\W|$)|\\b(?:(?:[0-9a-fA-F]{1,4}:){7}[0-9a-fA-F]{1,4}|(?:[0-9a-fA-F]{1,4}:){1,7}:|(?:[0-9a-fA-F]{1,4}:){1,6}:[0-9a-fA-F]{1,4}|(?:[0-9a-fA-F]{1,4}:){1,5}(?::[0-9a-fA-F]{1,4}){1,2}|(?:[0-9a-fA-F]{1,4}:){1,4}(?::[0-9a-fA-F]{1,4}){1,3}|(?:[0-9a-fA-F]{1,4}:){1,3}(?::[0-9a-fA-F]{1,4}){1,4}|(?:[0-9a-fA-F]{1,4}:){1,2}(?::[0-9a-fA-F]{1,4}){1,5}|[0-9a-fA-F]{1,4}:(?::[0-9a-fA-F]{1,4}){1,6}|:(?::[0-9a-fA-F]{1,4}){1,7}|::)\\b";

/// Groups of hexadecimal digits with a double colon in front of them or behind them.
pub const EDGE_PATTERN: &'static str =
    "(?:^|\\W)(::(?:[0-9a-fA-F]{1,4}(?::[0-9a-fA-F]{1,4})*)?|[0-9a-fA-F]{1,4}(?::[0-9a-fA-F]{1,4})*::)(?:\\W|$)";

/// The patterns for addresses in a line.
pub open spec fn address_patterns() -> Seq<Seq<char>> {
    seq![IPV4_PATTERN@, IPV6_PATTERN@, MIXED_PATTERN@, WHOLE_PATTERN@, EDGE_PATTERN@]
}

/// Lines of no known format.
pub struct GenericParser {
    expressions: Vec<regex::Regex>,
}

/// The text between the last two double quotes of a line.
pub open spec fn last_quoted(line: Seq<char>) -> Option<Seq<char>> {
    match text::rfind_char(line, '"') {
        Some(close) => match text::rfind_char(line.take(close as int), '"') {
            Some(open) => Some(line.subrange(open as int + 1, close as int)),
            None => None,
        },
        None => None,
    }
}

/// The text of the first group of a match.
pub open spec fn first_text(groups: Option<Seq<Option<Seq<char>>>>) -> Option<Seq<char>> {
    match groups {
        Some(g) => pattern::group_text(g, 1),
        None => None,
    }
}

/// The address that an optional text writes.
pub open spec fn opt_address(t: Option<Seq<char>>) -> Option<IpAddress> {
    match t {
        Some(s) => address::parsed_address(s),
        None => None,
    }
}

/// The address that a match is, or the one that it is only a part of: its end where `at_end` says so,
/// and its start otherwise.
pub open spec fn address_around(
    part: Option<Seq<char>>,
    whole: Option<Seq<char>>,
    at_end: bool,
) -> Option<IpAddress> {
    match (opt_address(part), opt_address(whole)) {
        (Some(ip), Some(wider)) => if is_part(part->0, whole->0, at_end) {
            Some(wider)
        } else {
            Some(ip)
        },
        (found, _) => found,
    }
}

/// A text is the end or the start of another.
pub open spec fn is_part(part: Seq<char>, whole: Seq<char>, at_end: bool) -> bool {
    if at_end {
        text::ends_with(whole, part)
    } else {
        text::starts_with(whole, part)
    }
}

/// What the patterns for addresses find in a line.
pub ghost struct Finds {
    pub ipv4: Option<Seq<Option<Seq<char>>>>,
    pub ipv6: Option<Seq<Option<Seq<char>>>>,
    pub mixed: Option<Seq<Option<Seq<char>>>>,
    pub whole: Option<Seq<Option<Seq<char>>>>,
    pub edge: Option<Seq<Option<Seq<char>>>>,
}

/// The address in a line: the first word, or else the first match of the pattern for IPv4 addresses,
/// or else that for IPv6 addresses, or else an address that starts or ends with a double colon; each
/// counts only if it is an address. Where the match is only a part of an IPv6 address, that address
/// is meant.
pub open spec fn address_in(line: Seq<char>, finds: Finds) -> Option<IpAddress> {
    match leading_address(line) {
        Some(ip) => Some(ip),
        None => match address_around(first_text(finds.ipv4), first_text(finds.mixed), true) {
            Some(ip) => Some(ip),
            None => match address_around(first_text(finds.ipv6), first_text(finds.whole), false) {
                Some(ip) => Some(ip),
                None => opt_address(first_text(finds.edge)),
            },
        },
    }
}

/// The first match of the pattern for IPv4 addresses decides where it is an address, and else that
/// for IPv6 addresses: the address is the match itself, unless the match is a part of a longer one.
pub proof fn law_the_first_match_decides(line: Seq<char>, finds: Finds)
    requires
        leading_address(line) is None,
    ensures
        opt_address(first_text(finds.ipv4)) matches Some(ip) ==> (address_in(line, finds) == Some(ip)
            || (first_text(finds.mixed) matches Some(m) && text::ends_with(
            m,
            first_text(finds.ipv4)->0,
        ) && address_in(line, finds) == address::parsed_address(m))),
        opt_address(first_text(finds.ipv4)) is None ==> (opt_address(
            first_text(finds.ipv6),
        ) matches Some(ip) ==> (address_in(line, finds) == Some(ip) || (first_text(
            finds.whole,
        ) matches Some(w) && text::starts_with(w, first_text(finds.ipv6)->0) && address_in(
            line,
            finds,
        ) == address::parsed_address(w)))),
{
}

/// The first word of a line, where it is an address.
pub open spec fn leading_address(line: Seq<char>) -> Option<IpAddress> {
    if text::first_word(line).len() == 0 {
        None
    } else {
        address::parsed_address(text::first_word(line))
    }
}

/// The text between the last two double quotes of a line.
pub fn quoted(line: &str) -> (r: Option<String>)
    ensures
        text::opt_view(r) == last_quoted(line@),
{
    let chars = text::to_chars(line);
    let s = chars.as_slice();
    match text::last_index_of(s, '"') {
        Some(close) => {
            proof {
                text::lemma_rfind_char(s@, '"');
            }
            let head = slice_subrange(s, 0, close);
            assert(head@ =~= s@.take(close as int));
            match text::last_index_of(head, '"') {
                Some(open) => {
                    proof {
                        text::lemma_rfind_char(head@, '"');
                    }
                    Some(text::from_chars(slice_subrange(s, open + 1, close)))
                },
                None => None,
            }
        },
        None => None,
    }
}

/// The first word of a line, where it is an address.
pub fn first_word_address(line: &str) -> (r: Option<IpAddress>)
    ensures
        r == leading_address(line@),
{
    let chars = text::to_chars(line);
    let word = text::word(&chars);
    if word.len() == 0 {
        return None;
    }
    parse_chars(word)
}

/// The text of the first group of a match.
pub fn captured_text(groups: &Option<Vec<Option<String>>>) -> (r: Option<&String>)
    ensures
        match r {
            Some(t) => first_text(pattern::match_view(*groups)) == Some(t@),
            None => first_text(pattern::match_view(*groups)) is None,
        },
{
    match groups {
        Some(g) => pattern::group(g, 1),
        None => None,
    }
}

/// The address in the first group of a match.
pub fn captured_address(groups: &Option<Vec<Option<String>>>) -> (r: Option<IpAddress>)
    ensures
        r == opt_address(first_text(pattern::match_view(*groups))),
{
    match captured_text(groups) {
        Some(t) => IpAddress::parse(t.as_str()),
        None => None,
    }
}

/// The address that a match is, or the one that it is only a part of.
pub fn widened_address(
    part: &Option<Vec<Option<String>>>,
    whole: &Option<Vec<Option<String>>>,
    at_end: bool,
) -> (r: Option<IpAddress>)
    ensures
        r == address_around(
            first_text(pattern::match_view(*part)),
            first_text(pattern::match_view(*whole)),
            at_end,
        ),
{
    let found = captured_address(part);
    let wider = captured_address(whole);
    match (captured_text(part), captured_text(whole)) {
        (Some(p), Some(w)) => {
            let inner = text::to_chars(p.as_str());
            let outer = text::to_chars(w.as_str());
            let inside: bool = if at_end {
                text::ends(&outer, &inner)
            } else {
                text::begins(&outer, &inner)
            };
            if found.is_some() && wider.is_some() && inside {
                wider
            } else {
                found
            }
        },
        _ => found,
    }
}

impl GenericParser {
    #[verifier::type_invariant]
    spec fn inv(self) -> bool {
        self.expressions@ == pattern::each_compiled(address_patterns())
    }

    /// The expressions that addresses are looked for with.
    pub closed spec fn held(&self) -> Seq<regex::Regex> {
        self.expressions@
    }

    /// The parser that comes of compiling the patterns one by one; where some of them failed, the
    /// error of the first comes back.
    pub fn from_compiled(outcomes: Vec<Result<regex::Regex, PatternError>>) -> (r: Result<
        GenericParser,
        PatternError,
    >)
        requires
            pattern::outcomes_of(outcomes@, address_patterns()),
        ensures
            match r {
                Ok(p) => pattern::all_came(outcomes@, p.held()),
                Err(e) => pattern::first_failed(outcomes@, e),
            },
    {
        let ghost all = outcomes@;
        match pattern::all_compiled(outcomes) {
            Ok(expressions) => {
                proof {
                    pattern::lemma_all_came(all, address_patterns(), expressions@);
                }
                Ok(GenericParser { expressions })
            },
            Err(e) => Err(e),
        }
    }

    /// Compiles the patterns for addresses, and makes a parser that looks for addresses with them.
    pub fn new() -> (r: Result<GenericParser, PatternError>)
        ensures
            r matches Ok(p) ==> p.held() == pattern::each_compiled(address_patterns()),
            r matches Ok(p) ==> !p.knows_bytes(),
    {
        let mut outcomes: Vec<Result<regex::Regex, PatternError>> = Vec::new();
        outcomes.push(pattern::compile(IPV4_PATTERN));
        outcomes.push(pattern::compile(IPV6_PATTERN));
        outcomes.push(pattern::compile(MIXED_PATTERN));
        outcomes.push(pattern::compile(WHOLE_PATTERN));
        outcomes.push(pattern::compile(EDGE_PATTERN));
        let ghost all = outcomes@;
        let r = GenericParser::from_compiled(outcomes);
        proof {
            if r is Ok {
                pattern::lemma_all_came(all, address_patterns(), r->Ok_0.held());
            }
        }
        r
    }
}

impl LogParser for GenericParser {
    open spec fn hit(&self, line: Seq<char>) -> Option<Hit> {
        let finds = Finds {
            ipv4: pattern::captured(IPV4_PATTERN@, line),
            ipv6: pattern::captured(IPV6_PATTERN@, line),
            mixed: pattern::captured(MIXED_PATTERN@, line),
            whole: pattern::captured(WHOLE_PATTERN@, line),
            edge: pattern::captured(EDGE_PATTERN@, line),
        };
        match address_in(line, finds) {
            Some(ip) => Some(Hit { ip, user_agent: last_quoted(line), bytes: 0 }),
            None => None,
        }
    }

    open spec fn knows_bytes(&self) -> bool {
        false
    }

    fn parse_line(&self, line: &str) -> (r: Option<ParsedLine>) {
        proof {
            use_type_invariant(self);
        }
        assert(self.expressions@[0] == pattern::compiled(IPV4_PATTERN@));
        assert(self.expressions@[1] == pattern::compiled(IPV6_PATTERN@));
        assert(self.expressions@[2] == pattern::compiled(MIXED_PATTERN@));
        assert(self.expressions@[3] == pattern::compiled(WHOLE_PATTERN@));
        assert(self.expressions@[4] == pattern::compiled(EDGE_PATTERN@));
        let mut ip = first_word_address(line);
        if ip.is_none() {
            let part = pattern::captures(&self.expressions[0], line);
            let whole = pattern::captures(&self.expressions[2], line);
            ip = widened_address(&part, &whole, true);
        }
        if ip.is_none() {
            let part = pattern::captures(&self.expressions[1], line);
            let whole = pattern::captures(&self.expressions[3], line);
            ip = widened_address(&part, &whole, false);
        }
        if ip.is_none() {
            ip = captured_address(&pattern::captures(&self.expressions[4], line));
        }
        match ip {
            Some(ip) => Some(ParsedLine { ip, user_agent: quoted(line), bytes: 0 }),
            None => None,
        }
    }

    fn has_bytes(&self) -> (r: bool) {
        false
    }
}

// ---------------------------------------------------------------------------
// Laws
// ---------------------------------------------------------------------------

/// The bytes are the number in the field that is named for them, wherever the other fields stand;
/// where that field is missing or is no number, they are 0.
pub proof fn law_the_bytes_are_those_of_their_field(p: DelimiterParser, line: Seq<char>, k: usize)
    requires
        p.bytes_field == Some(k),
        k >= 1,
        p.hit(line) is Some,
    ensures
        ({
            let fields = text::split(line, p.delimiter@);
            let bytes = p.hit(line)->0.bytes;
            &&& k > fields.len() ==> bytes == 0
            &&& k <= fields.len() ==> match text::u64_value(text::trim(fields[k - 1])) {
                Some(n) => bytes == n,
                None => bytes == 0,
            }
        }),
{
}

/// The user agent is what stands in the field that is named for it, wherever the other fields stand;
/// an empty field is none.
pub proof fn law_the_agent_is_that_of_its_field(p: DelimiterParser, line: Seq<char>, k: usize)
    requires
        p.ua_field == Some(k),
        k >= 1,
        p.hit(line) is Some,
    ensures
        ({
            let fields = text::split(line, p.delimiter@);
            let agent = p.hit(line)->0.user_agent;
            &&& k > fields.len() ==> agent is None
            &&& k <= fields.len() && fields[k - 1].len() == 0 ==> agent is None
            &&& k <= fields.len() && fields[k - 1].len() > 0 ==> agent == Some(fields[k - 1])
        }),
{
}

/// The address is what stands in the field that is named for it, and a line counts exactly if that
/// is an address.
pub proof fn law_the_address_is_that_of_its_field(p: DelimiterParser, line: Seq<char>, k: usize)
    requires
        p.ip_field == Some(k),
        k >= 1,
    ensures
        ({
            let fields = text::split(line, p.delimiter@);
            &&& p.hit(line) is Some <==> k <= fields.len() && address::parsed_address(
                fields[k - 1],
            ) is Some
            &&& p.hit(line) matches Some(hit) ==> address::parsed_address(fields[k - 1]) == Some(
                hit.ip,
            )
        }),
{
}

/// Without a number for its field, the address is the first field that is one, and a line counts
/// exactly if it has such a field.
pub proof fn law_the_address_is_found(p: DelimiterParser, line: Seq<char>)
    requires
        p.ip_field is None,
    ensures
        ({
            let fields = text::split(line, p.delimiter@);
            match p.hit(line) {
                Some(hit) => exists|i: int|
                    0 <= i < fields.len() && address::parsed_address(#[trigger] fields[i]) == Some(
                        hit.ip,
                    ) && forall|j: int|
                        0 <= j < i ==> address::parsed_address(#[trigger] fields[j]) is None,
                None => forall|i: int|
                    0 <= i < fields.len() ==> address::parsed_address(#[trigger] fields[i]) is None,
            }
        }),
{
    lemma_first_address(text::split(line, p.delimiter@));
}

proof fn lemma_first_address(fields: Seq<Seq<char>>)
    ensures
        match first_address(fields) {
            Some(ip) => exists|i: int|
                0 <= i < fields.len() && address::parsed_address(#[trigger] fields[i]) == Some(ip)
                    && forall|j: int|
                    0 <= j < i ==> address::parsed_address(#[trigger] fields[j]) is None,
            None => forall|i: int|
                0 <= i < fields.len() ==> address::parsed_address(#[trigger] fields[i]) is None,
        },
    decreases fields.len(),
{
    if fields.len() > 0 {
        let rest = fields.drop_first();
        lemma_first_address(rest);
        if address::parsed_address(fields[0]) is None {
            match first_address(rest) {
                Some(ip) => {
                    let i = choose|i: int|
                        0 <= i < rest.len() && address::parsed_address(#[trigger] rest[i]) == Some(
                            ip,
                        ) && forall|j: int|
                            0 <= j < i ==> address::parsed_address(#[trigger] rest[j]) is None;
                    assert(fields[i + 1] == rest[i]);
                    assert forall|j: int| 0 <= j < i + 1 implies address::parsed_address(
                        #[trigger] fields[j],
                    ) is None by {
                        if j > 0 {
                            assert(fields[j] == rest[j - 1]);
                        }
                    }
                },
                None => {
                    assert forall|i: int| 0 <= i < fields.len() implies address::parsed_address(
                        #[trigger] fields[i],
                    ) is None by {
                        if i > 0 {
                            assert(fields[i] == rest[i - 1]);
                        }
                    }
                },
            }
        }
    }
}

/// Where no field is named for the address or the user agent, the user agent is the last field that
/// is not empty; where only the address has a field, there is no user agent.
pub proof fn law_the_agent_is_found(p: DelimiterParser, line: Seq<char>)
    requires
        p.ua_field is None,
        p.hit(line) is Some,
    ensures
        ({
            let fields = text::split(line, p.delimiter@);
            let agent = p.hit(line)->0.user_agent;
            &&& p.ip_field is Some ==> agent is None
            &&& p.ip_field is None ==> match agent {
                Some(ua) => ua.len() > 0 && exists|i: int|
                    0 <= i < fields.len() && #[trigger] fields[i] == ua && forall|j: int|
                        i < j < fields.len() ==> (#[trigger] fields[j]).len() == 0,
                None => forall|i: int| 0 <= i < fields.len() ==> (#[trigger] fields[i]).len() == 0,
            }
        }),
{
    lemma_last_filled(text::split(line, p.delimiter@));
}

proof fn lemma_last_filled(fields: Seq<Seq<char>>)
    ensures
        match last_filled(fields) {
            Some(ua) => ua.len() > 0 && exists|i: int|
                0 <= i < fields.len() && #[trigger] fields[i] == ua && forall|j: int|
                    i < j < fields.len() ==> (#[trigger] fields[j]).len() == 0,
            None => forall|i: int| 0 <= i < fields.len() ==> (#[trigger] fields[i]).len() == 0,
        },
    decreases fields.len(),
{
    if fields.len() > 0 {
        let front = fields.drop_last();
        lemma_last_filled(front);
        let last = fields.len() - 1;
        if fields.last().len() > 0 {
            assert(fields[last] == fields.last());
        } else {
            match last_filled(front) {
                Some(ua) => {
                    let i = choose|i: int|
                        0 <= i < front.len() && #[trigger] front[i] == ua && forall|j: int|
                            i < j < front.len() ==> (#[trigger] front[j]).len() == 0;
                    assert(fields[i] == ua);
                    assert forall|j: int| i < j < fields.len() implies (
                    #[trigger] fields[j]).len() == 0 by {
                        if j < last {
                            assert(front[j] == fields[j]);
                        }
                    }
                },
                None => {
                    assert forall|i: int| 0 <= i < fields.len() implies (
                    #[trigger] fields[i]).len() == 0 by {
                        if i < last {
                            assert(front[i] == fields[i]);
                        }
                    }
                },
            }
        }
    }
}

/// What is read from one field does not depend on which fields are named for the others: the bytes
/// are the same with another field for the user agent, and the user agent is the same with another
/// field for the bytes, and the address with any.
pub proof fn law_fields_do_not_interfere(a: DelimiterParser, b: DelimiterParser, line: Seq<char>)
    requires
        a.delimiter@ == b.delimiter@,
        a.ip_field == b.ip_field,
    ensures
        a.hit(line) is Some <==> b.hit(line) is Some,
        (a.hit(line), b.hit(line)) matches (Some(x), Some(y)) ==> {
            &&& x.ip == y.ip
            &&& a.bytes_field == b.bytes_field ==> x.bytes == y.bytes
            &&& a.ua_field == b.ua_field ==> x.user_agent == y.user_agent
            &&& a.bytes_field is None ==> x.bytes == 0
        },
        a.knows_bytes() <==> a.bytes_field is Some,
{
}

/// A match in the combined format counts exactly if its first group is an address; its second group
/// is the number of bytes, or 0 where it is none, and its third the user agent unless it is empty.
pub proof fn law_the_combined_format(groups: Seq<Option<Seq<char>>>)
    requires
        groups.len() == 4,
    ensures
        combined_hit(groups) is Some <==> (groups[1] matches Some(host) && address::parsed_address(
            host,
        ) is Some),
        combined_hit(groups) matches Some(hit) ==> {
            &&& address::parsed_address(groups[1]->0) == Some(hit.ip)
            &&& match groups[2] {
                Some(digits) => match text::u64_value(digits) {
                    Some(n) => hit.bytes == n,
                    None => hit.bytes == 0,
                },
                None => hit.bytes == 0,
            }
            &&& groups[3] is Some && groups[3]->0.len() > 0 ==> hit.user_agent == groups[3]
            &&& groups[3] is None || groups[3]->0.len() == 0 ==> hit.user_agent is None
        },
{
}

/// What the combined format says of a line is what its expression captures there, and it knows the
/// bytes.
pub proof fn law_the_combined_format_is_matched(p: NginxParser, line: Seq<char>)
    ensures
        pattern::captured(NGINX_PATTERN@, line) is None ==> p.hit(line) is None,
        pattern::captured(NGINX_PATTERN@, line) matches Some(groups) ==> p.hit(line)
            == combined_hit(groups),
        p.knows_bytes(),
{
}

/// The user agent of a line of no known format is what stands between the last two double quotes.
pub proof fn law_the_agent_is_quoted(line: Seq<char>)
    ensures
        match last_quoted(line) {
            Some(ua) => exists|open: int, close: int|
                0 <= open < close < line.len() && line[open] == '"' && line[close] == '"' && ua
                    == #[trigger] line.subrange(open + 1, close) && forall|i: int|
                    open < i < line.len() && i != close ==> line[i] != '"',
            None => forall|i: int, j: int|
                0 <= i < j < line.len() ==> !(line[i] == '"' && line[j] == '"'),
        },
{
    text::lemma_rfind_char(line, '"');
    match text::rfind_char(line, '"') {
        Some(close) => {
            let head = line.take(close as int);
            text::lemma_rfind_char(head, '"');
            match text::rfind_char(head, '"') {
                Some(open) => {
                    assert(line[open as int] == head[open as int]);
                    assert forall|i: int| open < i < line.len() && i != close implies line[i]
                        != '"' by {
                        if i < close {
                            assert(head[i] == line[i]);
                        }
                    }
                    assert(last_quoted(line) == Some(line.subrange(open as int + 1, close as int)));
                },
                None => {
                    assert forall|i: int, j: int| 0 <= i < j < line.len() implies !(line[i] == '"'
                        && line[j] == '"') by {
                        if j <= close {
                            assert(head[i] == line[i]);
                        }
                    }
                },
            }
        },
        None => {},
    }
}

/// A line of no known format counts exactly if an address is found in it. It has no bytes, and its
/// user agent does not depend on the address.
pub proof fn law_any_line_with_an_address(p: GenericParser, line: Seq<char>)
    ensures
        !p.knows_bytes(),
        p.hit(line) matches Some(hit) ==> hit.bytes == 0 && hit.user_agent == last_quoted(line),
        text::first_word(line).len() > 0 ==> (address::parsed_address(
            text::first_word(line),
        ) matches Some(ip) ==> p.hit(line) matches Some(hit) && hit.ip == ip),
{
}

/// The number 0 means the first field, as 1 does.
pub proof fn law_field_zero_is_the_first(p: DelimiterParser, q: DelimiterParser, line: Seq<char>)
    requires
        p.delimiter@ == q.delimiter@,
        p.ip_field == q.ip_field || (p.ip_field == Some(0usize) && q.ip_field == Some(1usize)),
        p.ua_field == q.ua_field || (p.ua_field == Some(0usize) && q.ua_field == Some(1usize)),
        p.bytes_field == q.bytes_field || (p.bytes_field == Some(0usize) && q.bytes_field == Some(
            1usize,
        )),
    ensures
        p.hit(line) == q.hit(line),
{
}

/// An address that is only the end of a longer one with colons, or the start of one, stands for the
/// longer one; otherwise it stands for itself. One that a double colon starts or ends is looked for
/// last.
pub proof fn law_parts_of_longer_addresses(line: Seq<char>, finds: Finds, v4: Seq<char>, v6: Seq<char>)
    requires
        leading_address(line) is None,
    ensures
        ({
            let by_v4 = first_text(finds.ipv4) == Some(v4) && address::parsed_address(v4) is Some;
            let by_v6 = first_text(finds.ipv6) == Some(v6) && address::parsed_address(v6) is Some;
            let no_v4 = opt_address(first_text(finds.ipv4)) is None;
            let no_v6 = opt_address(first_text(finds.ipv6)) is None;
            let mixed = first_text(finds.mixed) is Some && address::parsed_address(
                first_text(finds.mixed)->0,
            ) is Some;
            let whole = first_text(finds.whole) is Some && address::parsed_address(
                first_text(finds.whole)->0,
            ) is Some;
            &&& by_v4 && mixed && text::ends_with(first_text(finds.mixed)->0, v4) ==> address_in(
                line,
                finds,
            ) == address::parsed_address(first_text(finds.mixed)->0)
            &&& by_v4 && !(mixed && text::ends_with(first_text(finds.mixed)->0, v4)) ==> address_in(
                line,
                finds,
            ) == address::parsed_address(v4)
            &&& no_v4 && by_v6 && whole && text::starts_with(first_text(finds.whole)->0, v6)
                ==> address_in(line, finds) == address::parsed_address(first_text(finds.whole)->0)
            &&& no_v4 && by_v6 && !(whole && text::starts_with(first_text(finds.whole)->0, v6))
                ==> address_in(line, finds) == address::parsed_address(v6)
            &&& no_v4 && no_v6 && first_text(finds.edge) is Some ==> address_in(line, finds)
                == address::parsed_address(first_text(finds.edge)->0)
            &&& no_v4 && no_v6 && first_text(finds.edge) is None ==> address_in(line, finds) is None
        }),
{
}

/// The first word of a line is its address where it is one, whatever the patterns find.
pub proof fn law_the_first_word_goes_before(line: Seq<char>, finds: Finds)
    ensures
        text::first_word(line).len() > 0 && address::parsed_address(text::first_word(line)) is Some
            ==> address_in(line, finds) == address::parsed_address(text::first_word(line)),
        first_text(None) is None,
        forall|g: Seq<Option<Seq<char>>>|
            g.len() > 1 ==> #[trigger] first_text(Some(g)) == g[1],
{
}

} // verus!
