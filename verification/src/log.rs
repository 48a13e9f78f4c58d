//! Counting the requests of a log by address and by user agent.
use std::collections::HashMap;
use vstd::prelude::*;

use crate::address;
use crate::address::IpAddress;
use crate::parsers;
use crate::parsers::{Hit, LogParser, ParsedLine};
use crate::pattern;
use crate::pattern::PatternError;
use crate::tally;
use crate::tally::{TallyRow, TextTally};
use crate::text;

verus! {

broadcast use {vstd::string::group_string_axioms, vstd::std_specs::hash::group_hash_axioms};

// ---------------------------------------------------------------------------
// The base of a user agent
// ---------------------------------------------------------------------------

/// A user agent up to its first slash.
pub open spec fn ua_base(ua: Seq<char>) -> Seq<char> {
    text::split(ua, seq!['/'])[0]
}

/// A user agent up to its first slash.
pub fn extract_ua_base(ua: &str) -> (r: &str)
    ensures
        r@ == ua_base(ua@),
{
    let chars = text::to_chars(ua);
    let slash: [char; 1] = ['/'];
    assert(slash@ =~= seq!['/']);
    proof {
        text::lemma_find_from(ua@, seq!['/'], 0);
    }
    let n: usize = match text::index_of(&chars, &slash) {
        Some(k) => k,
        None => chars.len(),
    };
    assert(ua@.take(n as int) =~= ua@.subrange(0, n as int));
    assert(ua@.take(ua@.len() as int) =~= ua@);
    ua.substring_char(0, n)
}

// ---------------------------------------------------------------------------
// Which lines count
// ---------------------------------------------------------------------------

/// Why a filter was refused.
#[derive(Debug)]
pub enum FilterError {
    InvalidFilter(PatternError),
    InvalidUaFilter(PatternError),
}

/// The expressions that lines and user agents must match.
pub struct Filters {
    line: Option<regex::Regex>,
    user_agent: Option<regex::Regex>,
    patterns: Ghost<(Option<Seq<char>>, Option<Seq<char>>)>,
}

/// An optional pattern is met where there is none, or where it is found in the text.
pub open spec fn meets(pattern: Option<Seq<char>>, s: Seq<char>) -> bool {
    match pattern {
        Some(p) => pattern::found(p, s),
        None => true,
    }
}

/// The request that a line stands for. The line counts without the white space at its end if it
/// meets the pattern for lines, the parser can read it, and its user agent, which it then must
/// have, meets the pattern for user agents.
pub open spec fn accepted<P: LogParser>(
    parser: P,
    line_pattern: Option<Seq<char>>,
    ua_pattern: Option<Seq<char>>,
    line: Seq<char>,
) -> Option<Hit> {
    let s = text::trim_end(line);
    if !meets(line_pattern, s) {
        None
    } else {
        match parser.hit(s) {
            Some(hit) => match (ua_pattern, hit.user_agent) {
                (None, _) => Some(hit),
                (Some(p), Some(ua)) => if pattern::found(p, ua) {
                    Some(hit)
                } else {
                    None
                },
                (Some(_), None) => None,
            },
            None => None,
        }
    }
}

/// The pattern of an optional pattern and what came of compiling it.
pub open spec fn pattern_of(
    outcome: Option<(&str, Result<regex::Regex, PatternError>)>,
) -> Option<Seq<char>> {
    match outcome {
        Some((p, _)) => Some(p@),
        None => None,
    }
}

impl Filters {
    #[verifier::type_invariant]
    spec fn inv(self) -> bool {
        &&& (self.line is Some <==> self.patterns@.0 is Some)
        &&& (self.line matches Some(re) ==> re == pattern::compiled(self.patterns@.0->0))
        &&& (self.user_agent is Some <==> self.patterns@.1 is Some)
        &&& (self.user_agent matches Some(re) ==> re == pattern::compiled(self.patterns@.1->0))
    }

    /// The pattern for lines.
    pub closed spec fn line_pattern(&self) -> Option<Seq<char>> {
        self.patterns@.0
    }

    /// The pattern for user agents.
    pub closed spec fn ua_pattern(&self) -> Option<Seq<char>> {
        self.patterns@.1
    }

    /// The filters that come of compiling the patterns that are given; where one of them failed, its
    /// error comes back, that for lines first.
    pub fn from_compiled(
        line: Option<(&str, Result<regex::Regex, PatternError>)>,
        user_agent: Option<(&str, Result<regex::Regex, PatternError>)>,
    ) -> (r: Result<Filters, FilterError>)
        requires
            line matches Some((p, Ok(re))) ==> re == pattern::compiled(p@),
            user_agent matches Some((p, Ok(re))) ==> re == pattern::compiled(p@),
        ensures
            match (line, user_agent) {
                (Some((_, Err(e))), _) => r matches Err(f) && f == FilterError::InvalidFilter(e),
                (_, Some((_, Err(e)))) => r matches Err(f) && f == FilterError::InvalidUaFilter(e),
                _ => r matches Ok(f) && f.line_pattern() == pattern_of(line) && f.ua_pattern()
                    == pattern_of(user_agent),
            },
    {
        let ghost patterns = (pattern_of(line), pattern_of(user_agent));
        let line_re = match line {
            Some((_, Ok(re))) => Some(re),
            Some((_, Err(e))) => {
                return Err(FilterError::InvalidFilter(e));
            },
            None => None,
        };
        let ua_re = match user_agent {
            Some((_, Ok(re))) => Some(re),
            Some((_, Err(e))) => {
                return Err(FilterError::InvalidUaFilter(e));
            },
            None => None,
        };
        Ok(Filters { line: line_re, user_agent: ua_re, patterns: Ghost(patterns) })
    }

    /// Compiles the two patterns. Where neither is given there is nothing to refuse, and a pattern
    /// that is not given is not the one that was refused.
    pub fn compile(line: Option<&str>, user_agent: Option<&str>) -> (r: Result<
        Filters,
        FilterError,
    >)
        ensures
            line is None && user_agent is None ==> r is Ok,
            match r {
                Ok(f) => f.line_pattern() == text::str_view(line) && f.ua_pattern() == text::str_view(
                    user_agent,
                ),
                Err(FilterError::InvalidFilter(_)) => line is Some,
                Err(FilterError::InvalidUaFilter(_)) => user_agent is Some,
            },
    {
        let line_outcome = match line {
            Some(p) => Some((p, pattern::compile(p))),
            None => None,
        };
        let ua_outcome = match user_agent {
            Some(p) => Some((p, pattern::compile(p))),
            None => None,
        };
        Filters::from_compiled(line_outcome, ua_outcome)
    }

    /// The request that a line stands for.
    pub fn accept<P: LogParser>(&self, parser: &P, line: &str) -> (r: Option<ParsedLine>)
        ensures
            parsers::line_view(r) == accepted(
                *parser,
                self.line_pattern(),
                self.ua_pattern(),
                line@,
            ),
    {
        proof {
            use_type_invariant(self);
        }
        let chars = text::to_chars(line);
        let kept = text::from_chars(text::trimmed_end(&chars));
        match &self.line {
            Some(re) => {
                if !pattern::is_match(re, kept.as_str()) {
                    return None;
                }
            },
            None => {},
        }
        let parsed = match parser.parse_line(kept.as_str()) {
            Some(p) => p,
            None => {
                return None;
            },
        };
        match &self.user_agent {
            Some(re) => match &parsed.user_agent {
                Some(ua) => {
                    if !pattern::is_match(re, ua.as_str()) {
                        return None;
                    }
                },
                None => {
                    return None;
                },
            },
            None => {},
        }
        Some(parsed)
    }
}

// ---------------------------------------------------------------------------
// Counting
// ---------------------------------------------------------------------------

/// Each request by its address, with the bytes sent.
pub open spec fn by_ip(hits: Seq<Hit>) -> Seq<(IpAddress, u64)> {
    hits.map_values(|h: Hit| (h.ip, h.bytes))
}

/// The user agents that an address sent, empty ones left out.
pub open spec fn agents_of(hits: Seq<Hit>, ip: IpAddress) -> Seq<(Seq<char>, u64)>
    decreases hits.len(),
{
    if hits.len() == 0 {
        Seq::empty()
    } else {
        let before = agents_of(hits.drop_last(), ip);
        match parsers::unless_empty(hits.last().user_agent) {
            Some(ua) => if hits.last().ip == ip {
                before.push((ua, 0u64))
            } else {
                before
            },
            None => before,
        }
    }
}

/// The base of a request's user agent, unless there is no user agent or its base is empty.
pub open spec fn base_of(hit: Hit) -> Option<Seq<char>> {
    match parsers::unless_empty(hit.user_agent) {
        Some(ua) => parsers::unless_empty(Some(ua_base(ua))),
        None => None,
    }
}

/// Each request that has a user agent by the base of it, with the bytes sent.
pub open spec fn by_base(hits: Seq<Hit>) -> Seq<(Seq<char>, u64)>
    decreases hits.len(),
{
    if hits.len() == 0 {
        Seq::empty()
    } else {
        let before = by_base(hits.drop_last());
        match base_of(hits.last()) {
            Some(base) => before.push((base, hits.last().bytes)),
            None => before,
        }
    }
}

/// The sums for the address and for the user agent of one more request still fit.
pub open spec fn fits(hits: Seq<Hit>, hit: Hit) -> bool {
    &&& tally::total(by_ip(hits), hit.ip) + hit.bytes <= u64::MAX
    &&& base_of(hit) matches Some(base) ==> tally::total(by_base(hits), base) + hit.bytes
        <= u64::MAX
}

/// One more request in each of the lists.
proof fn lemma_one_more(hits: Seq<Hit>, hit: Hit, ip: IpAddress)
    ensures
        by_ip(hits.push(hit)) == by_ip(hits).push((hit.ip, hit.bytes)),
        agents_of(hits.push(hit), ip) == match parsers::unless_empty(hit.user_agent) {
            Some(ua) => if hit.ip == ip {
                agents_of(hits, ip).push((ua, 0u64))
            } else {
                agents_of(hits, ip)
            },
            None => agents_of(hits, ip),
        },
        by_base(hits.push(hit)) == match base_of(hit) {
            Some(base) => by_base(hits).push((base, hit.bytes)),
            None => by_base(hits),
        },
{
    assert(hits.push(hit).drop_last() =~= hits);
    assert(by_ip(hits.push(hit)) =~= by_ip(hits).push((hit.ip, hit.bytes)));
}

proof fn lemma_no_longer(hits: Seq<Hit>, ip: IpAddress)
    ensures
        by_ip(hits).len() == hits.len(),
        agents_of(hits, ip).len() <= hits.len(),
        by_base(hits).len() <= hits.len(),
        forall|k: Seq<char>| #[trigger] tally::total(agents_of(hits, ip), k) == 0,
        tally::times(by_ip(hits), ip) == 0 ==> agents_of(hits, ip).len() == 0,
    decreases hits.len(),
{
    if hits.len() > 0 {
        let rest = hits.drop_last();
        lemma_no_longer(rest, ip);
        lemma_one_more(rest, hits.last(), ip);
        assert(hits =~= rest.push(hits.last()));
        tally::lemma_push(by_ip(rest), hits.last().ip, hits.last().bytes);
        match parsers::unless_empty(hits.last().user_agent) {
            Some(ua) => {
                tally::lemma_push(agents_of(rest, ip), ua, 0u64);
            },
            None => {},
        }
    }
}

/// What was counted of one address.
pub struct IpTally {
    ip: IpAddress,
    count: u64,
    bytes: u64,
    agents: TextTally,
}

impl IpTally {
    spec fn says(&self, hits: Seq<Hit>) -> bool {
        &&& self.count == tally::times(by_ip(hits), self.ip)
        &&& self.bytes == tally::total(by_ip(hits), self.ip)
        &&& self.agents.wf()
        &&& self.agents@ == agents_of(hits, self.ip)
    }
}

/// What became of a line.
#[derive(Clone, Copy, Debug, PartialEq, Eq, Structural)]
pub enum LineOutcome {
    /// The line does not count.
    Skipped,
    /// The line was counted.
    Counted,
    /// The line was counted, and with it the limit is reached: nothing more is to be read.
    LimitReached,
    /// A sum has no room for this line.
    Overflow,
}

/// The requests of a log, counted by address and by the base of the user agent.
pub struct LogTally {
    v4: HashMap<u32, usize>,
    v6: HashMap<u128, usize>,
    entries: Vec<IpTally>,
    bases: TextTally,
    lines: u64,
    hits: Ghost<Seq<Hit>>,
}

/// The requests that were counted.
impl View for LogTally {
    type V = Seq<Hit>;

    closed spec fn view(&self) -> Seq<Hit> {
        self.hits@
    }
}

/// What is known of an address after a whole log was read.
#[derive(Debug)]
pub struct IpCount {
    pub ip: String,
    pub count: u64,
    pub is_v6: bool,
    pub user_agent: Option<String>,
    pub bytes: u64,
}

impl IpCount {
    /// What the requests say of an address: how many there were, the bytes sent, and the user agent
    /// that came most often.
    pub open spec fn says(&self, hits: Seq<Hit>, ip: IpAddress) -> bool {
        &&& self.ip@ == address::address_chars(ip)
        &&& self.is_v6 == ip.v6()
        &&& self.count == tally::times(by_ip(hits), ip)
        &&& self.bytes == tally::total(by_ip(hits), ip)
        &&& text::opt_view(self.user_agent) == tally::leader(agents_of(hits, ip))
    }
}

/// Each address stands in the list at most once.
pub open spec fn distinct_ips(counts: Seq<IpCount>) -> bool {
    forall|i: int, j: int|
        0 <= i < counts.len() && 0 <= j < counts.len() && (#[trigger] counts[i]).ip@ == (
        #[trigger] counts[j]).ip@ ==> i == j
}

/// Where an address stands, by two maps.
spec fn place(v4: Map<u32, usize>, v6: Map<u128, usize>, ip: IpAddress) -> Option<usize> {
    match ip {
        IpAddress::V4(a) => if v4.contains_key(a) {
            Some(v4[a])
        } else {
            None
        },
        IpAddress::V6(a) => if v6.contains_key(a) {
            Some(v6[a])
        } else {
            None
        },
    }
}

impl LogTally {
    /// The counts are those of the requests.
    pub closed spec fn wf(&self) -> bool {
        let keys = tally::distinct(by_ip(self.hits@));
        &&& self.hits@.len() == self.lines
        &&& self.bases.wf()
        &&& self.bases@ == by_base(self.hits@)
        &&& self.entries@.len() == keys.len()
        &&& forall|i: int|
            #![trigger self.entries@[i]]
            0 <= i < keys.len() ==> self.entries@[i].ip == keys[i] && self.entries@[i].says(
                self.hits@,
            )
        &&& forall|ip: IpAddress| #[trigger]
            place(self.v4@, self.v6@, ip) is Some <==> keys.contains(ip)
        &&& forall|ip: IpAddress| #[trigger]
            place(self.v4@, self.v6@, ip) matches Some(i) ==> i < keys.len() && self.entries@[i as int].ip == ip
    }

    /// How many lines counted.
    pub closed spec fn line_count(&self) -> u64 {
        self.lines
    }

    /// Nothing was read yet.
    pub fn new() -> (r: LogTally)
        ensures
            r.wf(),
            r@ == Seq::<Hit>::empty(),
            r.line_count() == 0,
    {
        let r = LogTally {
            v4: HashMap::new(),
            v6: HashMap::new(),
            entries: Vec::new(),
            bases: TextTally::new(),
            lines: 0,
            hits: Ghost(Seq::empty()),
        };
        assert(by_ip(r.hits@).len() == 0);
        assert(forall|ip: IpAddress| !tally::distinct(by_ip(r.hits@)).contains(ip));
        r
    }

    fn find(&self, ip: &IpAddress) -> (r: Option<usize>)
        requires
            self.wf(),
        ensures
            r == place(self.v4@, self.v6@, *ip),
    {
        let found = match ip {
            IpAddress::V4(a) => self.v4.get(a),
            IpAddress::V6(a) => self.v6.get(a),
        };
        match found {
            Some(i) => Some(*i),
            None => None,
        }
    }

    /// Do the sums for the address and the user agent have room for one more request?
    fn has_room(&self, p: &ParsedLine) -> (r: bool)
        requires
            self.wf(),
        ensures
            r == fits(self@, p@),
    {
        proof {
            tally::lemma_keys(by_ip(self.hits@));
        }
        let so_far: u64 = match self.find(&p.ip) {
            Some(i) => self.entries[i].bytes,
            None => {
                assert(!tally::distinct(by_ip(self.hits@)).contains(p.ip));
                assert(tally::times(by_ip(self.hits@), p.ip) == 0);
                0
            },
        };
        if p.bytes > u64::MAX - so_far {
            return false;
        }
        match &p.user_agent {
            Some(ua) => {
                let base = extract_ua_base(ua.as_str());
                if ua.as_str().unicode_len() > 0 && base.unicode_len() > 0 {
                    p.bytes <= u64::MAX - self.bases.total_of(base)
                } else {
                    true
                }
            },
            None => true,
        }
    }

    fn add_entry(&mut self, p: &ParsedLine)
        requires
            old(self).wf(),
            old(self).lines < u64::MAX,
            fits(old(self)@, p@),
        ensures
            final(self).wf(),
            final(self)@ == old(self)@.push(p@),
            final(self).lines == old(self).lines + 1,
    {
        let ghost before = self.hits@;
        let ghost keys = tally::distinct(by_ip(before));
        let ghost old_entries = self.entries@;
        proof {
            tally::lemma_keys(by_ip(before));
            lemma_no_longer(before, p.ip);
            tally::lemma_push(by_ip(before), p.ip, p.bytes);
            assert forall|x: IpAddress| #[trigger] agents_of(before.push(p@), x) == agents_of(
                before,
                x,
            ) || x == p.ip by {
                lemma_one_more(before, p@, x);
            }
            lemma_one_more(before, p@, p.ip);
        }
        let i: usize = match self.find(&p.ip) {
            Some(i) => i,
            None => {
                let n: usize = self.entries.len();
                self.entries.push(
                    IpTally { ip: p.ip, count: 0, bytes: 0, agents: TextTally::new() },
                );
                match p.ip {
                    IpAddress::V4(a) => {
                        self.v4.insert(a, n);
                    },
                    IpAddress::V6(a) => {
                        self.v6.insert(a, n);
                    },
                }
                proof {
                    assert(!keys.contains(p.ip));
                    assert(tally::times(by_ip(before), p.ip) == 0);
                    assert(agents_of(before, p.ip) =~= Seq::empty());
                }
                n
            },
        };
        let ghost new_keys = tally::distinct(by_ip(before.push(p@)));
        let ghost mid_entries = self.entries@;
        proof {
            assert(mid_entries.len() == new_keys.len());
            assert forall|j: int| 0 <= j < mid_entries.len() implies (
            #[trigger] mid_entries[j]).ip == new_keys[j] && mid_entries[j].says(before) by {
                if j < old_entries.len() {
                    assert(mid_entries[j] == old_entries[j]);
                    assert(keys[j] == new_keys[j]);
                }
            }
            assert(mid_entries[i as int].ip == p.ip);
            assert(tally::times(by_ip(before), p.ip) <= by_ip(before).len());
            assert forall|x: IpAddress| #[trigger] place(self.v4@, self.v6@, x) is Some <==> new_keys.contains(
                x,
            ) by {
                assert(place(old(self).v4@, old(self).v6@, x) is Some <==> keys.contains(x));
                if keys.contains(x) {
                    let j = choose|j: int| 0 <= j < keys.len() && keys[j] == x;
                    assert(new_keys[j] == x);
                }
                assert(new_keys[i as int] == p.ip);
                if new_keys.contains(x) && x != p.ip {
                    let j = choose|j: int| 0 <= j < new_keys.len() && new_keys[j] == x;
                    assert(keys[j] == x);
                }
            }
            assert forall|x: IpAddress| (#[trigger] place(self.v4@, self.v6@, x)) is Some implies place(self.v4@, self.v6@, x)->0
                < new_keys.len() && mid_entries[place(self.v4@, self.v6@, x)->0 as int].ip == x by {
                assert(place(old(self).v4@, old(self).v6@, x) is Some <==> keys.contains(x));
                if x != p.ip {
                    let j = place(old(self).v4@, old(self).v6@, x)->0;
                    assert(place(self.v4@, self.v6@, x) == place(old(self).v4@, old(self).v6@, x));
                    assert(mid_entries[j as int] == old_entries[j as int]);
                }
            }
        }
        let entry = &mut self.entries[i];
        entry.count = entry.count + 1;
        entry.bytes = entry.bytes + p.bytes;
        match &p.user_agent {
            Some(ua) => {
                if ua.as_str().unicode_len() > 0 {
                    entry.agents.count(ua.as_str(), 0);
                    let base = extract_ua_base(ua.as_str());
                    if base.unicode_len() > 0 {
                        self.bases.count(base, p.bytes);
                    }
                }
            },
            None => {},
        }
        self.lines = self.lines + 1;
        proof {
            self.hits@ = before.push(p@);
            let after = self.hits@;
            assert forall|j: int| 0 <= j < new_keys.len() implies (
            #[trigger] self.entries@[j]).ip == new_keys[j] && self.entries@[j].says(after) by {
                assert(mid_entries[j].says(before));
                if j != i {
                    assert(self.entries@[j] == mid_entries[j]);
                    tally::lemma_keys(by_ip(after));
                    assert(new_keys[j] != new_keys[i as int]);
                    assert(agents_of(after, new_keys[j]) == agents_of(before, new_keys[j]));
                }
            }
        }
    }

    /// The limit on the lines is reached with this many.
    pub open spec fn at_limit(lines: int, max_lines: Option<u64>) -> bool {
        max_lines matches Some(max) && lines >= max
    }

    /// Is the limit on the lines reached?
    pub fn is_full(&self, max_lines: Option<u64>) -> (r: bool)
        ensures
            r == LogTally::at_limit(self.line_count() as int, max_lines),
    {
        match max_lines {
            Some(max) => self.lines >= max,
            None => false,
        }
    }

    /// Reads one line. It counts if the filters accept it, and the line that brings the number of
    /// lines to the limit is the last one to count.
    pub fn read_line<P: LogParser>(
        &mut self,
        parser: &P,
        filters: &Filters,
        max_lines: Option<u64>,
        line: &str,
    ) -> (r: LineOutcome)
        requires
            old(self).wf(),
        ensures
            final(self).wf(),
            ({
                let hit = accepted(*parser, filters.line_pattern(), filters.ua_pattern(), line@);
                let n = old(self).line_count();
                match r {
                    LineOutcome::Skipped => {
                        &&& hit is None
                        &&& final(self)@ == old(self)@
                        &&& final(self).line_count() == n
                    },
                    LineOutcome::LimitReached => {
                        &&& hit matches Some(h) && fits(old(self)@, h) && final(self)@ == old(
                            self,
                        )@.push(h)
                        &&& LogTally::at_limit(n + 1, max_lines)
                        &&& final(self).line_count() == n + 1
                    },
                    LineOutcome::Counted => {
                        &&& hit matches Some(h) && fits(old(self)@, h) && final(self)@ == old(
                            self,
                        )@.push(h)
                        &&& !LogTally::at_limit(n + 1, max_lines)
                        &&& final(self).line_count() == n + 1
                    },
                    LineOutcome::Overflow => {
                        &&& hit matches Some(h) && (n == u64::MAX || !fits(old(self)@, h))
                        &&& final(self)@ == old(self)@
                        &&& final(self).line_count() == n
                    },
                }
            }),
    {
        let parsed = match filters.accept(parser, line) {
            Some(p) => p,
            None => {
                return LineOutcome::Skipped;
            },
        };
        if self.lines == u64::MAX || !self.has_room(&parsed) {
            return LineOutcome::Overflow;
        }
        self.add_entry(&parsed);
        if self.is_full(max_lines) {
            LineOutcome::LimitReached
        } else {
            LineOutcome::Counted
        }
    }

    /// How many lines counted.
    pub fn lines(&self) -> (r: u64)
        ensures
            r == self.line_count(),
    {
        self.lines
    }

    /// What the requests say of each address, in the order in which the addresses first came. No
    /// address comes twice, and each text reads back as its address.
    pub fn ip_counts(&self) -> (r: Vec<IpCount>)
        requires
            self.wf(),
        ensures
            distinct_ips(r@),
            forall|i: int|
                0 <= i < r@.len() ==> address::parsed_address((#[trigger] r@[i]).ip@) == Some(
                    tally::distinct(by_ip(self@))[i],
                ),
            r@.len() == tally::distinct(by_ip(self@)).len(),
            forall|i: int|
                0 <= i < r@.len() ==> (#[trigger] r@[i]).says(
                    self@,
                    tally::distinct(by_ip(self@))[i],
                ),
    {
        let mut out: Vec<IpCount> = Vec::new();
        for i in 0..self.entries.len()
            invariant
                self.wf(),
                out@.len() == i,
                forall|j: int|
                    0 <= j < i ==> address::parsed_address((#[trigger] out@[j]).ip@) == Some(
                        tally::distinct(by_ip(self@))[j],
                    ),
                forall|j: int|
                    0 <= j < i ==> (#[trigger] out@[j]).says(
                        self@,
                        tally::distinct(by_ip(self@))[j],
                    ),
        {
            let e = &self.entries[i];
            out.push(
                IpCount {
                    ip: e.ip.to_text(),
                    count: e.count,
                    is_v6: e.ip.is_ipv6(),
                    user_agent: e.agents.most_counted(),
                    bytes: e.bytes,
                },
            );
        }
        proof {
            tally::lemma_keys(by_ip(self@));
        }
        out
    }

    /// How often each base of a user agent came, and the bytes sent to it.
    pub fn ua_counts(&self) -> (r: &Vec<TallyRow>)
        requires
            self.wf(),
        ensures
            tally::rows_say(r@, by_base(self@)),
    {
        self.bases.rows()
    }
}

// ---------------------------------------------------------------------------
// Laws
// ---------------------------------------------------------------------------

/// Each counted request counts for exactly one address, and its bytes too.
pub proof fn law_requests_add_up(hits: Seq<Hit>)
    ensures
        tally::sum(
            tally::distinct(by_ip(hits)).map_values(
                |ip: IpAddress| tally::times(by_ip(hits), ip),
            ),
        ) == hits.len(),
        tally::sum(
            tally::distinct(by_ip(hits)).map_values(
                |ip: IpAddress| tally::total(by_ip(hits), ip),
            ),
        ) == tally::grand_total(by_ip(hits)),
{
    tally::law_counts_add_up(by_ip(hits));
    tally::law_totals_add_up(by_ip(hits));
}

/// Every line that counted is a request that was added up: the counts of all addresses add up to the
/// number of lines.
pub proof fn law_lines_are_requests(t: LogTally)
    requires
        t.wf(),
    ensures
        t.line_count() == t@.len(),
        tally::sum(
            tally::distinct(by_ip(t@)).map_values(|ip: IpAddress| tally::times(by_ip(t@), ip)),
        ) == t.line_count(),
{
    law_requests_add_up(t@);
}

/// The requests in the lines of a log.
pub open spec fn hits_in<P: LogParser>(
    parser: P,
    line_pattern: Option<Seq<char>>,
    ua_pattern: Option<Seq<char>>,
    lines: Seq<Seq<char>>,
) -> Seq<Hit>
    decreases lines.len(),
{
    if lines.len() == 0 {
        Seq::empty()
    } else {
        let before = hits_in(parser, line_pattern, ua_pattern, lines.drop_last());
        match accepted(parser, line_pattern, ua_pattern, lines.last()) {
            Some(hit) => before.push(hit),
            None => before,
        }
    }
}

/// Where the requests of the lines so far were counted, reading one more line as `read_line` does
/// leaves those of all lines counted.
pub proof fn law_reading_on_counts_all_lines<P: LogParser>(
    parser: P,
    line_pattern: Option<Seq<char>>,
    ua_pattern: Option<Seq<char>>,
    lines: Seq<Seq<char>>,
    line: Seq<char>,
)
    ensures
        hits_in(parser, line_pattern, ua_pattern, lines.push(line)) == match accepted(
            parser,
            line_pattern,
            ua_pattern,
            line,
        ) {
            Some(hit) => hits_in(parser, line_pattern, ua_pattern, lines).push(hit),
            None => hits_in(parser, line_pattern, ua_pattern, lines),
        },
{
    assert(lines.push(line).drop_last() =~= lines);
}

/// The requests in two logs that are read in turn are those of the first and then those of the
/// second.
pub proof fn law_logs_are_read_in_turn<P: LogParser>(
    parser: P,
    line_pattern: Option<Seq<char>>,
    ua_pattern: Option<Seq<char>>,
    a: Seq<Seq<char>>,
    b: Seq<Seq<char>>,
)
    ensures
        hits_in(parser, line_pattern, ua_pattern, a + b) == hits_in(
            parser,
            line_pattern,
            ua_pattern,
            a,
        ) + hits_in(parser, line_pattern, ua_pattern, b),
    decreases b.len(),
{
    let first = hits_in(parser, line_pattern, ua_pattern, a);
    if b.len() == 0 {
        assert(a + b =~= a);
        assert(first + hits_in(parser, line_pattern, ua_pattern, b) =~= first);
    } else {
        assert((a + b).drop_last() =~= a + b.drop_last());
        assert((a + b).last() == b.last());
        law_logs_are_read_in_turn(parser, line_pattern, ua_pattern, a, b.drop_last());
        assert(hits_in(parser, line_pattern, ua_pattern, a + b) =~= first + hits_in(
            parser,
            line_pattern,
            ua_pattern,
            b,
        ));
    }
}

/// The counts of two logs add up: the requests and the bytes of each address, those of each base of
/// a user agent, and the requests in all.
pub proof fn law_two_logs_add_up(a: Seq<Hit>, b: Seq<Hit>, ip: IpAddress, base: Seq<char>)
    ensures
        (a + b).len() == a.len() + b.len(),
        tally::times(by_ip(a + b), ip) == tally::times(by_ip(a), ip) + tally::times(by_ip(b), ip),
        tally::total(by_ip(a + b), ip) == tally::total(by_ip(a), ip) + tally::total(by_ip(b), ip),
        tally::times(by_base(a + b), base) == tally::times(by_base(a), base) + tally::times(
            by_base(b),
            base,
        ),
        tally::total(by_base(a + b), base) == tally::total(by_base(a), base) + tally::total(
            by_base(b),
            base,
        ),
{
    assert(by_ip(a + b) =~= by_ip(a) + by_ip(b));
    lemma_bases_in_turn(a, b);
    tally::law_two_lists_add_up(by_ip(a), by_ip(b), ip);
    tally::law_two_lists_add_up(by_base(a), by_base(b), base);
}

proof fn lemma_bases_in_turn(a: Seq<Hit>, b: Seq<Hit>)
    ensures
        by_base(a + b) == by_base(a) + by_base(b),
    decreases b.len(),
{
    if b.len() == 0 {
        assert(a + b =~= a);
        assert(by_base(a) + by_base(b) =~= by_base(a));
    } else {
        assert((a + b).drop_last() =~= a + b.drop_last());
        assert((a + b).last() == b.last());
        lemma_bases_in_turn(a, b.drop_last());
        assert(by_base(a + b) =~= by_base(a) + by_base(b));
    }
}

/// No more requests count for user agents than there are.
pub proof fn law_agents_count_for_some_requests(hits: Seq<Hit>)
    ensures
        tally::sum(
            tally::distinct(by_base(hits)).map_values(
                |base: Seq<char>| tally::times(by_base(hits), base),
            ),
        ) <= hits.len(),
    decreases hits.len(),
{
    tally::law_counts_add_up(by_base(hits));
    lemma_no_longer(hits, IpAddress::V4(0));
}

/// The base of a user agent has no slash, and starts the user agent.
pub proof fn law_base_starts_the_agent(ua: Seq<char>)
    ensures
        !ua_base(ua).contains('/'),
        ua_base(ua).len() <= ua.len(),
        ua.take(ua_base(ua).len() as int) == ua_base(ua),
{
    let slash = seq!['/'];
    text::lemma_find_from(ua, slash, 0);
    match text::find(ua, slash) {
        Some(k) => {
            assert(ua_base(ua) == ua.take(k as int));
            assert forall|i: int| 0 <= i < k implies ua[i] != '/' by {
                if ua[i] == '/' {
                    assert(ua.subrange(i, i + 1) =~= slash);
                    assert(text::occurs_at(ua, slash, i));
                }
            }
        },
        None => {
            assert(ua_base(ua) == ua);
            assert forall|i: int| 0 <= i < ua.len() implies ua[i] != '/' by {
                if ua[i] == '/' {
                    assert(ua.subrange(i, i + 1) =~= slash);
                    assert(text::occurs_at(ua, slash, i));
                }
            }
            assert(ua.take(ua.len() as int) =~= ua);
        },
    }
}

// ---------------------------------------------------------------------------
// Laws of the filters and of what is counted
// ---------------------------------------------------------------------------

/// A line that counts meets every filter that is given: the pattern for lines is found in the line
/// without the white space at its end, and the pattern for user agents in its user agent, which it
/// has. What it counts as is what the parser reads, whatever the filters are.
pub proof fn law_a_line_that_counts_meets_every_filter<P: LogParser>(
    parser: P,
    line_pattern: Option<Seq<char>>,
    ua_pattern: Option<Seq<char>>,
    line: Seq<char>,
)
    ensures
        accepted(parser, line_pattern, ua_pattern, line) matches Some(hit) ==> {
            &&& parser.hit(text::trim_end(line)) == Some(hit)
            &&& line_pattern matches Some(p) ==> pattern::found(p, text::trim_end(line))
            &&& ua_pattern matches Some(p) ==> (hit.user_agent matches Some(ua) && pattern::found(
                p,
                ua,
            ))
        },
{
}

/// A line counts if the parser reads it and no filter that is given speaks against it.
pub proof fn law_a_line_that_meets_every_filter_counts<P: LogParser>(
    parser: P,
    line_pattern: Option<Seq<char>>,
    ua_pattern: Option<Seq<char>>,
    line: Seq<char>,
    hit: Hit,
)
    requires
        parser.hit(text::trim_end(line)) == Some(hit),
        line_pattern matches Some(p) ==> pattern::found(p, text::trim_end(line)),
        ua_pattern matches Some(p) ==> (hit.user_agent matches Some(ua) && pattern::found(p, ua)),
    ensures
        accepted(parser, line_pattern, ua_pattern, line) == Some(hit),
{
}

/// Adding a filter never makes a line count that did not count before, nor count otherwise.
pub proof fn law_filters_only_take_away<P: LogParser>(
    parser: P,
    line_pattern: Option<Seq<char>>,
    ua_pattern: Option<Seq<char>>,
    line: Seq<char>,
)
    ensures
        accepted(parser, line_pattern, ua_pattern, line) matches Some(hit) ==> {
            &&& accepted(parser, None, ua_pattern, line) == Some(hit)
            &&& accepted(parser, line_pattern, None, line) == Some(hit)
            &&& accepted(parser, None, None, line) == Some(hit)
        },
{
}

/// White space at the end of a line does not matter.
pub proof fn law_line_ends_do_not_matter<P: LogParser>(
    parser: P,
    line_pattern: Option<Seq<char>>,
    ua_pattern: Option<Seq<char>>,
    a: Seq<char>,
    b: Seq<char>,
)
    requires
        text::trim_end(a) == text::trim_end(b),
    ensures
        accepted(parser, line_pattern, ua_pattern, a) == accepted(
            parser,
            line_pattern,
            ua_pattern,
            b,
        ),
{
}

/// One more request adds one to the count of its address and its bytes to that address's sum, and
/// changes no other address.
pub proof fn law_a_request_counts_for_its_address(hits: Seq<Hit>, hit: Hit, ip: IpAddress)
    ensures
        tally::times(by_ip(hits.push(hit)), ip) == tally::times(by_ip(hits), ip) + (if hit.ip == ip {
            1int
        } else {
            0int
        }),
        tally::total(by_ip(hits.push(hit)), ip) == tally::total(by_ip(hits), ip) + (if hit.ip == ip {
            hit.bytes as int
        } else {
            0int
        }),
{
    lemma_one_more(hits, hit, ip);
    tally::lemma_push(by_ip(hits), hit.ip, hit.bytes);
}

/// One more request counts, with its bytes, for the start of its user agent up to the first slash,
/// unless that is empty; without a user agent it counts for none.
pub proof fn law_a_request_counts_for_its_agent(hits: Seq<Hit>, hit: Hit, base: Seq<char>)
    ensures
        ({
            let mine = hit.user_agent matches Some(ua) && ua.len() > 0 && ua_base(ua) == base
                && base.len() > 0;
            &&& tally::times(by_base(hits.push(hit)), base) == tally::times(by_base(hits), base) + (
            if mine {
                1int
            } else {
                0int
            })
            &&& tally::total(by_base(hits.push(hit)), base) == tally::total(by_base(hits), base) + (
            if mine {
                hit.bytes as int
            } else {
                0int
            })
        }),
{
    lemma_one_more(hits, hit, hit.ip);
    match base_of(hit) {
        Some(b) => {
            tally::lemma_push(by_base(hits), b, hit.bytes);
        },
        None => {},
    }
}

/// One more request with a user agent counts for that user agent at its address, and at no other.
pub proof fn law_an_agent_counts_at_its_address(
    hits: Seq<Hit>,
    hit: Hit,
    ip: IpAddress,
    agent: Seq<char>,
)
    ensures
        tally::times(agents_of(hits.push(hit), ip), agent) == tally::times(agents_of(hits, ip), agent)
            + (if hit.ip == ip && agent.len() > 0 && hit.user_agent == Some(agent) {
            1int
        } else {
            0int
        }),
{
    lemma_one_more(hits, hit, ip);
    match parsers::unless_empty(hit.user_agent) {
        Some(ua) => {
            tally::lemma_push(agents_of(hits, ip), ua, 0u64);
        },
        None => {},
    }
}

/// A request has room exactly if the sums with it still fit.
pub proof fn law_room_for_a_request(hits: Seq<Hit>, hit: Hit)
    ensures
        fits(hits, hit) ==> tally::total(by_ip(hits.push(hit)), hit.ip) <= u64::MAX,
        tally::total(by_ip(hits.push(hit)), hit.ip) > u64::MAX ==> !fits(hits, hit),
        hit.user_agent is None ==> (fits(hits, hit) <==> tally::total(
            by_ip(hits.push(hit)),
            hit.ip,
        ) <= u64::MAX),
        hit.user_agent is Some && hit.user_agent->0.len() > 0 && ua_base(hit.user_agent->0).len()
            > 0 ==> (fits(hits, hit) <==> tally::total(by_ip(hits.push(hit)), hit.ip) <= u64::MAX
            && tally::total(by_base(hits.push(hit)), ua_base(hit.user_agent->0)) <= u64::MAX),
{
    law_a_request_counts_for_its_address(hits, hit, hit.ip);
    match hit.user_agent {
        Some(ua) => {
            law_a_request_counts_for_its_agent(hits, hit, ua_base(ua));
        },
        None => {},
    }
}

/// What is said of an address is the number of its requests, whether it is of IPv6, and a user agent
/// that came in as many of its requests as any other.
pub proof fn law_what_is_said_of_an_address(c: IpCount, hits: Seq<Hit>, ip: IpAddress, ua: Seq<char>)
    requires
        c.says(hits, ip),
    ensures
        c.count == hits.filter(|h: Hit| h.ip == ip).len(),
        c.bytes == tally::total(by_ip(hits), ip),
        c.ip@ == address::address_chars(ip),
        c.is_v6 <==> ip is V6,
        c.user_agent is None ==> tally::times(agents_of(hits, ip), ua) == 0,
        c.user_agent matches Some(best) ==> tally::times(agents_of(hits, ip), ua) <= tally::times(
            agents_of(hits, ip),
            best@,
        ) && tally::times(agents_of(hits, ip), best@) > 0,
{
    lemma_count_is_filter(hits, ip);
    tally::law_leader(agents_of(hits, ip));
}

proof fn lemma_count_is_filter(hits: Seq<Hit>, ip: IpAddress)
    ensures
        tally::times(by_ip(hits), ip) == hits.filter(|h: Hit| h.ip == ip).len(),
    decreases hits.len(),
{
    reveal(Seq::filter);
    if hits.len() > 0 {
        let rest = hits.drop_last();
        lemma_count_is_filter(rest, ip);
        law_a_request_counts_for_its_address(rest, hits.last(), ip);
        assert(hits =~= rest.push(hits.last()));
    }
}

/// The requests of a log are those of its lines, one after the other; a line that does not count
/// adds none.
pub proof fn law_requests_come_line_by_line<P: LogParser>(
    parser: P,
    line_pattern: Option<Seq<char>>,
    ua_pattern: Option<Seq<char>>,
    lines: Seq<Seq<char>>,
    line: Seq<char>,
)
    ensures
        hits_in(parser, line_pattern, ua_pattern, Seq::empty()).len() == 0,
        match accepted(parser, line_pattern, ua_pattern, line) {
            Some(hit) => hits_in(parser, line_pattern, ua_pattern, lines.push(line)) == hits_in(
                parser,
                line_pattern,
                ua_pattern,
                lines,
            ).push(hit),
            None => hits_in(parser, line_pattern, ua_pattern, lines.push(line)) == hits_in(
                parser,
                line_pattern,
                ua_pattern,
                lines,
            ),
        },
{
    assert(lines.push(line).drop_last() =~= lines);
}

/// The base of a user agent is what stands before its first slash, or all of it.
pub proof fn law_the_base_ends_at_a_slash(base: Seq<char>, rest: Seq<char>)
    requires
        forall|i: int| 0 <= i < base.len() ==> base[i] != '/',
    ensures
        ua_base(base + seq!['/'] + rest) == base,
        ua_base(base) == base,
{
    let d = seq!['/'];
    let t = base + d + rest;
    assert forall|i: int| 0 <= i < base.len() implies !text::occurs_at(t, d, i) by {
        assert(t.subrange(i, i + 1)[0] == base[i]);
        assert(d[0] == '/');
    }
    text::law_the_first_piece(base, d, rest);
    text::lemma_find_from(base, d, 0);
    assert forall|i: int| !text::occurs_at(base, d, i) by {
        if text::occurs_at(base, d, i) {
            assert(base.subrange(i, i + 1)[0] == base[i]);
            assert(d[0] == '/');
        }
    }
}

/// A request whose user agent has no base needs room only in the sum of its address.
pub proof fn law_room_without_a_base(hits: Seq<Hit>, hit: Hit)
    requires
        hit.user_agent matches Some(ua) ==> ua.len() == 0 || ua_base(ua).len() == 0,
    ensures
        fits(hits, hit) <==> tally::total(by_ip(hits), hit.ip) + hit.bytes <= u64::MAX,
{
}

/// A limit is reached with as many lines as it says, and with no fewer; without one it never is.
pub proof fn law_the_limit_on_lines(lines: int, max: u64)
    ensures
        LogTally::at_limit(max as int, Some(max)),
        LogTally::at_limit(lines, Some(max)) <==> lines >= max,
        !LogTally::at_limit(lines, None),
{
}

} // verus!
