//! Looking an address up: what is asked in which order, and what is made of the answers.
use vstd::prelude::*;

use crate::cloud;
use crate::parsers;
use crate::pattern;
use crate::pattern::PatternError;
use crate::ranges;
use crate::ranges::CloudRangeCache;
use crate::records::IpRecord;
use crate::text;

verus! {

broadcast use vstd::string::group_string_axioms;

// ---------------------------------------------------------------------------
// What ipinfo says
// ---------------------------------------------------------------------------

/// What ipinfo says of an autonomous system.
#[derive(Debug)]
pub struct IpInfoAsn {
    pub asn: Option<String>,
    pub name: Option<String>,
    pub domain: Option<String>,
    pub route: Option<String>,
    pub asn_type: Option<String>,
}

impl IpInfoAsn {
    /// A copy of what is said.
    pub fn copy(&self) -> (r: IpInfoAsn)
        ensures
            r == *self,
    {
        IpInfoAsn {
            asn: text::copy_text(&self.asn),
            name: text::copy_text(&self.name),
            domain: text::copy_text(&self.domain),
            route: text::copy_text(&self.route),
            asn_type: text::copy_text(&self.asn_type),
        }
    }
}

/// What ipinfo says of a company.
#[derive(Debug)]
pub struct IpInfoCompany {
    pub name: Option<String>,
    pub domain: Option<String>,
}

/// What ipinfo says of an address.
#[derive(Debug)]
pub struct IpInfoResponse {
    pub hostname: Option<String>,
    pub country: Option<String>,
    pub org: Option<String>,
    pub asn: Option<IpInfoAsn>,
    pub company: Option<IpInfoCompany>,
}

impl IpInfoResponse {
    /// The organisation: the company's name, or what the organisation's text says.
    pub open spec fn org_said(self) -> Option<Seq<char>> {
        match (self.company, self.org) {
            (Some(company), _) => text::opt_view(company.name),
            (None, Some(org)) => cloud::ipinfo_org(org@).1,
            (None, None) => None,
        }
    }

    /// The domain of the company.
    pub open spec fn domain_said(self) -> Option<Seq<char>> {
        match self.company {
            Some(company) => text::opt_view(company.domain),
            None => None,
        }
    }

    /// The autonomous system: the one that is described, or what the organisation's text says.
    pub open spec fn asn_said(self) -> Option<Seq<char>> {
        match (self.asn, self.org) {
            (Some(asn), _) => text::opt_view(asn.asn),
            (None, Some(org)) => cloud::ipinfo_org(org@).0,
            (None, None) => None,
        }
    }
}

/// Where ipinfo tells about one address.
pub open spec fn address_url(ip: Seq<char>, token: Seq<char>) -> Seq<char> {
    "https://ipinfo.io/"@ + ip + "?token="@ + token
}

/// Where ipinfo tells about one address.
pub fn ipinfo_url(ip: &str, token: &str) -> (r: String)
    ensures
        r@ == address_url(ip@, token@),
{
    let mut out = "https://ipinfo.io/".to_owned();
    out.append(ip);
    out.append("?token=");
    out.append(token);
    out
}

/// Where ipinfo tells about a batch of addresses.
pub fn ipinfo_batch_url(token: &str) -> (r: String)
    ensures
        r@ == "https://ipinfo.io/batch?token="@ + token@,
{
    text::concat("https://ipinfo.io/batch?token=", token)
}

// ---------------------------------------------------------------------------
// What a lookup finds
// ---------------------------------------------------------------------------

/// What a lookup found.
#[derive(Debug)]
pub struct LookupResult {
    pub reverse_dns: Option<String>,
    pub org: Option<String>,
    pub asn: Option<String>,
    pub infra: Option<String>,
    pub country: Option<String>,
    pub company_domain: Option<String>,
    pub asn_detail: Option<IpInfoAsn>,
    /// Nothing more is to be asked about the address.
    pub complete: bool,
}

/// What a lookup found, as a mathematical value.
pub ghost struct Findings {
    pub reverse_dns: Option<Seq<char>>,
    pub org: Option<Seq<char>>,
    pub asn: Option<Seq<char>>,
    pub infra: Option<Seq<char>>,
    pub country: Option<Seq<char>>,
    pub company_domain: Option<Seq<char>>,
    pub asn_detail: Option<IpInfoAsn>,
    pub complete: bool,
}

impl View for LookupResult {
    type V = Findings;

    open spec fn view(&self) -> Findings {
        Findings {
            reverse_dns: text::opt_view(self.reverse_dns),
            org: text::opt_view(self.org),
            asn: text::opt_view(self.asn),
            infra: text::opt_view(self.infra),
            country: text::opt_view(self.country),
            company_domain: text::opt_view(self.company_domain),
            asn_detail: self.asn_detail,
            complete: self.complete,
        }
    }
}

/// What is found where ipinfo answers; the name that it gives goes before the one that was resolved.
pub open spec fn ipinfo_findings(
    resp: IpInfoResponse,
    dns: Option<Seq<char>>,
    infra: Option<Seq<char>>,
) -> Findings {
    Findings {
        reverse_dns: match resp.hostname {
            Some(h) => Some(h@),
            None => dns,
        },
        org: resp.org_said(),
        asn: resp.asn_said(),
        infra,
        country: text::opt_view(resp.country),
        company_domain: resp.domain_said(),
        asn_detail: resp.asn,
        complete: true,
    }
}

/// What is found without ipinfo.
pub open spec fn plain_findings(
    dns: Option<Seq<char>>,
    org: Option<Seq<char>>,
    infra: Option<Seq<char>>,
    complete: bool,
) -> Findings {
    Findings {
        reverse_dns: dns,
        org,
        asn: None,
        infra,
        country: None,
        company_domain: None,
        asn_detail: None,
        complete,
    }
}

/// What is found where ipinfo answers.
pub fn from_ipinfo(
    resp: &IpInfoResponse,
    dns: Option<String>,
    infra: Option<String>,
) -> (r: LookupResult)
    ensures
        r@ == ipinfo_findings(*resp, text::opt_view(dns), text::opt_view(infra)),
{
    let reverse_dns = match &resp.hostname {
        Some(h) => Some(h.clone()),
        None => dns,
    };
    let said = match &resp.org {
        Some(org) => cloud::parse_ipinfo_org(org.as_str()),
        None => (None, None),
    };
    let (org, company_domain) = match &resp.company {
        Some(company) => (text::copy_text(&company.name), text::copy_text(&company.domain)),
        None => (said.1, None),
    };
    let (asn, asn_detail) = match &resp.asn {
        Some(asn) => (text::copy_text(&asn.asn), Some(asn.copy())),
        None => (said.0, None),
    };
    LookupResult {
        reverse_dns,
        org,
        asn,
        infra,
        country: text::copy_text(&resp.country),
        company_domain,
        asn_detail,
        complete: true,
    }
}

fn without_ipinfo(
    dns: Option<String>,
    org: Option<String>,
    infra: Option<String>,
    complete: bool,
) -> (r: LookupResult)
    ensures
        r@ == plain_findings(
            text::opt_view(dns),
            text::opt_view(org),
            text::opt_view(infra),
            complete,
        ),
{
    LookupResult {
        reverse_dns: dns,
        org,
        asn: None,
        infra,
        country: None,
        company_domain: None,
        asn_detail: None,
        complete,
    }
}

/// Does the name of an address have to be resolved, after ipinfo was asked for a batch?
pub fn needs_name(resp: Option<&IpInfoResponse>) -> (r: bool)
    ensures
        r == !(resp matches Some(x) && x.hostname is Some),
{
    match resp {
        Some(x) => x.hostname.is_none(),
        None => true,
    }
}

/// What is found of an address of a batch, with the answer for it where there is one.
pub open spec fn batch_findings(
    resp: Option<IpInfoResponse>,
    dns: Option<Seq<char>>,
    infra: Option<Seq<char>>,
) -> Findings {
    match resp {
        Some(x) => ipinfo_findings(x, dns, infra),
        None => plain_findings(dns, None, infra, false),
    }
}

/// What is found of an address of a batch; an address that the answer passes over stays incomplete.
pub fn batch_result(
    resp: Option<&IpInfoResponse>,
    dns: Option<String>,
    infra: Option<String>,
) -> (r: LookupResult)
    ensures
        r@ == batch_findings(
            match resp {
                Some(x) => Some(*x),
                None => None,
            },
            text::opt_view(dns),
            text::opt_view(infra),
        ),
{
    match resp {
        Some(x) => from_ipinfo(x, dns, infra),
        None => without_ipinfo(dns, None, infra, false),
    }
}

impl LookupResult {
    /// The autonomous system to be stored: one that has a number.
    pub fn asn_to_store(&self) -> (r: Option<&IpInfoAsn>)
        ensures
            match r {
                Some(a) => self.asn_detail == Some(*a) && a.asn is Some,
                None => self.asn_detail matches Some(a) ==> a.asn is None,
            },
    {
        match &self.asn_detail {
            Some(a) => if a.asn.is_some() {
                Some(a)
            } else {
                None
            },
            None => None,
        }
    }
}

// ---------------------------------------------------------------------------
// Whois
// ---------------------------------------------------------------------------

/// The organisation, as ARIN gives it.
pub const ORG_NAME: &'static str = "(?i)^OrgName:\\s*(.+)$";

/// The organisation, as RIPE gives it.
pub const ORG_NAME_DASH: &'static str = "(?i)^org-name:\\s*(.+)$";

/// The organisation.
pub const ORGANIZATION: &'static str = "(?i)^Organization:\\s*(.+)$";

/// A description.
pub const DESCR: &'static str = "(?i)^descr:\\s*(.+)$";

/// The name of the network.
pub const NETNAME: &'static str = "(?i)^netname:\\s*(.+)$";

/// The lines that name an organisation, the more telling ones first.
pub open spec fn whois_patterns() -> Seq<Seq<char>> {
    seq![ORG_NAME@, ORG_NAME_DASH@, ORGANIZATION@, DESCR@, NETNAME@]
}

/// What a line says that a pattern matches: the first group without the white space around it,
/// unless nothing is left.
pub open spec fn line_value(groups: Option<Seq<Option<Seq<char>>>>) -> Option<Seq<char>> {
    match groups {
        Some(g) => match pattern::group_text(g, 1) {
            Some(t) => parsers::unless_empty(Some(text::trim(t))),
            None => None,
        },
        None => None,
    }
}

/// What a line says that a pattern matches.
pub fn read_value(groups: &Option<Vec<Option<String>>>) -> (r: Option<String>)
    ensures
        text::opt_view(r) == line_value(pattern::match_view(*groups)),
{
    match groups {
        Some(g) => match pattern::group(g, 1) {
            Some(t) => {
                let chars = text::to_chars(t.as_str());
                let value = text::trimmed(&chars);
                if value.len() > 0 {
                    Some(text::from_chars(value))
                } else {
                    None
                }
            },
            None => None,
        },
        None => None,
    }
}

/// What the first line says that a pattern matches and that says something.
pub open spec fn first_value(p: Seq<char>, lines: Seq<Seq<char>>) -> Option<Seq<char>>
    decreases lines.len(),
{
    if lines.len() == 0 {
        None
    } else {
        match line_value(pattern::captured(p, lines[0])) {
            Some(v) => Some(v),
            None => first_value(p, lines.drop_first()),
        }
    }
}

/// The organisation: what the first pattern finds that finds something.
pub open spec fn whois_org(patterns: Seq<Seq<char>>, lines: Seq<Seq<char>>) -> Option<Seq<char>>
    decreases patterns.len(),
{
    if patterns.len() == 0 {
        None
    } else {
        match first_value(patterns[0], lines) {
            Some(v) => Some(v),
            None => whois_org(patterns.drop_first(), lines),
        }
    }
}

/// Reads the answers of whois.
pub struct WhoisReader {
    expressions: Vec<regex::Regex>,
}

impl WhoisReader {
    #[verifier::type_invariant]
    spec fn inv(self) -> bool {
        self.expressions@ == pattern::each_compiled(whois_patterns())
    }

    /// The expressions that lines are matched with, the first ones first.
    pub closed spec fn held(&self) -> Seq<regex::Regex> {
        self.expressions@
    }

    /// The reader that comes of compiling the patterns one by one; where some of them failed, the
    /// error of the first comes back.
    pub fn from_compiled(outcomes: Vec<Result<regex::Regex, PatternError>>) -> (r: Result<
        WhoisReader,
        PatternError,
    >)
        requires
            pattern::outcomes_of(outcomes@, whois_patterns()),
        ensures
            match r {
                Ok(w) => pattern::all_came(outcomes@, w.held()),
                Err(e) => pattern::first_failed(outcomes@, e),
            },
    {
        let ghost all = outcomes@;
        match pattern::all_compiled(outcomes) {
            Ok(expressions) => {
                proof {
                    pattern::lemma_all_came(all, whois_patterns(), expressions@);
                }
                Ok(WhoisReader { expressions })
            },
            Err(e) => Err(e),
        }
    }

    /// Compiles the patterns, and makes a reader that matches lines with them.
    pub fn new() -> (r: Result<WhoisReader, PatternError>)
        ensures
            r matches Ok(w) ==> w.held() == pattern::each_compiled(whois_patterns()),
    {
        let mut outcomes: Vec<Result<regex::Regex, PatternError>> = Vec::new();
        outcomes.push(pattern::compile(ORG_NAME));
        outcomes.push(pattern::compile(ORG_NAME_DASH));
        outcomes.push(pattern::compile(ORGANIZATION));
        outcomes.push(pattern::compile(DESCR));
        outcomes.push(pattern::compile(NETNAME));
        let ghost all = outcomes@;
        let r = WhoisReader::from_compiled(outcomes);
        proof {
            if r is Ok {
                pattern::lemma_all_came(all, whois_patterns(), r->Ok_0.held());
            }
        }
        r
    }

    /// The organisation that an answer of whois names.
    pub fn extract_org_from_whois(&self, answer: &str) -> (r: Option<String>)
        ensures
            text::opt_view(r) == whois_org(whois_patterns(), text::lines(answer@)),
    {
        proof {
            use_type_invariant(self);
        }
        let chars = text::to_chars(answer);
        let slices = text::line_list(&chars);
        let mut lines: Vec<String> = Vec::new();
        for i in 0..slices.len()
            invariant
                lines@.len() == i,
                forall|j: int| 0 <= j < i ==> (#[trigger] lines@[j])@ == slices@[j]@,
        {
            lines.push(text::from_chars(slices[i]));
        }
        let ghost all = text::lines(answer@);
        assert(all.len() == lines@.len());
        assert forall|j: int| 0 <= j < lines@.len() implies (#[trigger] lines@[j])@ == all[j] by {
            assert(text::views(slices@)[j] == slices@[j]@);
        }
        let ghost pats = whois_patterns();
        assert(pats.skip(0) =~= pats);
        for k in 0..self.expressions.len()
            invariant
                self.expressions@.len() == pats.len(),
                forall|i: int|
                    0 <= i < self.expressions@.len() ==> #[trigger] self.expressions@[i]
                        == pattern::compiled(pats[i]),
                pats == whois_patterns(),
                all == text::lines(answer@),
                all.len() == lines@.len(),
                forall|j: int| 0 <= j < lines@.len() ==> (#[trigger] lines@[j])@ == all[j],
                whois_org(pats, all) == whois_org(pats.skip(k as int), all),
        {
            assert(pats.skip(k as int)[0] == pats[k as int]);
            assert(pats.skip(k as int).drop_first() =~= pats.skip(k + 1));
            let found = first_line_value(
                &self.expressions[k],
                &lines,
                Ghost(pats[k as int]),
                Ghost(all),
            );
            if found.is_some() {
                return found;
            }
        }
        None
    }
}

fn first_line_value(
    re: &regex::Regex,
    lines: &Vec<String>,
    Ghost(p): Ghost<Seq<char>>,
    Ghost(all): Ghost<Seq<Seq<char>>>,
) -> (r: Option<String>)
    requires
        *re == pattern::compiled(p),
        all.len() == lines@.len(),
        forall|j: int| 0 <= j < lines@.len() ==> (#[trigger] lines@[j])@ == all[j],
    ensures
        text::opt_view(r) == first_value(p, all),
{
    assert(all.skip(0) =~= all);
    for i in 0..lines.len()
        invariant
            *re == pattern::compiled(p),
            all.len() == lines@.len(),
            forall|j: int| 0 <= j < lines@.len() ==> (#[trigger] lines@[j])@ == all[j],
            first_value(p, all) == first_value(p, all.skip(i as int)),
    {
        assert(all.skip(i as int)[0] == lines@[i as int]@);
        assert(all.skip(i as int).drop_first() =~= all.skip(i + 1));
        let found = read_value(&pattern::captures(re, lines[i].as_str()));
        if found.is_some() {
            return found;
        }
    }
    None
}

// ---------------------------------------------------------------------------
// One lookup, step by step
// ---------------------------------------------------------------------------

/// What has to be asked next.
#[derive(Clone, Copy, Debug, PartialEq, Eq, Structural)]
pub enum Question {
    /// Ipinfo is to be asked for the address.
    Ipinfo,
    /// The name of the address is to be resolved.
    Name,
    /// Whois is to be asked for the address.
    Whois,
    /// Nothing: the lookup is done.
    Nothing,
}

enum Stage {
    AskIpinfo,
    NameAfterIpinfo(IpInfoResponse),
    NameOnly,
    NameBeforeWhois,
    AskWhois(Option<String>),
    Done(LookupResult),
}

/// Where a lookup stands, as a mathematical value.
pub ghost enum StageView {
    AskIpinfo,
    NameAfterIpinfo(IpInfoResponse),
    NameOnly,
    NameBeforeWhois,
    AskWhois(Option<Seq<char>>),
    Done(Findings),
}

impl StageView {
    /// What has to be asked at this stage.
    pub open spec fn question(self) -> Question {
        match self {
            StageView::AskIpinfo => Question::Ipinfo,
            StageView::NameAfterIpinfo(_) => Question::Name,
            StageView::NameOnly => Question::Name,
            StageView::NameBeforeWhois => Question::Name,
            StageView::AskWhois(_) => Question::Whois,
            StageView::Done(_) => Question::Nothing,
        }
    }
}

/// A lookup starts with ipinfo where it is at hand and the address has enough requests. With fewer
/// requests only the name is resolved; without ipinfo whois may follow.
pub open spec fn first_stage(with_ipinfo: bool, count: u64, min_requests: u64) -> StageView {
    if with_ipinfo {
        if count >= min_requests {
            StageView::AskIpinfo
        } else {
            StageView::NameOnly
        }
    } else {
        StageView::NameBeforeWhois
    }
}

/// After the answer of ipinfo only a name may be missing.
pub open spec fn after_ipinfo(resp: IpInfoResponse, infra: Option<Seq<char>>) -> StageView {
    if resp.hostname is Some {
        StageView::Done(ipinfo_findings(resp, None, infra))
    } else {
        StageView::NameAfterIpinfo(resp)
    }
}

/// With the name the lookup is done, unless whois can still be asked for an address that is in no
/// range.
pub open spec fn after_name(
    stage: StageView,
    dns: Option<Seq<char>>,
    infra: Option<Seq<char>>,
) -> StageView {
    match stage {
        StageView::NameAfterIpinfo(resp) => StageView::Done(ipinfo_findings(resp, dns, infra)),
        StageView::NameBeforeWhois => if infra is Some {
            StageView::Done(plain_findings(dns, None, infra, true))
        } else {
            StageView::AskWhois(dns)
        },
        _ => StageView::Done(plain_findings(dns, None, infra, false)),
    }
}

/// Whois is the last to be asked.
pub open spec fn after_whois(
    dns: Option<Seq<char>>,
    org: Option<Seq<char>>,
    infra: Option<Seq<char>>,
) -> StageView {
    StageView::Done(plain_findings(dns, org, infra, true))
}

/// A lookup on its way.
pub struct Lookup {
    infra: Option<String>,
    stage: Stage,
}

impl Lookup {
    /// What the ranges say of the address.
    pub closed spec fn infra_found(&self) -> Option<Seq<char>> {
        text::opt_view(self.infra)
    }

    /// Where the lookup stands.
    pub closed spec fn at(&self) -> StageView {
        match self.stage {
            Stage::AskIpinfo => StageView::AskIpinfo,
            Stage::NameAfterIpinfo(resp) => StageView::NameAfterIpinfo(resp),
            Stage::NameOnly => StageView::NameOnly,
            Stage::NameBeforeWhois => StageView::NameBeforeWhois,
            Stage::AskWhois(dns) => StageView::AskWhois(text::opt_view(dns)),
            Stage::Done(result) => StageView::Done(result@),
        }
    }

    /// Starts the lookup of an address with what the ranges say of it.
    pub fn start(
        cache: Option<&CloudRangeCache>,
        ip: &str,
        with_ipinfo: bool,
        count: u64,
        min_requests: u64,
    ) -> (r: Lookup)
        requires
            cache matches Some(c) ==> c.wf(),
        ensures
            r.infra_found() == ranges::infra_of(cache, ip@),
            r.at() == first_stage(with_ipinfo, count, min_requests),
    {
        let infra = ranges::find_infra(cache, ip);
        let stage = if with_ipinfo {
            if count >= min_requests {
                Stage::AskIpinfo
            } else {
                Stage::NameOnly
            }
        } else {
            Stage::NameBeforeWhois
        };
        Lookup { infra, stage }
    }

    /// What has to be asked next.
    pub fn question(&self) -> (r: Question)
        ensures
            r == self.at().question(),
    {
        match &self.stage {
            Stage::AskIpinfo => Question::Ipinfo,
            Stage::NameAfterIpinfo(_) => Question::Name,
            Stage::NameOnly => Question::Name,
            Stage::NameBeforeWhois => Question::Name,
            Stage::AskWhois(_) => Question::Whois,
            Stage::Done(_) => Question::Nothing,
        }
    }

    /// Ipinfo has answered.
    pub fn ipinfo_answered(self, resp: IpInfoResponse) -> (r: Lookup)
        requires
            self.at() is AskIpinfo,
        ensures
            r.infra_found() == self.infra_found(),
            r.at() == after_ipinfo(resp, self.infra_found()),
    {
        if resp.hostname.is_some() {
            let result = from_ipinfo(&resp, None, text::copy_text(&self.infra));
            Lookup { infra: self.infra, stage: Stage::Done(result) }
        } else {
            Lookup { infra: self.infra, stage: Stage::NameAfterIpinfo(resp) }
        }
    }

    /// The name was resolved, or has none.
    pub fn name_resolved(self, dns: Option<String>) -> (r: Lookup)
        requires
            self.at().question() == Question::Name,
        ensures
            r.infra_found() == self.infra_found(),
            r.at() == after_name(self.at(), text::opt_view(dns), self.infra_found()),
    {
        let infra = text::copy_text(&self.infra);
        let stage = match self.stage {
            Stage::NameAfterIpinfo(resp) => Stage::Done(from_ipinfo(&resp, dns, infra)),
            Stage::NameBeforeWhois => if infra.is_some() {
                Stage::Done(without_ipinfo(dns, None, infra, true))
            } else {
                Stage::AskWhois(dns)
            },
            _ => Stage::Done(without_ipinfo(dns, None, infra, false)),
        };
        Lookup { infra: self.infra, stage }
    }

    /// Whois has answered, or could not be asked.
    pub fn whois_answered(self, reader: &WhoisReader, answer: Option<&str>) -> (r: Lookup)
        requires
            self.at() is AskWhois,
        ensures
            r.infra_found() == self.infra_found(),
            r.at() == after_whois(
                self.at()->AskWhois_0,
                match answer {
                    Some(s) => whois_org(whois_patterns(), text::lines(s@)),
                    None => None,
                },
                self.infra_found(),
            ),
    {
        let org = match answer {
            Some(s) => reader.extract_org_from_whois(s),
            None => None,
        };
        let infra = text::copy_text(&self.infra);
        let dns = match self.stage {
            Stage::AskWhois(dns) => dns,
            _ => None,
        };
        Lookup { infra: self.infra, stage: Stage::Done(without_ipinfo(dns, org, infra, true)) }
    }

    /// What was found.
    pub fn result(self) -> (r: Option<LookupResult>)
        ensures
            match r {
                Some(found) => self.at() == StageView::Done(found@),
                None => !(self.at() is Done),
            },
    {
        match self.stage {
            Stage::Done(result) => Some(result),
            _ => None,
        }
    }
}

/// At most three questions are asked for an address, and a lookup that started without ipinfo, or
/// with few requests, never asks it.
pub proof fn law_a_lookup_ends(
    with_ipinfo: bool,
    count: u64,
    min_requests: u64,
    infra: Option<Seq<char>>,
    resp: IpInfoResponse,
    dns: Option<Seq<char>>,
    org: Option<Seq<char>>,
)
    ensures
        ({
            let first = first_stage(with_ipinfo, count, min_requests);
            &&& first.question() == Question::Ipinfo <==> with_ipinfo && count >= min_requests
            &&& first.question() != Question::Nothing
            &&& after_ipinfo(resp, infra).question() == Question::Nothing || after_name(
                after_ipinfo(resp, infra),
                dns,
                infra,
            ).question() == Question::Nothing
            &&& first.question() == Question::Name ==> {
                let second = after_name(first, dns, infra);
                second.question() == Question::Nothing || (second.question() == Question::Whois
                    && after_whois(dns, org, infra).question() == Question::Nothing)
            }
        }),
{
}

/// Whois is asked only without ipinfo and for an address that is in no range.
pub proof fn law_whois_comes_last(stage: StageView, dns: Option<Seq<char>>, infra: Option<Seq<char>>)
    ensures
        after_name(stage, dns, infra).question() == Question::Whois <==> stage is NameBeforeWhois
            && infra is None,
{
}

/// A lookup is complete exactly if ipinfo answered, or if there is no ipinfo.
pub proof fn law_complete(
    with_ipinfo: bool,
    count: u64,
    min_requests: u64,
    infra: Option<Seq<char>>,
    resp: IpInfoResponse,
    dns: Option<Seq<char>>,
    org: Option<Seq<char>>,
)
    ensures
        ipinfo_findings(resp, dns, infra).complete,
        ({
            let first = first_stage(with_ipinfo, count, min_requests);
            first.question() == Question::Name ==> (after_name(first, dns, infra)
                matches StageView::Done(found) ==> found.complete == !with_ipinfo)
        }),
        after_whois(dns, org, infra) matches StageView::Done(found) && found.complete,
{
}

// ---------------------------------------------------------------------------
// The findings in the records
// ---------------------------------------------------------------------------

/// The first record of an address.
pub open spec fn first_record(records: Seq<IpRecord>, ip: Seq<char>) -> Option<int>
    decreases records.len(),
{
    if records.len() == 0 {
        None
    } else {
        match first_record(records.drop_last(), ip) {
            Some(i) => Some(i),
            None => if records.last().ip@ == ip {
                Some(records.len() - 1)
            } else {
                None
            },
        }
    }
}

/// A record with the findings of its lookup, which is then over.
pub open spec fn with_findings(rec: IpRecord, found: LookupResult) -> IpRecord {
    IpRecord {
        reverse_dns: found.reverse_dns,
        org: found.org,
        asn: found.asn,
        infra: found.infra,
        country: found.country,
        company_domain: found.company_domain,
        looked_up: found.complete,
        lookup_in_progress: false,
        ..rec
    }
}

/// The records with findings in the first one of an address.
pub open spec fn entered(
    records: Seq<IpRecord>,
    ip: Seq<char>,
    found: LookupResult,
) -> Seq<IpRecord> {
    match first_record(records, ip) {
        Some(i) => records.update(i, with_findings(records[i], found)),
        None => records,
    }
}

/// Enters findings in the first record of an address; other records stay as they are.
pub fn apply_lookup(records: &mut Vec<IpRecord>, ip: &str, found: &LookupResult)
    ensures
        final(records)@ == entered(old(records)@, ip@, *found),
{
    let ghost before = records@;
    let n: usize = records.len();
    for i in 0..n
        invariant
            n == records@.len(),
            before == old(records)@,
            records@ == before,
            first_record(before.take(i as int), ip@) is None,
        ensures
            records@ == before,
            first_record(before.take(n as int), ip@) is None,
    {
        assert(before.take(i + 1).drop_last() =~= before.take(i as int));
        assert(before.take(i + 1).last() == before[i as int]);
        if text::same_text(records[i].ip.as_str(), ip) {
            proof {
                lemma_first_stays(before, ip@, i + 1);
            }
            let mut rec = records[i].copy();
            rec.reverse_dns = text::copy_text(&found.reverse_dns);
            rec.org = text::copy_text(&found.org);
            rec.asn = text::copy_text(&found.asn);
            rec.infra = text::copy_text(&found.infra);
            rec.country = text::copy_text(&found.country);
            rec.company_domain = text::copy_text(&found.company_domain);
            rec.looked_up = found.complete;
            rec.lookup_in_progress = false;
            records.set(i, rec);
            return;
        }
    }
    assert(before.take(n as int) =~= before);
}

/// The first record of an address among the first ones is the first of all.
proof fn lemma_first_stays(records: Seq<IpRecord>, ip: Seq<char>, n: int)
    requires
        0 <= n <= records.len(),
        first_record(records.take(n), ip) is Some,
    ensures
        first_record(records, ip) == first_record(records.take(n), ip),
    decreases records.len() - n,
{
    if n < records.len() {
        assert(records.take(n + 1).drop_last() =~= records.take(n));
        lemma_first_stays(records, ip, n + 1);
    } else {
        assert(records.take(n) =~= records);
    }
}

// ---------------------------------------------------------------------------
// Laws of what is found
// ---------------------------------------------------------------------------

/// Where the answer describes a company, the organisation is the company's name and the domain is
/// the company's, whatever the answer says of the autonomous system or in its text.
pub proof fn law_the_company_is_the_organisation(
    resp: IpInfoResponse,
    dns: Option<Seq<char>>,
    infra: Option<Seq<char>>,
)
    ensures
        ({
            let found = ipinfo_findings(resp, dns, infra);
            &&& resp.company matches Some(company) ==> found.org == text::opt_view(company.name)
                && found.company_domain == text::opt_view(company.domain)
            &&& resp.company is None ==> found.company_domain is None
            &&& resp.company is None && resp.org is None ==> found.org is None
            &&& resp.company is None && resp.org is Some ==> found.org == cloud::ipinfo_org(
                resp.org->0@,
            ).1
        }),
{
}

/// Where the answer describes an autonomous system, its number is the one that is described and the
/// description is kept, whatever the answer says of the company; otherwise the number is that in
/// the organisation's text.
pub proof fn law_the_system_is_the_one_described(
    resp: IpInfoResponse,
    dns: Option<Seq<char>>,
    infra: Option<Seq<char>>,
)
    ensures
        ({
            let found = ipinfo_findings(resp, dns, infra);
            &&& found.asn_detail == resp.asn
            &&& resp.asn matches Some(system) ==> found.asn == text::opt_view(system.asn)
            &&& resp.asn is None && resp.org is None ==> found.asn is None
            &&& resp.asn is None && resp.org is Some ==> found.asn == cloud::ipinfo_org(
                resp.org->0@,
            ).0
        }),
{
}

/// The name is the one that ipinfo gives, or else the one that was resolved; the country is the one
/// of the answer, and what the ranges say is kept.
pub proof fn law_the_rest_of_an_answer_is_kept(
    resp: IpInfoResponse,
    dns: Option<Seq<char>>,
    infra: Option<Seq<char>>,
)
    ensures
        ({
            let found = ipinfo_findings(resp, dns, infra);
            &&& resp.hostname matches Some(name) ==> found.reverse_dns == Some(name@)
            &&& resp.hostname is None ==> found.reverse_dns == dns
            &&& found.country is Some <==> resp.country is Some
            &&& resp.country matches Some(c) ==> found.country == Some(c@)
            &&& found.infra == infra
            &&& found.complete
        }),
{
}

/// Each part of what is found depends only on the parts of the answer that it is about: answers with
/// the same company and text give the same organisation and domain, and those with the same
/// description and text the same system.
pub proof fn law_parts_of_an_answer_do_not_mix(
    a: IpInfoResponse,
    b: IpInfoResponse,
    dns: Option<Seq<char>>,
    infra: Option<Seq<char>>,
)
    ensures
        ({
            let x = ipinfo_findings(a, dns, infra);
            let y = ipinfo_findings(b, dns, infra);
            &&& a.company == b.company && a.org == b.org ==> x.org == y.org && x.company_domain
                == y.company_domain
            &&& a.asn == b.asn && a.org == b.org ==> x.asn == y.asn && x.asn_detail == y.asn_detail
            &&& a.country == b.country ==> x.country == y.country
            &&& a.hostname == b.hostname ==> x.reverse_dns == y.reverse_dns
        }),
{
}

/// Without ipinfo only the name, the organisation and what the ranges say are found.
pub proof fn law_what_is_found_without_ipinfo(
    dns: Option<Seq<char>>,
    org: Option<Seq<char>>,
    infra: Option<Seq<char>>,
    complete: bool,
)
    ensures
        ({
            let found = plain_findings(dns, org, infra, complete);
            &&& found.reverse_dns == dns
            &&& found.org == org
            &&& found.infra == infra
            &&& found.asn is None
            &&& found.country is None
            &&& found.company_domain is None
            &&& found.asn_detail is None
            &&& found.complete == complete
        }),
{
}

/// A lookup that ends hands on what it learned: the name that was resolved, what the ranges say, and
/// of whois the organisation. Only without ipinfo and outside of the ranges is whois asked.
pub proof fn law_a_lookup_hands_on_what_it_learned(
    dns: Option<Seq<char>>,
    org: Option<Seq<char>>,
    infra: Option<Seq<char>>,
    resp: IpInfoResponse,
)
    ensures
        after_name(StageView::NameOnly, dns, infra) matches StageView::Done(found)
            && found.reverse_dns == dns && found.infra == infra && found.org is None && !found.complete,
        infra is Some ==> (after_name(
            StageView::NameBeforeWhois,
            dns,
            infra,
        ) matches StageView::Done(found) && found.reverse_dns == dns && found.infra == infra
            && found.org is None && found.complete),
        infra is None ==> (after_name(
            StageView::NameBeforeWhois,
            dns,
            infra,
        ) matches StageView::AskWhois(name) && name == dns),
        after_whois(dns, org, infra) matches StageView::Done(found) && found.reverse_dns == dns
            && found.org == org && found.infra == infra && found.complete,
        resp.hostname is None ==> (after_ipinfo(
            resp,
            infra,
        ) matches StageView::NameAfterIpinfo(kept) && kept == resp),
        resp.hostname is None ==> (after_name(
            after_ipinfo(resp, infra),
            dns,
            infra,
        ) matches StageView::Done(found) && found.reverse_dns == dns && found.infra == infra),
        resp.hostname matches Some(h) ==> (after_ipinfo(resp, infra) matches StageView::Done(found)
            && found.reverse_dns == Some(h@) && found.infra == infra),
{
}

/// Ipinfo is asked first exactly if it is at hand and the address has at least as many requests as
/// are asked for; with fewer only the name is resolved.
pub proof fn law_when_ipinfo_is_asked(count: u64, min_requests: u64)
    ensures
        first_stage(true, count, min_requests) is AskIpinfo <==> count >= min_requests,
        first_stage(true, count, min_requests) is NameOnly <==> count < min_requests,
        first_stage(false, count, min_requests) is NameBeforeWhois,
{
}

/// The organisation that whois names is what the first of the patterns finds that finds anything,
/// and of that pattern the first line that says anything.
pub proof fn law_the_more_telling_lines_win(lines: Seq<Seq<char>>)
    ensures
        ({
            let org = whois_org(whois_patterns(), lines);
            let a = first_value(ORG_NAME@, lines);
            let b = first_value(ORG_NAME_DASH@, lines);
            let c = first_value(ORGANIZATION@, lines);
            let d = first_value(DESCR@, lines);
            let e = first_value(NETNAME@, lines);
            &&& a is Some ==> org == a
            &&& a is None && b is Some ==> org == b
            &&& a is None && b is None && c is Some ==> org == c
            &&& a is None && b is None && c is None && d is Some ==> org == d
            &&& a is None && b is None && c is None && d is None ==> org == e
        }),
{
    let p = whois_patterns();
    reveal_with_fuel(whois_org, 6);
    assert(p.drop_first()[0] == ORG_NAME_DASH@);
    assert(p.drop_first().drop_first()[0] == ORGANIZATION@);
    assert(p.drop_first().drop_first().drop_first()[0] == DESCR@);
    assert(p.drop_first().drop_first().drop_first().drop_first()[0] == NETNAME@);
}

/// What a pattern finds in lines is what the first line says that it matches and that says more than
/// white space; the value has no white space around it.
pub proof fn law_the_first_line_that_says_something(p: Seq<char>, lines: Seq<Seq<char>>)
    ensures
        match first_value(p, lines) {
            Some(v) => v.len() > 0 && exists|i: int|
                0 <= i < lines.len() && says(p, #[trigger] lines[i]) == Some(v) && forall|j: int|
                    0 <= j < i ==> says(p, #[trigger] lines[j]) is None,
            None => forall|i: int| 0 <= i < lines.len() ==> says(p, #[trigger] lines[i]) is None,
        },
    decreases lines.len(),
{
    if lines.len() > 0 {
        let rest = lines.drop_first();
        law_the_first_line_that_says_something(p, rest);
        if says(p, lines[0]) is None {
            match first_value(p, rest) {
                Some(v) => {
                    let i = choose|i: int|
                        0 <= i < rest.len() && says(p, #[trigger] rest[i]) == Some(v)
                            && forall|j: int| 0 <= j < i ==> says(p, #[trigger] rest[j]) is None;
                    assert(lines[i + 1] == rest[i]);
                    assert forall|j: int| 0 <= j < i + 1 implies says(
                        p,
                        #[trigger] lines[j],
                    ) is None by {
                        if j > 0 {
                            assert(lines[j] == rest[j - 1]);
                        }
                    }
                },
                None => {
                    assert forall|i: int| 0 <= i < lines.len() implies says(
                        p,
                        #[trigger] lines[i],
                    ) is None by {
                        if i > 0 {
                            assert(lines[i] == rest[i - 1]);
                        }
                    }
                },
            }
        }
    }
}

/// What a line says in the first group of a pattern, without the white space around it, if that is
/// anything.
pub open spec fn says(p: Seq<char>, line: Seq<char>) -> Option<Seq<char>> {
    match pattern::captured(p, line) {
        Some(groups) => if groups.len() > 1 && groups[1] is Some && text::trim(groups[1]->0).len()
            > 0 {
            Some(text::trim(groups[1]->0))
        } else {
            None
        },
        None => None,
    }
}

/// Entering findings changes the record of the address alone, and of it only what was looked up: the
/// address, the counts, the user agent and whether it is shown stay.
pub proof fn law_findings_go_to_their_record(rec: IpRecord, found: LookupResult)
    ensures
        ({
            let after = with_findings(rec, found);
            &&& after.reverse_dns == found.reverse_dns
            &&& after.org == found.org
            &&& after.asn == found.asn
            &&& after.infra == found.infra
            &&& after.country == found.country
            &&& after.company_domain == found.company_domain
            &&& after.looked_up == found.complete
            &&& !after.lookup_in_progress
            &&& after.ip == rec.ip
            &&& after.count == rec.count
            &&& after.bytes == rec.bytes
            &&& after.user_agent == rec.user_agent
            &&& after.in_display_set == rec.in_display_set
        }),
{
}

/// The record that findings are entered in is the first one of the address, where there is one.
pub proof fn law_findings_go_to_the_first_record(records: Seq<IpRecord>, ip: Seq<char>)
    ensures
        match first_record(records, ip) {
            Some(i) => 0 <= i < records.len() && records[i].ip@ == ip && forall|j: int|
                0 <= j < i ==> (#[trigger] records[j]).ip@ != ip,
            None => forall|j: int| 0 <= j < records.len() ==> (#[trigger] records[j]).ip@ != ip,
        },
    decreases records.len(),
{
    if records.len() > 0 {
        let front = records.drop_last();
        law_findings_go_to_the_first_record(front, ip);
        assert forall|j: int| 0 <= j < front.len() implies records[j] == front[j] by {}
        match first_record(front, ip) {
            Some(i) => {
                assert(front[i] == records[i]);
                assert forall|j: int| 0 <= j < i implies (#[trigger] records[j]).ip@ != ip by {
                    assert(front[j] == records[j]);
                }
            },
            None => {
                assert forall|j: int| 0 <= j < records.len() - 1 implies (
                #[trigger] records[j]).ip@ != ip by {
                    assert(front[j] == records[j]);
                }
            },
        }
    }
}

/// What has to be asked at the start of a lookup, and after each answer.
pub proof fn law_what_is_asked_next(
    count: u64,
    least: u64,
    resp: IpInfoResponse,
    dns: Option<Seq<char>>,
    org: Option<Seq<char>>,
    infra: Option<Seq<char>>,
)
    ensures
        first_stage(true, count, least).question() == Question::Ipinfo <==> count >= least,
        count < least ==> first_stage(true, count, least).question() == Question::Name,
        first_stage(false, count, least).question() == Question::Name,
        after_ipinfo(resp, infra).question() == Question::Nothing <==> resp.hostname is Some,
        resp.hostname is None ==> after_ipinfo(resp, infra).question() == Question::Name,
        after_name(first_stage(false, count, least), dns, infra).question() == Question::Whois
            <==> infra is None,
        count < least ==> after_name(first_stage(true, count, least), dns, infra).question()
            == Question::Nothing,
        after_whois(dns, org, infra).question() == Question::Nothing,
{
}

/// Entering findings changes at most one record: the first of the address takes them over and keeps
/// its counts, and every other record stays as it is.
pub proof fn law_entering_changes_one_record(
    records: Seq<IpRecord>,
    ip: Seq<char>,
    found: LookupResult,
    i: int,
)
    requires
        0 <= i < records.len(),
    ensures
        ({
            let after = entered(records, ip, found);
            let first = records[i].ip@ == ip && forall|j: int|
                0 <= j < i ==> (#[trigger] records[j]).ip@ != ip;
            &&& after.len() == records.len()
            &&& !first ==> after[i] == records[i]
            &&& first ==> {
                &&& after[i].reverse_dns == found.reverse_dns
                &&& after[i].org == found.org
                &&& after[i].asn == found.asn
                &&& after[i].infra == found.infra
                &&& after[i].country == found.country
                &&& after[i].company_domain == found.company_domain
                &&& after[i].looked_up == found.complete
                &&& !after[i].lookup_in_progress
                &&& after[i].ip == records[i].ip
                &&& after[i].count == records[i].count
                &&& after[i].bytes == records[i].bytes
            }
        }),
{
    law_findings_go_to_the_first_record(records, ip);
    match first_record(records, ip) {
        Some(k) => {
            if k < i {
                assert(records[k].ip@ == ip);
            }
        },
        None => {
            assert(records[i].ip@ != ip);
        },
    }
}

/// Of an address of a batch that the answer passes over only the name and what the ranges say are
/// found, and it stays incomplete; otherwise what ipinfo says is found.
pub proof fn law_an_address_of_a_batch(
    resp: IpInfoResponse,
    dns: Option<Seq<char>>,
    infra: Option<Seq<char>>,
)
    ensures
        batch_findings(Some(resp), dns, infra) == ipinfo_findings(resp, dns, infra),
        ({
            let found = batch_findings(None, dns, infra);
            &&& found.reverse_dns == dns
            &&& found.infra == infra
            &&& !found.complete
            &&& found.org is None
            &&& found.asn is None
            &&& found.country is None
            &&& found.company_domain is None
            &&& found.asn_detail is None
        }),
{
}

/// The address stands in the path and the token in the query.
pub proof fn law_where_ipinfo_is_asked(ip: Seq<char>, token: Seq<char>)
    ensures
        address_url(ip, token) == "https://ipinfo.io/"@ + ip + "?token="@ + token,
{
}

} // verus!
