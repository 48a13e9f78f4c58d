//! Cloud providers: their names, and what is said of an address in terms of them.
use vstd::prelude::*;
use vstd::slice::slice_subrange;

use crate::text;

verus! {

broadcast use vstd::string::group_string_axioms;

/// The providers whose address ranges are known.
#[derive(Clone, Copy, Debug, PartialEq, Eq, Structural, Hash)]
pub enum CloudProvider {
    AWS,
    Azure,
    GCP,
    DigitalOcean,
    Cloudflare,
}

/// The provider that a name in lower case stands for.
pub open spec fn provider_named(lower: Seq<char>) -> Option<CloudProvider> {
    if lower == "aws"@ {
        Some(CloudProvider::AWS)
    } else if lower == "azure"@ {
        Some(CloudProvider::Azure)
    } else if lower == "gcp"@ {
        Some(CloudProvider::GCP)
    } else if lower == "digitalocean"@ {
        Some(CloudProvider::DigitalOcean)
    } else if lower == "cloudflare"@ {
        Some(CloudProvider::Cloudflare)
    } else {
        None
    }
}

/// The provider that a name in lower case stands for.
pub fn provider_by_name(lower: &str) -> (r: Option<CloudProvider>)
    ensures
        r == provider_named(lower@),
{
    if text::same_text(lower, "aws") {
        Some(CloudProvider::AWS)
    } else if text::same_text(lower, "azure") {
        Some(CloudProvider::Azure)
    } else if text::same_text(lower, "gcp") {
        Some(CloudProvider::GCP)
    } else if text::same_text(lower, "digitalocean") {
        Some(CloudProvider::DigitalOcean)
    } else if text::same_text(lower, "cloudflare") {
        Some(CloudProvider::Cloudflare)
    } else {
        None
    }
}

impl CloudProvider {
    /// The name of the provider.
    pub open spec fn name(self) -> Seq<char> {
        match self {
            CloudProvider::AWS => "AWS"@,
            CloudProvider::Azure => "Azure"@,
            CloudProvider::GCP => "GCP"@,
            CloudProvider::DigitalOcean => "DigitalOcean"@,
            CloudProvider::Cloudflare => "Cloudflare"@,
        }
    }

    /// The name of the provider.
    pub fn as_str(&self) -> (r: &'static str)
        ensures
            r@ == self.name(),
    {
        match self {
            CloudProvider::AWS => "AWS",
            CloudProvider::Azure => "Azure",
            CloudProvider::GCP => "GCP",
            CloudProvider::DigitalOcean => "DigitalOcean",
            CloudProvider::Cloudflare => "Cloudflare",
        }
    }

    /// The provider that a name stands for, in upper or lower case.
    pub fn from_str(s: &str) -> (r: Option<CloudProvider>)
        ensures
            r == provider_named(text::lowered(s@)),
    {
        let lower = text::to_lower(s);
        provider_by_name(lower.as_str())
    }
}

/// The name of a provider stands for that provider.
pub proof fn law_names_stand_for_their_provider(p: CloudProvider)
    ensures
        provider_named(text::lowered(p.name())) == Some(p),
{
    reveal_strlit("AWS");
    reveal_strlit("Azure");
    reveal_strlit("GCP");
    reveal_strlit("DigitalOcean");
    reveal_strlit("Cloudflare");
    reveal_strlit("aws");
    reveal_strlit("azure");
    reveal_strlit("gcp");
    reveal_strlit("digitalocean");
    reveal_strlit("cloudflare");
    let lower = text::lowered(p.name());
    match p {
        CloudProvider::AWS => {
            assert(lower =~= "aws"@);
        },
        CloudProvider::Azure => {
            assert(lower =~= "azure"@);
        },
        CloudProvider::GCP => {
            assert(lower =~= "gcp"@);
            assert("gcp"@[0] != "aws"@[0]);
        },
        CloudProvider::DigitalOcean => {
            assert(lower =~= "digitalocean"@);
        },
        CloudProvider::Cloudflare => {
            assert(lower =~= "cloudflare"@);
        },
    }
}

/// What separates the parts of an organisation's text.
pub open spec fn slash() -> Seq<char> {
    " / "@
}

/// The text is the provider's name alone, or the name with more parts behind it.
pub open spec fn belongs_to(org: Seq<char>, p: CloudProvider) -> bool {
    org == p.name() || text::starts_with(org, p.name() + slash())
}

/// The provider that an organisation's text belongs to.
pub open spec fn provider_of(org: Seq<char>) -> Option<CloudProvider> {
    if belongs_to(org, CloudProvider::AWS) {
        Some(CloudProvider::AWS)
    } else if belongs_to(org, CloudProvider::Azure) {
        Some(CloudProvider::Azure)
    } else if belongs_to(org, CloudProvider::GCP) {
        Some(CloudProvider::GCP)
    } else if belongs_to(org, CloudProvider::DigitalOcean) {
        Some(CloudProvider::DigitalOcean)
    } else if belongs_to(org, CloudProvider::Cloudflare) {
        Some(CloudProvider::Cloudflare)
    } else {
        None
    }
}

fn names_provider(org: &[char], p: CloudProvider) -> (r: bool)
    ensures
        r == belongs_to(org@, p),
{
    let name = text::to_chars(p.as_str());
    if text::same_chars(org, &name) {
        return true;
    }
    let start = text::concat(p.as_str(), " / ");
    let start_chars = text::to_chars(start.as_str());
    text::begins(org, &start_chars)
}

/// The name of the provider that an organisation's text belongs to.
pub fn cloud_provider_prefix(org: &str) -> (r: Option<&'static str>)
    ensures
        match r {
            Some(name) => provider_of(org@) matches Some(p) && name@ == p.name(),
            None => provider_of(org@) is None,
        },
{
    let chars = text::to_chars(org);
    if names_provider(&chars, CloudProvider::AWS) {
        Some(CloudProvider::AWS.as_str())
    } else if names_provider(&chars, CloudProvider::Azure) {
        Some(CloudProvider::Azure.as_str())
    } else if names_provider(&chars, CloudProvider::GCP) {
        Some(CloudProvider::GCP.as_str())
    } else if names_provider(&chars, CloudProvider::DigitalOcean) {
        Some(CloudProvider::DigitalOcean.as_str())
    } else if names_provider(&chars, CloudProvider::Cloudflare) {
        Some(CloudProvider::Cloudflare.as_str())
    } else {
        None
    }
}

/// An organisation's text; without the detail only the provider where it belongs to one.
pub open spec fn org_shown(org: Seq<char>, cloud_detail: bool) -> Seq<char> {
    match provider_of(org) {
        Some(p) => if cloud_detail {
            org
        } else {
            p.name()
        },
        None => org,
    }
}

/// An organisation's text, with the detail or without it.
pub fn effective_org(org: &str, cloud_detail: bool) -> (r: String)
    ensures
        r@ == org_shown(org@, cloud_detail),
{
    if cloud_detail {
        return org.to_owned();
    }
    match cloud_provider_prefix(org) {
        Some(name) => name.to_owned(),
        None => org.to_owned(),
    }
}

/// The provider, service and region that an address belongs to.
#[derive(Debug)]
pub struct CloudMatch {
    pub provider: CloudProvider,
    pub service: Option<String>,
    pub region: Option<String>,
}

/// An optional part of a text, as a list of parts.
pub open spec fn opt_part(t: Option<Seq<char>>) -> Seq<Seq<char>> {
    match t {
        Some(s) => seq![s],
        None => Seq::empty(),
    }
}

/// Provider, service and region, as far as they are known, with slashes between.
pub open spec fn org_text(
    p: CloudProvider,
    service: Option<Seq<char>>,
    region: Option<Seq<char>>,
) -> Seq<char> {
    text::join(seq![p.name()] + opt_part(service) + opt_part(region), slash())
}

impl CloudMatch {
    /// What a match says as the text of an organisation.
    pub open spec fn org(self) -> Seq<char> {
        org_text(self.provider, text::opt_view(self.service), text::opt_view(self.region))
    }

    /// The match as an organisation's text.
    pub fn format_org(&self) -> (r: String)
        ensures
            r@ == self.org(),
    {
        let ghost parts = seq![self.provider.name()] + opt_part(text::opt_view(self.service))
            + opt_part(text::opt_view(self.region));
        let mut out = self.provider.as_str().to_owned();
        let ghost mut done: Seq<Seq<char>> = seq![self.provider.name()];
        match &self.service {
            Some(service) => {
                proof {
                    text::lemma_join_push(done, service@, slash());
                    done = done.push(service@);
                }
                out.append(" / ");
                out.append(service.as_str());
            },
            None => {},
        }
        match &self.region {
            Some(region) => {
                proof {
                    text::lemma_join_push(done, region@, slash());
                    done = done.push(region@);
                }
                out.append(" / ");
                out.append(region.as_str());
            },
            None => {},
        }
        assert(done =~= parts);
        out
    }
}

/// What a match says belongs to its provider, and without the detail it is the provider's name.
pub proof fn law_a_match_names_its_provider(m: CloudMatch)
    ensures
        provider_of(m.org()) == Some(m.provider),
        org_shown(m.org(), false) == m.provider.name(),
        org_shown(m.org(), true) == m.org(),
{
    let parts = seq![m.provider.name()] + opt_part(text::opt_view(m.service)) + opt_part(
        text::opt_view(m.region),
    );
    lemma_join_starts(parts, slash());
    lemma_one_provider(m.org(), m.provider);
}

/// A joined text is its first part, or starts with it and a separator.
proof fn lemma_join_starts(parts: Seq<Seq<char>>, sep: Seq<char>)
    requires
        parts.len() > 0,
    ensures
        text::join(parts, sep) == parts[0] || text::starts_with(
            text::join(parts, sep),
            parts[0] + sep,
        ),
    decreases parts.len(),
{
    if parts.len() > 1 {
        let front = parts.drop_last();
        lemma_join_starts(front, sep);
        let whole = text::join(parts, sep);
        let head = text::join(front, sep);
        if head == parts[0] {
            assert(whole.subrange(0, (parts[0] + sep).len() as int) =~= parts[0] + sep);
        } else {
            assert(whole.subrange(0, (parts[0] + sep).len() as int) =~= head.subrange(
                0,
                (parts[0] + sep).len() as int,
            ));
        }
    }
}

/// A text that belongs to a provider belongs to no other.
proof fn lemma_one_provider(org: Seq<char>, p: CloudProvider)
    requires
        belongs_to(org, p),
    ensures
        provider_of(org) == Some(p),
{
    reveal_strlit("AWS");
    reveal_strlit("Azure");
    reveal_strlit("GCP");
    reveal_strlit("DigitalOcean");
    reveal_strlit("Cloudflare");
    assert forall|q: CloudProvider| belongs_to(org, q) implies org.len() >= 3 && org[0]
        == q.name()[0] && org[1] == q.name()[1] by {
        if org != q.name() {
            let start = q.name() + slash();
            assert(org.subrange(0, start.len() as int)[0] == start[0]);
            assert(org.subrange(0, start.len() as int)[1] == start[1]);
        }
    }
    assert forall|q: CloudProvider| belongs_to(org, q) implies q == p by {}
    assert(belongs_to(org, CloudProvider::AWS) ==> p == CloudProvider::AWS);
    assert(belongs_to(org, CloudProvider::Azure) ==> p == CloudProvider::Azure);
    assert(belongs_to(org, CloudProvider::GCP) ==> p == CloudProvider::GCP);
    assert(belongs_to(org, CloudProvider::DigitalOcean) ==> p == CloudProvider::DigitalOcean);
    assert(belongs_to(org, CloudProvider::Cloudflare) ==> p == CloudProvider::Cloudflare);
}

// ---------------------------------------------------------------------------
// Organisations
// ---------------------------------------------------------------------------

/// The autonomous system and the organisation in a text such as `AS15169 Google LLC`; a text
/// without a system number is all organisation.
pub open spec fn ipinfo_org(s: Seq<char>) -> (Option<Seq<char>>, Option<Seq<char>>) {
    let t = text::trim(s);
    let rest = t.skip(2);
    let gap = text::find(rest, seq![' ']);
    if t.len() == 0 {
        (None, None)
    } else if !text::starts_with(t, "AS"@) {
        (None, Some(t))
    } else if gap is Some && text::all_digits(rest.take(gap->0 as int)) {
        let name = text::trim(rest.skip(gap->0 as int));
        (
            Some("AS"@ + rest.take(gap->0 as int)),
            if name.len() == 0 {
                None
            } else {
                Some(name)
            },
        )
    } else if text::all_digits(rest) && rest.len() > 0 {
        (Some("AS"@ + rest), None)
    } else {
        (None, Some(t))
    }
}

/// The autonomous system and the organisation in a text of ipinfo.
pub fn parse_ipinfo_org(org: &str) -> (r: (Option<String>, Option<String>))
    ensures
        (text::opt_view(r.0), text::opt_view(r.1)) == ipinfo_org(org@),
{
    let chars = text::to_chars(org);
    let t = text::trimmed(&chars);
    if t.len() == 0 {
        return (None, None);
    }
    proof {
        reveal_strlit("AS");
    }
    let prefix = text::to_chars("AS");
    if text::begins(t, &prefix) {
        let rest = slice_subrange(t, 2, t.len());
        assert(rest@ =~= t@.skip(2));
        let gap: [char; 1] = [' '];
        assert(gap@ =~= seq![' ']);
        match text::index_of(rest, &gap) {
            Some(k) => {
                proof {
                    text::lemma_find_from(rest@, seq![' '], 0);
                }
                let number = slice_subrange(rest, 0, k);
                assert(number@ =~= rest@.take(k as int));
                if text::only_digits(number) {
                    let tail = slice_subrange(rest, k, rest.len());
                    assert(tail@ =~= rest@.skip(k as int));
                    let name = text::trimmed(tail);
                    let asn = text::concat("AS", text::from_chars(number).as_str());
                    if name.len() == 0 {
                        return (Some(asn), None);
                    }
                    return (Some(asn), Some(text::from_chars(name)));
                }
            },
            None => {},
        }
        if text::only_digits(rest) && rest.len() > 0 {
            return (Some(text::concat("AS", text::from_chars(rest).as_str())), None);
        }
    }
    (None, Some(text::from_chars(t)))
}

/// The organisation with the cloud it runs on in brackets; a dash where neither is known.
pub open spec fn org_with_infra(
    org: Option<Seq<char>>,
    infra: Option<Seq<char>>,
    cloud_detail: bool,
) -> Seq<char> {
    match (org, infra) {
        (Some(o), Some(i)) => o + " ("@ + org_shown(i, cloud_detail) + ")"@,
        (Some(o), None) => o,
        (None, Some(i)) => "("@ + org_shown(i, cloud_detail) + ")"@,
        (None, None) => "-"@,
    }
}

/// The organisation with the cloud it runs on.
pub fn display_org_with_infra(
    org: Option<&str>,
    infra: Option<&str>,
    cloud_detail: bool,
) -> (r: String)
    ensures
        r@ == org_with_infra(
            text::str_view(org),
            text::str_view(infra),
            cloud_detail,
        ),
{
    match (org, infra) {
        (Some(o), Some(i)) => {
            let mut out = o.to_owned();
            out.append(" (");
            out.append(effective_org(i, cloud_detail).as_str());
            out.append(")");
            out
        },
        (Some(o), None) => o.to_owned(),
        (None, Some(i)) => {
            let mut out = "(".to_owned();
            out.append(effective_org(i, cloud_detail).as_str());
            out.append(")");
            out
        },
        (None, None) => "-".to_owned(),
    }
}

// ---------------------------------------------------------------------------
// Laws of texts about organisations
// ---------------------------------------------------------------------------

/// Five names stand for a provider, each for its own, and no other text does.
pub proof fn law_provider_names(s: Seq<char>)
    ensures
        provider_named(s) == Some(CloudProvider::AWS) <==> s == "aws"@,
        provider_named(s) == Some(CloudProvider::Azure) <==> s == "azure"@,
        provider_named(s) == Some(CloudProvider::GCP) <==> s == "gcp"@,
        provider_named(s) == Some(CloudProvider::DigitalOcean) <==> s == "digitalocean"@,
        provider_named(s) == Some(CloudProvider::Cloudflare) <==> s == "cloudflare"@,
        CloudProvider::AWS.name() == "AWS"@,
        CloudProvider::Azure.name() == "Azure"@,
        CloudProvider::GCP.name() == "GCP"@,
        CloudProvider::DigitalOcean.name() == "DigitalOcean"@,
        CloudProvider::Cloudflare.name() == "Cloudflare"@,
{
    reveal_strlit("aws");
    reveal_strlit("azure");
    reveal_strlit("gcp");
    reveal_strlit("digitalocean");
    reveal_strlit("cloudflare");
    assert("gcp"@[0] != "aws"@[0]);
    assert("aws"@.len() == 3 && "gcp"@.len() == 3 && "azure"@.len() == 5);
    assert("digitalocean"@.len() == 12 && "cloudflare"@.len() == 10);
}

/// What a match says is the provider's name, then the service and then the region, as far as they
/// are known, each behind a slash between spaces.
pub proof fn law_parts_of_a_match(p: CloudProvider, service: Seq<char>, region: Seq<char>)
    ensures
        org_text(p, None, None) == p.name(),
        org_text(p, Some(service), None) == p.name() + " / "@ + service,
        org_text(p, None, Some(region)) == p.name() + " / "@ + region,
        org_text(p, Some(service), Some(region)) == p.name() + " / "@ + service + " / "@ + region,
{
    let one = seq![p.name()];
    text::law_join(one, service, slash());
    text::law_join(one, region, slash());
    text::law_join(one, p.name(), slash());
    text::law_join(one.push(service), region, slash());
    assert(one + opt_part(None) + opt_part(None) =~= one);
    assert(one + opt_part(Some(service)) + opt_part(None) =~= one.push(service));
    assert(one + opt_part(None) + opt_part(Some(region)) =~= one.push(region));
    assert(one + opt_part(Some(service)) + opt_part(Some(region)) =~= one.push(service).push(
        region,
    ));
}

/// Without the detail, what belongs to a provider is shown as the provider's name; with the detail,
/// and where it belongs to none, it is shown as it is.
pub proof fn law_detail_is_cut_away(p: CloudProvider, rest: Seq<char>, org: Seq<char>)
    ensures
        org_shown(p.name() + " / "@ + rest, false) == p.name(),
        org_shown(p.name(), false) == p.name(),
        org_shown(org, true) == org,
        org_shown(org, false) == org || exists|q: CloudProvider| #[trigger]
            q.name() == org_shown(org, false) && text::starts_with(org, q.name() + " / "@),
{
    let long = p.name() + " / "@ + rest;
    let start = p.name() + slash();
    assert(long.subrange(0, start.len() as int) =~= start);
    lemma_one_provider(long, p);
    lemma_one_provider(p.name(), p);
    match provider_of(org) {
        Some(q) => {
            assert(q.name() == org_shown(org, false));
        },
        None => {},
    }
}

/// A text with nothing but white space around it is not changed by trimming it.
proof fn lemma_trim_keeps(s: Seq<char>)
    requires
        s.len() > 0 ==> !text::is_space(s[0]) && !text::is_space(s.last()),
    ensures
        text::trim(s) == s,
{
}

/// A system number and the name behind it are told apart at the first space; a number alone has no
/// name.
pub proof fn law_system_and_name(digits: Seq<char>, name: Seq<char>)
    requires
        digits.len() > 0,
        text::all_digits(digits),
        name.len() > 0,
        !text::is_space(name[0]),
        !text::is_space(name.last()),
    ensures
        ipinfo_org("AS"@ + digits + seq![' '] + name) == (Some("AS"@ + digits), Some(name)),
        ipinfo_org("AS"@ + digits) == (Some("AS"@ + digits), None::<Seq<char>>),
{
    lemma_number_with_name(digits, name);
    lemma_number_alone(digits);
}

proof fn lemma_number_with_name(digits: Seq<char>, name: Seq<char>)
    requires
        digits.len() > 0,
        text::all_digits(digits),
        name.len() > 0,
        !text::is_space(name[0]),
        !text::is_space(name.last()),
    ensures
        ipinfo_org("AS"@ + digits + seq![' '] + name) == (Some("AS"@ + digits), Some(name)),
{
    reveal_strlit("AS");
    let t = "AS"@ + digits + seq![' '] + name;
    assert(t[0] == 'A' && t.last() == name.last());
    lemma_trim_keeps(t);
    assert(t.subrange(0, 2) =~= "AS"@);
    let rest = t.skip(2);
    assert(rest =~= digits + seq![' '] + name);
    lemma_first_space(digits, name);
    assert(rest.take(digits.len() as int) =~= digits);
    let tail = rest.skip(digits.len() as int);
    assert(tail =~= seq![' '] + name);
    lemma_trim_one_space(name);
}

/// The first space stands behind the digits.
proof fn lemma_first_space(digits: Seq<char>, name: Seq<char>)
    requires
        text::all_digits(digits),
    ensures
        text::find(digits + seq![' '] + name, seq![' ']) == Some(digits.len()),
{
    let rest = digits + seq![' '] + name;
    text::lemma_find_from(rest, seq![' '], 0);
    assert(rest.subrange(digits.len() as int, (digits.len() + 1) as int) =~= seq![' ']);
    assert(text::occurs_at(rest, seq![' '], digits.len() as int));
    assert forall|j: int| 0 <= j < digits.len() implies !text::occurs_at(rest, seq![' '], j) by {
        assert(rest[j] == digits[j]);
        assert(text::is_digit(digits[j]));
        assert(rest.subrange(j, j + 1)[0] == rest[j]);
        assert(seq![' '][0] == ' ');
    }
}

/// One space in front of a text is trimmed away.
proof fn lemma_trim_one_space(name: Seq<char>)
    requires
        name.len() > 0,
        !text::is_space(name[0]),
        !text::is_space(name.last()),
    ensures
        text::trim(seq![' '] + name) == name,
{
    let tail = seq![' '] + name;
    assert(tail.drop_first() =~= name);
    reveal_with_fuel(text::trim_start, 2);
    assert(text::trim_start(tail) == name);
}

proof fn lemma_number_alone(digits: Seq<char>)
    requires
        digits.len() > 0,
        text::all_digits(digits),
    ensures
        ipinfo_org("AS"@ + digits) == (Some("AS"@ + digits), None::<Seq<char>>),
{
    reveal_strlit("AS");
    let u = "AS"@ + digits;
    assert(text::is_digit(u.last())) by {
        assert(u.last() == digits.last());
        assert(text::is_digit(digits[digits.len() - 1]));
    }
    assert(u[0] == 'A');
    lemma_trim_keeps(u);
    assert(u.subrange(0, 2) =~= "AS"@);
    assert(u.skip(2) =~= digits);
    text::lemma_find_from(digits, seq![' '], 0);
    assert forall|j: int| 0 <= j implies !text::occurs_at(digits, seq![' '], j) by {
        if text::occurs_at(digits, seq![' '], j) {
            assert(digits.subrange(j, j + 1)[0] == digits[j]);
            assert(text::is_digit(digits[j]));
            assert(seq![' '][0] == ' ');
        }
    }
}

/// A text that does not start as a system number is the organisation's name, without the white
/// space around it; white space alone says nothing.
#[verifier::spinoff_prover]
#[verifier::rlimit(40)]
pub proof fn law_a_name_alone(s: Seq<char>)
    ensures
        text::trim(s).len() == 0 ==> ipinfo_org(s) == (None::<Seq<char>>, None::<Seq<char>>),
        text::trim(s).len() > 0 && !text::starts_with(text::trim(s), "AS"@) ==> ipinfo_org(s) == (
            None::<Seq<char>>,
            Some(text::trim(s)),
        ),
        ipinfo_org(s) == ipinfo_org(text::trim(s)),
        ipinfo_org(s).0 matches Some(asn) ==> text::starts_with(text::trim(s), asn)
            && text::starts_with(asn, "AS"@) && text::all_digits(asn.skip(2)),
        ipinfo_org(s).0 is None && ipinfo_org(s).1 is Some ==> ipinfo_org(s).1 == Some(
            text::trim(s),
        ),
        ipinfo_org(s).1 matches Some(name) ==> name.len() > 0 && !text::is_space(name[0])
            && !text::is_space(name.last()) && text::ends_with(text::trim(s), name),
{
    reveal_strlit("AS");
    let t = text::trim(s);
    text::law_trim(s);
    lemma_trim_keeps(t);
    let rest = t.skip(2);
    text::lemma_find_from(rest, seq![' '], 0);
    assert(t.subrange(0, t.len() as int) =~= t);
    if text::starts_with(t, "AS"@) {
        assert(t =~= "AS"@ + rest) by {
            assert(t.subrange(0, 2) == "AS"@);
            assert(t =~= t.subrange(0, 2) + rest);
        }
        match text::find(rest, seq![' ']) {
            Some(k) => {
                let asn = "AS"@ + rest.take(k as int);
                assert(t.subrange(0, asn.len() as int) =~= asn);
                assert(asn.subrange(0, 2) =~= "AS"@);
                assert(asn.skip(2) =~= rest.take(k as int));
                let tail = rest.skip(k as int);
                assert(tail =~= t.skip(t.len() - tail.len()));
                lemma_trim_is_an_end(tail, t);
            },
            None => {},
        }
        assert(("AS"@ + rest).skip(2) =~= rest);
        assert(("AS"@ + rest).subrange(0, 2) =~= "AS"@);
    }
}

/// What is left of an end of a text that itself does not end in white space is an end of it.
proof fn lemma_trim_is_an_end(tail: Seq<char>, t: Seq<char>)
    requires
        tail.len() <= t.len(),
        tail == t.skip(t.len() - tail.len()),
        t.len() > 0 ==> !text::is_space(t.last()),
    ensures
        text::ends_with(t, text::trim(tail)),
        text::trim(tail).len() > 0 ==> !text::is_space(text::trim(tail)[0]) && !text::is_space(
            text::trim(tail).last(),
        ),
{
    text::law_trim_start(tail);
    let m = text::trim_start(tail);
    text::law_trim_end(m);
    text::law_trim(tail);
    if m.len() > 0 {
        assert(m.last() == tail.last());
        assert(tail.last() == t.last());
    }
    let i = t.len() - m.len();
    let n = tail.len() - m.len();
    assert(tail == tail.take(n) + m);
    assert forall|j: int| 0 <= j < m.len() implies t.subrange(i, i + m.len())[j] == m[j] by {
        assert(m[j] == tail[n + j]);
    }
    assert(t.subrange(i, i + m.len()) =~= m);
    assert(text::trim(tail) =~= m);
}

/// What is shown of an organisation is its name, with the cloud it runs on behind it in brackets.
pub proof fn law_cloud_in_brackets(org: Seq<char>, infra: Seq<char>, detail: bool)
    ensures
        org_with_infra(Some(org), Some(infra), true) == org + " ("@ + infra + ")"@,
        org_with_infra(None, Some(infra), true) == "("@ + infra + ")"@,
        org_with_infra(Some(org), None, detail) == org,
        org_with_infra(None, None, detail) == "-"@,
        provider_of(infra) matches Some(p) ==> org_with_infra(Some(org), Some(infra), false) == org
            + " ("@ + p.name() + ")"@ && org_with_infra(None, Some(infra), false) == "("@ + p.name()
            + ")"@,
        provider_of(infra) is None ==> org_with_infra(Some(org), Some(infra), false) == org + " ("@
            + infra + ")"@,
{
}

} // verus!
