//! The lists that cloud providers publish, and the ranges in them.
use vstd::prelude::*;
use vstd::slice::slice_subrange;

use crate::address;
use crate::address::Network;
use crate::cloud;
use crate::cloud::CloudProvider;
use crate::ranges;
use crate::ranges::CloudRange;
use crate::text;

verus! {

broadcast use vstd::string::group_string_axioms;

/// A range as a mathematical value.
pub ghost struct RangeView {
    pub provider: CloudProvider,
    pub service: Option<Seq<char>>,
    pub region: Option<Seq<char>>,
    pub network: Network,
}

impl View for CloudRange {
    type V = RangeView;

    open spec fn view(&self) -> RangeView {
        RangeView {
            provider: self.provider,
            service: text::opt_view(self.service),
            region: text::opt_view(self.region),
            network: self.network,
        }
    }
}

/// Ranges as mathematical values.
pub open spec fn range_views(ranges: Seq<CloudRange>) -> Seq<RangeView> {
    ranges.map_values(|r: CloudRange| r@)
}

/// The values that are there, in their order.
pub open spec fn present<T>(s: Seq<Option<T>>) -> Seq<T>
    decreases s.len(),
{
    if s.len() == 0 {
        Seq::empty()
    } else {
        let before = present(s.drop_last());
        match s.last() {
            Some(x) => before.push(x),
            None => before,
        }
    }
}

proof fn lemma_present_push<T>(s: Seq<Option<T>>, x: Option<T>)
    ensures
        present(s.push(x)) == match x {
            Some(v) => present(s).push(v),
            None => present(s),
        },
{
    assert(s.push(x).drop_last() =~= s);
}

/// The range of a provider that a text in CIDR notation stands for, where it is a network.
pub open spec fn range_of(
    provider: CloudProvider,
    service: Option<Seq<char>>,
    region: Option<Seq<char>>,
    cidr: Seq<char>,
) -> Option<RangeView> {
    match address::parsed_network(cidr) {
        Some(network) => Some(RangeView { provider, service, region, network }),
        None => None,
    }
}

/// Adds the range that a text stands for, where it is a network.
fn add_range(
    out: &mut Vec<CloudRange>,
    provider: CloudProvider,
    service: Option<String>,
    region: Option<String>,
    cidr: &str,
)
    requires
        ranges::ranges_wf(old(out)@),
    ensures
        ranges::ranges_wf(final(out)@),
        range_views(final(out)@) == match range_of(
            provider,
            text::opt_view(service),
            text::opt_view(region),
            cidr@,
        ) {
            Some(r) => range_views(old(out)@).push(r),
            None => range_views(old(out)@),
        },
{
    match Network::parse(cidr) {
        Some(network) => {
            let ghost before = range_views(out@);
            out.push(CloudRange { provider, service, region, network });
            assert(range_views(out@) =~= before.push(out@.last()@));
        },
        None => {},
    }
}

// ---------------------------------------------------------------------------
// Amazon
// ---------------------------------------------------------------------------

/// An IPv4 or IPv6 prefix in the list of Amazon.
#[derive(Debug)]
pub struct AwsPrefix {
    pub prefix: String,
    pub region: String,
    pub service: String,
}

/// The list of Amazon.
#[derive(Debug)]
pub struct AwsIpRanges {
    pub prefixes: Vec<AwsPrefix>,
    pub ipv6_prefixes: Vec<AwsPrefix>,
}

impl AwsPrefix {
    /// The range of the prefix, where it is a network.
    pub open spec fn range(self) -> Option<RangeView> {
        range_of(CloudProvider::AWS, Some(self.service@), Some(self.region@), self.prefix@)
    }
}

/// The ranges of a list of prefixes.
pub open spec fn aws_ranges(prefixes: Seq<AwsPrefix>) -> Seq<RangeView> {
    present(prefixes.map_values(|p: AwsPrefix| p.range()))
}

fn add_aws(out: &mut Vec<CloudRange>, prefixes: &Vec<AwsPrefix>)
    requires
        ranges::ranges_wf(old(out)@),
    ensures
        ranges::ranges_wf(final(out)@),
        range_views(final(out)@) == range_views(old(out)@) + aws_ranges(prefixes@),
{
    let ghost before = range_views(out@);
    let ghost all = prefixes@.map_values(|p: AwsPrefix| p.range());
    assert(all.take(0) =~= Seq::empty());
    assert(before + present(all.take(0)) =~= before);
    for i in 0..prefixes.len()
        invariant
            ranges::ranges_wf(out@),
            all == prefixes@.map_values(|p: AwsPrefix| p.range()),
            range_views(out@) == before + present(all.take(i as int)),
    {
        let p = &prefixes[i];
        proof {
            assert(all.take(i + 1) =~= all.take(i as int).push(all[i as int]));
            lemma_present_push(all.take(i as int), all[i as int]);
        }
        add_range(
            out,
            CloudProvider::AWS,
            Some(p.service.clone()),
            Some(p.region.clone()),
            p.prefix.as_str(),
        );
        assert(range_views(out@) =~= before + present(all.take(i + 1)));
    }
    assert(all.take(all.len() as int) =~= all);
}

/// The ranges in the list of Amazon, those for IPv4 first.
pub fn parse_aws_ranges(data: &AwsIpRanges) -> (r: Vec<CloudRange>)
    ensures
        ranges::ranges_wf(r@),
        range_views(r@) == aws_ranges(data.prefixes@) + aws_ranges(data.ipv6_prefixes@),
{
    let mut out: Vec<CloudRange> = Vec::new();
    assert(range_views(out@) =~= Seq::empty());
    add_aws(&mut out, &data.prefixes);
    assert(range_views(out@) =~= aws_ranges(data.prefixes@));
    add_aws(&mut out, &data.ipv6_prefixes);
    out
}

// ---------------------------------------------------------------------------
// Microsoft
// ---------------------------------------------------------------------------

/// A service in the list of Microsoft, with its prefixes.
#[derive(Debug)]
pub struct AzureValue {
    pub name: String,
    pub region: Option<String>,
    pub address_prefixes: Vec<String>,
}

/// The list of Microsoft.
#[derive(Debug)]
pub struct AzureServiceTags {
    pub values: Vec<AzureValue>,
}

impl AzureValue {
    /// The ranges of the service.
    pub open spec fn ranges(self) -> Seq<RangeView> {
        present(
            self.address_prefixes@.map_values(
                |p: String|
                    range_of(
                        CloudProvider::Azure,
                        Some(self.name@),
                        text::opt_view(self.region),
                        p@,
                    ),
            ),
        )
    }
}

/// The ranges of all services, one service after the other.
pub open spec fn azure_ranges(values: Seq<AzureValue>) -> Seq<RangeView>
    decreases values.len(),
{
    if values.len() == 0 {
        Seq::empty()
    } else {
        azure_ranges(values.drop_last()) + values.last().ranges()
    }
}

fn add_azure(out: &mut Vec<CloudRange>, value: &AzureValue)
    requires
        ranges::ranges_wf(old(out)@),
    ensures
        ranges::ranges_wf(final(out)@),
        range_views(final(out)@) == range_views(old(out)@) + value.ranges(),
{
    let ghost before = range_views(out@);
    let ghost all = value.address_prefixes@.map_values(
        |p: String|
            range_of(CloudProvider::Azure, Some(value.name@), text::opt_view(value.region), p@),
    );
    assert(all.take(0) =~= Seq::empty());
    assert(before + present(all.take(0)) =~= before);
    for i in 0..value.address_prefixes.len()
        invariant
            ranges::ranges_wf(out@),
            all == value.address_prefixes@.map_values(
                |p: String|
                    range_of(
                        CloudProvider::Azure,
                        Some(value.name@),
                        text::opt_view(value.region),
                        p@,
                    ),
            ),
            range_views(out@) == before + present(all.take(i as int)),
    {
        proof {
            assert(all.take(i + 1) =~= all.take(i as int).push(all[i as int]));
            lemma_present_push(all.take(i as int), all[i as int]);
        }
        add_range(
            out,
            CloudProvider::Azure,
            Some(value.name.clone()),
            text::copy_text(&value.region),
            value.address_prefixes[i].as_str(),
        );
        assert(range_views(out@) =~= before + present(all.take(i + 1)));
    }
    assert(all.take(all.len() as int) =~= all);
}

/// The ranges in the list of Microsoft.
pub fn parse_azure_ranges(data: &AzureServiceTags) -> (r: Vec<CloudRange>)
    ensures
        ranges::ranges_wf(r@),
        range_views(r@) == azure_ranges(data.values@),
{
    let mut out: Vec<CloudRange> = Vec::new();
    assert(range_views(out@) =~= Seq::empty());
    for i in 0..data.values.len()
        invariant
            ranges::ranges_wf(out@),
            range_views(out@) == azure_ranges(data.values@.take(i as int)),
    {
        assert(data.values@.take(i + 1).drop_last() =~= data.values@.take(i as int));
        add_azure(&mut out, &data.values[i]);
    }
    assert(data.values@.take(data.values@.len() as int) =~= data.values@);
    out
}

/// The place of the file in a line of the download page: from the address of the download server
/// up to the next double quote.
pub open spec fn link_in(line: Seq<char>) -> Option<Seq<char>> {
    match text::find(line, "https://download.microsoft.com"@) {
        Some(start) => match text::find(line.skip(start as int), seq!['"']) {
            Some(n) => Some(line.subrange(start as int, start as int + n as int)),
            None => None,
        },
        None => None,
    }
}

/// The line speaks of the download server and of a JSON file.
pub open spec fn offers_download(line: Seq<char>) -> bool {
    text::contains(line, "download.microsoft.com"@) && text::contains(line, ".json"@)
}

/// The first line that offers a download decides.
pub open spec fn download_link(lines: Seq<Seq<char>>) -> Option<Seq<char>>
    decreases lines.len(),
{
    if lines.len() == 0 {
        None
    } else if offers_download(lines[0]) {
        link_in(lines[0])
    } else {
        download_link(lines.drop_first())
    }
}

fn read_link(line: &[char]) -> (r: Option<String>)
    ensures
        text::opt_view(r) == link_in(line@),
{
    let server = text::to_chars("https://download.microsoft.com");
    match text::index_of(line, &server) {
        Some(start) => {
            proof {
                text::lemma_find_from(line@, server@, 0);
            }
            let tail = slice_subrange(line, start, line.len());
            assert(tail@ =~= line@.skip(start as int));
            let quote: [char; 1] = ['"'];
            assert(quote@ =~= seq!['"']);
            match text::index_of(tail, &quote) {
                Some(n) => {
                    proof {
                        text::lemma_find_from(tail@, quote@, 0);
                    }
                    let link = slice_subrange(tail, 0, n);
                    assert(link@ =~= line@.subrange(start as int, start + n));
                    Some(text::from_chars(link))
                },
                None => None,
            }
        },
        None => None,
    }
}

/// Where the download page of Microsoft offers its list.
pub fn azure_download_url(html: &str) -> (r: Option<String>)
    ensures
        text::opt_view(r) == download_link(text::lines(html@)),
{
    let chars = text::to_chars(html);
    let lines = text::line_list(&chars);
    let server = text::to_chars("download.microsoft.com");
    let json = text::to_chars(".json");
    let ghost all = text::views(lines@);
    assert(all.skip(0) =~= all);
    for i in 0..lines.len()
        invariant
            all == text::views(lines@),
            all == text::lines(html@),
            server@ == "download.microsoft.com"@,
            json@ == ".json"@,
            download_link(all) == download_link(all.skip(i as int)),
    {
        assert(all.skip(i as int)[0] == lines@[i as int]@);
        assert(all.skip(i as int).drop_first() =~= all.skip(i + 1));
        if text::has(lines[i], &server) && text::has(lines[i], &json) {
            return read_link(lines[i]);
        }
    }
    None
}

// ---------------------------------------------------------------------------
// Google
// ---------------------------------------------------------------------------

/// An entry in the list of Google.
#[derive(Debug)]
pub struct GcpPrefix {
    pub ipv4_prefix: Option<String>,
    pub ipv6_prefix: Option<String>,
    pub scope: Option<String>,
}

/// The list of Google.
#[derive(Debug)]
pub struct GcpIpRanges {
    pub prefixes: Vec<GcpPrefix>,
}

/// The range of an optional prefix.
pub open spec fn gcp_range(prefix: Option<String>, scope: Option<String>) -> Option<RangeView> {
    match prefix {
        Some(p) => range_of(CloudProvider::GCP, None, text::opt_view(scope), p@),
        None => None,
    }
}

impl GcpPrefix {
    /// The ranges of an entry, that for IPv4 first.
    pub open spec fn ranges(self) -> Seq<RangeView> {
        present(
            seq![
                gcp_range(self.ipv4_prefix, self.scope),
                gcp_range(self.ipv6_prefix, self.scope),
            ],
        )
    }
}

/// The ranges of all entries.
pub open spec fn gcp_ranges(prefixes: Seq<GcpPrefix>) -> Seq<RangeView>
    decreases prefixes.len(),
{
    if prefixes.len() == 0 {
        Seq::empty()
    } else {
        gcp_ranges(prefixes.drop_last()) + prefixes.last().ranges()
    }
}

fn add_gcp(out: &mut Vec<CloudRange>, prefix: &Option<String>, scope: &Option<String>)
    requires
        ranges::ranges_wf(old(out)@),
    ensures
        ranges::ranges_wf(final(out)@),
        range_views(final(out)@) == match gcp_range(*prefix, *scope) {
            Some(r) => range_views(old(out)@).push(r),
            None => range_views(old(out)@),
        },
{
    match prefix {
        Some(p) => {
            add_range(out, CloudProvider::GCP, None, text::copy_text(scope), p.as_str());
        },
        None => {},
    }
}

/// The ranges in the list of Google.
pub fn parse_gcp_ranges(data: &GcpIpRanges) -> (r: Vec<CloudRange>)
    ensures
        ranges::ranges_wf(r@),
        range_views(r@) == gcp_ranges(data.prefixes@),
{
    let mut out: Vec<CloudRange> = Vec::new();
    assert(range_views(out@) =~= Seq::empty());
    for i in 0..data.prefixes.len()
        invariant
            ranges::ranges_wf(out@),
            range_views(out@) == gcp_ranges(data.prefixes@.take(i as int)),
    {
        let p = &data.prefixes[i];
        let ghost before = range_views(out@);
        add_gcp(&mut out, &p.ipv4_prefix, &p.scope);
        add_gcp(&mut out, &p.ipv6_prefix, &p.scope);
        proof {
            let a = gcp_range(p.ipv4_prefix, p.scope);
            let b = gcp_range(p.ipv6_prefix, p.scope);
            assert(seq![a, b] =~= Seq::<Option<RangeView>>::empty().push(a).push(b));
            lemma_present_push(Seq::<Option<RangeView>>::empty(), a);
            lemma_present_push(Seq::<Option<RangeView>>::empty().push(a), b);
            assert(present(Seq::<Option<RangeView>>::empty()) =~= Seq::empty());
            assert(range_views(out@) =~= before + p.ranges());
            assert(data.prefixes@.take(i + 1).drop_last() =~= data.prefixes@.take(i as int));
        }
    }
    assert(data.prefixes@.take(data.prefixes@.len() as int) =~= data.prefixes@);
    out
}

// ---------------------------------------------------------------------------
// DigitalOcean
// ---------------------------------------------------------------------------

/// The range in a line of fields: the prefix and the region are the first two.
pub open spec fn csv_range(line: Seq<char>) -> Option<RangeView> {
    let fields = text::split(line, seq![',']);
    if fields.len() >= 2 {
        range_of(
            CloudProvider::DigitalOcean,
            None,
            Some(text::trim(fields[1])),
            text::trim(fields[0]),
        )
    } else {
        None
    }
}

/// The ranges of a table; its first line is the heading.
pub open spec fn digitalocean_ranges(csv: Seq<char>) -> Seq<RangeView> {
    let lines = text::lines(csv);
    if lines.len() == 0 {
        Seq::empty()
    } else {
        present(lines.skip(1).map_values(|l: Seq<char>| csv_range(l)))
    }
}

/// The ranges in the table of DigitalOcean.
pub fn parse_digitalocean_ranges(csv: &str) -> (r: Vec<CloudRange>)
    ensures
        ranges::ranges_wf(r@),
        range_views(r@) == digitalocean_ranges(csv@),
{
    let mut out: Vec<CloudRange> = Vec::new();
    assert(range_views(out@) =~= Seq::empty());
    let chars = text::to_chars(csv);
    let lines = text::line_list(&chars);
    if lines.len() == 0 {
        assert(text::views(lines@).len() == 0);
        return out;
    }
    let ghost all = text::views(lines@).skip(1).map_values(|l: Seq<char>| csv_range(l));
    let comma: [char; 1] = [','];
    assert(comma@ =~= seq![',']);
    assert(all.take(0) =~= Seq::empty());
    for i in 1..lines.len()
        invariant
            ranges::ranges_wf(out@),
            comma@ == seq![','],
            all == text::views(lines@).skip(1).map_values(|l: Seq<char>| csv_range(l)),
            range_views(out@) == present(all.take(i - 1)),
    {
        let ghost line = lines@[i as int]@;
        let fields = text::pieces(lines[i], &comma);
        proof {
            assert(all[i - 1] == csv_range(line));
            assert(all.take(i as int) =~= all.take(i - 1).push(all[i - 1]));
            lemma_present_push(all.take(i - 1), all[i - 1]);
        }
        if fields.len() >= 2 {
            assert(text::views(fields@)[0] == fields@[0]@);
            assert(text::views(fields@)[1] == fields@[1]@);
            let prefix = text::from_chars(text::trimmed(fields[0]));
            let region = text::from_chars(text::trimmed(fields[1]));
            add_range(
                &mut out,
                CloudProvider::DigitalOcean,
                None,
                Some(region),
                prefix.as_str(),
            );
        } else {
            assert(text::views(fields@).len() < 2);
        }
    }
    assert(all.take(all.len() as int) =~= all);
    out
}

// ---------------------------------------------------------------------------
// Cloudflare
// ---------------------------------------------------------------------------

/// The range in a line: the whole line, unless it is empty or a comment.
pub open spec fn plain_range(provider: CloudProvider, line: Seq<char>) -> Option<RangeView> {
    let t = text::trim(line);
    if t.len() == 0 || t[0] == '#' {
        None
    } else {
        range_of(provider, None, None, t)
    }
}

/// The ranges of a text with one prefix to a line.
pub open spec fn plain_ranges(provider: CloudProvider, s: Seq<char>) -> Seq<RangeView> {
    present(text::lines(s).map_values(|l: Seq<char>| plain_range(provider, l)))
}

/// The ranges in a list of Cloudflare, which has one prefix to a line.
pub fn parse_cloudflare_text(list: &str, provider: CloudProvider) -> (r: Vec<CloudRange>)
    ensures
        ranges::ranges_wf(r@),
        range_views(r@) == plain_ranges(provider, list@),
{
    let mut out: Vec<CloudRange> = Vec::new();
    assert(range_views(out@) =~= Seq::empty());
    let chars = text::to_chars(list);
    let lines = text::line_list(&chars);
    let ghost all = text::views(lines@).map_values(|l: Seq<char>| plain_range(provider, l));
    assert(all.take(0) =~= Seq::empty());
    for i in 0..lines.len()
        invariant
            ranges::ranges_wf(out@),
            all == text::views(lines@).map_values(|l: Seq<char>| plain_range(provider, l)),
            range_views(out@) == present(all.take(i as int)),
    {
        let line = text::trimmed(lines[i]);
        proof {
            assert(all[i as int] == plain_range(provider, lines@[i as int]@));
            assert(all.take(i + 1) =~= all.take(i as int).push(all[i as int]));
            lemma_present_push(all.take(i as int), all[i as int]);
        }
        if line.len() > 0 && line[0] != '#' {
            let cidr = text::from_chars(line);
            add_range(&mut out, provider, None, None, cidr.as_str());
        }
    }
    assert(all.take(all.len() as int) =~= all);
    out
}

// ---------------------------------------------------------------------------
// Laws
// ---------------------------------------------------------------------------

/// The values that are there are values of the list.
proof fn lemma_present<T>(s: Seq<Option<T>>)
    ensures
        present(s).len() <= s.len(),
        forall|i: int| 0 <= i < present(s).len() ==> s.contains(Some(#[trigger] present(s)[i])),
    decreases s.len(),
{
    if s.len() > 0 {
        let front = s.drop_last();
        lemma_present(front);
        assert forall|i: int| 0 <= i < present(s).len() implies s.contains(
            Some(#[trigger] present(s)[i]),
        ) by {
            if i < present(front).len() {
                assert(present(front)[i] == present(s)[i]);
                let k = choose|k: int| 0 <= k < front.len() && front[k] == Some(present(s)[i]);
                assert(s[k] == front[k]);
            } else {
                assert(s[s.len() - 1] == Some(present(s)[i]));
            }
        }
    }
}

/// A list with one prefix to a line gives at most as many ranges as it has lines, all of the
/// provider, without service and region.
pub proof fn law_plain_lists_name_their_provider(provider: CloudProvider, s: Seq<char>)
    ensures
        plain_ranges(provider, s).len() <= text::lines(s).len(),
        forall|i: int|
            0 <= i < plain_ranges(provider, s).len() ==> {
                let r = #[trigger] plain_ranges(provider, s)[i];
                r.provider == provider && r.service is None && r.region is None
            },
{
    let all = text::lines(s).map_values(|l: Seq<char>| plain_range(provider, l));
    lemma_present(all);
    assert forall|i: int| 0 <= i < plain_ranges(provider, s).len() implies {
        let r = #[trigger] plain_ranges(provider, s)[i];
        r.provider == provider && r.service is None && r.region is None
    } by {
        let r = plain_ranges(provider, s)[i];
        let k = choose|k: int| 0 <= k < all.len() && all[k] == Some(r);
        assert(all[k] == plain_range(provider, text::lines(s)[k]));
    }
}

/// The ranges in the list of Amazon are all of Amazon, each with its service and region.
pub proof fn law_aws_ranges_are_of_aws(prefixes: Seq<AwsPrefix>)
    ensures
        aws_ranges(prefixes).len() <= prefixes.len(),
        forall|i: int|
            0 <= i < aws_ranges(prefixes).len() ==> {
                let r = #[trigger] aws_ranges(prefixes)[i];
                r.provider == CloudProvider::AWS && r.service is Some && r.region is Some
            },
{
    let all = prefixes.map_values(|p: AwsPrefix| p.range());
    lemma_present(all);
    assert forall|i: int| 0 <= i < aws_ranges(prefixes).len() implies {
        let r = #[trigger] aws_ranges(prefixes)[i];
        r.provider == CloudProvider::AWS && r.service is Some && r.region is Some
    } by {
        let r = aws_ranges(prefixes)[i];
        let k = choose|k: int| 0 <= k < all.len() && all[k] == Some(r);
        assert(all[k] == prefixes[k].range());
    }
}

// ---------------------------------------------------------------------------
// Laws of the lists
// ---------------------------------------------------------------------------

/// One more value in front of others.
proof fn lemma_present_front<T>(x: Option<T>, s: Seq<Option<T>>)
    ensures
        present(seq![x] + s) == match x {
            Some(v) => seq![v] + present(s),
            None => present(s),
        },
    decreases s.len(),
{
    let all = seq![x] + s;
    if s.len() == 0 {
        assert(all =~= Seq::empty().push(x));
        lemma_present_push(Seq::empty(), x);
        assert(present(Seq::<Option<T>>::empty()) =~= Seq::empty());
        assert(s =~= Seq::empty());
        match x {
            Some(v) => {
                assert(Seq::empty().push(v) =~= seq![v] + Seq::<T>::empty());
            },
            None => {},
        }
    } else {
        lemma_present_front(x, s.drop_last());
        assert(all.drop_last() =~= seq![x] + s.drop_last());
        assert(all.last() == s.last());
        match (x, s.last()) {
            (Some(v), Some(w)) => {
                assert((seq![v] + present(s.drop_last())).push(w) =~= seq![v] + present(
                    s.drop_last(),
                ).push(w));
            },
            _ => {},
        }
    }
}

/// One more entry in the list of Amazon adds the network that its prefix is, with its service and
/// its region; a prefix that is no network adds nothing.
pub proof fn law_an_entry_of_amazon(prefixes: Seq<AwsPrefix>, p: AwsPrefix)
    ensures
        aws_ranges(Seq::empty()).len() == 0,
        match address::parsed_network(p.prefix@) {
            Some(network) => aws_ranges(prefixes.push(p)) == aws_ranges(prefixes).push(
                RangeView {
                    provider: CloudProvider::AWS,
                    service: Some(p.service@),
                    region: Some(p.region@),
                    network,
                },
            ),
            None => aws_ranges(prefixes.push(p)) == aws_ranges(prefixes),
        },
{
    let all = prefixes.map_values(|p: AwsPrefix| p.range());
    assert(prefixes.push(p).map_values(|p: AwsPrefix| p.range()) =~= all.push(p.range()));
    lemma_present_push(all, p.range());
}

/// One more service of Azure adds its ranges, and each of these has the name and the region of the
/// service and is a network that one of its prefixes stands for.
pub proof fn law_a_service_of_azure(values: Seq<AzureValue>, v: AzureValue)
    ensures
        azure_ranges(Seq::empty()).len() == 0,
        azure_ranges(values.push(v)) == azure_ranges(values) + v.ranges(),
        forall|i: int|
            0 <= i < v.ranges().len() ==> {
                let r = #[trigger] v.ranges()[i];
                &&& r.provider == CloudProvider::Azure
                &&& r.service == Some(v.name@)
                &&& r.region == text::opt_view(v.region)
                &&& exists|k: int|
                    0 <= k < v.address_prefixes@.len() && address::parsed_network(
                        (#[trigger] v.address_prefixes@[k])@,
                    ) == Some(r.network)
            },
        (forall|k: int|
            0 <= k < v.address_prefixes@.len() ==> address::parsed_network(
                (#[trigger] v.address_prefixes@[k])@,
            ) is Some) ==> v.ranges().len() == v.address_prefixes@.len(),
{
    assert(values.push(v).drop_last() =~= values);
    let all = v.address_prefixes@.map_values(
        |p: String|
            range_of(CloudProvider::Azure, Some(v.name@), text::opt_view(v.region), p@),
    );
    lemma_present(all);
    assert forall|i: int| 0 <= i < v.ranges().len() implies {
        let r = #[trigger] v.ranges()[i];
        &&& r.provider == CloudProvider::Azure
        &&& r.service == Some(v.name@)
        &&& r.region == text::opt_view(v.region)
        &&& exists|k: int|
            0 <= k < v.address_prefixes@.len() && address::parsed_network(
                (#[trigger] v.address_prefixes@[k])@,
            ) == Some(r.network)
    } by {
        let r = v.ranges()[i];
        let k = choose|k: int| 0 <= k < all.len() && all[k] == Some(r);
        assert(address::parsed_network(v.address_prefixes@[k]@) == Some(r.network));
    }
    if forall|k: int|
        0 <= k < v.address_prefixes@.len() ==> address::parsed_network(
            (#[trigger] v.address_prefixes@[k])@,
        ) is Some {
        assert forall|k: int| 0 <= k < all.len() implies (#[trigger] all[k]) is Some by {
            assert(address::parsed_network(v.address_prefixes@[k]@) is Some);
        }
        lemma_all_present(all);
    }
}

proof fn lemma_all_present<T>(s: Seq<Option<T>>)
    requires
        forall|k: int| 0 <= k < s.len() ==> (#[trigger] s[k]) is Some,
    ensures
        present(s).len() == s.len(),
    decreases s.len(),
{
    if s.len() > 0 {
        let front = s.drop_last();
        assert forall|k: int| 0 <= k < front.len() implies (#[trigger] front[k]) is Some by {
            assert(front[k] == s[k]);
        }
        lemma_all_present(front);
        assert(s[s.len() - 1] is Some);
    }
}

/// One more entry in the list of Google adds the networks that its prefixes are, that for IPv4
/// first, both with its scope as their region and without a service.
pub proof fn law_an_entry_of_google(prefixes: Seq<GcpPrefix>, p: GcpPrefix)
    ensures
        gcp_ranges(Seq::empty()).len() == 0,
        ({
            let v4 = p.ipv4_prefix is Some && address::parsed_network(p.ipv4_prefix->0@) is Some;
            let v6 = p.ipv6_prefix is Some && address::parsed_network(p.ipv6_prefix->0@) is Some;
            let with = |network: address::Network|
                RangeView {
                    provider: CloudProvider::GCP,
                    service: None,
                    region: text::opt_view(p.scope),
                    network,
                };
            let a = with(address::parsed_network(p.ipv4_prefix->0@)->0);
            let b = with(address::parsed_network(p.ipv6_prefix->0@)->0);
            let before = gcp_ranges(prefixes);
            let after = gcp_ranges(prefixes.push(p));
            &&& v4 && v6 ==> after == before.push(a).push(b)
            &&& v4 && !v6 ==> after == before.push(a)
            &&& !v4 && v6 ==> after == before.push(b)
            &&& !v4 && !v6 ==> after == before
        }),
{
    assert(prefixes.push(p).drop_last() =~= prefixes);
    let x = gcp_range(p.ipv4_prefix, p.scope);
    let y = gcp_range(p.ipv6_prefix, p.scope);
    lemma_present_push(seq![x], y);
    lemma_present_push(Seq::empty(), x);
    assert(seq![x].push(y) =~= seq![x, y]);
    assert(Seq::empty().push(x) =~= seq![x]);
    assert(present(Seq::<Option<RangeView>>::empty()) =~= Seq::empty());
    let before = gcp_ranges(prefixes);
    match (x, y) {
        (Some(a), Some(b)) => {
            assert(before + Seq::empty().push(a).push(b) =~= before.push(a).push(b));
        },
        (Some(a), None) => {
            assert(before + Seq::empty().push(a) =~= before.push(a));
        },
        (None, Some(b)) => {
            assert(before + Seq::empty().push(b) =~= before.push(b));
        },
        (None, None) => {
            assert(before + Seq::empty() =~= before);
        },
    }
}

/// A line of DigitalOcean's table has its network in the first field and its region in the second,
/// without the white space around them; a line of one field has none.
pub proof fn law_a_line_of_digitalocean(line: Seq<char>)
    ensures
        ({
            let fields = text::split(line, seq![',']);
            &&& fields.len() < 2 ==> csv_range(line) is None
            &&& fields.len() >= 2 ==> match address::parsed_network(text::trim(fields[0])) {
                Some(network) => csv_range(line) == Some(
                    RangeView {
                        provider: CloudProvider::DigitalOcean,
                        service: None,
                        region: Some(text::trim(fields[1])),
                        network,
                    },
                ),
                None => csv_range(line) is None,
            }
        }),
{
}

/// The first line of the table is its heading, whatever it holds; a line that is put right behind it
/// adds the range that it stands for.
pub proof fn law_the_heading_is_no_range(a: Seq<char>, b: Seq<char>, line: Seq<char>, rest: Seq<char>)
    requires
        forall|i: int| 0 <= i < a.len() ==> a[i] != '\n',
        forall|i: int| 0 <= i < b.len() ==> b[i] != '\n',
        forall|i: int| 0 <= i < line.len() ==> line[i] != '\n',
        line.len() == 0 || line.last() != '\r',
    ensures
        digitalocean_ranges(a) == Seq::<RangeView>::empty(),
        digitalocean_ranges(a + seq!['\n'] + rest) == digitalocean_ranges(b + seq!['\n'] + rest),
        digitalocean_ranges(a + seq!['\n'] + (line + seq!['\n'] + rest)) == match csv_range(line) {
            Some(r) => seq![r] + digitalocean_ranges(a + seq!['\n'] + rest),
            None => digitalocean_ranges(a + seq!['\n'] + rest),
        },
{
    let f = |l: Seq<char>| csv_range(l);
    text::law_lines(a, rest);
    text::law_lines(b, rest);
    text::law_lines(line, rest);
    text::law_lines(a, line + seq!['\n'] + rest);
    let own = text::lines(rest);
    let ta = a + seq!['\n'] + rest;
    let tb = b + seq!['\n'] + rest;
    let tl = a + seq!['\n'] + (line + seq!['\n'] + rest);
    assert(text::lines(ta).skip(1) =~= own);
    assert(text::lines(tb).skip(1) =~= own);
    assert(text::lines(tl).skip(1) =~= seq![line] + own);
    assert((seq![line] + own).map_values(f) =~= seq![csv_range(line)] + own.map_values(f));
    lemma_present_front(csv_range(line), own.map_values(f));
    if a.len() > 0 {
        assert(text::lines(a).skip(1) =~= Seq::empty());
    }
    assert(Seq::<Seq<char>>::empty().map_values(f) =~= Seq::empty());
    assert(digitalocean_ranges(a) =~= Seq::empty());
}

/// A line of a plain list is a network without the white space around it; empty lines and those that
/// start with a hash are passed over.
pub proof fn law_a_line_of_a_plain_list(provider: CloudProvider, line: Seq<char>, rest: Seq<char>)
    requires
        forall|i: int| 0 <= i < line.len() ==> line[i] != '\n',
        line.len() == 0 || line.last() != '\r',
    ensures
        plain_ranges(provider, Seq::empty()).len() == 0,
        ({
            let t = text::trim(line);
            let before = plain_ranges(provider, rest);
            let after = plain_ranges(provider, line + seq!['\n'] + rest);
            if t.len() == 0 || t[0] == '#' || address::parsed_network(t) is None {
                after == before
            } else {
                after == seq![
                    RangeView {
                        provider,
                        service: None,
                        region: None,
                        network: address::parsed_network(t)->0,
                    },
                ] + before
            }
        }),
{
    let f = |l: Seq<char>| plain_range(provider, l);
    text::law_lines(line, rest);
    let own = text::lines(rest);
    assert((seq![line] + own).map_values(f) =~= seq![plain_range(provider, line)] + own.map_values(
        f,
    ));
    lemma_present_front(plain_range(provider, line), own.map_values(f));
}

/// The link stands in the first line that speaks of the download server and of a JSON file; it
/// starts with the address of the server and ends before a double quote.
pub proof fn law_the_download_link(line: Seq<char>, lines: Seq<Seq<char>>)
    ensures
        download_link(Seq::empty()) is None,
        text::contains(line, "download.microsoft.com"@) && text::contains(line, ".json"@)
            ==> download_link(seq![line] + lines) == link_in(line),
        !(text::contains(line, "download.microsoft.com"@) && text::contains(line, ".json"@))
            ==> download_link(seq![line] + lines) == download_link(lines),
        link_in(line) matches Some(link) ==> text::contains(line, link) && text::contains(
            line,
            link + seq!['"'],
        ) && text::starts_with(link, "https://download.microsoft.com"@) && forall|i: int|
            0 <= i < link.len() ==> link[i] != '"',
{
    assert((seq![line] + lines).drop_first() =~= lines);
    let server = "https://download.microsoft.com"@;
    reveal_strlit("https://download.microsoft.com");
    text::lemma_find_from(line, server, 0);
    match text::find(line, server) {
        Some(start) => {
            let tail = line.skip(start as int);
            let q = seq!['"'];
            text::lemma_find_from(tail, q, 0);
            match text::find(tail, q) {
                Some(n) => {
                    let link = line.subrange(start as int, start as int + n as int);
                    assert(link =~= tail.take(n as int));
                    assert(tail.subrange(n as int, n as int + 1) == q);
                    assert(tail.subrange(n as int, n as int + 1)[0] == tail[n as int]);
                    assert(q[0] == '"');
                    assert(tail[n as int] == '"');
                    assert(text::occurs_at(line, link, start as int));
                    assert(line.subrange(start as int, start as int + n as int + 1) =~= link + q);
                    assert(text::occurs_at(line, link + q, start as int));
                    assert forall|i: int| 0 <= i < n implies link[i] != '"' by {
                        if link[i] == '"' {
                            assert(tail.subrange(i, i + 1) =~= q);
                            assert(text::occurs_at(tail, q, i));
                        }
                    }
                    assert(line.subrange(start as int, start as int + server.len()) == server);
                    assert forall|i: int| 0 <= i < server.len() implies tail[i] == server[i] by {
                        assert(line.subrange(start as int, start as int + server.len())[i]
                            == line[start as int + i]);
                    }
                    assert(forall|i: int| 0 <= i < server.len() ==> server[i] != '"');
                    if n < server.len() {
                        assert(tail[n as int] == server[n as int]);
                    }
                    assert(link.subrange(0, server.len() as int) =~= server);
                },
                None => {},
            }
        },
        None => {},
    }
}

} // verus!
