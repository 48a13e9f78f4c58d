//! The address ranges of the cloud providers: reading them, keeping them, and finding an address in
//! them.
use vstd::prelude::*;

use crate::address;
use crate::address::{IpAddress, Network};
use crate::cloud;
use crate::cloud::{CloudMatch, CloudProvider};
use crate::lists;
use crate::text;

verus! {

broadcast use vstd::string::group_string_axioms;

/// A range of addresses of a provider.
#[derive(Debug)]
pub struct CloudRange {
    pub provider: CloudProvider,
    pub service: Option<String>,
    pub region: Option<String>,
    pub network: Network,
}

/// All networks are well formed.
pub open spec fn ranges_wf(ranges: Seq<CloudRange>) -> bool {
    forall|i: int| 0 <= i < ranges.len() ==> (#[trigger] ranges[i]).network.wf()
}

// ---------------------------------------------------------------------------
// The ranges in memory
// ---------------------------------------------------------------------------

/// The ranges of all providers.
#[derive(Debug)]
pub struct CloudRangeCache {
    pub ipv4_ranges: Vec<CloudRange>,
    pub ipv6_ranges: Vec<CloudRange>,
}

/// A range as it is stored. The flag for IPv6 says in which list it goes.
#[derive(Debug)]
pub struct StoredRange {
    pub provider: String,
    pub service: Option<String>,
    pub region: Option<String>,
    pub ip_prefix: String,
    pub is_v6: bool,
}

impl StoredRange {
    /// The provider, or AWS where the text names none.
    pub open spec fn provider_read(self) -> CloudProvider {
        match cloud::provider_named(text::lowered(self.provider@)) {
            Some(p) => p,
            None => CloudProvider::AWS,
        }
    }

    /// The range, where the prefix is a network.
    pub open spec fn range(self) -> Option<CloudRange> {
        match address::parsed_network(self.ip_prefix@) {
            Some(network) => Some(
                CloudRange {
                    provider: self.provider_read(),
                    service: self.service,
                    region: self.region,
                    network,
                },
            ),
            None => None,
        }
    }
}

/// The ranges of one family among stored ones, in their order. What is not a network is left out.
pub open spec fn loaded(rows: Seq<StoredRange>, v6: bool) -> Seq<CloudRange>
    decreases rows.len(),
{
    if rows.len() == 0 {
        Seq::empty()
    } else {
        let before = loaded(rows.drop_last(), v6);
        match rows.last().range() {
            Some(r) => if rows.last().is_v6 == v6 {
                before.push(r)
            } else {
                before
            },
            None => before,
        }
    }
}

/// The first range in a list that covers an address.
pub open spec fn first_cover(ranges: Seq<CloudRange>, ip: IpAddress) -> Option<CloudRange>
    decreases ranges.len(),
{
    if ranges.len() == 0 {
        None
    } else if ranges[0].network.covers(ip) {
        Some(ranges[0])
    } else {
        first_cover(ranges.drop_first(), ip)
    }
}

impl CloudRangeCache {
    /// All networks of both families are well formed.
    pub open spec fn wf(&self) -> bool {
        ranges_wf(self.ipv4_ranges@) && ranges_wf(self.ipv6_ranges@)
    }

    /// The ranges for the family of an address.
    pub open spec fn family(&self, ip: IpAddress) -> Seq<CloudRange> {
        if ip.v6() {
            self.ipv6_ranges@
        } else {
            self.ipv4_ranges@
        }
    }

    /// No ranges at all.
    pub fn new() -> (r: CloudRangeCache)
        ensures
            r.wf(),
            r.ipv4_ranges@ == Seq::<CloudRange>::empty(),
            r.ipv6_ranges@ == Seq::<CloudRange>::empty(),
    {
        CloudRangeCache { ipv4_ranges: Vec::new(), ipv6_ranges: Vec::new() }
    }

    /// Takes over stored ranges, in their order.
    pub fn load(rows: &Vec<StoredRange>) -> (r: CloudRangeCache)
        ensures
            r.wf(),
            r.ipv4_ranges@ == loaded(rows@, false),
            r.ipv6_ranges@ == loaded(rows@, true),
    {
        let mut cache = CloudRangeCache::new();
        for i in 0..rows.len()
            invariant
                cache.wf(),
                cache.ipv4_ranges@ == loaded(rows@.take(i as int), false),
                cache.ipv6_ranges@ == loaded(rows@.take(i as int), true),
        {
            let row = &rows[i];
            assert(rows@.take(i + 1).drop_last() =~= rows@.take(i as int));
            assert(rows@.take(i + 1).last() == *row);
            match Network::parse(row.ip_prefix.as_str()) {
                Some(network) => {
                    let provider = match CloudProvider::from_str(row.provider.as_str()) {
                        Some(p) => p,
                        None => CloudProvider::AWS,
                    };
                    let range = CloudRange {
                        provider,
                        service: text::copy_text(&row.service),
                        region: text::copy_text(&row.region),
                        network,
                    };
                    if row.is_v6 {
                        cache.ipv6_ranges.push(range);
                    } else {
                        cache.ipv4_ranges.push(range);
                    }
                },
                None => {},
            }
        }
        assert(rows@.take(rows@.len() as int) =~= rows@);
        cache
    }

    /// The first range of the address's family that covers it.
    pub fn match_ip(&self, ip: &IpAddress) -> (r: Option<CloudMatch>)
        requires
            self.wf(),
        ensures
            match r {
                Some(m) => first_cover(self.family(*ip), *ip) matches Some(range) && m
                    == (CloudMatch {
                    provider: range.provider,
                    service: range.service,
                    region: range.region,
                }),
                None => first_cover(self.family(*ip), *ip) is None,
            },
    {
        let ranges = if ip.is_ipv6() {
            &self.ipv6_ranges
        } else {
            &self.ipv4_ranges
        };
        assert(ranges@.skip(0) =~= ranges@);
        for i in 0..ranges.len()
            invariant
                ranges@ == self.family(*ip),
                ranges_wf(ranges@),
                first_cover(ranges@, *ip) == first_cover(ranges@.skip(i as int), *ip),
        {
            let range = &ranges[i];
            assert(ranges@.skip(i as int)[0] == *range);
            assert(ranges@.skip(i as int).drop_first() =~= ranges@.skip(i + 1));
            if range.network.contains(ip) {
                return Some(
                    CloudMatch {
                        provider: range.provider,
                        service: text::copy_text(&range.service),
                        region: text::copy_text(&range.region),
                    },
                );
            }
        }
        None
    }
}

/// What the ranges say of an address, as an organisation's text. Nothing is said without ranges, or
/// of a text that is not an address.
pub open spec fn infra_of(cache: Option<&CloudRangeCache>, ip: Seq<char>) -> Option<Seq<char>> {
    match (cache, address::parsed_address(ip)) {
        (Some(c), Some(a)) => match first_cover(c.family(a), a) {
            Some(range) => Some(
                cloud::org_text(
                    range.provider,
                    text::opt_view(range.service),
                    text::opt_view(range.region),
                ),
            ),
            None => None,
        },
        _ => None,
    }
}

/// What the ranges say of an address.
pub fn find_infra(cache: Option<&CloudRangeCache>, ip: &str) -> (r: Option<String>)
    requires
        cache matches Some(c) ==> c.wf(),
    ensures
        text::opt_view(r) == infra_of(cache, ip@),
{
    match cache {
        Some(c) => match IpAddress::parse(ip) {
            Some(a) => match c.match_ip(&a) {
                Some(m) => Some(m.format_org()),
                None => None,
            },
            None => None,
        },
        None => None,
    }
}

/// The longer prefixes come first.
pub open spec fn most_specific_first(ranges: Seq<CloudRange>) -> bool {
    forall|i: int, j: int|
        0 <= i < j < ranges.len() ==> (#[trigger] ranges[i]).network.prefix_bits() >= (
        #[trigger] ranges[j]).network.prefix_bits()
}

/// Where the longer prefixes come first, an address is matched with the most specific range that
/// covers it, and it is matched whenever one does.
pub proof fn law_most_specific_match(ranges: Seq<CloudRange>, ip: IpAddress)
    requires
        most_specific_first(ranges),
    ensures
        match first_cover(ranges, ip) {
            Some(r) => {
                &&& ranges.contains(r)
                &&& r.network.covers(ip)
                &&& forall|i: int|
                    0 <= i < ranges.len() && (#[trigger] ranges[i]).network.covers(ip)
                        ==> ranges[i].network.prefix_bits() <= r.network.prefix_bits()
            },
            None => forall|i: int|
                0 <= i < ranges.len() ==> !(#[trigger] ranges[i]).network.covers(ip),
        },
    decreases ranges.len(),
{
    if ranges.len() > 0 {
        if ranges[0].network.covers(ip) {
            assert(ranges.contains(ranges[0]));
        } else {
            let rest = ranges.drop_first();
            assert(most_specific_first(rest));
            law_most_specific_match(rest, ip);
            match first_cover(rest, ip) {
                Some(r) => {
                    let k = choose|k: int| 0 <= k < rest.len() && rest[k] == r;
                    assert(ranges[k + 1] == r);
                    assert forall|i: int|
                        0 <= i < ranges.len() && (
                        #[trigger] ranges[i]).network.covers(ip) implies ranges[i].network.prefix_bits()
                        <= r.network.prefix_bits() by {
                        assert(rest[i - 1] == ranges[i]);
                    }
                },
                None => {
                    assert forall|i: int| 0 <= i < ranges.len() implies !(
                    #[trigger] ranges[i]).network.covers(ip) by {
                        if i > 0 {
                            assert(rest[i - 1] == ranges[i]);
                        }
                    }
                },
            }
        }
    }
}

// ---------------------------------------------------------------------------
// The ranges on disk
// ---------------------------------------------------------------------------

/// A row to be stored for a range.
#[derive(Debug)]
pub struct RangeRow {
    pub stored: StoredRange,
    pub prefix_length: u8,
}

/// The row to be stored for a range. It reads back as the same range, in the list of its family.
pub fn range_row(range: &CloudRange) -> (r: RangeRow)
    requires
        range.network.wf(),
    ensures
        r.stored.provider@ == range.provider.name(),
        r.stored.service == range.service,
        r.stored.region == range.region,
        r.stored.ip_prefix@ == address::network_chars(range.network),
        r.stored.is_v6 == range.network.v6(),
        r.prefix_length == range.network.prefix_bits(),
        r.stored.range() == Some(*range),
        is_row_of(r, *range),
{
    proof {
        cloud::law_names_stand_for_their_provider(range.provider);
    }
    RangeRow {
        stored: StoredRange {
            provider: range.provider.as_str().to_owned(),
            service: text::copy_text(&range.service),
            region: text::copy_text(&range.region),
            ip_prefix: range.network.to_text(),
            is_v6: range.network.is_ipv6(),
        },
        prefix_length: range.network.prefix(),
    }
}

/// Loading rows, each of which reads as a range in the list of its family, gives back all of the
/// ranges, split by family and in their order.
pub proof fn law_stored_ranges_load_back(rows: Seq<StoredRange>, ranges: Seq<CloudRange>)
    requires
        rows.len() == ranges.len(),
        forall|i: int|
            0 <= i < rows.len() ==> (#[trigger] rows[i]).range() == Some(ranges[i])
                && rows[i].is_v6 == ranges[i].network.v6(),
    ensures
        loaded(rows, false) == ranges.filter(|r: CloudRange| !r.network.v6()),
        loaded(rows, true) == ranges.filter(|r: CloudRange| r.network.v6()),
    decreases rows.len(),
{
    reveal(Seq::filter);
    if rows.len() > 0 {
        law_stored_ranges_load_back(rows.drop_last(), ranges.drop_last());
        assert(rows.last() == rows[rows.len() - 1]);
    } else {
        assert(loaded(rows, false) =~= ranges.filter(|r: CloudRange| !r.network.v6()));
        assert(loaded(rows, true) =~= ranges.filter(|r: CloudRange| r.network.v6()));
    }
}

/// The row is the one to be stored for a range.
pub open spec fn is_row_of(row: RangeRow, range: CloudRange) -> bool {
    &&& row.stored.range() == Some(range)
    &&& row.stored.is_v6 == range.network.v6()
    &&& row.prefix_length == range.network.prefix_bits()
}

/// The longer prefixes come first.
pub open spec fn rows_descend(rows: Seq<StoredRange>) -> bool {
    forall|i: int, j: int|
        0 <= i < j < rows.len() ==> match ((#[trigger] rows[i]).range(), (
        #[trigger] rows[j]).range()) {
            (Some(a), Some(b)) => a.network.prefix_bits() >= b.network.prefix_bits(),
            _ => true,
        }
}

/// Loading rows of which the longer prefixes come first gives lists of which the same holds.
pub proof fn law_loading_keeps_the_order(rows: Seq<StoredRange>, v6: bool)
    requires
        rows_descend(rows),
    ensures
        most_specific_first(loaded(rows, v6)),
        forall|k: int|
            0 <= k < loaded(rows, v6).len() ==> exists|i: int|
                0 <= i < rows.len() && (#[trigger] rows[i]).range() == Some(
                    #[trigger] loaded(rows, v6)[k],
                ),
    decreases rows.len(),
{
    if rows.len() > 0 {
        let front = rows.drop_last();
        let before = loaded(front, v6);
        let after = loaded(rows, v6);
        assert(rows_descend(front)) by {
            assert forall|i: int, j: int| 0 <= i < j < front.len() implies match ((
            #[trigger] front[i]).range(), (#[trigger] front[j]).range()) {
                (Some(a), Some(b)) => a.network.prefix_bits() >= b.network.prefix_bits(),
                _ => true,
            } by {
                assert(front[i] == rows[i] && front[j] == rows[j]);
            }
        }
        law_loading_keeps_the_order(front, v6);
        assert forall|k: int| 0 <= k < after.len() implies exists|i: int|
            0 <= i < rows.len() && (#[trigger] rows[i]).range() == Some(#[trigger] after[k]) by {
            if k < before.len() {
                assert(after[k] == before[k]);
                let i = choose|i: int|
                    0 <= i < front.len() && (#[trigger] front[i]).range() == Some(before[k]);
                assert(rows[i] == front[i]);
            } else {
                assert(rows[rows.len() - 1].range() == Some(after[k]));
            }
        }
        assert forall|p: int, q: int| 0 <= p < q < after.len() implies (
        #[trigger] after[p]).network.prefix_bits() >= (
        #[trigger] after[q]).network.prefix_bits() by {
            assert(after[p] == before[p]);
            if q < before.len() {
                assert(after[q] == before[q]);
            } else {
                let i = choose|i: int|
                    0 <= i < front.len() && (#[trigger] front[i]).range() == Some(before[p]);
                let last = rows.len() - 1;
                assert(rows[i] == front[i]);
                assert(rows[last].range() == Some(after[q]));
            }
        }
    }
}

/// Rows that were stored and are loaded with the longer prefixes first give back all ranges that
/// were stored, in the list of their family and unchanged, and an address is then matched with the
/// most specific range that covers it.
pub proof fn law_stored_ranges_are_matched(
    stored: Seq<CloudRange>,
    ranges: Seq<CloudRange>,
    rows: Seq<RangeRow>,
    v6: bool,
    ip: IpAddress,
)
    requires
        stored.to_multiset() == ranges.to_multiset(),
        rows.len() == ranges.len(),
        forall|i: int| 0 <= i < rows.len() ==> is_row_of(#[trigger] rows[i], ranges[i]),
        forall|i: int, j: int|
            0 <= i < j < rows.len() ==> (#[trigger] rows[i]).prefix_length >= (
            #[trigger] rows[j]).prefix_length,
    ensures
        ({
            let list = loaded(rows.map_values(|r: RangeRow| r.stored), v6);
            &&& list.to_multiset() == stored.filter(
                |r: CloudRange| r.network.v6() == v6,
            ).to_multiset()
            &&& most_specific_first(list)
            &&& match first_cover(list, ip) {
                Some(r) => {
                    &&& list.contains(r)
                    &&& r.network.covers(ip)
                    &&& forall|i: int|
                        0 <= i < list.len() && (#[trigger] list[i]).network.covers(ip)
                            ==> list[i].network.prefix_bits() <= r.network.prefix_bits()
                },
                None => forall|i: int|
                    0 <= i < list.len() ==> !(#[trigger] list[i]).network.covers(ip),
            }
        }),
{
    let plain = rows.map_values(|r: RangeRow| r.stored);
    let wanted = |r: CloudRange| r.network.v6() == v6;
    assert forall|i: int| 0 <= i < plain.len() implies (#[trigger] plain[i]).range() == Some(
        ranges[i],
    ) && plain[i].is_v6 == ranges[i].network.v6() by {
        assert(is_row_of(rows[i], ranges[i]));
    }
    assert(rows_descend(plain)) by {
        assert forall|i: int, j: int| 0 <= i < j < plain.len() implies match ((
        #[trigger] plain[i]).range(), (#[trigger] plain[j]).range()) {
            (Some(a), Some(b)) => a.network.prefix_bits() >= b.network.prefix_bits(),
            _ => true,
        } by {
            assert(is_row_of(rows[i], ranges[i]) && is_row_of(rows[j], ranges[j]));
        }
    }
    law_stored_ranges_load_back(plain, ranges);
    if v6 {
        assert(wanted =~= (|r: CloudRange| r.network.v6()));
    } else {
        assert(wanted =~= (|r: CloudRange| !r.network.v6()));
    }
    lists::lemma_filter_multiset(stored, wanted);
    lists::lemma_filter_multiset(ranges, wanted);
    law_loading_keeps_the_order(plain, v6);
    law_most_specific_match(loaded(plain, v6), ip);
}

/// An address is matched with the first range that covers it, and with none only where none does.
pub proof fn law_the_first_range_counts(ranges: Seq<CloudRange>, ip: IpAddress)
    ensures
        match first_cover(ranges, ip) {
            Some(r) => exists|i: int|
                0 <= i < ranges.len() && #[trigger] ranges[i] == r && r.network.covers(ip)
                    && forall|j: int|
                    0 <= j < i ==> !(#[trigger] ranges[j]).network.covers(ip),
            None => forall|j: int|
                0 <= j < ranges.len() ==> !(#[trigger] ranges[j]).network.covers(ip),
        },
    decreases ranges.len(),
{
    if ranges.len() > 0 && !ranges[0].network.covers(ip) {
        let rest = ranges.drop_first();
        law_the_first_range_counts(rest, ip);
        match first_cover(rest, ip) {
            Some(r) => {
                let i = choose|i: int|
                    0 <= i < rest.len() && #[trigger] rest[i] == r && r.network.covers(ip)
                        && forall|j: int|
                        0 <= j < i ==> !(#[trigger] rest[j]).network.covers(ip);
                assert(ranges[i + 1] == r);
                assert forall|j: int| 0 <= j < i + 1 implies !(
                #[trigger] ranges[j]).network.covers(ip) by {
                    if j > 0 {
                        assert(rest[j - 1] == ranges[j]);
                    }
                }
            },
            None => {
                assert forall|j: int| 0 <= j < ranges.len() implies !(
                #[trigger] ranges[j]).network.covers(ip) by {
                    if j > 0 {
                        assert(rest[j - 1] == ranges[j]);
                    }
                }
            },
        }
    }
}

/// One more stored range goes to the end of the list of its family, with its service, its region and
/// its provider; one that is no network goes nowhere.
pub proof fn law_a_stored_range_is_loaded(rows: Seq<StoredRange>, row: StoredRange, v6: bool)
    ensures
        loaded(Seq::empty(), v6).len() == 0,
        row.is_v6 != v6 ==> loaded(rows.push(row), v6) == loaded(rows, v6),
        row.is_v6 == v6 ==> match address::parsed_network(row.ip_prefix@) {
            Some(network) => {
                let all = loaded(rows.push(row), v6);
                &&& all.len() == loaded(rows, v6).len() + 1
                &&& all.drop_last() == loaded(rows, v6)
                &&& all.last().network == network
                &&& all.last().service == row.service
                &&& all.last().region == row.region
                &&& cloud::provider_named(text::lowered(row.provider@)) matches Some(p)
                    ==> all.last().provider == p
            },
            None => loaded(rows.push(row), v6) == loaded(rows, v6),
        },
{
    assert(rows.push(row).drop_last() =~= rows);
    match row.range() {
        Some(r) => {
            assert(loaded(rows, v6).push(r).drop_last() =~= loaded(rows, v6));
        },
        None => {},
    }
}

/// What is said of an address comes from the ranges of its own family: provider, service and region
/// of the first range that covers it. Nothing is said without ranges, of a text that is no address,
/// or of an address in no range.
pub proof fn law_what_the_ranges_say(cache: CloudRangeCache, ip: Seq<char>)
    ensures
        infra_of(None, ip) is None,
        address::parsed_address(ip) is None ==> infra_of(Some(&cache), ip) is None,
        address::parsed_address(ip) matches Some(a) ==> {
            let ranges = match a {
                IpAddress::V4(_) => cache.ipv4_ranges@,
                IpAddress::V6(_) => cache.ipv6_ranges@,
            };
            match first_cover(ranges, a) {
                Some(r) => infra_of(Some(&cache), ip) == Some(
                    cloud::org_text(
                        r.provider,
                        text::opt_view(r.service),
                        text::opt_view(r.region),
                    ),
                ),
                None => infra_of(Some(&cache), ip) is None,
            }
        },
{
}

/// The provider of a stored range is read by its name in any case; a name that stands for none is
/// read as that of Amazon.
pub proof fn law_the_provider_of_a_stored_range(row: StoredRange)
    ensures
        cloud::provider_named(text::lowered(row.provider@)) matches Some(p) ==> row.provider_read()
            == p,
        cloud::provider_named(text::lowered(row.provider@)) is None ==> row.provider_read()
            == CloudProvider::AWS,
        row.range() is Some <==> address::parsed_network(row.ip_prefix@) is Some,
        row.range() matches Some(r) ==> r.provider == row.provider_read() && r.service == row.service
            && r.region == row.region,
{
}

} // verus!
