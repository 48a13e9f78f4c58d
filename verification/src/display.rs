//! How the report is ordered, grouped and laid out.
use vstd::prelude::*;

verus! {

/// What rows are ordered by.
#[derive(Clone, Copy, Debug, PartialEq, Eq, Structural)]
pub enum SortBy {
    Hits,
    Bandwidth,
}

impl SortBy {
    /// The other order.
    pub open spec fn toggled(self) -> SortBy {
        match self {
            SortBy::Hits => SortBy::Bandwidth,
            SortBy::Bandwidth => SortBy::Hits,
        }
    }

    /// What it is called in titles.
    pub open spec fn name(self) -> Seq<char> {
        match self {
            SortBy::Hits => "hits"@,
            SortBy::Bandwidth => "bw"@,
        }
    }

    /// The other order.
    pub fn toggle(self) -> (r: SortBy)
        ensures
            r == self.toggled(),
    {
        match self {
            SortBy::Hits => SortBy::Bandwidth,
            SortBy::Bandwidth => SortBy::Hits,
        }
    }

    /// What it is called in titles.
    pub fn label(self) -> (r: &'static str)
        ensures
            r@ == self.name(),
    {
        match self {
            SortBy::Hits => "hits",
            SortBy::Bandwidth => "bw",
        }
    }
}

/// Toggling the order twice brings it back, and once changes it.
pub proof fn law_toggle_twice(s: SortBy)
    ensures
        s.toggled() != s,
        s.toggled().toggled() == s,
{
}

/// What rows are grouped by.
#[derive(Clone, Copy, Debug, PartialEq, Eq, Structural)]
pub enum GroupBy {
    Ip,
    Org,
    Asn,
    UserAgent,
    CloudProvider,
}

impl GroupBy {
    /// The grouping that follows in the cycle.
    pub open spec fn following(self) -> GroupBy {
        match self {
            GroupBy::Ip => GroupBy::Org,
            GroupBy::Org => GroupBy::Asn,
            GroupBy::Asn => GroupBy::UserAgent,
            GroupBy::UserAgent => GroupBy::CloudProvider,
            GroupBy::CloudProvider => GroupBy::Ip,
        }
    }

    /// What it is called in titles.
    pub open spec fn name(self) -> Seq<char> {
        match self {
            GroupBy::Ip => "IP"@,
            GroupBy::Org => "Org"@,
            GroupBy::Asn => "ASN"@,
            GroupBy::UserAgent => "UA"@,
            GroupBy::CloudProvider => "Cloud"@,
        }
    }

    /// The grouping that follows in the cycle.
    pub fn next(self) -> (r: GroupBy)
        ensures
            r == self.following(),
    {
        match self {
            GroupBy::Ip => GroupBy::Org,
            GroupBy::Org => GroupBy::Asn,
            GroupBy::Asn => GroupBy::UserAgent,
            GroupBy::UserAgent => GroupBy::CloudProvider,
            GroupBy::CloudProvider => GroupBy::Ip,
        }
    }

    /// What it is called in titles.
    pub fn label(self) -> (r: &'static str)
        ensures
            r@ == self.name(),
    {
        match self {
            GroupBy::Ip => "IP",
            GroupBy::Org => "Org",
            GroupBy::Asn => "ASN",
            GroupBy::UserAgent => "UA",
            GroupBy::CloudProvider => "Cloud",
        }
    }
}

/// Five steps go once round the groupings, and no fewer.
pub proof fn law_groupings_cycle(g: GroupBy)
    ensures
        g.following() != g,
        g.following().following() != g,
        g.following().following().following() != g,
        g.following().following().following().following() != g,
        g.following().following().following().following().following() == g,
{
}

/// What the report shows.
#[derive(Clone, Copy, Debug, PartialEq, Eq, Structural)]
pub struct DisplayConfig {
    pub has_bytes: bool,
    pub sort_by: SortBy,
    pub show_rdns: bool,
    pub show_ua: bool,
    pub show_org: bool,
    pub cloud_detail: bool,
    pub show_country: bool,
    pub show_domain: bool,
    pub group_by: GroupBy,
}

impl DisplayConfig {
    /// Everything is shown, ungrouped.
    pub fn new(has_bytes: bool, sort_by: SortBy) -> (r: DisplayConfig)
        ensures
            r == (DisplayConfig {
                has_bytes,
                sort_by,
                show_rdns: true,
                show_ua: true,
                show_org: true,
                cloud_detail: true,
                show_country: true,
                show_domain: true,
                group_by: GroupBy::Ip,
            }),
    {
        DisplayConfig {
            has_bytes,
            sort_by,
            show_rdns: true,
            show_ua: true,
            show_org: true,
            cloud_detail: true,
            show_country: true,
            show_domain: true,
            group_by: GroupBy::Ip,
        }
    }
}

/// What the orders and the groupings are called.
pub proof fn law_names_in_titles()
    ensures
        SortBy::Hits.name() == "hits"@,
        SortBy::Bandwidth.name() == "bw"@,
        GroupBy::Ip.name() == "IP"@,
        GroupBy::Org.name() == "Org"@,
        GroupBy::Asn.name() == "ASN"@,
        GroupBy::UserAgent.name() == "UA"@,
        GroupBy::CloudProvider.name() == "Cloud"@,
{
}

} // verus!
