//! The records of the report: one for each address, with what is known of it.
use vstd::hash_map::StringHashMap;
use vstd::prelude::*;

use crate::display::SortBy;
use crate::lists;
use crate::log::IpCount;
use crate::ranking;
use crate::ranking::Rank;
use crate::sorting;
use crate::sorting::Ranked;
use crate::text;

verus! {

broadcast use vstd::string::group_string_axioms;

/// What is known of an address.
#[derive(Debug)]
pub struct IpRecord {
    pub ip: String,
    pub count: u64,
    pub user_agent: Option<String>,
    pub reverse_dns: Option<String>,
    pub org: Option<String>,
    pub asn: Option<String>,
    pub infra: Option<String>,
    pub country: Option<String>,
    pub company_domain: Option<String>,
    pub bytes: u64,
    pub looked_up: bool,
    pub lookup_in_progress: bool,
    pub in_display_set: bool,
}

impl IpRecord {
    /// A copy of the record.
    pub fn copy(&self) -> (r: IpRecord)
        ensures
            r == *self,
    {
        IpRecord {
            ip: self.ip.clone(),
            count: self.count,
            user_agent: text::copy_text(&self.user_agent),
            reverse_dns: text::copy_text(&self.reverse_dns),
            org: text::copy_text(&self.org),
            asn: text::copy_text(&self.asn),
            infra: text::copy_text(&self.infra),
            country: text::copy_text(&self.country),
            company_domain: text::copy_text(&self.company_domain),
            bytes: self.bytes,
            looked_up: self.looked_up,
            lookup_in_progress: self.lookup_in_progress,
            in_display_set: self.in_display_set,
        }
    }
}

impl Ranked for IpRecord {
    open spec fn rank(&self, by: SortBy) -> Rank {
        match by {
            SortBy::Hits => (self.count, self.ip@),
            SortBy::Bandwidth => (self.bytes, self.ip@),
        }
    }

    fn weight(&self, by: SortBy) -> (r: u64) {
        match by {
            SortBy::Hits => self.count,
            SortBy::Bandwidth => self.bytes,
        }
    }

    fn name(&self) -> (r: &str) {
        self.ip.as_str()
    }
}

// ---------------------------------------------------------------------------
// Finding rows by address
// ---------------------------------------------------------------------------

/// A row about one address.
pub trait AboutIp {
    spec fn about(&self) -> Seq<char>;

    fn ip_text(&self) -> (r: &str)
        ensures
            r@ == self.about(),
    ;
}

impl AboutIp for IpCount {
    open spec fn about(&self) -> Seq<char> {
        self.ip@
    }

    fn ip_text(&self) -> (r: &str) {
        self.ip.as_str()
    }
}

impl AboutIp for IpRecord {
    open spec fn about(&self) -> Seq<char> {
        self.ip@
    }

    fn ip_text(&self) -> (r: &str) {
        self.ip.as_str()
    }
}

/// The last row about an address.
pub open spec fn row_about<T: AboutIp>(rows: Seq<T>, ip: Seq<char>) -> Option<T>
    decreases rows.len(),
{
    if rows.len() == 0 {
        None
    } else if rows.last().about() == ip {
        Some(rows.last())
    } else {
        row_about(rows.drop_last(), ip)
    }
}

/// A row is found exactly if there is one about the address.
pub proof fn lemma_row_about<T: AboutIp>(rows: Seq<T>, ip: Seq<char>)
    ensures
        match row_about(rows, ip) {
            Some(row) => rows.contains(row) && row.about() == ip,
            None => forall|i: int| 0 <= i < rows.len() ==> (#[trigger] rows[i]).about() != ip,
        },
    decreases rows.len(),
{
    if rows.len() > 0 {
        let front = rows.drop_last();
        lemma_row_about(front, ip);
        if rows.last().about() == ip {
            assert(rows[rows.len() - 1] == rows.last());
        } else {
            match row_about(front, ip) {
                Some(row) => {
                    let k = choose|k: int| 0 <= k < front.len() && front[k] == row;
                    assert(rows[k] == row);
                },
                None => {
                    assert forall|i: int| 0 <= i < rows.len() implies (#[trigger] rows[i]).about()
                        != ip by {
                        if i < front.len() {
                            assert(front[i] == rows[i]);
                        }
                    }
                },
            }
        }
    }
}

/// Where the last row about each address stands.
pub struct IpIndex {
    places: StringHashMap<usize>,
}

impl IpIndex {
    /// The index is that of these rows.
    pub closed spec fn of<T: AboutIp>(&self, rows: Seq<T>) -> bool {
        &&& forall|ip: Seq<char>| #[trigger]
            self.places@.contains_key(ip) <==> row_about(rows, ip) is Some
        &&& forall|ip: Seq<char>| #[trigger]
            self.places@.contains_key(ip) ==> self.places@[ip] < rows.len() && row_about(rows, ip)
                == Some(rows[self.places@[ip] as int])
    }

    /// The rows of each address.
    pub fn new<T: AboutIp>(rows: &Vec<T>) -> (r: IpIndex)
        ensures
            r.of(rows@),
    {
        let mut places: StringHashMap<usize> = StringHashMap::new();
        for i in 0..rows.len()
            invariant
                forall|ip: Seq<char>| #[trigger]
                    places@.contains_key(ip) <==> row_about(rows@.take(i as int), ip) is Some,
                forall|ip: Seq<char>| #[trigger]
                    places@.contains_key(ip) ==> places@[ip] < i && row_about(
                        rows@.take(i as int),
                        ip,
                    ) == Some(rows@[places@[ip] as int]),
        {
            let ghost before = places@;
            assert(rows@.take(i + 1).drop_last() =~= rows@.take(i as int));
            assert(rows@.take(i + 1).last() == rows@[i as int]);
            places.insert(rows[i].ip_text().to_owned(), i);
            assert forall|ip: Seq<char>| #[trigger] places@.contains_key(ip) <==> row_about(
                rows@.take(i + 1),
                ip,
            ) is Some by {
                assert(before.contains_key(ip) <==> row_about(rows@.take(i as int), ip) is Some);
            }
            assert forall|ip: Seq<char>| #[trigger] places@.contains_key(ip) implies places@[ip] < i
                + 1 && row_about(rows@.take(i + 1), ip) == Some(rows@[places@[ip] as int]) by {
                assert(ip != rows@[i as int].about() ==> before.contains_key(ip));
            }
        }
        assert(rows@.take(rows@.len() as int) =~= rows@);
        IpIndex { places }
    }

    /// Where the last row about an address stands.
    pub fn find<T: AboutIp>(&self, rows: &Vec<T>, ip: &str) -> (r: Option<usize>)
        requires
            self.of(rows@),
        ensures
            match r {
                Some(i) => i < rows@.len() && row_about(rows@, ip@) == Some(rows@[i as int]),
                None => row_about(rows@, ip@) is None,
            },
    {
        match self.places.get(ip) {
            Some(i) => Some(*i),
            None => {
                assert(!self.places@.contains_key(ip@));
                None
            },
        }
    }
}

// ---------------------------------------------------------------------------
// Which addresses get a record
// ---------------------------------------------------------------------------

/// An address that gets a record, and whether the report shows it.
#[derive(Debug)]
pub struct Candidate {
    pub counted: IpCount,
    pub in_display: bool,
}

impl AboutIp for Candidate {
    open spec fn about(&self) -> Seq<char> {
        self.counted.ip@
    }

    fn ip_text(&self) -> (r: &str) {
        self.counted.ip.as_str()
    }
}

/// The addresses of the report, marked as shown.
pub open spec fn shown(display: Seq<IpCount>) -> Seq<Candidate> {
    display.map_values(|c: IpCount| Candidate { counted: c, in_display: true })
}

/// The counted addresses that the report leaves out but that have enough requests, marked as not
/// shown.
pub open spec fn hidden(
    display: Seq<IpCount>,
    full: Seq<IpCount>,
    min_requests: u64,
) -> Seq<Candidate> {
    full.filter(
        |c: IpCount| c.count >= min_requests && row_about(display, c.ip@) is None,
    ).map_values(|c: IpCount| Candidate { counted: c, in_display: false })
}

/// The addresses that get a record: those of the report, and with ipinfo at hand also all others
/// with enough requests.
pub open spec fn candidates(
    display: Seq<IpCount>,
    full: Seq<IpCount>,
    with_ipinfo: bool,
    min_requests: u64,
) -> Seq<Candidate> {
    if with_ipinfo {
        shown(display) + hidden(display, full, min_requests)
    } else {
        shown(display)
    }
}

/// The addresses that get a record.
pub fn list_candidates(
    display: &Vec<IpCount>,
    full: &Vec<IpCount>,
    with_ipinfo: bool,
    min_requests: u64,
) -> (r: Vec<Candidate>)
    ensures
        r@ == candidates(display@, full@, with_ipinfo, min_requests),
{
    let mut out: Vec<Candidate> = Vec::new();
    for i in 0..display.len()
        invariant
            out@ == shown(display@.take(i as int)),
    {
        out.push(Candidate { counted: display[i].copy(), in_display: true });
        assert(out@ =~= shown(display@.take(i + 1)));
    }
    assert(display@.take(display@.len() as int) =~= display@);
    if !with_ipinfo {
        return out;
    }
    let index = IpIndex::new(display);
    let ghost front = out@;
    let ghost wanted = |c: IpCount|
        c.count >= min_requests && row_about(display@, c.ip@) is None;
    let ghost mark = |c: IpCount| Candidate { counted: c, in_display: false };
    proof {
        reveal(Seq::filter);
        assert(front + full@.take(0).filter(wanted).map_values(mark) =~= front);
    }
    for i in 0..full.len()
        invariant
            index.of(display@),
            wanted == (|c: IpCount|
                c.count >= min_requests && row_about(display@, c.ip@) is None),
            mark == (|c: IpCount| Candidate { counted: c, in_display: false }),
            out@ == front + full@.take(i as int).filter(wanted).map_values(mark),
    {
        let c = &full[i];
        proof {
            reveal(Seq::filter);
            assert(full@.take(i + 1).drop_last() =~= full@.take(i as int));
            assert(full@.take(i + 1).last() == *c);
        }
        let known = index.find(display, c.ip.as_str());
        if c.count >= min_requests && known.is_none() {
            out.push(Candidate { counted: c.copy(), in_display: false });
            assert(wanted(*c));
            assert(out@ =~= front + full@.take(i + 1).filter(wanted).map_values(mark));
        } else {
            assert(!wanted(*c));
        }
    }
    assert(full@.take(full@.len() as int) =~= full@);
    out
}

/// The counted addresses that get no record.
pub open spec fn passed_over(full: Seq<IpCount>, chosen: Seq<Candidate>) -> Seq<IpCount> {
    full.filter(|c: IpCount| row_about(chosen, c.ip@) is None)
}

/// How many counted addresses get no record.
pub fn skipped_count(full: &Vec<IpCount>, chosen: &Vec<Candidate>) -> (r: usize)
    ensures
        r == passed_over(full@, chosen@).len(),
{
    let index = IpIndex::new(chosen);
    let ghost absent = |c: IpCount| row_about(chosen@, c.ip@) is None;
    let mut n: usize = 0;
    proof {
        reveal(Seq::filter);
    }
    for i in 0..full.len()
        invariant
            index.of(chosen@),
            absent == (|c: IpCount| row_about(chosen@, c.ip@) is None),
            n <= i,
            n == full@.take(i as int).filter(absent).len(),
    {
        let c = &full[i];
        proof {
            reveal(Seq::filter);
            assert(full@.take(i + 1).drop_last() =~= full@.take(i as int));
            assert(full@.take(i + 1).last() == *c);
        }
        if index.find(chosen, c.ip.as_str()).is_none() {
            assert(absent(*c));
            n = n + 1;
        } else {
            assert(!absent(*c));
        }
    }
    assert(full@.take(full@.len() as int) =~= full@);
    n
}

// ---------------------------------------------------------------------------
// Making the records
// ---------------------------------------------------------------------------

/// What is stored of an address.
#[derive(Debug)]
pub struct CachedRow {
    pub ip: String,
    pub is_v6: bool,
    pub user_agent: Option<String>,
    pub reverse_dns: Option<String>,
    pub org: Option<String>,
    pub asn: Option<String>,
    pub looked_up: bool,
    pub infra: Option<String>,
    pub country: Option<String>,
    pub company_domain: Option<String>,
}

impl AboutIp for CachedRow {
    open spec fn about(&self) -> Seq<char> {
        self.ip@
    }

    fn ip_text(&self) -> (r: &str) {
        self.ip.as_str()
    }
}

/// The first of two optional texts that is there.
pub open spec fn first_of(a: Option<String>, b: Option<String>) -> Option<String> {
    match a {
        Some(_) => a,
        None => b,
    }
}

/// The record of an address that has none yet, from what is stored of it. A lookup starts unless
/// one was made before.
pub open spec fn fresh_record(c: Candidate, cached: Option<CachedRow>) -> IpRecord {
    match cached {
        Some(row) => IpRecord {
            ip: c.counted.ip,
            count: c.counted.count,
            user_agent: first_of(c.counted.user_agent, row.user_agent),
            reverse_dns: row.reverse_dns,
            org: row.org,
            asn: row.asn,
            infra: row.infra,
            country: row.country,
            company_domain: row.company_domain,
            bytes: c.counted.bytes,
            looked_up: row.looked_up,
            lookup_in_progress: !row.looked_up,
            in_display_set: c.in_display,
        },
        None => IpRecord {
            ip: c.counted.ip,
            count: c.counted.count,
            user_agent: c.counted.user_agent,
            reverse_dns: None,
            org: None,
            asn: None,
            infra: None,
            country: None,
            company_domain: None,
            bytes: c.counted.bytes,
            looked_up: false,
            lookup_in_progress: true,
            in_display_set: c.in_display,
        },
    }
}

/// A record that is there already, with the counts as they are now.
pub open spec fn kept_record(c: Candidate, rec: IpRecord) -> IpRecord {
    IpRecord {
        count: c.counted.count,
        bytes: c.counted.bytes,
        in_display_set: c.in_display,
        user_agent: first_of(c.counted.user_agent, rec.user_agent),
        ..rec
    }
}

/// The record of an address: the one that is there, or else a new one.
pub open spec fn record_for(
    c: Candidate,
    before: Seq<IpRecord>,
    cached: Seq<CachedRow>,
) -> IpRecord {
    match row_about(before, c.counted.ip@) {
        Some(rec) => kept_record(c, rec),
        None => fresh_record(c, row_about(cached, c.counted.ip@)),
    }
}

/// The address is new, and no lookup was made for it before.
pub open spec fn lookup_due(c: Candidate, before: Seq<IpRecord>, cached: Seq<CachedRow>) -> bool {
    &&& row_about(before, c.counted.ip@) is None
    &&& row_about(cached, c.counted.ip@) matches Some(row) ==> !row.looked_up
}

/// The address is new, and nothing is stored of it.
pub open spec fn insert_due(c: Candidate, before: Seq<IpRecord>, cached: Seq<CachedRow>) -> bool {
    row_about(before, c.counted.ip@) is None && row_about(cached, c.counted.ip@) is None
}

/// An address to be looked up, with the number of its requests.
#[derive(Debug)]
pub struct LookupJob {
    pub ip: String,
    pub count: u64,
}

/// The records after a selection, and what has to be done for the new ones among them.
#[derive(Debug)]
pub struct Reselection {
    pub records: Vec<IpRecord>,
    /// The addresses to be looked up.
    pub jobs: Vec<LookupJob>,
    /// The candidates to be stored, by their place.
    pub inserts: Vec<usize>,
}

/// The lookups that are due, one for each candidate that needs one, in their order.
pub open spec fn jobs_for(
    chosen: Seq<Candidate>,
    before: Seq<IpRecord>,
    cached: Seq<CachedRow>,
) -> Seq<LookupJob> {
    chosen.filter(|c: Candidate| lookup_due(c, before, cached)).map_values(
        |c: Candidate| LookupJob { ip: c.counted.ip, count: c.counted.count },
    )
}

/// The places of the candidates to be stored, ascending.
pub open spec fn inserts_for(
    chosen: Seq<Candidate>,
    before: Seq<IpRecord>,
    cached: Seq<CachedRow>,
) -> Seq<usize>
    decreases chosen.len(),
{
    if chosen.len() == 0 {
        Seq::empty()
    } else {
        let front = inserts_for(chosen.drop_last(), before, cached);
        if insert_due(chosen.last(), before, cached) {
            front.push((chosen.len() - 1) as usize)
        } else {
            front
        }
    }
}

fn either_text(a: &Option<String>, b: &Option<String>) -> (r: Option<String>)
    ensures
        r == first_of(*a, *b),
{
    match a {
        Some(_) => text::copy_text(a),
        None => text::copy_text(b),
    }
}

fn keep_record(c: &Candidate, rec: &IpRecord) -> (r: IpRecord)
    ensures
        r == kept_record(*c, *rec),
{
    let mut out = rec.copy();
    out.count = c.counted.count;
    out.bytes = c.counted.bytes;
    out.in_display_set = c.in_display;
    out.user_agent = either_text(&c.counted.user_agent, &rec.user_agent);
    out
}

fn make_record(c: &Candidate, cached: Option<&CachedRow>) -> (r: IpRecord)
    ensures
        r == fresh_record(
            *c,
            match cached {
                Some(row) => Some(*row),
                None => None,
            },
        ),
{
    match cached {
        Some(row) => IpRecord {
            ip: c.counted.ip.clone(),
            count: c.counted.count,
            user_agent: either_text(&c.counted.user_agent, &row.user_agent),
            reverse_dns: text::copy_text(&row.reverse_dns),
            org: text::copy_text(&row.org),
            asn: text::copy_text(&row.asn),
            infra: text::copy_text(&row.infra),
            country: text::copy_text(&row.country),
            company_domain: text::copy_text(&row.company_domain),
            bytes: c.counted.bytes,
            looked_up: row.looked_up,
            lookup_in_progress: !row.looked_up,
            in_display_set: c.in_display,
        },
        None => IpRecord {
            ip: c.counted.ip.clone(),
            count: c.counted.count,
            user_agent: text::copy_text(&c.counted.user_agent),
            reverse_dns: None,
            org: None,
            asn: None,
            infra: None,
            country: None,
            company_domain: None,
            bytes: c.counted.bytes,
            looked_up: false,
            lookup_in_progress: true,
            in_display_set: c.in_display,
        },
    }
}

/// The addresses among the candidates that have no record yet.
pub open spec fn unknown_of(chosen: Seq<Candidate>, before: Seq<IpRecord>) -> Seq<String> {
    chosen.filter(|c: Candidate| row_about(before, c.counted.ip@) is None).map_values(
        |c: Candidate| c.counted.ip,
    )
}

/// The addresses among the candidates that have no record yet, so that what is stored of them is
/// of interest.
pub fn unknown_ips(chosen: &Vec<Candidate>, before: &Vec<IpRecord>) -> (r: Vec<String>)
    ensures
        r@ == unknown_of(chosen@, before@),
{
    let index = IpIndex::new(before);
    let ghost unknown = |c: Candidate| row_about(before@, c.counted.ip@) is None;
    let ghost name = |c: Candidate| c.counted.ip;
    let mut out: Vec<String> = Vec::new();
    proof {
        reveal(Seq::filter);
        assert(chosen@.take(0).filter(unknown).map_values(name) =~= out@);
    }
    for i in 0..chosen.len()
        invariant
            index.of(before@),
            unknown == (|c: Candidate| row_about(before@, c.counted.ip@) is None),
            name == (|c: Candidate| c.counted.ip),
            out@ == chosen@.take(i as int).filter(unknown).map_values(name),
    {
        let c = &chosen[i];
        proof {
            reveal(Seq::filter);
            assert(chosen@.take(i + 1).drop_last() =~= chosen@.take(i as int));
            assert(chosen@.take(i + 1).last() == *c);
        }
        if index.find(before, c.counted.ip.as_str()).is_none() {
            assert(unknown(*c));
            out.push(c.counted.ip.clone());
            assert(out@ =~= chosen@.take(i + 1).filter(unknown).map_values(name));
        } else {
            assert(!unknown(*c));
        }
    }
    assert(chosen@.take(chosen@.len() as int) =~= chosen@);
    out
}

/// The records of the candidates, from the records before and what is stored.
pub fn reselect(
    chosen: &Vec<Candidate>,
    before: &Vec<IpRecord>,
    cached: &Vec<CachedRow>,
) -> (r: Reselection)
    ensures
        r.records@ == chosen@.map_values(|c: Candidate| record_for(c, before@, cached@)),
        r.jobs@ == jobs_for(chosen@, before@, cached@),
        r.inserts@ == inserts_for(chosen@, before@, cached@),
{
    let old_index = IpIndex::new(before);
    let row_index = IpIndex::new(cached);
    let ghost due = |c: Candidate| lookup_due(c, before@, cached@);
    let ghost job = |c: Candidate| LookupJob { ip: c.counted.ip, count: c.counted.count };
    let ghost make = |c: Candidate| record_for(c, before@, cached@);
    let mut records: Vec<IpRecord> = Vec::new();
    let mut jobs: Vec<LookupJob> = Vec::new();
    let mut inserts: Vec<usize> = Vec::new();
    proof {
        reveal(Seq::filter);
        assert(chosen@.take(0).filter(due).map_values(job) =~= jobs@);
        assert(chosen@.take(0).map_values(make) =~= records@);
    }
    for i in 0..chosen.len()
        invariant
            old_index.of(before@),
            row_index.of(cached@),
            due == (|c: Candidate| lookup_due(c, before@, cached@)),
            job == (|c: Candidate| LookupJob { ip: c.counted.ip, count: c.counted.count }),
            make == (|c: Candidate| record_for(c, before@, cached@)),
            records@ == chosen@.take(i as int).map_values(make),
            jobs@ == chosen@.take(i as int).filter(due).map_values(job),
            inserts@ == inserts_for(chosen@.take(i as int), before@, cached@),
    {
        let c = &chosen[i];
        let ghost old_jobs = jobs@;
        proof {
            reveal(Seq::filter);
            assert(chosen@.take(i + 1).drop_last() =~= chosen@.take(i as int));
            assert(chosen@.take(i + 1).last() == *c);
        }
        match old_index.find(before, c.counted.ip.as_str()) {
            Some(k) => {
                records.push(keep_record(c, &before[k]));
                assert(!due(*c));
            },
            None => {
                match row_index.find(cached, c.counted.ip.as_str()) {
                    Some(k) => {
                        let row = &cached[k];
                        records.push(make_record(c, Some(row)));
                        if !row.looked_up {
                            assert(due(*c));
                            jobs.push(
                                LookupJob { ip: c.counted.ip.clone(), count: c.counted.count },
                            );
                        } else {
                            assert(!due(*c));
                        }
                    },
                    None => {
                        records.push(make_record(c, None));
                        inserts.push(i);
                        assert(due(*c));
                        jobs.push(LookupJob { ip: c.counted.ip.clone(), count: c.counted.count });
                    },
                }
            },
        }
        assert(records@ =~= chosen@.take(i + 1).map_values(make));
        assert(jobs@ =~= chosen@.take(i + 1).filter(due).map_values(job));
    }
    assert(chosen@.take(chosen@.len() as int) =~= chosen@);
    Reselection { records, jobs, inserts }
}

// ---------------------------------------------------------------------------
// Laws
// ---------------------------------------------------------------------------

/// No two rows are about the same address.
pub open spec fn distinct_rows<T: AboutIp>(rows: Seq<T>) -> bool {
    forall|i: int, j: int|
        0 <= i < rows.len() && 0 <= j < rows.len() && (#[trigger] rows[i]).about() == (
        #[trigger] rows[j]).about() ==> i == j
}

proof fn lemma_only_row<T: AboutIp>(rows: Seq<T>, i: int)
    requires
        distinct_rows(rows),
        0 <= i < rows.len(),
    ensures
        row_about(rows, rows[i].about()) == Some(rows[i]),
{
    lemma_row_about(rows, rows[i].about());
    match row_about(rows, rows[i].about()) {
        Some(row) => {
            let k = choose|k: int| 0 <= k < rows.len() && rows[k] == row;
            assert(rows[k].about() == rows[i].about());
        },
        None => {},
    }
}

/// What was found out about an address stays when the addresses are selected anew; only the counts
/// and whether the report shows it are taken over.
pub proof fn law_findings_survive_a_selection(
    c: Candidate,
    before: Seq<IpRecord>,
    cached: Seq<CachedRow>,
    rec: IpRecord,
)
    requires
        row_about(before, c.counted.ip@) == Some(rec),
    ensures
        ({
            let after = record_for(c, before, cached);
            &&& after.reverse_dns == rec.reverse_dns
            &&& after.org == rec.org
            &&& after.asn == rec.asn
            &&& after.infra == rec.infra
            &&& after.country == rec.country
            &&& after.company_domain == rec.company_domain
            &&& after.looked_up == rec.looked_up
            &&& after.lookup_in_progress == rec.lookup_in_progress
            &&& after.count == c.counted.count
            &&& after.bytes == c.counted.bytes
            &&& after.in_display_set == c.in_display
        }),
{
}

/// A new record waits for a lookup exactly if one is due for it, and otherwise one was made before.
pub proof fn law_new_records_are_looked_up(
    c: Candidate,
    before: Seq<IpRecord>,
    cached: Seq<CachedRow>,
)
    requires
        row_about(before, c.counted.ip@) is None,
    ensures
        record_for(c, before, cached).lookup_in_progress <==> lookup_due(c, before, cached),
        record_for(c, before, cached).looked_up <==> !lookup_due(c, before, cached),
        insert_due(c, before, cached) ==> lookup_due(c, before, cached),
{
}

/// Selecting the same addresses once more changes no record, and nothing is left to be done.
pub proof fn law_selecting_again_changes_nothing(
    chosen: Seq<Candidate>,
    before: Seq<IpRecord>,
    cached: Seq<CachedRow>,
    cached_later: Seq<CachedRow>,
)
    requires
        distinct_rows(chosen),
    ensures
        ({
            let recs = chosen.map_values(|c: Candidate| record_for(c, before, cached));
            &&& chosen.map_values(|c: Candidate| record_for(c, recs, cached_later)) == recs
            &&& jobs_for(chosen, recs, cached_later).len() == 0
            &&& inserts_for(chosen, recs, cached_later).len() == 0
        }),
{
    let recs = chosen.map_values(|c: Candidate| record_for(c, before, cached));
    assert forall|i: int| 0 <= i < chosen.len() implies (#[trigger] recs[i]).about()
        == chosen[i].about() by {
        lemma_row_about(before, chosen[i].counted.ip@);
    }
    assert(distinct_rows(recs)) by {
        assert forall|i: int, j: int|
            0 <= i < recs.len() && 0 <= j < recs.len() && (#[trigger] recs[i]).about() == (
            #[trigger] recs[j]).about() implies i == j by {
            assert(chosen[i].about() == chosen[j].about());
        }
    }
    assert forall|i: int| 0 <= i < chosen.len() implies row_about(
        recs,
        (#[trigger] chosen[i]).counted.ip@,
    ) == Some(recs[i]) by {
        lemma_only_row(recs, i);
        assert(recs[i].about() == chosen[i].about());
    }
    let again = chosen.map_values(|c: Candidate| record_for(c, recs, cached_later));
    assert forall|i: int| 0 <= i < recs.len() implies #[trigger] again[i] == recs[i] by {
        assert(row_about(recs, chosen[i].counted.ip@) == Some(recs[i]));
    }
    assert(again =~= recs);
    lists::lemma_filter_none(chosen, |c: Candidate| lookup_due(c, recs, cached_later));
    lemma_no_inserts(chosen, recs, cached_later);
}

proof fn lemma_no_inserts(chosen: Seq<Candidate>, recs: Seq<IpRecord>, cached: Seq<CachedRow>)
    requires
        forall|i: int|
            0 <= i < chosen.len() ==> row_about(recs, (#[trigger] chosen[i]).counted.ip@) is Some,
    ensures
        inserts_for(chosen, recs, cached).len() == 0,
    decreases chosen.len(),
{
    if chosen.len() > 0 {
        let front = chosen.drop_last();
        assert forall|i: int| 0 <= i < front.len() implies row_about(
            recs,
            (#[trigger] front[i]).counted.ip@,
        ) is Some by {
            assert(front[i] == chosen[i]);
        }
        lemma_no_inserts(front, recs, cached);
        assert(chosen.last() == chosen[chosen.len() - 1]);
    }
}

proof fn lemma_filter_distinct<T: AboutIp>(s: Seq<T>, p: spec_fn(T) -> bool)
    requires
        distinct_rows(s),
    ensures
        distinct_rows(s.filter(p)),
    decreases s.len(),
{
    reveal(Seq::filter);
    if s.len() > 0 {
        let front = s.drop_last();
        assert(distinct_rows(front)) by {
            assert forall|i: int, j: int|
                0 <= i < front.len() && 0 <= j < front.len() && (#[trigger] front[i]).about() == (
                #[trigger] front[j]).about() implies i == j by {
                assert(s[i].about() == s[j].about());
            }
        }
        lemma_filter_distinct(front, p);
        lists::lemma_filter_rows(front, p);
        let kept = front.filter(p);
        let out = s.filter(p);
        assert forall|i: int, j: int|
            0 <= i < out.len() && 0 <= j < out.len() && (#[trigger] out[i]).about() == (
            #[trigger] out[j]).about() implies i == j by {
            if i < kept.len() && j < kept.len() {
                assert(kept[i].about() == kept[j].about());
            } else if i < kept.len() || j < kept.len() {
                let m = if i < kept.len() {
                    i
                } else {
                    j
                };
                let k = choose|k: int| 0 <= k < front.len() && front[k] == kept[m];
                assert(out[m] == kept[m]);
                assert(s[k].about() == s[s.len() - 1].about());
            }
        }
    }
}

/// The texts of the addresses that rows are about.
pub open spec fn ips_of<T: AboutIp>(rows: Seq<T>) -> Seq<Seq<char>> {
    rows.map_values(|r: T| r.about())
}

proof fn lemma_ips_distinct<T: AboutIp>(rows: Seq<T>)
    requires
        distinct_rows(rows),
    ensures
        ips_of(rows).no_duplicates(),
{
    let ips = ips_of(rows);
    assert forall|i: int, j: int|
        0 <= i < ips.len() && 0 <= j < ips.len() && i != j implies ips[i] != ips[j] by {
        if ips[i] == ips[j] {
            assert(rows[i].about() == rows[j].about());
        }
    }
}

/// The candidates are about distinct addresses where the counted ones are, and the report was taken
/// from them; all of them were counted.
pub proof fn law_candidates_are_distinct(
    display: Seq<IpCount>,
    full: Seq<IpCount>,
    with_ipinfo: bool,
    min_requests: u64,
)
    requires
        distinct_rows(full),
        distinct_rows(display),
        forall|i: int| 0 <= i < display.len() ==> full.contains(#[trigger] display[i]),
    ensures
        ({
            let chosen = candidates(display, full, with_ipinfo, min_requests);
            &&& distinct_rows(chosen)
            &&& forall|i: int|
                0 <= i < chosen.len() ==> full.contains((#[trigger] chosen[i]).counted)
        }),
{
    let chosen = candidates(display, full, with_ipinfo, min_requests);
    let wanted = |c: IpCount| c.count >= min_requests && row_about(display, c.ip@) is None;
    let others = full.filter(wanted);
    lists::lemma_filter_rows(full, wanted);
    lemma_filter_distinct(full, wanted);
    let n = display.len();
    assert forall|i: int| 0 <= i < chosen.len() implies full.contains(
        (#[trigger] chosen[i]).counted,
    ) && chosen[i].counted == (if i < n {
        display[i]
    } else {
        others[i - n]
    }) by {}
    assert forall|i: int, j: int|
        0 <= i < chosen.len() && 0 <= j < chosen.len() && (#[trigger] chosen[i]).about() == (
        #[trigger] chosen[j]).about() implies i == j by {
        if i < n && j < n {
            assert(display[i].about() == display[j].about());
        } else if i >= n && j >= n {
            assert(others[i - n].about() == others[j - n].about());
        } else {
            let a = if i < n {
                i
            } else {
                j
            };
            let b = if i < n {
                j
            } else {
                i
            };
            assert(wanted(others[b - n]));
            lemma_row_about(display, others[b - n].ip@);
            assert(display[a].about() == others[b - n].ip@);
        }
    }
}

/// Each counted address gets a record or is passed over, so the numbers of both add up.
pub proof fn law_candidates_and_skipped_add_up(full: Seq<IpCount>, chosen: Seq<Candidate>)
    requires
        distinct_rows(full),
        distinct_rows(chosen),
        forall|i: int| 0 <= i < chosen.len() ==> full.contains((#[trigger] chosen[i]).counted),
    ensures
        passed_over(full, chosen).len() + chosen.len() == full.len(),
{
    let absent = |c: IpCount| row_about(chosen, c.ip@) is None;
    let there = |c: IpCount| !absent(c);
    lists::lemma_filter_rows(full, absent);
    lists::lemma_filter_rows(full, there);
    lemma_filter_distinct(full, there);
    let kept = full.filter(there);
    assert(there =~= (|c: IpCount| !absent(c)));
    let a = ips_of(kept);
    let b = ips_of(chosen);
    lemma_ips_distinct(kept);
    lemma_ips_distinct(chosen);
    a.unique_seq_to_set();
    b.unique_seq_to_set();
    assert(a.to_set() =~= b.to_set()) by {
        assert forall|ip: Seq<char>| a.to_set().contains(ip) <==> b.to_set().contains(ip) by {
            if a.contains(ip) {
                let i = choose|i: int| 0 <= i < a.len() && a[i] == ip;
                assert(there(kept[i]));
                lemma_row_about(chosen, kept[i].ip@);
                let row = row_about(chosen, kept[i].ip@)->0;
                let k = choose|k: int| 0 <= k < chosen.len() && chosen[k] == row;
                assert(b[k] == ip);
            }
            if b.contains(ip) {
                let k = choose|k: int| 0 <= k < b.len() && b[k] == ip;
                let c = chosen[k].counted;
                let m = choose|m: int| 0 <= m < full.len() && full[m] == c;
                lemma_only_row(chosen, k);
                assert(there(full[m]));
                let i = choose|i: int| 0 <= i < kept.len() && kept[i] == full[m];
                assert(a[i] == ip);
            }
        }
    }
}

/// Records with more hits come first in the order of hits, and those with more bytes in the order of
/// bytes; equal ones are ordered by text.
pub proof fn law_records_are_ordered(rows: Seq<IpRecord>, i: int, j: int)
    requires
        rows.len() <= usize::MAX,
        0 <= i < j < rows.len(),
    ensures
        ({
            let s = sorting::ordered(rows, SortBy::Hits);
            s[i].count > s[j].count || (s[i].count == s[j].count && text::lex_le(s[i].ip@, s[j].ip@))
        }),
        ({
            let s = sorting::ordered(rows, SortBy::Bandwidth);
            s[i].bytes > s[j].bytes || (s[i].bytes == s[j].bytes && text::lex_le(s[i].ip@, s[j].ip@))
        }),
{
    sorting::law_ordered(rows, SortBy::Hits);
    sorting::law_ordered(rows, SortBy::Bandwidth);
    let h = sorting::ordered(rows, SortBy::Hits);
    let b = sorting::ordered(rows, SortBy::Bandwidth);
    assert(ranking::rank_le(h[i].rank(SortBy::Hits), h[j].rank(SortBy::Hits)));
    assert(ranking::rank_le(b[i].rank(SortBy::Bandwidth), b[j].rank(SortBy::Bandwidth)));
}

/// The bytes of a list of records are those of each, added up.
pub proof fn law_bytes_of_records(rows: Seq<IpRecord>, row: IpRecord)
    ensures
        sorting::bytes_sum(Seq::<IpRecord>::empty()) == 0,
        sorting::bytes_sum(rows.push(row)) == sorting::bytes_sum(rows) + row.bytes,
{
    assert(rows.push(row).drop_last() =~= rows);
}

/// The row that is found about an address is the last one about it.
pub proof fn law_the_last_row_counts<T: AboutIp>(rows: Seq<T>, ip: Seq<char>)
    ensures
        match row_about(rows, ip) {
            Some(row) => exists|i: int|
                0 <= i < rows.len() && #[trigger] rows[i] == row && row.about() == ip
                    && forall|j: int| i < j < rows.len() ==> (#[trigger] rows[j]).about() != ip,
            None => forall|j: int| 0 <= j < rows.len() ==> (#[trigger] rows[j]).about() != ip,
        },
    decreases rows.len(),
{
    if rows.len() > 0 {
        let front = rows.drop_last();
        let last = rows.len() - 1;
        law_the_last_row_counts(front, ip);
        if rows.last().about() == ip {
            assert(rows[last] == rows.last());
        } else {
            match row_about(front, ip) {
                Some(row) => {
                    let i = choose|i: int|
                        0 <= i < front.len() && #[trigger] front[i] == row && row.about() == ip
                            && forall|j: int|
                            i < j < front.len() ==> (#[trigger] front[j]).about() != ip;
                    assert(rows[i] == row);
                    assert forall|j: int| i < j < rows.len() implies (
                    #[trigger] rows[j]).about() != ip by {
                        if j < last {
                            assert(front[j] == rows[j]);
                        }
                    }
                },
                None => {
                    assert forall|j: int| 0 <= j < rows.len() implies (
                    #[trigger] rows[j]).about() != ip by {
                        if j < last {
                            assert(front[j] == rows[j]);
                        }
                    }
                },
            }
        }
    }
}

/// A new record has the counts of its address, and what is stored of it; the user agent of the log
/// goes before the one that is stored. With nothing stored, nothing is known yet.
pub proof fn law_what_a_new_record_holds(c: Candidate, row: CachedRow)
    ensures
        ({
            let rec = fresh_record(c, Some(row));
            &&& rec.ip == c.counted.ip
            &&& rec.count == c.counted.count
            &&& rec.bytes == c.counted.bytes
            &&& rec.in_display_set == c.in_display
            &&& c.counted.user_agent is Some ==> rec.user_agent == c.counted.user_agent
            &&& c.counted.user_agent is None ==> rec.user_agent == row.user_agent
            &&& rec.reverse_dns == row.reverse_dns
            &&& rec.org == row.org
            &&& rec.asn == row.asn
            &&& rec.infra == row.infra
            &&& rec.country == row.country
            &&& rec.company_domain == row.company_domain
            &&& rec.looked_up == row.looked_up
            &&& rec.lookup_in_progress == !row.looked_up
        }),
        ({
            let rec = fresh_record(c, None);
            &&& rec.ip == c.counted.ip
            &&& rec.count == c.counted.count
            &&& rec.bytes == c.counted.bytes
            &&& rec.in_display_set == c.in_display
            &&& rec.user_agent == c.counted.user_agent
            &&& rec.reverse_dns is None
            &&& rec.org is None
            &&& rec.asn is None
            &&& rec.infra is None
            &&& rec.country is None
            &&& rec.company_domain is None
            &&& !rec.looked_up
            &&& rec.lookup_in_progress
        }),
{
}

/// A record that is kept is about the same address, and keeps its user agent only where the log
/// gives none.
pub proof fn law_what_a_kept_record_holds(c: Candidate, rec: IpRecord)
    ensures
        ({
            let after = kept_record(c, rec);
            &&& after.ip == rec.ip
            &&& after.count == c.counted.count
            &&& after.bytes == c.counted.bytes
            &&& after.in_display_set == c.in_display
            &&& c.counted.user_agent is Some ==> after.user_agent == c.counted.user_agent
            &&& c.counted.user_agent is None ==> after.user_agent == rec.user_agent
        }),
{
}

/// A lookup is due exactly for an address without a record of which no finished lookup is stored,
/// and it is stored exactly if nothing is stored of it.
pub proof fn law_what_is_due(c: Candidate, before: Seq<IpRecord>, cached: Seq<CachedRow>)
    ensures
        ({
            let new = forall|i: int|
                0 <= i < before.len() ==> (#[trigger] before[i]).ip@ != c.counted.ip@;
            let unknown = forall|i: int|
                0 <= i < cached.len() ==> (#[trigger] cached[i]).ip@ != c.counted.ip@;
            &&& insert_due(c, before, cached) <==> new && unknown
            &&& new && unknown ==> lookup_due(c, before, cached)
            &&& !new ==> !lookup_due(c, before, cached)
            &&& new && !unknown ==> (lookup_due(c, before, cached) <==> !row_about(
                cached,
                c.counted.ip@,
            )->0.looked_up)
        }),
{
    lemma_row_about(before, c.counted.ip@);
    lemma_row_about(cached, c.counted.ip@);
    match row_about(before, c.counted.ip@) {
        Some(row) => {
            let i = choose|i: int| 0 <= i < before.len() && before[i] == row;
            assert(before[i].ip@ == c.counted.ip@);
        },
        None => {
            assert forall|i: int| 0 <= i < before.len() implies (#[trigger] before[i]).ip@
                != c.counted.ip@ by {
                assert(before[i].about() != c.counted.ip@);
            }
        },
    }
    match row_about(cached, c.counted.ip@) {
        Some(row) => {
            let i = choose|i: int| 0 <= i < cached.len() && cached[i] == row;
            assert(cached[i].ip@ == c.counted.ip@);
        },
        None => {
            assert forall|i: int| 0 <= i < cached.len() implies (#[trigger] cached[i]).ip@
                != c.counted.ip@ by {
                assert(cached[i].about() != c.counted.ip@);
            }
        },
    }
}

/// Each lookup is for a candidate that needs one, with its address and its requests, in the order
/// of the candidates, and each candidate that needs one gets it.
pub proof fn law_each_lookup_is_due(
    chosen: Seq<Candidate>,
    c: Candidate,
    before: Seq<IpRecord>,
    cached: Seq<CachedRow>,
)
    ensures
        jobs_for(Seq::empty(), before, cached).len() == 0,
        lookup_due(c, before, cached) ==> jobs_for(chosen.push(c), before, cached) == jobs_for(
            chosen,
            before,
            cached,
        ).push(LookupJob { ip: c.counted.ip, count: c.counted.count }),
        !lookup_due(c, before, cached) ==> jobs_for(chosen.push(c), before, cached) == jobs_for(
            chosen,
            before,
            cached,
        ),
        insert_due(c, before, cached) ==> inserts_for(chosen.push(c), before, cached)
            == inserts_for(chosen, before, cached).push(chosen.len() as usize),
        !insert_due(c, before, cached) ==> inserts_for(chosen.push(c), before, cached)
            == inserts_for(chosen, before, cached),
{
    reveal(Seq::filter);
    let p = |c: Candidate| lookup_due(c, before, cached);
    assert(chosen.push(c).drop_last() =~= chosen);
    assert(jobs_for(Seq::empty(), before, cached) =~= Seq::empty());
    if lookup_due(c, before, cached) {
        assert(chosen.push(c).filter(p) == chosen.filter(p).push(c));
        assert(jobs_for(chosen.push(c), before, cached) =~= jobs_for(chosen, before, cached).push(
            LookupJob { ip: c.counted.ip, count: c.counted.count },
        ));
    } else {
        assert(chosen.push(c).filter(p) == chosen.filter(p));
    }
}

/// Every address of the report gets a record that is shown; with ipinfo every other address with
/// enough requests gets one that is not, and no other does.
pub proof fn law_who_gets_a_record(
    display: Seq<IpCount>,
    full: Seq<IpCount>,
    with_ipinfo: bool,
    min_requests: u64,
    c: IpCount,
)
    ensures
        ({
            let all = candidates(display, full, with_ipinfo, min_requests);
            &&& all.contains(Candidate { counted: c, in_display: true }) <==> display.contains(c)
            &&& all.contains(Candidate { counted: c, in_display: false }) <==> with_ipinfo
                && full.contains(c) && c.count >= min_requests && forall|i: int|
                0 <= i < display.len() ==> (#[trigger] display[i]).ip@ != c.ip@
        }),
{
    let all = candidates(display, full, with_ipinfo, min_requests);
    let p = |c: IpCount| c.count >= min_requests && row_about(display, c.ip@) is None;
    let rest = full.filter(p);
    lists::lemma_filter_rows(full, p);
    let there = shown(display);
    let others = hidden(display, full, min_requests);
    let yes = Candidate { counted: c, in_display: true };
    let no = Candidate { counted: c, in_display: false };
    assert forall|i: int| 0 <= i < there.len() implies there[i].in_display && there[i].counted
        == display[i] by {}
    assert forall|i: int| 0 <= i < others.len() implies !others[i].in_display
        && others[i].counted == rest[i] by {}
    lemma_row_about(display, c.ip@);
    if all.contains(yes) {
        let i = choose|i: int| 0 <= i < all.len() && all[i] == yes;
        assert(i < there.len());
        assert(display[i] == c);
    }
    if display.contains(c) {
        let i = choose|i: int| 0 <= i < display.len() && display[i] == c;
        assert(all[i] == yes);
    }
    if all.contains(no) {
        let i = choose|i: int| 0 <= i < all.len() && all[i] == no;
        assert(i >= there.len());
        let k = i - there.len();
        assert(others[k] == no);
        assert(p(rest[k]));
        assert(full.contains(rest[k]));
        assert forall|i: int| 0 <= i < display.len() implies (#[trigger] display[i]).ip@
            != c.ip@ by {
            assert(display[i].about() != c.ip@);
        }
    }
    if with_ipinfo && full.contains(c) && c.count >= min_requests && (forall|i: int|
        0 <= i < display.len() ==> (#[trigger] display[i]).ip@ != c.ip@) {
        match row_about(display, c.ip@) {
            Some(row) => {
                let i = choose|i: int| 0 <= i < display.len() && display[i] == row;
                assert(display[i].ip@ == c.ip@);
            },
            None => {},
        }
        let j = choose|j: int| 0 <= j < full.len() && full[j] == c;
        assert(p(full[j]));
        assert(rest.contains(c));
        let k = choose|k: int| 0 <= k < rest.len() && rest[k] == c;
        assert(others[k] == no);
        assert(all[there.len() + k] == no);
    }
}

/// An address that has a record keeps it, and one that has none gets a new one from what is stored.
pub proof fn law_which_record_an_address_gets(
    c: Candidate,
    before: Seq<IpRecord>,
    cached: Seq<CachedRow>,
)
    ensures
        row_about(before, c.counted.ip@) is None ==> record_for(c, before, cached) == fresh_record(
            c,
            row_about(cached, c.counted.ip@),
        ),
        row_about(before, c.counted.ip@) matches Some(rec) ==> record_for(c, before, cached)
            == kept_record(c, rec),
{
}

/// An address is passed over exactly if none of the candidates is about it.
pub proof fn law_who_is_passed_over(full: Seq<IpCount>, c: IpCount, chosen: Seq<Candidate>)
    ensures
        passed_over(Seq::empty(), chosen).len() == 0,
        row_about(chosen, c.ip@) is None ==> passed_over(full.push(c), chosen) == passed_over(
            full,
            chosen,
        ).push(c),
        row_about(chosen, c.ip@) is Some ==> passed_over(full.push(c), chosen) == passed_over(
            full,
            chosen,
        ),
{
    reveal(Seq::filter);
    assert(full.push(c).drop_last() =~= full);
}

/// What is stored is of interest of each candidate without a record, and of no other.
pub proof fn law_who_is_unknown(chosen: Seq<Candidate>, c: Candidate, before: Seq<IpRecord>)
    ensures
        unknown_of(Seq::empty(), before).len() == 0,
        row_about(before, c.counted.ip@) is None ==> unknown_of(chosen.push(c), before)
            == unknown_of(chosen, before).push(c.counted.ip),
        row_about(before, c.counted.ip@) is Some ==> unknown_of(chosen.push(c), before)
            == unknown_of(chosen, before),
{
    reveal(Seq::filter);
    let p = |c: Candidate| row_about(before, c.counted.ip@) is None;
    assert(chosen.push(c).drop_last() =~= chosen);
    assert(unknown_of(Seq::empty(), before) =~= Seq::empty());
    if row_about(before, c.counted.ip@) is None {
        assert(chosen.push(c).filter(p) == chosen.filter(p).push(c));
        assert(unknown_of(chosen.push(c), before) =~= unknown_of(chosen, before).push(
            c.counted.ip,
        ));
    } else {
        assert(chosen.push(c).filter(p) == chosen.filter(p));
    }
}

} // verus!
