//! Records grouped by what they have in common.
use vstd::hash_map::StringHashMap;
use vstd::prelude::*;

use crate::classify;
use crate::cloud;
use crate::display::SortBy;
use crate::ranking;
use crate::ranking::Rank;
use crate::records::IpRecord;
use crate::sorting;
use crate::sorting::Ranked;
use crate::tally;
use crate::tally::TextTally;
use crate::text;

verus! {

broadcast use vstd::string::group_string_axioms;

// ---------------------------------------------------------------------------
// Model
// ---------------------------------------------------------------------------

/// The records of one key: their requests and bytes in sum, and how many they are.
#[derive(Debug)]
pub struct Group {
    pub key: String,
    pub count: u64,
    pub ips: usize,
    pub bytes: u64,
}

/// A group as a mathematical value.
pub ghost struct GroupView {
    pub key: Seq<char>,
    pub count: nat,
    pub ips: nat,
    pub bytes: nat,
}

impl View for Group {
    type V = GroupView;

    open spec fn view(&self) -> GroupView {
        GroupView {
            key: self.key@,
            count: self.count as nat,
            ips: self.ips as nat,
            bytes: self.bytes as nat,
        }
    }
}

/// Groups as mathematical values.
pub open spec fn group_views(groups: Seq<Group>) -> Seq<GroupView> {
    groups.map_values(|g: Group| g@)
}

/// The requests of each record, by key.
pub open spec fn hits_by(keys: Seq<Seq<char>>, recs: Seq<IpRecord>) -> Seq<(Seq<char>, u64)> {
    Seq::new(recs.len(), |i: int| (keys[i], recs[i].count))
}

/// The bytes of each record, by key.
pub open spec fn bytes_by(keys: Seq<Seq<char>>, recs: Seq<IpRecord>) -> Seq<(Seq<char>, u64)> {
    Seq::new(recs.len(), |i: int| (keys[i], recs[i].bytes))
}

/// The groups of records with these keys, in the order in which the keys first come.
pub open spec fn groups_of(keys: Seq<Seq<char>>, recs: Seq<IpRecord>) -> Seq<GroupView> {
    tally::distinct(hits_by(keys, recs)).map_values(
        |k: Seq<char>|
            GroupView {
                key: k,
                count: tally::total(hits_by(keys, recs), k),
                ips: tally::times(hits_by(keys, recs), k),
                bytes: tally::total(bytes_by(keys, recs), k),
            },
    )
}

/// The total of every key fits.
pub open spec fn totals_fit(items: Seq<(Seq<char>, u64)>) -> bool {
    forall|k: Seq<char>| (#[trigger] tally::total(items, k)) <= u64::MAX
}

/// The sums of every group fit.
pub open spec fn sums_fit(keys: Seq<Seq<char>>, recs: Seq<IpRecord>) -> bool {
    totals_fit(hits_by(keys, recs)) && totals_fit(bytes_by(keys, recs))
}

/// What a group is ordered by.
pub open spec fn group_rank(g: GroupView, by: SortBy) -> Rank {
    match by {
        SortBy::Hits => (g.count as u64, g.key),
        SortBy::Bandwidth => (g.bytes as u64, g.key),
    }
}

/// Groups in order: the most hits or bytes first, and equal ones by key.
pub open spec fn groups_ordered(groups: Seq<GroupView>, by: SortBy) -> Seq<GroupView> {
    let order = ranking::ranking(
        Seq::new(groups.len(), |i: int| group_rank(groups[i], by)),
    );
    Seq::new(order.len(), |i: int| groups[order[i] as int])
}

/// There are at most as many groups as records, and ordering them loses none.
pub proof fn lemma_group_count(keys: Seq<Seq<char>>, recs: Seq<IpRecord>, by: SortBy)
    requires
        recs.len() <= usize::MAX,
    ensures
        groups_of(keys, recs).len() <= recs.len(),
        groups_ordered(groups_of(keys, recs), by).len() == groups_of(keys, recs).len(),
{
    let gs = groups_of(keys, recs);
    tally::lemma_keys(hits_by(keys, recs));
    ranking::lemma_ranking(Seq::new(gs.len(), |i: int| group_rank(gs[i], by)));
}

// ---------------------------------------------------------------------------
// Grouping
// ---------------------------------------------------------------------------

/// What is said of the keys of items depends on the keys alone.
proof fn lemma_same_keys(a: Seq<(Seq<char>, u64)>, b: Seq<(Seq<char>, u64)>)
    requires
        a.len() == b.len(),
        forall|i: int| 0 <= i < a.len() ==> (#[trigger] a[i]).0 == b[i].0,
    ensures
        tally::distinct(a) == tally::distinct(b),
        forall|k: Seq<char>| #[trigger] tally::times(a, k) == tally::times(b, k),
    decreases a.len(),
{
    if a.len() > 0 {
        lemma_same_keys(a.drop_last(), b.drop_last());
        assert(a.last() == a[a.len() - 1]);
        assert forall|k: Seq<char>| #[trigger] tally::times(a, k) == tally::times(b, k) by {
            assert(tally::times(a.drop_last(), k) == tally::times(b.drop_last(), k));
        }
    }
}

/// A total of some of the items is at most that of all.
proof fn lemma_total_grows(items: Seq<(Seq<char>, u64)>, n: int, k: Seq<char>)
    requires
        0 <= n <= items.len(),
    ensures
        tally::total(items.take(n), k) <= tally::total(items, k),
    decreases items.len() - n,
{
    if n < items.len() {
        lemma_total_grows(items, n + 1, k);
        assert(items.take(n + 1).drop_last() =~= items.take(n));
    } else {
        assert(items.take(n) =~= items);
    }
}

/// The texts of keys.
pub open spec fn key_views(keys: Seq<String>) -> Seq<Seq<char>> {
    keys.map_values(|k: String| k@)
}

/// Groups records by keys that are given for them; nothing comes out if a sum does not fit.
pub fn group_by_keys(recs: &Vec<IpRecord>, keys: &Vec<String>) -> (r: Option<Vec<Group>>)
    requires
        keys@.len() == recs@.len(),
    ensures
        match r {
            Some(groups) => sums_fit(key_views(keys@), recs@) && group_views(groups@) == groups_of(
                key_views(keys@),
                recs@,
            ),
            None => !sums_fit(key_views(keys@), recs@),
        },
{
    let ghost names = key_views(keys@);
    let ghost hits = hits_by(names, recs@);
    let ghost sizes = bytes_by(names, recs@);
    let mut by_hits = TextTally::new();
    let mut by_bytes = TextTally::new();
    assert(hits.take(0) =~= Seq::empty());
    assert(sizes.take(0) =~= Seq::empty());
    for i in 0..recs.len()
        invariant
            keys@.len() == recs@.len(),
            names == key_views(keys@),
            hits == hits_by(names, recs@),
            sizes == bytes_by(names, recs@),
            by_hits.wf(),
            by_bytes.wf(),
            by_hits@ == hits.take(i as int),
            by_bytes@ == sizes.take(i as int),
            totals_fit(hits.take(i as int)),
            totals_fit(sizes.take(i as int)),
    {
        let key = keys[i].as_str();
        let rec = &recs[i];
        let ghost k = names[i as int];
        proof {
            assert(hits.take(i + 1) =~= hits.take(i as int).push((k, rec.count)));
            assert(sizes.take(i + 1) =~= sizes.take(i as int).push((k, rec.bytes)));
            tally::lemma_push(hits.take(i as int), k, rec.count);
            tally::lemma_push(sizes.take(i as int), k, rec.bytes);
            lemma_total_grows(hits, i + 1, k);
            lemma_total_grows(sizes, i + 1, k);
        }
        if rec.count > u64::MAX - by_hits.total_of(key) || rec.bytes > u64::MAX
            - by_bytes.total_of(key) {
            assert(tally::total(hits, k) > u64::MAX || tally::total(sizes, k) > u64::MAX);
            return None;
        }
        by_hits.count(key, rec.count);
        by_bytes.count(key, rec.bytes);
        assert(totals_fit(hits.take(i + 1))) by {
            assert forall|x: Seq<char>| (#[trigger] tally::total(hits.take(i + 1), x))
                <= u64::MAX by {
                assert(tally::total(hits.take(i as int), x) <= u64::MAX);
            }
        }
        assert(totals_fit(sizes.take(i + 1))) by {
            assert forall|x: Seq<char>| (#[trigger] tally::total(sizes.take(i + 1), x))
                <= u64::MAX by {
                assert(tally::total(sizes.take(i as int), x) <= u64::MAX);
            }
        }
    }
    assert(hits.take(recs@.len() as int) =~= hits);
    assert(sizes.take(recs@.len() as int) =~= sizes);
    proof {
        lemma_same_keys(hits, sizes);
        tally::lemma_keys(hits);
    }
    let rows = by_hits.into_rows();
    let sizes_rows = by_bytes.into_rows();
    let mut out: Vec<Group> = Vec::new();
    for i in 0..rows.len()
        invariant
            recs@.len() <= usize::MAX,
            hits.len() == recs@.len(),
            hits == hits_by(names, recs@),
            sizes == bytes_by(names, recs@),
            tally::rows_say(rows@, hits),
            tally::rows_say(sizes_rows@, sizes),
            tally::distinct(hits) == tally::distinct(sizes),
            forall|k: Seq<char>| #[trigger] tally::times(hits, k) <= hits.len(),
            out@.len() == i,
            forall|j: int|
                0 <= j < i ==> (#[trigger] out@[j])@ == groups_of(names, recs@)[j],
    {
        let row = &rows[i];
        assert(sizes_rows@[i as int].name@ == row.name@);
        assert(tally::times(hits, row.name@) <= hits.len());
        out.push(
            Group {
                key: row.name.clone(),
                count: row.bytes,
                ips: row.count as usize,
                bytes: sizes_rows[i].bytes,
            },
        );
    }
    assert(group_views(out@) =~= groups_of(names, recs@));
    Some(out)
}

impl Group {
    /// A copy of the group.
    pub fn copy(&self) -> (r: Group)
        ensures
            r == *self,
    {
        Group { key: self.key.clone(), count: self.count, ips: self.ips, bytes: self.bytes }
    }
}

impl Ranked for Group {
    open spec fn rank(&self, by: SortBy) -> Rank {
        match by {
            SortBy::Hits => (self.count, self.key@),
            SortBy::Bandwidth => (self.bytes, self.key@),
        }
    }

    fn weight(&self, by: SortBy) -> (r: u64) {
        match by {
            SortBy::Hits => self.count,
            SortBy::Bandwidth => self.bytes,
        }
    }

    fn name(&self) -> (r: &str) {
        self.key.as_str()
    }
}

/// Brings groups in order.
pub fn sort_groups(groups: &Vec<Group>, by: SortBy) -> (r: Vec<Group>)
    ensures
        r@ == sorting::ordered(groups@, by),
        group_views(r@) == groups_ordered(group_views(groups@), by),
{
    let order = sorting::order_of(groups, by);
    let mut out: Vec<Group> = Vec::new();
    for i in 0..order.len()
        invariant
            order@.len() == groups@.len(),
            forall|j: int| 0 <= j < order@.len() ==> (#[trigger] order@[j]) < groups@.len(),
            forall|j: int|
                0 <= j < order@.len() ==> groups@[#[trigger] order@[j] as int] == sorting::ordered(
                    groups@,
                    by,
                )[j],
            out@.len() == i,
            forall|j: int| 0 <= j < i ==> #[trigger] out@[j] == sorting::ordered(groups@, by)[j],
    {
        out.push(groups[order[i]].copy());
    }
    assert(out@ =~= sorting::ordered(groups@, by));
    proof {
        let views = group_views(groups@);
        assert(Seq::new(views.len(), |i: int| group_rank(views[i], by)) =~= sorting::ranks(
            groups@,
            by,
        ));
        ranking::lemma_ranking(sorting::ranks(groups@, by));
        assert(group_views(out@) =~= groups_ordered(views, by));
    }
    out
}

/// The keys are what the function gives for the records.
pub open spec fn keys_by<F: Fn(&IpRecord) -> String>(
    key_fn: F,
    recs: Seq<IpRecord>,
    keys: Seq<String>,
) -> bool {
    &&& keys.len() == recs.len()
    &&& forall|i: int|
        0 <= i < recs.len() ==> call_ensures(key_fn, (&recs[i],), #[trigger] keys[i])
}

/// Groups records by what a function gives for them, the most hits first; nothing comes out if a
/// sum does not fit.
pub fn aggregate_by_field<F>(recs: &Vec<IpRecord>, key_fn: &F) -> (r: Option<
    Vec<Group>,
>) where F: Fn(&IpRecord) -> String
    requires
        forall|i: int| 0 <= i < recs@.len() ==> call_requires(*key_fn, (&#[trigger] recs@[i],)),
    ensures
        exists|keys: Seq<String>| #[trigger]
            keys_by(*key_fn, recs@, keys) && match r {
                Some(groups) => sums_fit(key_views(keys), recs@) && group_views(groups@)
                    == groups_ordered(groups_of(key_views(keys), recs@), SortBy::Hits),
                None => !sums_fit(key_views(keys), recs@),
            },
{
    let mut keys: Vec<String> = Vec::new();
    for i in 0..recs.len()
        invariant
            forall|j: int| 0 <= j < recs@.len() ==> call_requires(*key_fn, (&#[trigger] recs@[j],)),
            keys@.len() == i,
            forall|j: int|
                0 <= j < i ==> call_ensures(*key_fn, (&recs@[j],), #[trigger] keys@[j]),
    {
        assert(call_requires(*key_fn, (&recs@[i as int],)));
        keys.push(key_fn(&recs[i]));
    }
    assert(keys_by(*key_fn, recs@, keys@));
    match group_by_keys(recs, &keys) {
        Some(groups) => Some(sort_groups(&groups, SortBy::Hits)),
        None => None,
    }
}

// ---------------------------------------------------------------------------
// What records are grouped by
// ---------------------------------------------------------------------------

/// What records are grouped by.
#[derive(Clone, Copy, Debug, PartialEq, Eq, Structural)]
pub enum Grouping {
    Org,
    Asn,
    Cloud,
}

/// What the report shows as the organisation of a record.
pub open spec fn org_of(rec: IpRecord, cloud_detail: bool) -> Seq<char> {
    cloud::org_with_infra(text::opt_view(rec.org), text::opt_view(rec.infra), cloud_detail)
}

/// The key of a record: its organisation, its autonomous system (or the organisation where that is
/// not known), or the cloud it belongs to.
pub open spec fn key_of(rec: IpRecord, grouping: Grouping, cloud_detail: bool) -> Seq<char> {
    match grouping {
        Grouping::Org => org_of(rec, cloud_detail),
        Grouping::Asn => match rec.asn {
            Some(asn) => asn@,
            None => org_of(rec, cloud_detail),
        },
        Grouping::Cloud => classify::cloud_label(rec),
    }
}

fn as_str(t: &Option<String>) -> (r: Option<&str>)
    ensures
        text::str_view(r) == text::opt_view(*t),
{
    match t {
        Some(s) => Some(s.as_str()),
        None => None,
    }
}

/// What the report shows as the organisation of a record.
pub fn org_shown_for(rec: &IpRecord, cloud_detail: bool) -> (r: String)
    ensures
        r@ == org_of(*rec, cloud_detail),
{
    cloud::display_org_with_infra(as_str(&rec.org), as_str(&rec.infra), cloud_detail)
}

/// The key of a record.
pub fn group_key(rec: &IpRecord, grouping: Grouping, cloud_detail: bool) -> (r: String)
    ensures
        r@ == key_of(*rec, grouping, cloud_detail),
{
    match grouping {
        Grouping::Org => org_shown_for(rec, cloud_detail),
        Grouping::Asn => match &rec.asn {
            Some(asn) => asn.clone(),
            None => org_shown_for(rec, cloud_detail),
        },
        Grouping::Cloud => classify::classify_cloud_provider(rec),
    }
}

/// The keys of records.
pub open spec fn keys_of(
    recs: Seq<IpRecord>,
    grouping: Grouping,
    cloud_detail: bool,
) -> Seq<Seq<char>> {
    recs.map_values(|r: IpRecord| key_of(r, grouping, cloud_detail))
}

/// Groups records, the most hits first; nothing comes out if a sum does not fit.
pub fn aggregate(recs: &Vec<IpRecord>, grouping: Grouping, cloud_detail: bool) -> (r: Option<
    Vec<Group>,
>)
    ensures
        match r {
            Some(groups) => sums_fit(keys_of(recs@, grouping, cloud_detail), recs@) && group_views(
                groups@,
            ) == groups_ordered(
                groups_of(keys_of(recs@, grouping, cloud_detail), recs@),
                SortBy::Hits,
            ),
            None => !sums_fit(keys_of(recs@, grouping, cloud_detail), recs@),
        },
{
    let key_fn = |rec: &IpRecord| -> (k: String)
        ensures
            k@ == key_of(*rec, grouping, cloud_detail),
        { group_key(rec, grouping, cloud_detail) };
    let r = aggregate_by_field(recs, &key_fn);
    proof {
        let keys = choose|keys: Seq<String>| #[trigger]
            keys_by(key_fn, recs@, keys) && match r {
                Some(groups) => sums_fit(key_views(keys), recs@) && group_views(groups@)
                    == groups_ordered(groups_of(key_views(keys), recs@), SortBy::Hits),
                None => !sums_fit(key_views(keys), recs@),
            };
        assert forall|i: int| 0 <= i < recs@.len() implies (#[trigger] keys[i])@ == key_of(
            recs@[i],
            grouping,
            cloud_detail,
        ) by {
            assert(call_ensures(key_fn, (&recs@[i],), keys[i]));
        }
        assert(key_views(keys) =~= keys_of(recs@, grouping, cloud_detail));
    }
    r
}

// ---------------------------------------------------------------------------
// The domains of a group
// ---------------------------------------------------------------------------

/// The domains of the records with a key.
pub open spec fn domains_of(
    keys: Seq<Seq<char>>,
    recs: Seq<IpRecord>,
    k: Seq<char>,
) -> Seq<(Seq<char>, u64)>
    decreases recs.len(),
{
    if recs.len() == 0 {
        Seq::empty()
    } else {
        let before = domains_of(keys, recs.drop_last(), k);
        match recs.last().company_domain {
            Some(d) => if keys[recs.len() - 1] == k {
                before.push((d@, 0u64))
            } else {
                before
            },
            None => before,
        }
    }
}

/// The domains of a group, each once, with commas between; a dash where there are none.
pub open spec fn domains_text(
    keys: Seq<Seq<char>>,
    recs: Seq<IpRecord>,
    k: Seq<char>,
) -> Seq<char> {
    let items = domains_of(keys, recs, k);
    if items.len() == 0 {
        "-"@
    } else {
        text::join(tally::distinct(items), ", "@)
    }
}

fn join_names(tally: &TextTally) -> (r: String)
    requires
        tally.wf(),
    ensures
        r@ == if tally@.len() == 0 {
            "-"@
        } else {
            text::join(tally::distinct(tally@), ", "@)
        },
{
    let rows = tally.rows();
    let ghost items = tally@;
    let ghost names = tally::distinct(items);
    proof {
        tally::lemma_keys(items);
        if items.len() > 0 {
            assert(tally::times(items, items.last().0) > 0);
            assert(names.contains(items.last().0));
        }
    }
    if rows.len() == 0 {
        return "-".to_owned();
    }
    let mut out = rows[0].name.clone();
    assert(names.take(1).len() == 1);
    assert(out@ == text::join(names.take(1), ", "@));
    for i in 1..rows.len()
        invariant
            names == tally::distinct(items),
            tally::rows_say(rows@, items),
            out@ == text::join(names.take(i as int), ", "@),
    {
        assert(names.take(i + 1) =~= names.take(i as int).push(names[i as int]));
        proof {
            text::lemma_join_push(names.take(i as int), names[i as int], ", "@);
        }
        out.append(", ");
        out.append(rows[i].name.as_str());
    }
    assert(names.take(names.len() as int) =~= names);
    out
}

/// No two groups have the same key.
pub open spec fn distinct_keys(groups: Seq<Group>) -> bool {
    forall|i: int, j: int|
        0 <= i < groups.len() && 0 <= j < groups.len() && (#[trigger] groups[i]).key@ == (
        #[trigger] groups[j]).key@ ==> i == j
}

/// The domains of the records of each group.
pub fn group_domains(
    recs: &Vec<IpRecord>,
    keys: &Vec<String>,
    groups: &Vec<Group>,
) -> (r: Vec<String>)
    requires
        keys@.len() == recs@.len(),
        distinct_keys(groups@),
    ensures
        r@.len() == groups@.len(),
        forall|i: int|
            0 <= i < r@.len() ==> (#[trigger] r@[i])@ == domains_text(
                key_views(keys@),
                recs@,
                groups@[i].key@,
            ),
{
    let ghost names = key_views(keys@);
    let mut index: StringHashMap<usize> = StringHashMap::new();
    let mut lists: Vec<TextTally> = Vec::new();
    for i in 0..groups.len()
        invariant
            distinct_keys(groups@),
            lists@.len() == i,
            forall|j: int|
                0 <= j < i ==> (#[trigger] lists@[j]).wf() && lists@[j]@ == domains_of(
                    names,
                    recs@.take(0),
                    groups@[j].key@,
                ),
            forall|k: Seq<char>| #[trigger]
                index@.contains_key(k) ==> index@[k] < i && groups@[index@[k] as int].key@ == k,
            forall|j: int| 0 <= j < i ==> index@.contains_key((#[trigger] groups@[j]).key@),
    {
        index.insert(groups[i].key.clone(), i);
        lists.push(TextTally::new());
    }
    for n in 0..recs.len()
        invariant
            keys@.len() == recs@.len(),
            names == key_views(keys@),
            distinct_keys(groups@),
            lists@.len() == groups@.len(),
            forall|j: int|
                0 <= j < lists@.len() ==> (#[trigger] lists@[j]).wf() && lists@[j]@ == domains_of(
                    names,
                    recs@.take(n as int),
                    groups@[j].key@,
                ),
            forall|j: int| 0 <= j < lists@.len() ==> (#[trigger] lists@[j])@.len() <= n,
            forall|j: int|
                #![trigger lists@[j]]
                0 <= j < lists@.len() ==> forall|d: Seq<char>| #[trigger]
                    tally::total(lists@[j]@, d) == 0,
            forall|k: Seq<char>| #[trigger]
                index@.contains_key(k) ==> index@[k] < groups@.len() && groups@[index@[k] as int].key@
                    == k,
            forall|j: int|
                0 <= j < groups@.len() ==> index@.contains_key((#[trigger] groups@[j]).key@),
    {
        let rec = &recs[n];
        let ghost before = lists@;
        assert(recs@.take(n + 1).drop_last() =~= recs@.take(n as int));
        assert(recs@.take(n + 1).last() == *rec);
        match &rec.company_domain {
            Some(d) => {
                match index.get(keys[n].as_str()) {
                    Some(at) => {
                        let i: usize = *at;
                        proof {
                            tally::lemma_push(before[i as int]@, d@, 0u64);
                        }
                        lists[i].count(d.as_str(), 0);
                        assert forall|j: int| 0 <= j < lists@.len() && j != i implies groups@[j].key@
                            != names[n as int] by {
                            assert(groups@[j].key@ == groups@[i as int].key@ ==> j == i);
                        }
                        assert forall|j: int| 0 <= j < lists@.len() implies (
                        #[trigger] lists@[j]).wf() && lists@[j]@ == domains_of(
                            names,
                            recs@.take(n + 1),
                            groups@[j].key@,
                        ) && lists@[j]@.len() <= n + 1 && (forall|x: Seq<char>| #[trigger]
                            tally::total(lists@[j]@, x) == 0) by {
                            if j != i {
                                assert(lists@[j] == before[j]);
                            } else {
                                assert(forall|x: Seq<char>| #[trigger]
                                    tally::total(before[j]@, x) == 0);
                            }
                        }
                    },
                    None => {
                        assert(forall|j: int|
                            0 <= j < groups@.len() ==> (#[trigger] groups@[j]).key@
                                != names[n as int]);
                    },
                }
            },
            None => {},
        }
    }
    assert(recs@.take(recs@.len() as int) =~= recs@);
    let mut out: Vec<String> = Vec::new();
    for i in 0..lists.len()
        invariant
            lists@.len() == groups@.len(),
            forall|j: int|
                0 <= j < lists@.len() ==> (#[trigger] lists@[j]).wf() && lists@[j]@ == domains_of(
                    names,
                    recs@,
                    groups@[j].key@,
                ),
            out@.len() == i,
            forall|j: int|
                0 <= j < i ==> (#[trigger] out@[j])@ == domains_text(
                    names,
                    recs@,
                    groups@[j].key@,
                ),
    {
        out.push(join_names(&lists[i]));
    }
    out
}

// ---------------------------------------------------------------------------
// Laws
// ---------------------------------------------------------------------------

/// Grouping loses nothing: the requests, the bytes and the numbers of the groups add up to those of
/// the records.
pub proof fn law_groups_add_up(keys: Seq<Seq<char>>, recs: Seq<IpRecord>)
    ensures
        tally::sum(groups_of(keys, recs).map_values(|g: GroupView| g.count))
            == tally::grand_total(hits_by(keys, recs)),
        tally::sum(groups_of(keys, recs).map_values(|g: GroupView| g.bytes))
            == sorting::bytes_sum(recs),
        tally::sum(groups_of(keys, recs).map_values(|g: GroupView| g.ips)) == recs.len(),
{
    let hits = hits_by(keys, recs);
    let sizes = bytes_by(keys, recs);
    let gs = groups_of(keys, recs);
    lemma_same_keys(hits, sizes);
    tally::law_totals_add_up(hits);
    tally::law_totals_add_up(sizes);
    tally::law_counts_add_up(hits);
    assert(gs.map_values(|g: GroupView| g.count) =~= tally::distinct(hits).map_values(
        |k: Seq<char>| tally::total(hits, k),
    ));
    assert(gs.map_values(|g: GroupView| g.bytes) =~= tally::distinct(sizes).map_values(
        |k: Seq<char>| tally::total(sizes, k),
    ));
    assert(gs.map_values(|g: GroupView| g.ips) =~= tally::distinct(hits).map_values(
        |k: Seq<char>| tally::times(hits, k),
    ));
    lemma_bytes_total(keys, recs);
}

proof fn lemma_bytes_total(keys: Seq<Seq<char>>, recs: Seq<IpRecord>)
    ensures
        tally::grand_total(bytes_by(keys, recs)) == sorting::bytes_sum(recs),
    decreases recs.len(),
{
    if recs.len() > 0 {
        lemma_bytes_total(keys, recs.drop_last());
        assert(bytes_by(keys, recs).drop_last() =~= bytes_by(keys, recs.drop_last()));
    }
}

/// Each record is in exactly one group, that of its key.
pub proof fn law_each_record_has_its_group(keys: Seq<Seq<char>>, recs: Seq<IpRecord>, i: int)
    requires
        0 <= i < recs.len(),
    ensures
        exists|g: int|
            0 <= g < groups_of(keys, recs).len() && #[trigger] groups_of(keys, recs)[g].key
                == keys[i],
        forall|g: int, h: int|
            0 <= g < groups_of(keys, recs).len() && 0 <= h < groups_of(keys, recs).len()
                && #[trigger] groups_of(keys, recs)[g].key == #[trigger] groups_of(keys, recs)[h].key
                ==> g == h,
{
    let hits = hits_by(keys, recs);
    let names = tally::distinct(hits);
    tally::lemma_keys(hits);
    lemma_key_came(hits, i);
    assert(names.contains(keys[i]));
    let g = choose|g: int| 0 <= g < names.len() && names[g] == keys[i];
    assert(groups_of(keys, recs)[g].key == keys[i]);
}

proof fn lemma_key_came(items: Seq<(Seq<char>, u64)>, i: int)
    requires
        0 <= i < items.len(),
    ensures
        tally::times(items, items[i].0) > 0,
    decreases items.len(),
{
    if i < items.len() - 1 {
        lemma_key_came(items.drop_last(), i);
    }
}

/// The groups of the report are in order.
pub proof fn law_groups_are_in_order(keys: Seq<Seq<char>>, recs: Seq<IpRecord>, by: SortBy)
    requires
        recs.len() <= usize::MAX,
    ensures
        ({
            let gs = groups_ordered(groups_of(keys, recs), by);
            forall|i: int, j: int|
                0 <= i < j < gs.len() ==> ranking::rank_le(
                    group_rank(#[trigger] gs[i], by),
                    group_rank(#[trigger] gs[j], by),
                )
        }),
{
    lemma_group_count(keys, recs, by);
    let base = groups_of(keys, recs);
    let rs = Seq::new(base.len(), |i: int| group_rank(base[i], by));
    let order = ranking::ranking(rs);
    ranking::lemma_ranking(rs);
    let gs = groups_ordered(base, by);
    assert forall|i: int, j: int| 0 <= i < j < gs.len() implies ranking::rank_le(
        group_rank(#[trigger] gs[i], by),
        group_rank(#[trigger] gs[j], by),
    ) by {
        assert(ranking::earlier(rs, order[i] as int, order[j] as int));
    }
}

/// What ordering does to groups with distinct keys.
proof fn lemma_ordered_groups(keys: Seq<Seq<char>>, recs: Seq<IpRecord>, by: SortBy)
    requires
        recs.len() <= usize::MAX,
    ensures
        ({
            let gs = groups_ordered(groups_of(keys, recs), by);
            let rank = |g: GroupView| group_rank(g, by);
            &&& gs.len() == groups_of(keys, recs).len()
            &&& forall|g: GroupView| #[trigger]
                gs.contains(g) <==> groups_of(keys, recs).contains(g)
            &&& ranking::stands_in_order(gs, rank)
            &&& ranking::names_differ(gs, rank)
        }),
{
    let base = groups_of(keys, recs);
    let gs = groups_ordered(base, by);
    let rank = |g: GroupView| group_rank(g, by);
    let rs = Seq::new(base.len(), |i: int| group_rank(base[i], by));
    let order = ranking::ranking(rs);
    lemma_group_count(keys, recs, by);
    ranking::lemma_ranking(rs);
    ranking::lemma_no_row_twice(rs, order);
    tally::lemma_keys(hits_by(keys, recs));
    law_groups_are_in_order(keys, recs, by);
    assert forall|g: GroupView| #[trigger] gs.contains(g) <==> base.contains(g) by {
        if gs.contains(g) {
            let i = choose|i: int| 0 <= i < gs.len() && gs[i] == g;
            assert(base[order[i] as int] == g);
        }
        if base.contains(g) {
            let k = choose|k: int| 0 <= k < base.len() && base[k] == g;
            assert(order.contains(k as usize));
            let i = choose|i: int| 0 <= i < order.len() && order[i] == k as usize;
            assert(gs[i] == g);
        }
    }
    assert forall|i: int, j: int| 0 <= i < j < gs.len() implies ranking::rank_le(
        rank(#[trigger] gs[i]),
        rank(#[trigger] gs[j]),
    ) by {}
    assert forall|i: int, j: int|
        0 <= i < gs.len() && 0 <= j < gs.len() && rank(#[trigger] gs[i]).1 == rank(
            #[trigger] gs[j],
        ).1 implies i == j by {
        assert(base[order[i] as int].key == base[order[j] as int].key);
        assert(order[i] == order[j]);
    }
}

proof fn lemma_fits_too(a: Seq<(Seq<char>, u64)>, b: Seq<(Seq<char>, u64)>)
    requires
        forall|k: Seq<char>| #[trigger] tally::total(a, k) == tally::total(b, k),
    ensures
        totals_fit(a) ==> totals_fit(b),
{
    if totals_fit(a) {
        assert forall|k: Seq<char>| (#[trigger] tally::total(b, k)) <= u64::MAX by {
            assert(tally::total(a, k) <= u64::MAX);
        }
    }
}

/// The same groups come of the same records, in whatever order these are listed.
proof fn lemma_same_groups(a: Seq<IpRecord>, b: Seq<IpRecord>, key: spec_fn(IpRecord) -> Seq<char>)
    requires
        a.to_multiset() == b.to_multiset(),
    ensures
        ({
            let ga = groups_of(a.map_values(key), a);
            let gb = groups_of(b.map_values(key), b);
            &&& ga.len() == gb.len()
            &&& forall|g: GroupView| #[trigger] ga.contains(g) <==> gb.contains(g)
        }),
        sums_fit(a.map_values(key), a) == sums_fit(b.map_values(key), b),
{
    let hit = |r: IpRecord| (key(r), r.count);
    let size = |r: IpRecord| (key(r), r.bytes);
    let (ha, hb) = (hits_by(a.map_values(key), a), hits_by(b.map_values(key), b));
    let (sa, sb) = (bytes_by(a.map_values(key), a), bytes_by(b.map_values(key), b));
    assert(ha =~= a.map_values(hit) && hb =~= b.map_values(hit));
    assert(sa =~= a.map_values(size) && sb =~= b.map_values(size));
    assert forall|k: Seq<char>| #[trigger]
        tally::times(ha, k) == tally::times(hb, k) && tally::total(ha, k) == tally::total(hb, k)
            && tally::total(sa, k) == tally::total(sb, k) by {
        tally::law_rearranging_keeps_the_sums(a, b, hit, k);
        tally::law_rearranging_keeps_the_sums(a, b, size, k);
    }
    assert forall|k: Seq<char>| tally::total(ha, k) == tally::total(hb, k) && tally::total(sa, k)
        == tally::total(sb, k) by {
        assert(tally::times(ha, k) == tally::times(hb, k));
    }
    lemma_fits_too(ha, hb);
    lemma_fits_too(hb, ha);
    lemma_fits_too(sa, sb);
    lemma_fits_too(sb, sa);
    tally::lemma_keys(ha);
    tally::lemma_keys(hb);
    let (na, nb) = (tally::distinct(ha), tally::distinct(hb));
    assert forall|k: Seq<char>| #[trigger] na.contains(k) <==> nb.contains(k) by {
        assert(tally::times(ha, k) == tally::times(hb, k));
    }
    na.unique_seq_to_set();
    nb.unique_seq_to_set();
    assert(na.to_set() =~= nb.to_set()) by {
        assert forall|k: Seq<char>| na.to_set().contains(k) <==> nb.to_set().contains(k) by {
            assert(na.contains(k) <==> nb.contains(k));
        }
    }
    let ga = groups_of(a.map_values(key), a);
    let gb = groups_of(b.map_values(key), b);
    assert forall|g: GroupView| #[trigger] ga.contains(g) <==> gb.contains(g) by {
        assert(tally::times(ha, g.key) == tally::times(hb, g.key));
        if ga.contains(g) {
            let i = choose|i: int| 0 <= i < ga.len() && ga[i] == g;
            assert(na[i] == g.key);
            assert(na.contains(g.key) && nb.contains(g.key));
            let j = choose|j: int| 0 <= j < nb.len() && nb[j] == g.key;
            assert(gb[j] == g);
        }
        if gb.contains(g) {
            let j = choose|j: int| 0 <= j < gb.len() && gb[j] == g;
            assert(nb[j] == g.key);
            assert(nb.contains(g.key) && na.contains(g.key));
            let i = choose|i: int| 0 <= i < na.len() && na[i] == g.key;
            assert(ga[i] == g);
        }
    }
}

/// Grouping does not depend on the order in which the records are listed.
pub proof fn law_grouping_ignores_the_order_of_records(
    a: Seq<IpRecord>,
    b: Seq<IpRecord>,
    key: spec_fn(IpRecord) -> Seq<char>,
    by: SortBy,
)
    requires
        a.len() <= usize::MAX,
        a.to_multiset() == b.to_multiset(),
    ensures
        groups_ordered(groups_of(a.map_values(key), a), by) == groups_ordered(
            groups_of(b.map_values(key), b),
            by,
        ),
        sums_fit(a.map_values(key), a) == sums_fit(b.map_values(key), b),
{
    a.to_multiset_ensures();
    b.to_multiset_ensures();
    lemma_same_groups(a, b, key);
    lemma_ordered_groups(a.map_values(key), a, by);
    lemma_ordered_groups(b.map_values(key), b, by);
    let x = groups_ordered(groups_of(a.map_values(key), a), by);
    let y = groups_ordered(groups_of(b.map_values(key), b), by);
    assert forall|g: GroupView| #[trigger] x.contains(g) <==> y.contains(g) by {
        assert(groups_of(a.map_values(key), a).contains(g) <==> groups_of(
            b.map_values(key),
            b,
        ).contains(g));
    }
    ranking::lemma_one_order(x, y, |g: GroupView| group_rank(g, by));
}

/// Grouping by a function that gives each record its key comes out the same for the same records,
/// in whatever order these are listed.
pub proof fn law_aggregating_ignores_the_order_of_records<F: Fn(&IpRecord) -> String>(
    key_fn: F,
    key: spec_fn(IpRecord) -> Seq<char>,
    a: Seq<IpRecord>,
    a_keys: Seq<String>,
    b: Seq<IpRecord>,
    b_keys: Seq<String>,
)
    requires
        forall|r: IpRecord, k: String| #[trigger]
            call_ensures(key_fn, (&r,), k) ==> k@ == key(r),
        a.len() <= usize::MAX,
        a.to_multiset() == b.to_multiset(),
        keys_by(key_fn, a, a_keys),
        keys_by(key_fn, b, b_keys),
    ensures
        groups_ordered(groups_of(key_views(a_keys), a), SortBy::Hits) == groups_ordered(
            groups_of(key_views(b_keys), b),
            SortBy::Hits,
        ),
        sums_fit(key_views(a_keys), a) == sums_fit(key_views(b_keys), b),
{
    assert(key_views(a_keys) =~= a.map_values(key)) by {
        assert forall|i: int| 0 <= i < a.len() implies (#[trigger] a_keys[i])@ == key(a[i]) by {
            assert(call_ensures(key_fn, (&a[i],), a_keys[i]));
        }
    }
    assert(key_views(b_keys) =~= b.map_values(key)) by {
        assert forall|i: int| 0 <= i < b.len() implies (#[trigger] b_keys[i])@ == key(b[i]) by {
            assert(call_ensures(key_fn, (&b[i],), b_keys[i]));
        }
    }
    law_grouping_ignores_the_order_of_records(a, b, key, SortBy::Hits);
}

// ---------------------------------------------------------------------------
// Laws of keys and domains
// ---------------------------------------------------------------------------

/// Records are grouped by what they show as their organisation, by their autonomous system, or
/// else the organisation, or by their cloud.
pub proof fn law_what_records_are_grouped_by(rec: IpRecord, cloud_detail: bool)
    ensures
        key_of(rec, Grouping::Org, cloud_detail) == cloud::org_with_infra(
            text::opt_view(rec.org),
            text::opt_view(rec.infra),
            cloud_detail,
        ),
        rec.asn matches Some(asn) ==> key_of(rec, Grouping::Asn, cloud_detail) == asn@,
        rec.asn is None ==> key_of(rec, Grouping::Asn, cloud_detail) == key_of(
            rec,
            Grouping::Org,
            cloud_detail,
        ),
        key_of(rec, Grouping::Cloud, cloud_detail) == classify::cloud_label(rec),
        rec.org is Some && rec.infra is None ==> key_of(rec, Grouping::Org, cloud_detail)
            == rec.org->0@,
        rec.org is None && rec.infra is None ==> key_of(rec, Grouping::Org, cloud_detail) == "-"@,
{
}

/// The groups with more hits come first in the order of hits, and those with more bytes in the order
/// of bytes; equal ones are ordered by key.
pub proof fn law_the_largest_groups_come_first(
    keys: Seq<Seq<char>>,
    recs: Seq<IpRecord>,
    i: int,
    j: int,
)
    requires
        recs.len() <= usize::MAX,
        sums_fit(keys, recs),
        0 <= i < j < groups_of(keys, recs).len(),
    ensures
        ({
            let s = groups_ordered(groups_of(keys, recs), SortBy::Hits);
            s[i].count > s[j].count || (s[i].count == s[j].count && text::lex_le(s[i].key, s[j].key))
        }),
        ({
            let s = groups_ordered(groups_of(keys, recs), SortBy::Bandwidth);
            s[i].bytes > s[j].bytes || (s[i].bytes == s[j].bytes && text::lex_le(s[i].key, s[j].key))
        }),
{
    lemma_order_by(keys, recs, SortBy::Hits, i, j);
    lemma_order_by(keys, recs, SortBy::Bandwidth, i, j);
}

proof fn lemma_order_by(
    keys: Seq<Seq<char>>,
    recs: Seq<IpRecord>,
    by: SortBy,
    i: int,
    j: int,
)
    requires
        recs.len() <= usize::MAX,
        sums_fit(keys, recs),
        0 <= i < j < groups_of(keys, recs).len(),
    ensures
        ({
            let s = groups_ordered(groups_of(keys, recs), by);
            &&& ranking::rank_le(group_rank(s[i], by), group_rank(s[j], by))
            &&& s[i].count <= u64::MAX
            &&& s[j].count <= u64::MAX
            &&& s[i].bytes <= u64::MAX
            &&& s[j].bytes <= u64::MAX
        }),
{
    law_groups_are_in_order(keys, recs, by);
    lemma_group_count(keys, recs, by);
    let base = groups_of(keys, recs);
    let rs = Seq::new(base.len(), |i: int| group_rank(base[i], by));
    ranking::lemma_ranking(rs);
    let order = ranking::ranking(rs);
    let s = groups_ordered(base, by);
    assert(s[i] == base[order[i] as int] && s[j] == base[order[j] as int]);
    assert(tally::total(hits_by(keys, recs), s[i].key) <= u64::MAX);
    assert(tally::total(hits_by(keys, recs), s[j].key) <= u64::MAX);
    assert(tally::total(bytes_by(keys, recs), s[i].key) <= u64::MAX);
    assert(tally::total(bytes_by(keys, recs), s[j].key) <= u64::MAX);
}

/// One more record adds its requests, its bytes and one address to its group, and changes no other.
pub proof fn law_a_record_counts_for_its_group(
    keys: Seq<Seq<char>>,
    recs: Seq<IpRecord>,
    rec: IpRecord,
    key: Seq<char>,
    k: Seq<char>,
)
    requires
        keys.len() == recs.len(),
    ensures
        ({
            let more = recs.push(rec);
            let more_keys = keys.push(key);
            let mine = if k == key {
                1int
            } else {
                0int
            };
            &&& tally::times(hits_by(more_keys, more), k) == tally::times(hits_by(keys, recs), k)
                + mine
            &&& tally::total(hits_by(more_keys, more), k) == tally::total(hits_by(keys, recs), k)
                + mine * rec.count
            &&& tally::total(bytes_by(more_keys, more), k) == tally::total(bytes_by(keys, recs), k)
                + mine * rec.bytes
        }),
{
    let more = recs.push(rec);
    let more_keys = keys.push(key);
    assert(hits_by(more_keys, more) =~= hits_by(keys, recs).push((key, rec.count)));
    assert(bytes_by(more_keys, more) =~= bytes_by(keys, recs).push((key, rec.bytes)));
    tally::lemma_push(hits_by(keys, recs), key, rec.count);
    tally::lemma_push(bytes_by(keys, recs), key, rec.bytes);
}

/// The domains of a group are those of its records, each once; a group without any has a dash.
pub proof fn law_domains_of_a_group(keys: Seq<Seq<char>>, recs: Seq<IpRecord>, k: Seq<char>)
    requires
        keys.len() == recs.len(),
    ensures
        ({
            let all = tally::distinct(domains_of(keys, recs, k));
            &&& all.no_duplicates()
            &&& forall|d: Seq<char>| #[trigger]
                all.contains(d) <==> exists|i: int|
                    0 <= i < recs.len() && keys[i] == k && (#[trigger] recs[i]).company_domain is Some
                        && recs[i].company_domain->0@ == d
            &&& all.len() == 0 ==> domains_text(keys, recs, k) == "-"@
            &&& all.len() > 0 ==> domains_text(keys, recs, k) == text::join(all, ", "@)
        }),
{
    let items = domains_of(keys, recs, k);
    let all = tally::distinct(items);
    tally::lemma_keys(items);
    if items.len() > 0 {
        tally::lemma_push(items.drop_last(), items.last().0, items.last().1);
        assert(items =~= items.drop_last().push(items.last()));
        assert(tally::times(items, items.last().0) > 0);
        assert(all.contains(items.last().0));
    }
    assert forall|d: Seq<char>| #[trigger] all.contains(d) <==> exists|i: int|
        0 <= i < recs.len() && keys[i] == k && (#[trigger] recs[i]).company_domain is Some
            && recs[i].company_domain->0@ == d by {
        lemma_domain_came(keys, recs, k, d);
    }
}

proof fn lemma_domain_came(
    keys: Seq<Seq<char>>,
    recs: Seq<IpRecord>,
    k: Seq<char>,
    d: Seq<char>,
)
    ensures
        tally::times(domains_of(keys, recs, k), d) > 0 <==> exists|i: int|
            0 <= i < recs.len() && keys[i] == k && (#[trigger] recs[i]).company_domain is Some
                && recs[i].company_domain->0@ == d,
    decreases recs.len(),
{
    if recs.len() > 0 {
        let front = recs.drop_last();
        let last = recs.len() - 1;
        lemma_domain_came(keys, front, k, d);
        let before = domains_of(keys, front, k);
        match recs.last().company_domain {
            Some(x) => {
                tally::lemma_push(before, x@, 0u64);
            },
            None => {},
        }
        assert(recs[last] == recs.last());
        if tally::times(before, d) > 0 {
            let i = choose|i: int|
                0 <= i < front.len() && keys[i] == k && (#[trigger] front[i]).company_domain is Some
                    && front[i].company_domain->0@ == d;
            assert(recs[i] == front[i]);
        }
        assert forall|i: int|
            0 <= i < recs.len() && keys[i] == k && (#[trigger] recs[i]).company_domain is Some
                && recs[i].company_domain->0@ == d && i < last implies tally::times(before, d)
            > 0 by {
            assert(front[i] == recs[i]);
        }
    }
}

/// What is said of a group are the requests, the addresses and the bytes of the records that have
/// its key, and the groups come in the order in which their keys first came.
pub proof fn law_what_is_said_of_a_group(keys: Seq<Seq<char>>, recs: Seq<IpRecord>, i: int)
    requires
        0 <= i < groups_of(keys, recs).len(),
    ensures
        ({
            let g = groups_of(keys, recs)[i];
            &&& g.key == tally::distinct(hits_by(keys, recs))[i]
            &&& g.count == tally::total(hits_by(keys, recs), g.key)
            &&& g.bytes == tally::total(bytes_by(keys, recs), g.key)
            &&& g.ips == tally::times(hits_by(keys, recs), g.key)
        }),
        groups_of(keys, recs).len() == tally::distinct(hits_by(keys, recs)).len(),
{
}

/// The sums fit exactly if no key has more requests or bytes than can be counted.
pub proof fn law_when_sums_fit(keys: Seq<Seq<char>>, recs: Seq<IpRecord>, k: Seq<char>)
    ensures
        sums_fit(keys, recs) ==> tally::total(hits_by(keys, recs), k) <= u64::MAX && tally::total(
            bytes_by(keys, recs),
            k,
        ) <= u64::MAX,
        tally::total(hits_by(keys, recs), k) > u64::MAX ==> !sums_fit(keys, recs),
        tally::total(bytes_by(keys, recs), k) > u64::MAX ==> !sums_fit(keys, recs),
{
}

} // verus!
