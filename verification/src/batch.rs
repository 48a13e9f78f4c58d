//! Cutting lists into batches, and the queries for them.
use vstd::prelude::*;

use crate::records::LookupJob;
use crate::text;

verus! {

broadcast use vstd::string::group_string_axioms;

/// A list cut into pieces of `n`; the last piece may be shorter.
pub open spec fn chunks<T>(s: Seq<T>, n: nat) -> Seq<Seq<T>>
    decreases s.len(),
    when n > 0
{
    if s.len() == 0 {
        Seq::empty()
    } else if s.len() <= n {
        seq![s]
    } else {
        seq![s.take(n as int)] + chunks(s.skip(n as int), n)
    }
}

/// The pieces are the list, and none is empty or longer than `n`.
pub proof fn law_chunks<T>(s: Seq<T>, n: nat)
    requires
        n > 0,
    ensures
        chunks(s, n).flatten() == s,
        forall|i: int| 0 <= i < chunks(s, n).len() ==> 0 < (#[trigger] chunks(s, n)[i]).len() <= n,
    decreases s.len(),
{
    let c = chunks(s, n);
    if s.len() == 0 {
        assert(c.flatten() =~= s);
    } else if s.len() <= n {
        assert(c.drop_first() =~= Seq::<Seq<T>>::empty());
        assert(c.drop_first().flatten() =~= Seq::<T>::empty());
        assert(c.flatten() =~= s);
    } else {
        let rest = chunks(s.skip(n as int), n);
        law_chunks(s.skip(n as int), n);
        assert(c.drop_first() =~= rest);
        assert(c.flatten() =~= s.take(n as int) + rest.flatten());
        assert(c.flatten() =~= s);
        assert forall|i: int| 0 <= i < c.len() implies 0 < (#[trigger] c[i]).len() <= n by {
            if i > 0 {
                assert(c[i] == rest[i - 1]);
            }
        }
    }
}

/// The contents of a list of lists.
pub open spec fn lists<T>(v: Seq<Vec<T>>) -> Seq<Seq<T>> {
    v.map_values(|x: Vec<T>| x@)
}

/// Cuts a list of texts into pieces.
pub fn chunked(items: &Vec<String>, n: usize) -> (r: Vec<Vec<String>>)
    requires
        n > 0,
    ensures
        lists(r@) == chunks(items@, n as nat),
{
    let mut out: Vec<Vec<String>> = Vec::new();
    let mut from: usize = 0;
    assert(items@.skip(0) =~= items@);
    assert(lists(out@) + chunks(items@, n as nat) =~= chunks(items@, n as nat));
    while from < items.len()
        invariant
            n > 0,
            from <= items@.len(),
            lists(out@) + chunks(items@.skip(from as int), n as nat) == chunks(items@, n as nat),
        decreases items@.len() - from,
    {
        let to: usize = if items.len() - from <= n {
            items.len()
        } else {
            from + n
        };
        let ghost rest = items@.skip(from as int);
        let ghost before = lists(out@);
        let mut piece: Vec<String> = Vec::new();
        for i in from..to
            invariant
                to <= items@.len(),
                piece@ == items@.subrange(from as int, i as int),
        {
            piece.push(items[i].clone());
            assert(piece@ =~= items@.subrange(from as int, i + 1));
        }
        out.push(piece);
        proof {
            assert(piece@ =~= rest.take(to - from));
            assert(rest.skip(to - from) =~= items@.skip(to as int));
            assert(lists(out@) =~= before.push(piece@));
            if rest.len() <= n {
                assert(rest.take(to - from) =~= rest);
                assert(items@.skip(to as int) =~= Seq::empty());
                assert(before + chunks(rest, n as nat) =~= lists(out@) + chunks(
                    items@.skip(to as int),
                    n as nat,
                ));
            } else {
                assert(before + chunks(rest, n as nat) =~= lists(out@) + chunks(
                    items@.skip(to as int),
                    n as nat,
                ));
            }
        }
        from = to;
    }
    assert(items@.skip(from as int) =~= Seq::empty());
    assert(lists(out@) + chunks(Seq::<String>::empty(), n as nat) =~= lists(out@));
    out
}

/// How many addresses one request to ipinfo may ask for.
pub const IPINFO_BATCH: usize = 1000;

/// How many addresses one query may ask for.
pub const QUERY_BATCH: usize = 500;

/// How the lookups are made.
#[derive(Debug)]
pub struct LookupPlan {
    /// The addresses that ipinfo is asked for, by request.
    pub batches: Vec<Vec<String>>,
    /// The addresses that are looked up one by one.
    pub single: Vec<LookupJob>,
}

/// The addresses of jobs.
pub open spec fn job_ips(jobs: Seq<LookupJob>) -> Seq<String> {
    jobs.map_values(|j: LookupJob| j.ip)
}

/// The lookups that ipinfo is asked for in batches.
pub open spec fn asked_together(
    jobs: Seq<LookupJob>,
    with_ipinfo: bool,
    min_requests: u64,
) -> Seq<LookupJob> {
    jobs.filter(|j: LookupJob| with_ipinfo && j.count >= min_requests)
}

/// The lookups that are made one by one.
pub open spec fn asked_alone(
    jobs: Seq<LookupJob>,
    with_ipinfo: bool,
    min_requests: u64,
) -> Seq<LookupJob> {
    jobs.filter(|j: LookupJob| !(with_ipinfo && j.count >= min_requests))
}

/// Ipinfo is asked in batches for the addresses with enough requests; the others are looked up one
/// by one, and without ipinfo all are.
pub fn plan_lookups(jobs: &Vec<LookupJob>, with_ipinfo: bool, min_requests: u64) -> (r: LookupPlan)
    ensures
        lists(r.batches@) == chunks(
            job_ips(asked_together(jobs@, with_ipinfo, min_requests)),
            IPINFO_BATCH as nat,
        ),
        r.single@ == asked_alone(jobs@, with_ipinfo, min_requests),
{
    let ghost many = |j: LookupJob| with_ipinfo && j.count >= min_requests;
    let ghost few = |j: LookupJob| !(with_ipinfo && j.count >= min_requests);
    let mut batch: Vec<String> = Vec::new();
    let mut single: Vec<LookupJob> = Vec::new();
    proof {
        reveal(Seq::filter);
        assert(job_ips(jobs@.take(0).filter(many)) =~= batch@);
    }
    for i in 0..jobs.len()
        invariant
            many == (|j: LookupJob| with_ipinfo && j.count >= min_requests),
            few == (|j: LookupJob| !(with_ipinfo && j.count >= min_requests)),
            batch@ == job_ips(jobs@.take(i as int).filter(many)),
            single@ == jobs@.take(i as int).filter(few),
    {
        let job = &jobs[i];
        proof {
            reveal(Seq::filter);
            assert(jobs@.take(i + 1).drop_last() =~= jobs@.take(i as int));
            assert(jobs@.take(i + 1).last() == *job);
        }
        if with_ipinfo && job.count >= min_requests {
            assert(many(*job) && !few(*job));
            batch.push(job.ip.clone());
            assert(batch@ =~= job_ips(jobs@.take(i + 1).filter(many)));
        } else {
            assert(!many(*job) && few(*job));
            single.push(LookupJob { ip: job.ip.clone(), count: job.count });
        }
    }
    assert(jobs@.take(jobs@.len() as int) =~= jobs@);
    LookupPlan { batches: chunked(&batch, IPINFO_BATCH), single }
}

/// A question mark for each of `n` values, with commas between.
pub open spec fn marks(n: nat) -> Seq<char> {
    text::join(Seq::new(n, |i: int| "?"@), ","@)
}

/// The query for what is stored of `n` addresses.
pub open spec fn query_text(n: nat) -> Seq<char> {
    "SELECT ip, is_v6, user_agent, reverse_dns, org, asn, looked_up, infra, country, company_domain FROM ips WHERE ip IN ("@
        + marks(n) + ")"@
}

/// The query for what is stored of `n` addresses.
pub fn record_query(n: usize) -> (r: String)
    ensures
        r@ == query_text(n as nat),
{
    let mut out =
        "SELECT ip, is_v6, user_agent, reverse_dns, org, asn, looked_up, infra, country, company_domain FROM ips WHERE ip IN (".to_owned();
    let ghost start = out@;
    assert(marks(0) =~= Seq::empty());
    assert(out@ =~= start + marks(0));
    for i in 0..n
        invariant
            out@ == start + marks(i as nat),
    {
        let ghost before = out@;
        let ghost done = Seq::new(i as nat, |k: int| "?"@);
        proof {
            assert(Seq::new((i + 1) as nat, |k: int| "?"@) =~= done.push("?"@));
            if i > 0 {
                text::lemma_join_push(done, "?"@, ","@);
            }
        }
        if i > 0 {
            out.append(",");
        }
        out.append("?");
        assert(out@ =~= start + marks((i + 1) as nat));
    }
    out.append(")");
    out
}

/// A request asks ipinfo for up to a thousand addresses, and a query for up to five hundred.
pub proof fn law_sizes_of_batches()
    ensures
        IPINFO_BATCH == 1000,
        QUERY_BATCH == 500,
{
}

/// A list that is longer than a piece starts with a whole piece, and the rest is cut on its own.
pub proof fn law_pieces_are_full<T>(s: Seq<T>, n: nat)
    requires
        n > 0,
    ensures
        s.len() == 0 ==> chunks(s, n).len() == 0,
        0 < s.len() <= n ==> chunks(s, n) == seq![s],
        s.len() > n ==> chunks(s, n)[0].len() == n,
        s.len() > n ==> chunks(s, n).drop_first() == chunks(s.skip(n as int), n),
{
    if s.len() > n {
        assert(chunks(s, n).drop_first() =~= chunks(s.skip(n as int), n));
    }
}

/// A query has one question mark for each address, with commas between.
pub proof fn law_question_marks(n: nat)
    ensures
        marks(0).len() == 0,
        marks(1) == "?"@,
        n > 0 ==> marks(n + 1) == marks(n) + ","@ + "?"@,
{
    let all = Seq::new(n, |i: int| "?"@);
    text::law_join(all, "?"@, ","@);
    assert(Seq::new(n + 1, |i: int| "?"@) =~= all.push("?"@));
    assert(Seq::new(1, |i: int| "?"@) =~= seq!["?"@]);
}

/// Each lookup is made once: in a batch where ipinfo is at hand and the address has at least as many
/// requests as are asked for, and on its own otherwise.
pub proof fn law_each_lookup_is_made_once(
    jobs: Seq<LookupJob>,
    job: LookupJob,
    with_ipinfo: bool,
    least: u64,
)
    ensures
        asked_together(Seq::empty(), with_ipinfo, least).len() == 0,
        asked_alone(Seq::empty(), with_ipinfo, least).len() == 0,
        with_ipinfo && job.count >= least ==> {
            &&& asked_together(jobs.push(job), with_ipinfo, least) == asked_together(
                jobs,
                with_ipinfo,
                least,
            ).push(job)
            &&& asked_alone(jobs.push(job), with_ipinfo, least) == asked_alone(
                jobs,
                with_ipinfo,
                least,
            )
        },
        !with_ipinfo || job.count < least ==> {
            &&& asked_alone(jobs.push(job), with_ipinfo, least) == asked_alone(
                jobs,
                with_ipinfo,
                least,
            ).push(job)
            &&& asked_together(jobs.push(job), with_ipinfo, least) == asked_together(
                jobs,
                with_ipinfo,
                least,
            )
        },
        job_ips(jobs.push(job)) == job_ips(jobs).push(job.ip),
{
    reveal(Seq::filter);
    assert(jobs.push(job).drop_last() =~= jobs);
    assert(job_ips(jobs.push(job)) =~= job_ips(jobs).push(job.ip));
}

/// The query asks for all that is stored of the addresses, by their texts.
pub proof fn law_the_query(n: nat)
    ensures
        query_text(n)
            == "SELECT ip, is_v6, user_agent, reverse_dns, org, asn, looked_up, infra, country, company_domain FROM ips WHERE ip IN ("@
            + marks(n) + ")"@,
{
}

} // verus!
