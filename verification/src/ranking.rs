//! Ranking rows: the heavier one first, and among equally heavy ones by name.
use vstd::prelude::*;

use crate::text;

verus! {

/// What a row is ranked by.
pub struct RankKey {
    pub weight: u64,
    pub name: Vec<char>,
}

/// A weight and a name.
pub type Rank = (u64, Seq<char>);

/// The rank that a key stands for.
pub open spec fn rank_of(k: RankKey) -> Rank {
    (k.weight, k.name@)
}

/// The ranks that keys stand for.
pub open spec fn ranks_of(keys: Seq<RankKey>) -> Seq<Rank> {
    Seq::new(keys.len(), |i: int| rank_of(keys[i]))
}

/// `a` stands before `b` or level with it: it is heavier, or as heavy and not behind it by name.
pub open spec fn rank_le(a: Rank, b: Rank) -> bool {
    a.0 > b.0 || (a.0 == b.0 && text::lex_le(a.1, b.1))
}

/// Row `i` comes before row `j`; rows that are level keep their order.
pub open spec fn earlier(ranks: Seq<Rank>, i: int, j: int) -> bool {
    rank_le(ranks[i], ranks[j]) && (rank_le(ranks[j], ranks[i]) ==> i < j)
}

/// `order` lists the rows of `ranks`, each once, in the order of their rank.
pub open spec fn is_ranking(ranks: Seq<Rank>, order: Seq<usize>) -> bool {
    &&& order.len() == ranks.len()
    &&& forall|p: int| 0 <= p < order.len() ==> (#[trigger] order[p]) < ranks.len()
    &&& forall|k: usize| k < ranks.len() ==> #[trigger] order.contains(k)
    &&& in_order(ranks, order)
}

/// The rows that `order` lists stand in the order of their rank.
pub open spec fn in_order(ranks: Seq<Rank>, order: Seq<usize>) -> bool {
    forall|p: int, q: int|
        0 <= p < q < order.len() ==> earlier(
            ranks,
            #[trigger] order[p] as int,
            #[trigger] order[q] as int,
        )
}

proof fn lemma_rank_total(a: Rank, b: Rank)
    ensures
        rank_le(a, b) || rank_le(b, a),
{
    text::lemma_lex_total(a.1, b.1);
}

proof fn lemma_rank_trans(a: Rank, b: Rank, c: Rank)
    requires
        rank_le(a, b),
        rank_le(b, c),
    ensures
        rank_le(a, c),
{
    if a.0 == b.0 && b.0 == c.0 {
        text::lemma_lex_trans(a.1, b.1, c.1);
    }
}

/// Rows that are level with each other have the same rank.
pub proof fn lemma_rank_antisym(a: Rank, b: Rank)
    requires
        rank_le(a, b),
        rank_le(b, a),
    ensures
        a == b,
{
    text::lemma_lex_antisym(a.1, b.1);
}

proof fn lemma_earlier_trans(ranks: Seq<Rank>, i: int, j: int, k: int)
    requires
        earlier(ranks, i, j),
        earlier(ranks, j, k),
    ensures
        earlier(ranks, i, k),
{
    lemma_rank_trans(ranks[i], ranks[j], ranks[k]);
    if rank_le(ranks[k], ranks[i]) {
        lemma_rank_trans(ranks[k], ranks[i], ranks[j]);
        lemma_rank_trans(ranks[j], ranks[k], ranks[i]);
    }
}

proof fn lemma_earlier_irreflexive(ranks: Seq<Rank>, i: int)
    ensures
        !earlier(ranks, i, i),
{
    text::lemma_lex_refl(ranks[i].1);
}

/// Of two rows one comes before the other, and not both ways.
proof fn lemma_earlier_total(ranks: Seq<Rank>, i: int, j: int)
    requires
        i != j,
    ensures
        earlier(ranks, i, j) <==> !earlier(ranks, j, i),
{
    lemma_rank_total(ranks[i], ranks[j]);
}

/// The one order in which the rows of `ranks` stand by rank.
pub closed spec fn ranking(ranks: Seq<Rank>) -> Seq<usize> {
    choose|order: Seq<usize>| is_ranking(ranks, order)
}

proof fn lemma_same_prefix(ranks: Seq<Rank>, a: Seq<usize>, b: Seq<usize>, m: int)
    requires
        is_ranking(ranks, a),
        is_ranking(ranks, b),
        0 <= m <= ranks.len(),
    ensures
        forall|k: int| 0 <= k < m ==> a[k] == b[k],
    decreases m,
{
    if m > 0 {
        lemma_same_prefix(ranks, a, b, m - 1);
        let x = a[m - 1];
        let y = b[m - 1];
        if x != y {
            lemma_entry_stands_later(ranks, a, b, m - 1);
            lemma_entry_stands_later(ranks, b, a, m - 1);
            lemma_earlier_total(ranks, x as int, y as int);
        }
    }
}

/// Where two rankings agree up to `m` and differ there, the entry of `b` stands later in `a`.
proof fn lemma_entry_stands_later(ranks: Seq<Rank>, a: Seq<usize>, b: Seq<usize>, m: int)
    requires
        is_ranking(ranks, a),
        is_ranking(ranks, b),
        0 <= m < ranks.len(),
        forall|k: int| 0 <= k < m ==> a[k] == b[k],
        a[m] != b[m],
    ensures
        earlier(ranks, a[m] as int, b[m] as int),
{
    assert(a.contains(b[m]));
    let p = choose|p: int| 0 <= p < a.len() && a[p] == b[m];
    if p < m {
        assert(earlier(ranks, b[p] as int, b[m] as int));
        lemma_earlier_irreflexive(ranks, b[m] as int);
    }
}

/// There is only one order by rank.
pub proof fn lemma_ranking_unique(ranks: Seq<Rank>, a: Seq<usize>, b: Seq<usize>)
    requires
        is_ranking(ranks, a),
        is_ranking(ranks, b),
    ensures
        a == b,
{
    lemma_same_prefix(ranks, a, b, ranks.len() as int);
    assert(a =~= b);
}

/// The first place in `order`, from `k` on, of a row that row `x` does not follow.
spec fn slot(ranks: Seq<Rank>, order: Seq<usize>, x: int, k: int) -> int
    decreases order.len() - k,
{
    if 0 <= k < order.len() && earlier(ranks, order[k] as int, x) {
        slot(ranks, order, x, k + 1)
    } else {
        k
    }
}

proof fn lemma_slot(ranks: Seq<Rank>, order: Seq<usize>, x: int, k: int)
    requires
        0 <= k <= order.len(),
    ensures
        k <= slot(ranks, order, x, k) <= order.len(),
        forall|q: int|
            k <= q < slot(ranks, order, x, k) ==> earlier(ranks, #[trigger] order[q] as int, x),
        slot(ranks, order, x, k) < order.len() ==> !earlier(
            ranks,
            order[slot(ranks, order, x, k)] as int,
            x,
        ),
    decreases order.len() - k,
{
    if k < order.len() && earlier(ranks, order[k] as int, x) {
        lemma_slot(ranks, order, x, k + 1);
    }
}

proof fn lemma_some_ranking(ranks: Seq<Rank>) -> (order: Seq<usize>)
    requires
        ranks.len() <= usize::MAX,
    ensures
        is_ranking(ranks, order),
    decreases ranks.len(),
{
    if ranks.len() == 0 {
        Seq::empty()
    } else {
        let front = ranks.drop_last();
        let x = ranks.len() - 1;
        let before = lemma_some_ranking(front);
        let p = slot(ranks, before, x, 0);
        lemma_slot(ranks, before, x, 0);
        let order = before.insert(p, x as usize);
        assert forall|k: usize| k < ranks.len() implies #[trigger] order.contains(k) by {
            if k == x {
                assert(order[p] == k);
            } else {
                assert(before.contains(k));
                let q = choose|q: int| 0 <= q < before.len() && before[q] == k;
                assert(order[if q < p {
                    q
                } else {
                    q + 1
                }] == k);
            }
        }
        assert forall|a: int, b: int| 0 <= a < b < order.len() implies earlier(
            ranks,
            #[trigger] order[a] as int,
            #[trigger] order[b] as int,
        ) by {
            let left = if a < p {
                a
            } else {
                a - 1
            };
            let right = if b < p {
                b
            } else {
                b - 1
            };
            if a != p && b != p {
                assert(order[a] == before[left] && order[b] == before[right]);
                assert(earlier(front, before[left] as int, before[right] as int));
            } else if b == p {
                assert(order[a] == before[a]);
            } else {
                assert(order[b] == before[right]);
                lemma_earlier_total(ranks, before[p] as int, x);
                if right != p {
                    assert(earlier(front, before[p] as int, before[right] as int));
                    lemma_earlier_trans(ranks, x, before[p] as int, before[right] as int);
                }
            }
        }
        assert forall|q: int| 0 <= q < order.len() implies (#[trigger] order[q]) < ranks.len() by {
            if q < p {
                assert(order[q] == before[q]);
            } else if q > p {
                assert(order[q] == before[q - 1]);
            }
        }
        order
    }
}

/// Any rows can be ranked.
pub proof fn lemma_ranking(ranks: Seq<Rank>)
    requires
        ranks.len() <= usize::MAX,
    ensures
        is_ranking(ranks, ranking(ranks)),
{
    let order = lemma_some_ranking(ranks);
}

/// A ranking lists no row twice.
pub proof fn lemma_no_row_twice(ranks: Seq<Rank>, order: Seq<usize>)
    requires
        in_order(ranks, order),
    ensures
        order.no_duplicates(),
{
    assert forall|a: int, b: int|
        0 <= a < order.len() && 0 <= b < order.len() && a != b implies order[a] != order[b] by {
        if order[a] == order[b] {
            lemma_earlier_irreflexive(ranks, order[a] as int);
            if a < b {
                assert(earlier(ranks, order[a] as int, order[b] as int));
            } else {
                assert(earlier(ranks, order[b] as int, order[a] as int));
            }
        }
    }
}

/// The rows stand in the order of their rank.
pub open spec fn stands_in_order<T>(rows: Seq<T>, rank: spec_fn(T) -> Rank) -> bool {
    forall|i: int, j: int|
        0 <= i < j < rows.len() ==> rank_le(rank(#[trigger] rows[i]), rank(#[trigger] rows[j]))
}

/// No two rows have the same name.
pub open spec fn names_differ<T>(rows: Seq<T>, rank: spec_fn(T) -> Rank) -> bool {
    forall|i: int, j: int|
        0 <= i < rows.len() && 0 <= j < rows.len() && rank(#[trigger] rows[i]).1 == rank(
            #[trigger] rows[j],
        ).1 ==> i == j
}

proof fn lemma_same_rows<T>(a: Seq<T>, b: Seq<T>, rank: spec_fn(T) -> Rank, m: int)
    requires
        stands_in_order(a, rank),
        stands_in_order(b, rank),
        names_differ(a, rank),
        names_differ(b, rank),
        a.len() == b.len(),
        forall|x: T| #[trigger] a.contains(x) <==> b.contains(x),
        0 <= m <= a.len(),
    ensures
        forall|k: int| 0 <= k < m ==> a[k] == b[k],
    decreases m,
{
    if m > 0 {
        lemma_same_rows(a, b, rank, m - 1);
        let x = a[m - 1];
        let y = b[m - 1];
        assert(a.contains(x));
        assert(b.contains(x) && b.contains(y));
        assert(a.contains(y));
        let p = choose|p: int| 0 <= p < b.len() && b[p] == x;
        let q = choose|q: int| 0 <= q < a.len() && a[q] == y;
        if x != y {
            if p < m - 1 {
                assert(a[p] == x);
                assert(rank(a[p]).1 == rank(a[m - 1]).1);
            }
            if q < m - 1 {
                assert(b[q] == y);
                assert(rank(b[q]).1 == rank(b[m - 1]).1);
            }
            assert(rank_le(rank(b[m - 1]), rank(b[p])));
            assert(rank_le(rank(a[m - 1]), rank(a[q])));
            lemma_rank_antisym(rank(x), rank(y));
            assert(rank(b[p]).1 == rank(b[m - 1]).1);
        }
    }
}

/// There is only one order by rank of rows with distinct names.
pub proof fn lemma_one_order<T>(a: Seq<T>, b: Seq<T>, rank: spec_fn(T) -> Rank)
    requires
        stands_in_order(a, rank),
        stands_in_order(b, rank),
        names_differ(a, rank),
        names_differ(b, rank),
        a.len() == b.len(),
        forall|x: T| #[trigger] a.contains(x) <==> b.contains(x),
    ensures
        a == b,
{
    lemma_same_rows(a, b, rank, a.len() as int);
    assert(a =~= b);
}

fn level_or_before(a: &RankKey, b: &RankKey) -> (r: bool)
    ensures
        r == rank_le(rank_of(*a), rank_of(*b)),
{
    a.weight > b.weight || (a.weight == b.weight && text::comes_before(&a.name, &b.name))
}

/// `out` lists the rows from `lo` up to `hi`, each once, in the order of their rank.
spec fn ranks_span(ranks: Seq<Rank>, lo: int, hi: int, out: Seq<usize>) -> bool {
    &&& out.len() == hi - lo
    &&& forall|p: int| 0 <= p < out.len() ==> lo <= (#[trigger] out[p]) < hi
    &&& forall|k: usize| lo <= k < hi ==> #[trigger] out.contains(k)
    &&& in_order(ranks, out)
}

fn merge(keys: &Vec<RankKey>, a: &Vec<usize>, b: &Vec<usize>, Ghost(mid): Ghost<int>) -> (out: Vec<
    usize,
>)
    requires
        exists|lo: int|
            0 <= lo <= mid && #[trigger] ranks_span(ranks_of(keys@), lo, mid, a@),
        exists|hi: int|
            mid <= hi <= keys@.len() && #[trigger] ranks_span(ranks_of(keys@), mid, hi, b@),
    ensures
        out@.len() == a@.len() + b@.len(),
        in_order(ranks_of(keys@), out@),
        forall|x: usize| #[trigger] out@.contains(x) <==> a@.contains(x) || b@.contains(x),
{
    let ghost ranks = ranks_of(keys@);
    let mut out: Vec<usize> = Vec::new();
    let mut i: usize = 0;
    let mut j: usize = 0;
    while i < a.len() || j < b.len()
        invariant
            ranks == ranks_of(keys@),
            0 <= mid <= keys@.len(),
            i <= a@.len(),
            j <= b@.len(),
            out@.len() == i + j,
            in_order(ranks, a@),
            in_order(ranks, b@),
            forall|p: int| 0 <= p < a@.len() ==> (#[trigger] a@[p]) < mid,
            forall|p: int| 0 <= p < b@.len() ==> mid <= (#[trigger] b@[p]) < keys@.len(),
            in_order(ranks, out@),
            forall|p: int, q: int|
                0 <= p < out@.len() && i <= q < a@.len() ==> earlier(
                    ranks,
                    #[trigger] out@[p] as int,
                    #[trigger] a@[q] as int,
                ),
            forall|p: int, q: int|
                0 <= p < out@.len() && j <= q < b@.len() ==> earlier(
                    ranks,
                    #[trigger] out@[p] as int,
                    #[trigger] b@[q] as int,
                ),
            forall|p: int| 0 <= p < i ==> out@.contains(#[trigger] a@[p]),
            forall|p: int| 0 <= p < j ==> out@.contains(#[trigger] b@[p]),
            forall|p: int|
                0 <= p < out@.len() ==> a@.contains(#[trigger] out@[p]) || b@.contains(out@[p]),
        decreases a@.len() + b@.len() - i - j,
    {
        let from_a = if i >= a.len() {
            false
        } else if j >= b.len() {
            true
        } else {
            level_or_before(&keys[a[i]], &keys[b[j]])
        };
        let ghost before = out@;
        if from_a {
            proof {
                assert forall|q: int| j <= q < b@.len() implies earlier(
                    ranks,
                    a@[i as int] as int,
                    #[trigger] b@[q] as int,
                ) by {
                    let x = a@[i as int] as int;
                    let y = b@[j as int] as int;
                    assert(earlier(ranks, x, y));
                    if q > j {
                        lemma_earlier_trans(ranks, x, y, b@[q] as int);
                    }
                }
            }
            out.push(a[i]);
            proof {
                assert(a@.contains(a@[i as int]));
                assert(out@[before.len() as int] == a@[i as int]);
            }
            i = i + 1;
        } else {
            proof {
                assert forall|q: int| i <= q < a@.len() implies earlier(
                    ranks,
                    b@[j as int] as int,
                    #[trigger] a@[q] as int,
                ) by {
                    let x = b@[j as int] as int;
                    let y = a@[i as int] as int;
                    lemma_earlier_total(ranks, x, y);
                    if q > i {
                        lemma_earlier_trans(ranks, x, y, a@[q] as int);
                    }
                }
            }
            out.push(b[j]);
            proof {
                assert(b@.contains(b@[j as int]));
                assert(out@[before.len() as int] == b@[j as int]);
            }
            j = j + 1;
        }
        proof {
            assert forall|x: usize| before.contains(x) implies out@.contains(x) by {
                let p = choose|p: int| 0 <= p < before.len() && before[p] == x;
                assert(out@[p] == x);
            }
            assert(out@.contains(out@[before.len() as int]));
        }
    }
    out
}

fn rank_span(keys: &Vec<RankKey>, lo: usize, hi: usize) -> (out: Vec<usize>)
    requires
        lo <= hi <= keys@.len(),
    ensures
        ranks_span(ranks_of(keys@), lo as int, hi as int, out@),
    decreases hi - lo,
{
    let mut out: Vec<usize> = Vec::new();
    if hi - lo == 0 {
        return out;
    }
    if hi - lo == 1 {
        out.push(lo);
        assert(out@[0] == lo);
        return out;
    }
    let mid: usize = lo + (hi - lo) / 2;
    let a = rank_span(keys, lo, mid);
    let b = rank_span(keys, mid, hi);
    let out = merge(keys, &a, &b, Ghost(mid as int));
    proof {
        assert forall|p: int| 0 <= p < out@.len() implies lo <= (#[trigger] out@[p]) < hi by {
            assert(out@.contains(out@[p]));
        }
    }
    out
}

/// The rows in the order of their rank.
pub fn rank(keys: &Vec<RankKey>) -> (order: Vec<usize>)
    ensures
        is_ranking(ranks_of(keys@), order@),
        order@ == ranking(ranks_of(keys@)),
{
    let order = rank_span(keys, 0, keys.len());
    proof {
        lemma_ranking_unique(ranks_of(keys@), order@, ranking(ranks_of(keys@)));
    }
    order
}

} // verus!
