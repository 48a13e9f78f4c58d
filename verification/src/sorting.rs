//! Putting rows in order, by hits or by bytes.
use vstd::prelude::*;

use crate::display::SortBy;
use crate::lists;
use crate::ranking;
use crate::ranking::{Rank, RankKey};
use crate::text;

verus! {

broadcast use vstd::string::group_string_axioms;

/// A row with a weight and a name.
pub trait Ranked {
    /// What the row is ordered by.
    spec fn rank(&self, by: SortBy) -> Rank;

    fn weight(&self, by: SortBy) -> (r: u64)
        ensures
            r == self.rank(by).0,
    ;

    fn name(&self) -> (r: &str)
        ensures
            forall|by: SortBy| r@ == (#[trigger] self.rank(by)).1,
    ;
}

/// What rows are ordered by.
pub open spec fn ranks<T: Ranked>(rows: Seq<T>, by: SortBy) -> Seq<Rank> {
    Seq::new(rows.len(), |i: int| rows[i].rank(by))
}

/// The rows in order: the heaviest first, and equal ones by name.
pub open spec fn ordered<T: Ranked>(rows: Seq<T>, by: SortBy) -> Seq<T> {
    let order = ranking::ranking(ranks(rows, by));
    Seq::new(order.len(), |i: int| rows[order[i] as int])
}

/// The places of the rows in the order in which they belong.
pub fn order_of<T: Ranked>(rows: &Vec<T>, by: SortBy) -> (order: Vec<usize>)
    ensures
        order@.len() == rows@.len(),
        forall|i: int| 0 <= i < order@.len() ==> (#[trigger] order@[i]) < rows@.len(),
        forall|i: int|
            0 <= i < order@.len() ==> rows@[#[trigger] order@[i] as int] == ordered(rows@, by)[i],
        ordered(rows@, by).len() == rows@.len(),
{
    let mut keys: Vec<RankKey> = Vec::new();
    for i in 0..rows.len()
        invariant
            keys@.len() == i,
            forall|j: int|
                0 <= j < i ==> ranking::rank_of(#[trigger] keys@[j]) == rows@[j].rank(by),
    {
        keys.push(
            RankKey { weight: rows[i].weight(by), name: text::to_chars(rows[i].name()) },
        );
    }
    assert(ranking::ranks_of(keys@) =~= ranks(rows@, by));
    ranking::rank(&keys)
}

/// The rows stand in order: none is followed by one that belongs before it.
pub open spec fn descending<T: Ranked>(rows: Seq<T>, by: SortBy) -> bool {
    forall|i: int, j: int|
        0 <= i < j < rows.len() ==> ranking::rank_le(
            (#[trigger] rows[i]).rank(by),
            (#[trigger] rows[j]).rank(by),
        )
}

/// No two rows have the same name.
pub open spec fn distinct_names<T: Ranked>(rows: Seq<T>, by: SortBy) -> bool {
    forall|i: int, j: int|
        0 <= i < rows.len() && 0 <= j < rows.len() && (#[trigger] rows[i]).rank(by).1 == (
        #[trigger] rows[j]).rank(by).1 ==> i == j
}

/// Ordering rows rearranges them, and brings them in order.
pub proof fn law_ordered<T: Ranked>(rows: Seq<T>, by: SortBy)
    requires
        rows.len() <= usize::MAX,
    ensures
        ordered(rows, by).len() == rows.len(),
        forall|x: T| #[trigger] ordered(rows, by).contains(x) <==> rows.contains(x),
        descending(ordered(rows, by), by),
        distinct_names(rows, by) ==> distinct_names(ordered(rows, by), by),
{
    let rs = ranks(rows, by);
    let order = ranking::ranking(rs);
    let all = ordered(rows, by);
    ranking::lemma_ranking(rs);
    ranking::lemma_no_row_twice(rs, order);
    assert forall|x: T| #[trigger] all.contains(x) <==> rows.contains(x) by {
        if all.contains(x) {
            let i = choose|i: int| 0 <= i < all.len() && all[i] == x;
            assert(rows[order[i] as int] == x);
        }
        if rows.contains(x) {
            let k = choose|k: int| 0 <= k < rows.len() && rows[k] == x;
            assert(order.contains(k as usize));
            let i = choose|i: int| 0 <= i < order.len() && order[i] == k as usize;
            assert(all[i] == x);
        }
    }
    assert forall|i: int, j: int| 0 <= i < j < all.len() implies ranking::rank_le(
        (#[trigger] all[i]).rank(by),
        (#[trigger] all[j]).rank(by),
    ) by {
        assert(ranking::earlier(rs, order[i] as int, order[j] as int));
    }
    if distinct_names(rows, by) {
        assert forall|i: int, j: int|
            0 <= i < all.len() && 0 <= j < all.len() && (#[trigger] all[i]).rank(by).1 == (
            #[trigger] all[j]).rank(by).1 implies i == j by {
            assert(order[i] == order[j]);
        }
    }
}

/// Leaving rows out keeps the order of the others.
pub proof fn lemma_filter<T: Ranked>(rows: Seq<T>, p: spec_fn(T) -> bool, by: SortBy)
    requires
        descending(rows, by),
    ensures
        descending(rows.filter(p), by),
        rows.filter(p).len() <= rows.len(),
        forall|i: int|
            0 <= i < rows.filter(p).len() ==> rows.contains(#[trigger] rows.filter(p)[i]) && p(
                rows.filter(p)[i],
            ),
        forall|i: int|
            0 <= i < rows.len() && p(#[trigger] rows[i]) ==> rows.filter(p).contains(rows[i]),
    decreases rows.len(),
{
    reveal(Seq::filter);
    lists::lemma_filter_rows(rows, p);
    if rows.len() > 0 {
        let front = rows.drop_last();
        assert(descending(front, by)) by {
            assert forall|i: int, j: int| 0 <= i < j < front.len() implies ranking::rank_le(
                (#[trigger] front[i]).rank(by),
                (#[trigger] front[j]).rank(by),
            ) by {
                assert(rows[i] == front[i] && rows[j] == front[j]);
            }
        }
        lemma_filter(front, p, by);
        let kept = front.filter(p);
        let out = rows.filter(p);
        assert forall|i: int, j: int| 0 <= i < j < out.len() implies ranking::rank_le(
            (#[trigger] out[i]).rank(by),
            (#[trigger] out[j]).rank(by),
        ) by {
            assert(out[i] == kept[i]);
            if j < kept.len() {
                assert(out[j] == kept[j]);
            } else {
                let k = choose|k: int| 0 <= k < front.len() && front[k] == kept[i];
                assert(rows[k] == out[i] && rows[rows.len() - 1] == out[j]);
            }
        }
    }
}

/// The order of rows with distinct names does not depend on the order in which they are listed.
pub proof fn law_listing_order_is_irrelevant<T: Ranked>(a: Seq<T>, b: Seq<T>, by: SortBy)
    requires
        a.len() <= usize::MAX,
        distinct_names(a, by),
        distinct_names(b, by),
        a.len() == b.len(),
        forall|x: T| #[trigger] a.contains(x) <==> b.contains(x),
    ensures
        ordered(a, by) == ordered(b, by),
{
    law_ordered(a, by);
    law_ordered(b, by);
    let x = ordered(a, by);
    let y = ordered(b, by);
    assert forall|c: T| #[trigger] x.contains(c) <==> y.contains(c) by {
        assert(a.contains(c) <==> b.contains(c));
    }
    let rank = |c: T| c.rank(by);
    assert(ranking::stands_in_order(x, rank)) by {
        assert forall|i: int, j: int| 0 <= i < j < x.len() implies ranking::rank_le(
            rank(#[trigger] x[i]),
            rank(#[trigger] x[j]),
        ) by {}
    }
    assert(ranking::stands_in_order(y, rank)) by {
        assert forall|i: int, j: int| 0 <= i < j < y.len() implies ranking::rank_le(
            rank(#[trigger] y[i]),
            rank(#[trigger] y[j]),
        ) by {}
    }
    ranking::lemma_one_order(x, y, rank);
}

// ---------------------------------------------------------------------------
// Sums
// ---------------------------------------------------------------------------

/// The bytes of rows in sum.
pub open spec fn bytes_sum<T: Ranked>(rows: Seq<T>) -> nat
    decreases rows.len(),
{
    if rows.len() == 0 {
        0
    } else {
        bytes_sum(rows.drop_last()) + rows.last().rank(SortBy::Bandwidth).0 as nat
    }
}

proof fn lemma_bytes_sum_grows<T: Ranked>(rows: Seq<T>, n: int)
    requires
        0 <= n <= rows.len(),
    ensures
        bytes_sum(rows.take(n)) <= bytes_sum(rows),
    decreases rows.len() - n,
{
    if n < rows.len() {
        lemma_bytes_sum_grows(rows, n + 1);
        assert(rows.take(n + 1).drop_last() =~= rows.take(n));
    } else {
        assert(rows.take(n) =~= rows);
    }
}

/// The bytes of rows in sum, where the sum fits.
pub fn total_bytes<T: Ranked>(rows: &Vec<T>) -> (r: Option<u64>)
    ensures
        match r {
            Some(n) => n == bytes_sum(rows@),
            None => bytes_sum(rows@) > u64::MAX,
        },
{
    let mut sum: u64 = 0;
    for i in 0..rows.len()
        invariant
            sum == bytes_sum(rows@.take(i as int)),
    {
        assert(rows@.take(i + 1).drop_last() =~= rows@.take(i as int));
        assert(rows@.take(i + 1).last() == rows@[i as int]);
        let bytes: u64 = rows[i].weight(SortBy::Bandwidth);
        if bytes > u64::MAX - sum {
            proof {
                lemma_bytes_sum_grows(rows@, i + 1);
            }
            return None;
        }
        sum = sum + bytes;
    }
    assert(rows@.take(rows@.len() as int) =~= rows@);
    Some(sum)
}

} // verus!
