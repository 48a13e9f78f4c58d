//! Which addresses the report is about.
use vstd::prelude::*;
use vstd::slice::slice_subrange;

use crate::display::SortBy;
use crate::lists;
use crate::log;
use crate::log::IpCount;
use crate::ranking;
use crate::ranking::Rank;
use crate::sorting;
use crate::sorting::Ranked;
use crate::text;

verus! {

broadcast use vstd::string::group_string_axioms;

/// How many of the first rows are wanted.
#[derive(Clone, Copy, Debug, PartialEq, Eq, Structural)]
pub enum Top {
    /// All rows.
    All,
    /// That many rows.
    Rows(usize),
    /// That share of the rows, in percent.
    Percent(u64),
}

/// The text without the percent signs at its end.
pub open spec fn without_percent(s: Seq<char>) -> Seq<char>
    decreases s.len(),
{
    if s.len() > 0 && s.last() == '%' {
        without_percent(s.drop_last())
    } else {
        s
    }
}

/// A share in percent that is not a whole number: it takes fractions to tell how many rows it is.
#[derive(Clone, Copy, Debug, PartialEq, Eq, Structural)]
pub struct FractionalShare;

/// A text without the sign at its start.
pub open spec fn unsigned(s: Seq<char>) -> Seq<char> {
    if s.len() > 0 && (s[0] == '+' || s[0] == '-') {
        s.drop_first()
    } else {
        s
    }
}

/// Digits, with a decimal point before, among or behind them.
pub open spec fn is_mantissa(s: Seq<char>) -> bool {
    match text::find(s, seq!['.']) {
        Some(k) => s.len() > 1 && text::all_digits(s.take(k as int)) && text::all_digits(
            s.skip(k as int + 1),
        ),
        None => s.len() > 0 && text::all_digits(s),
    }
}

/// A mantissa, and perhaps an exponent behind the letter e.
pub open spec fn is_decimal(s: Seq<char>) -> bool {
    match text::find(s, seq!['e']) {
        Some(k) => {
            let exponent = unsigned(s.skip(k as int + 1));
            is_mantissa(s.take(k as int)) && exponent.len() > 0 && text::all_digits(exponent)
        },
        None => is_mantissa(s),
    }
}

/// What a text in percent asks for. A whole number asks for that share. A number below 0, and what is
/// not a number but is written as one (`nan`), ask for no share, which is one row; an infinite
/// share, and a text that is no number, ask for all rows.
pub open spec fn share_of(s: Seq<char>) -> Result<Top, FractionalShare> {
    let t = text::ascii_lowered(s);
    let body = unsigned(t);
    let negative = t.len() > 0 && t[0] == '-';
    match text::unsigned_value(s) {
        Some(p) => if p <= u64::MAX {
            Ok(Top::Percent(p as u64))
        } else {
            Ok(Top::All)
        },
        None => if body == "nan"@ {
            Ok(Top::Rows(1))
        } else if body == "inf"@ || body == "infinity"@ {
            if negative {
                Ok(Top::Rows(1))
            } else {
                Ok(Top::All)
            }
        } else if !is_decimal(body) {
            Ok(Top::All)
        } else if negative {
            Ok(Top::Rows(1))
        } else {
            Err(FractionalShare)
        },
    }
}

/// What a text asks for: a share of the rows where it ends in a percent sign, and otherwise a number
/// of rows, or all of them where it is no number.
pub open spec fn top_of(s: Seq<char>) -> Result<Top, FractionalShare> {
    if s.len() > 0 && s.last() == '%' {
        share_of(without_percent(s))
    } else {
        match text::u64_value(s) {
            Some(n) => if n <= usize::MAX {
                Ok(Top::Rows(n as usize))
            } else {
                Ok(Top::All)
            },
            None => Ok(Top::All),
        }
    }
}

/// The share `p` percent of `n` rows, rounded up, but at least one row.
pub open spec fn share(n: nat, p: nat) -> nat {
    let rows = (n * p + 99) / 100;
    if rows == 0 {
        1
    } else {
        rows
    }
}

impl Top {
    /// How many of `n` rows are wanted; it can be more than there are.
    pub open spec fn wanted(self, n: nat) -> nat {
        match self {
            Top::All => n,
            Top::Rows(k) => k as nat,
            Top::Percent(p) => share(n, p as nat),
        }
    }

    /// Reads what a text asks for, unless that is a share that takes fractions to tell.
    pub fn parse(s: &str) -> (r: Result<Top, FractionalShare>)
        ensures
            r == top_of(s@),
    {
        let chars = text::to_chars(s);
        let n: usize = chars.len();
        if n > 0 && chars[n - 1] == '%' {
            let mut k: usize = n;
            assert(s@.take(n as int) =~= s@);
            while k > 0 && chars[k - 1] == '%'
                invariant
                    k <= chars@.len(),
                    chars@ == s@,
                    without_percent(s@) == without_percent(s@.take(k as int)),
                decreases k,
            {
                assert(s@.take(k as int).drop_last() =~= s@.take(k - 1));
                k = k - 1;
            }
            assert(without_percent(s@) == s@.take(k as int));
            let number = slice_subrange(chars.as_slice(), 0, k);
            assert(number@ =~= s@.take(k as int));
            read_share(number)
        } else {
            match text::parse_u64(&chars) {
                Some(n) => if n <= usize::MAX as u64 {
                    Ok(Top::Rows(n as usize))
                } else {
                    Ok(Top::All)
                },
                None => Ok(Top::All),
            }
        }
    }

    /// How many of `n` rows are kept.
    pub fn rows(self, n: usize) -> (r: usize)
        ensures
            r <= n,
            r == self.wanted(n as nat) || (r == n && self.wanted(n as nat) > n),
    {
        match self {
            Top::All => n,
            Top::Rows(k) => if k < n {
                k
            } else {
                n
            },
            Top::Percent(p) => {
                if n == 0 {
                    assert(n * p == 0) by (nonlinear_arith)
                        requires
                            n == 0,
                    ;
                    return 0;
                }
                if p >= 100 {
                    assert(n * p >= n * 100) by (nonlinear_arith)
                        requires
                            p >= 100,
                    ;
                    n
                } else {
                    assert(n * p <= n * 100 <= u64::MAX * 100) by (nonlinear_arith)
                        requires
                            p < 100,
                            n <= u64::MAX,
                    ;
                    let rows: u128 = (n as u128 * p as u128 + 99) / 100;
                    if rows == 0 {
                        1
                    } else {
                        rows as usize
                    }
                }
            },
        }
    }
}

fn without_sign(s: &[char]) -> (r: &[char])
    ensures
        r@ == unsigned(s@),
{
    if s.len() > 0 && (s[0] == '+' || s[0] == '-') {
        let r = slice_subrange(s, 1, s.len());
        assert(r@ =~= s@.drop_first());
        r
    } else {
        s
    }
}

fn reads_as_mantissa(s: &[char]) -> (r: bool)
    ensures
        r == is_mantissa(s@),
{
    let point: [char; 1] = ['.'];
    assert(point@ =~= seq!['.']);
    proof {
        text::lemma_find_from(s@, seq!['.'], 0);
    }
    match text::index_of(s, &point) {
        Some(k) => {
            let before = slice_subrange(s, 0, k);
            let n: usize = s.len();
            assert(k < n);
            let behind = slice_subrange(s, k + 1, n);
            assert(before@ =~= s@.take(k as int));
            assert(behind@ =~= s@.skip(k + 1));
            s.len() > 1 && text::only_digits(before) && text::only_digits(behind)
        },
        None => s.len() > 0 && text::only_digits(s),
    }
}

fn reads_as_decimal(s: &[char]) -> (r: bool)
    ensures
        r == is_decimal(s@),
{
    let mark: [char; 1] = ['e'];
    assert(mark@ =~= seq!['e']);
    proof {
        text::lemma_find_from(s@, seq!['e'], 0);
    }
    match text::index_of(s, &mark) {
        Some(k) => {
            let before = slice_subrange(s, 0, k);
            let n: usize = s.len();
            assert(k < n);
            let behind = slice_subrange(s, k + 1, n);
            assert(before@ =~= s@.take(k as int));
            assert(behind@ =~= s@.skip(k + 1));
            let exponent = without_sign(behind);
            reads_as_mantissa(before) && exponent.len() > 0 && text::only_digits(exponent)
        },
        None => reads_as_mantissa(s),
    }
}

fn reads_as(s: &[char], word: &str) -> (r: bool)
    ensures
        r == (s@ == word@),
{
    text::same_chars(s, &text::to_chars(word))
}

fn read_share(s: &[char]) -> (r: Result<Top, FractionalShare>)
    ensures
        r == share_of(s@),
{
    match text::parse_u64(s) {
        Some(p) => {
            return Ok(Top::Percent(p));
        },
        None => {},
    }
    let plain = if s.len() > 0 && s[0] == '+' {
        without_sign(s)
    } else {
        s
    };
    if plain.len() > 0 && text::only_digits(plain) {
        return Ok(Top::All);
    }
    let lower = text::fold_ascii(s);
    let negative: bool = lower.len() > 0 && lower[0] == '-';
    let body = without_sign(&lower);
    if reads_as(body, "nan") {
        Ok(Top::Rows(1))
    } else if reads_as(body, "inf") || reads_as(body, "infinity") {
        if negative {
            Ok(Top::Rows(1))
        } else {
            Ok(Top::All)
        }
    } else if !reads_as_decimal(body) {
        Ok(Top::All)
    } else if negative {
        Ok(Top::Rows(1))
    } else {
        Err(FractionalShare)
    }
}

/// Only a share that is written with a decimal point or an exponent is left open, and a share that is
/// no number is all rows.
pub proof fn law_only_fractions_are_left_open(s: Seq<char>)
    requires
        s.len() > 0,
        s.last() == '%',
    ensures
        ({
            let number = without_percent(s);
            let body = unsigned(text::ascii_lowered(number));
            &&& top_of(s) is Err ==> text::unsigned_value(number) is None && is_decimal(body)
            &&& text::unsigned_value(number) is None && !is_decimal(body) && body != "nan"@ && body
                != "inf"@ && body != "infinity"@ ==> top_of(s) == Ok::<Top, FractionalShare>(
                Top::All,
            )
        }),
{
}

impl IpCount {
    /// A copy of what is known of the address.
    pub fn copy(&self) -> (r: IpCount)
        ensures
            r == *self,
    {
        IpCount {
            ip: self.ip.clone(),
            count: self.count,
            is_v6: self.is_v6,
            user_agent: text::copy_text(&self.user_agent),
            bytes: self.bytes,
        }
    }
}

impl Ranked for IpCount {
    open spec fn rank(&self, by: SortBy) -> Rank {
        match by {
            SortBy::Hits => (self.count, self.ip@),
            SortBy::Bandwidth => (self.bytes, self.ip@),
        }
    }

    fn weight(&self, by: SortBy) -> (r: u64) {
        match by {
            SortBy::Hits => self.count,
            SortBy::Bandwidth => self.bytes,
        }
    }

    fn name(&self) -> (r: &str) {
        self.ip.as_str()
    }
}

/// The first of the addresses in order, as many as wanted.
pub open spec fn leading(counts: Seq<IpCount>, top: Option<Top>, sort_by: SortBy) -> Seq<IpCount> {
    let all = sorting::ordered(counts, sort_by);
    match top {
        Some(t) => if t.wanted(counts.len()) < all.len() {
            all.take(t.wanted(counts.len()) as int)
        } else {
            all
        },
        None => all,
    }
}

/// The addresses that the report is about: the first ones in order, as many as wanted, without
/// those that have too few hits.
pub open spec fn selected(
    counts: Seq<IpCount>,
    top: Option<Top>,
    min: Option<u64>,
    sort_by: SortBy,
) -> Seq<IpCount> {
    match min {
        Some(least) => leading(counts, top, sort_by).filter(|c: IpCount| c.count >= least),
        None => leading(counts, top, sort_by),
    }
}

/// The addresses that the report is about.
pub fn apply_filters(
    counts: &Vec<IpCount>,
    top: Option<Top>,
    min: Option<u64>,
    sort_by: SortBy,
) -> (r: Vec<IpCount>)
    ensures
        r@ == selected(counts@, top, min, sort_by),
{
    let order = sorting::order_of(counts, sort_by);
    let limit: usize = match top {
        Some(t) => t.rows(order.len()),
        None => order.len(),
    };
    let ghost all = sorting::ordered(counts@, sort_by);
    let ghost kept = leading(counts@, top, sort_by);
    assert(kept =~= all.take(limit as int));
    let mut out: Vec<IpCount> = Vec::new();
    let ghost wanted = |c: IpCount| min matches Some(least) ==> c.count >= least;
    proof {
        reveal(Seq::filter);
        assert(kept.take(0).filter(wanted) =~= Seq::<IpCount>::empty());
    }
    for i in 0..limit
        invariant
            limit <= order@.len(),
            order@.len() == counts@.len(),
            forall|p: int| 0 <= p < order@.len() ==> (#[trigger] order@[p]) < counts@.len(),
            forall|p: int|
                0 <= p < order@.len() ==> counts@[#[trigger] order@[p] as int] == all[p],
            all.len() == counts@.len(),
            kept == all.take(limit as int),
            wanted == (|c: IpCount| min matches Some(least) ==> c.count >= least),
            out@ == kept.take(i as int).filter(wanted),
    {
        let c = &counts[order[i]];
        assert(kept[i as int] == *c);
        proof {
            reveal(Seq::filter);
            assert(kept.take(i + 1).drop_last() =~= kept.take(i as int));
            assert(kept.take(i + 1).last() == *c);
        }
        let enough: bool = match min {
            Some(least) => c.count >= least,
            None => true,
        };
        if enough {
            out.push(c.copy());
        }
    }
    proof {
        assert(kept.take(limit as int) =~= kept);
        match min {
            Some(least) => {
                assert(wanted =~= (|c: IpCount| c.count >= least));
            },
            None => {
                lists::lemma_filter_all(kept, wanted);
            },
        }
    }
    out
}

// ---------------------------------------------------------------------------
// Laws
// ---------------------------------------------------------------------------

/// The report is in order: the most hits or bytes come first, and equal ones by the text of the
/// address.
pub proof fn law_selection_is_in_order(
    counts: Seq<IpCount>,
    top: Option<Top>,
    min: Option<u64>,
    sort_by: SortBy,
)
    requires
        counts.len() <= usize::MAX,
    ensures
        sorting::descending(selected(counts, top, min, sort_by), sort_by),
{
    sorting::law_ordered(counts, sort_by);
    let all = sorting::ordered(counts, sort_by);
    let kept = leading(counts, top, sort_by);
    assert(sorting::descending(kept, sort_by)) by {
        assert forall|i: int, j: int| 0 <= i < j < kept.len() implies ranking::rank_le(
            (#[trigger] kept[i]).rank(sort_by),
            (#[trigger] kept[j]).rank(sort_by),
        ) by {
            assert(all[i] == kept[i] && all[j] == kept[j]);
        }
    }
    match min {
        Some(least) => {
            sorting::lemma_filter(kept, |c: IpCount| c.count >= least, sort_by);
        },
        None => {},
    }
}

/// The report holds only addresses of the log, no more of them than wanted, and none with too few
/// hits.
pub proof fn law_selection_keeps_only_what_qualifies(
    counts: Seq<IpCount>,
    top: Option<Top>,
    min: Option<u64>,
    sort_by: SortBy,
)
    requires
        counts.len() <= usize::MAX,
    ensures
        ({
            let rows = selected(counts, top, min, sort_by);
            &&& rows.len() <= counts.len()
            &&& top matches Some(t) ==> rows.len() <= t.wanted(counts.len())
            &&& forall|i: int| 0 <= i < rows.len() ==> counts.contains(#[trigger] rows[i])
            &&& min matches Some(least) ==> forall|i: int|
                0 <= i < rows.len() ==> (#[trigger] rows[i]).count >= least
        }),
{
    sorting::law_ordered(counts, sort_by);
    let all = sorting::ordered(counts, sort_by);
    let kept = leading(counts, top, sort_by);
    law_selection_is_in_order(counts, top, None, sort_by);
    assert forall|i: int| 0 <= i < kept.len() implies counts.contains(#[trigger] kept[i]) by {
        assert(all[i] == kept[i]);
        assert(all.contains(kept[i]));
    }
    match min {
        Some(least) => {
            let p = |c: IpCount| c.count >= least;
            sorting::lemma_filter(kept, p, sort_by);
            let rows = kept.filter(p);
            assert forall|i: int| 0 <= i < rows.len() implies counts.contains(
                #[trigger] rows[i],
            ) by {
                let k = choose|k: int| 0 <= k < kept.len() && kept[k] == rows[i];
                assert(counts.contains(kept[k]));
            }
            assert forall|i: int| 0 <= i < rows.len() implies (#[trigger] rows[i]).count
                >= least by {
                assert(p(rows[i]));
            }
        },
        None => {},
    }
}

/// Without a limit on the rows, every address with enough hits is in the report.
pub proof fn law_nothing_that_qualifies_is_lost(
    counts: Seq<IpCount>,
    min: Option<u64>,
    sort_by: SortBy,
    c: IpCount,
)
    requires
        counts.len() <= usize::MAX,
        counts.contains(c),
        min matches Some(least) ==> c.count >= least,
    ensures
        selected(counts, None, min, sort_by).contains(c),
{
    sorting::law_ordered(counts, sort_by);
    let all = sorting::ordered(counts, sort_by);
    assert(all.contains(c));
    match min {
        Some(least) => {
            sorting::lemma_filter(all, |x: IpCount| x.count >= least, sort_by);
            let k = choose|k: int| 0 <= k < all.len() && all[k] == c;
            assert(all[k].count >= least);
        },
        None => {},
    }
}

/// An address that a limit on the rows leaves out ranks behind every address that it keeps.
pub proof fn law_the_best_are_kept(
    counts: Seq<IpCount>,
    top: Option<Top>,
    sort_by: SortBy,
    kept: IpCount,
    left_out: IpCount,
)
    requires
        counts.len() <= usize::MAX,
        selected(counts, top, None, sort_by).contains(kept),
        counts.contains(left_out),
        !selected(counts, top, None, sort_by).contains(left_out),
    ensures
        ranking::rank_le(kept.rank(sort_by), left_out.rank(sort_by)),
{
    sorting::law_ordered(counts, sort_by);
    let all = sorting::ordered(counts, sort_by);
    let rows = leading(counts, top, sort_by);
    assert(all.contains(left_out));
    let i = choose|i: int| 0 <= i < rows.len() && rows[i] == kept;
    let j = choose|j: int| 0 <= j < all.len() && all[j] == left_out;
    if j < rows.len() {
        assert(rows[j] == left_out);
    }
    assert(all[i] == kept);
}

/// The report depends on what was counted and not on the order in which it is listed.
pub proof fn law_listing_order_is_irrelevant(
    a: Seq<IpCount>,
    b: Seq<IpCount>,
    top: Option<Top>,
    min: Option<u64>,
    sort_by: SortBy,
)
    requires
        a.len() <= usize::MAX,
        log::distinct_ips(a),
        log::distinct_ips(b),
        a.len() == b.len(),
        forall|c: IpCount| #[trigger] a.contains(c) <==> b.contains(c),
    ensures
        selected(a, top, min, sort_by) == selected(b, top, min, sort_by),
{
    sorting::law_listing_order_is_irrelevant(a, b, sort_by);
}

/// A share of the rows is never none of them, and the whole is all of them.
pub proof fn law_share(n: nat, p: nat)
    ensures
        share(n, p) >= 1,
        n > 0 ==> share(n, 100) == n,
        p <= 100 && n > 0 ==> share(n, p) <= n,
{
    assert(p <= 100 ==> n * p <= n * 100) by (nonlinear_arith);
}

/// Addresses with more hits come first in the order of hits, and those with more bytes in the order of
/// bytes; equal ones are ordered by text.
pub proof fn law_addresses_are_ordered(rows: Seq<IpCount>, i: int, j: int)
    requires
        rows.len() <= usize::MAX,
        0 <= i < j < rows.len(),
    ensures
        ({
            let s = sorting::ordered(rows, SortBy::Hits);
            s[i].count > s[j].count || (s[i].count == s[j].count && text::lex_le(s[i].ip@, s[j].ip@))
        }),
        ({
            let s = sorting::ordered(rows, SortBy::Bandwidth);
            s[i].bytes > s[j].bytes || (s[i].bytes == s[j].bytes && text::lex_le(s[i].ip@, s[j].ip@))
        }),
{
    sorting::law_ordered(rows, SortBy::Hits);
    sorting::law_ordered(rows, SortBy::Bandwidth);
    let h = sorting::ordered(rows, SortBy::Hits);
    let b = sorting::ordered(rows, SortBy::Bandwidth);
    assert(ranking::rank_le(h[i].rank(SortBy::Hits), h[j].rank(SortBy::Hits)));
    assert(ranking::rank_le(b[i].rank(SortBy::Bandwidth), b[j].rank(SortBy::Bandwidth)));
}

/// The bytes of a list of addresses are those of each, added up.
pub proof fn law_bytes_of_addresses(rows: Seq<IpCount>, row: IpCount)
    ensures
        sorting::bytes_sum(Seq::<IpCount>::empty()) == 0,
        sorting::bytes_sum(rows.push(row)) == sorting::bytes_sum(rows) + row.bytes,
{
    assert(rows.push(row).drop_last() =~= rows);
}

/// A share in percent is rounded up to whole rows, and is at least one.
pub proof fn law_shares_are_rounded_up(n: nat, p: nat)
    ensures
        100 * share(n, p) >= n * p,
        n * p > 0 ==> 100 * (share(n, p) - 1) < n * p,
        n * p == 0 ==> share(n, p) == 1,
{
}

/// A number asks for that many rows, and a number with a percent sign for that share.
pub proof fn law_what_a_number_asks_for(n: nat)
    ensures
        n <= u64::MAX && n <= usize::MAX ==> top_of(text::decimal(n)) == Ok::<Top, FractionalShare>(
            Top::Rows(n as usize),
        ),
        n <= u64::MAX ==> top_of(text::decimal(n) + seq!['%']) == Ok::<Top, FractionalShare>(
            Top::Percent(n as u64),
        ),
        n > u64::MAX ==> top_of(text::decimal(n)) == Ok::<Top, FractionalShare>(Top::All),
{
    text::law_numbers_read_back(n);
    let d = text::decimal(n);
    let last = d.len() - 1;
    let digits = if d[0] == '+' {
        d.drop_first()
    } else {
        d
    };
    assert(digits.len() > 0 && text::all_digits(digits));
    assert(digits.last() == d.last());
    assert(text::is_digit(digits[digits.len() - 1]));
    assert(d.last() != '%');
    let t = d + seq!['%'];
    assert(t.last() == '%');
    assert(t.drop_last() =~= d);
    reveal_with_fuel(without_percent, 2);
    assert(without_percent(t) == d);
}

/// How many rows are wanted: all, a number of them, or a share.
pub proof fn law_wanted(n: nat, k: usize, p: u64)
    ensures
        Top::All.wanted(n) == n,
        Top::Rows(k).wanted(n) == k,
        100 * Top::Percent(p).wanted(n) >= n * p,
        Top::Percent(p).wanted(n) >= 1,
        n * p > 0 ==> 100 * (Top::Percent(p).wanted(n) - 1) < n * p,
{
}

/// The first rows are taken, as many as are wanted, and of these only those with enough requests
/// stay, whatever order is asked for.
pub proof fn law_how_many_are_taken(counts: Seq<IpCount>, top: Option<Top>, sort_by: SortBy)
    requires
        counts.len() <= usize::MAX,
    ensures
        top is None ==> leading(counts, top, sort_by).len() == counts.len(),
        top matches Some(t) ==> leading(counts, top, sort_by).len() == if t.wanted(counts.len())
            < counts.len() {
            t.wanted(counts.len())
        } else {
            counts.len()
        },
        forall|i: int|
            0 <= i < leading(counts, top, sort_by).len() ==> #[trigger] leading(
                counts,
                top,
                sort_by,
            )[i] == sorting::ordered(counts, sort_by)[i],
        selected(counts, top, None, sort_by) == leading(counts, top, sort_by),
        forall|least: u64|
            #![trigger selected(counts, top, Some(least), sort_by)]
            forall|c: IpCount| #[trigger]
                selected(counts, top, Some(least), sort_by).contains(c) <==> leading(
                    counts,
                    top,
                    sort_by,
                ).contains(c) && c.count >= least,
{
    sorting::law_ordered(counts, sort_by);
    let kept = leading(counts, top, sort_by);
    assert forall|least: u64, c: IpCount| #[trigger]
        selected(counts, top, Some(least), sort_by).contains(c) <==> kept.contains(c) && c.count
            >= least by {
        let p = |c: IpCount| c.count >= least;
        lists::lemma_filter_rows(kept, p);
        let s = kept.filter(p);
        if s.contains(c) {
            let i = choose|i: int| 0 <= i < s.len() && s[i] == c;
            assert(p(s[i]));
            assert(kept.contains(s[i]));
        }
        if kept.contains(c) && c.count >= least {
            let i = choose|i: int| 0 <= i < kept.len() && kept[i] == c;
            assert(p(kept[i]));
        }
    }
}

/// A text that is no number asks for all rows. In percent, what is not a number but is written as
/// one and every negative number ask for one row, and an infinite share for all.
pub proof fn law_what_other_texts_ask_for(s: Seq<char>)
    ensures
        ({
            let lower = text::ascii_lowered(s);
            let all = Ok::<Top, FractionalShare>(Top::All);
            let one = Ok::<Top, FractionalShare>(Top::Rows(1));
            &&& !(s.len() > 0 && s.last() == '%') && text::u64_value(s) is None ==> top_of(s) == all
            &&& lower == "nan"@ ==> share_of(s) == one
            &&& lower == "inf"@ || lower == "infinity"@ ==> share_of(s) == all
            &&& lower == seq!['-'] + "inf"@ || lower == seq!['-'] + "infinity"@ ==> share_of(s)
                == one
        }),
{
    reveal_strlit("nan");
    reveal_strlit("inf");
    reveal_strlit("infinity");
    let lower = text::ascii_lowered(s);
    assert(lower.len() == s.len());
    if lower == "nan"@ || lower == "inf"@ || lower == "infinity"@ {
        assert(lower[0] == 'n' || lower[0] == 'i');
        assert(lower[0] == text::ascii_lower(s[0]));
        assert(!text::is_digit(s[0]) && s[0] != '+');
        assert(unsigned(lower) == lower);
        assert("nan"@[0] != "inf"@[0]);
    }
    if lower == seq!['-'] + "inf"@ || lower == seq!['-'] + "infinity"@ {
        assert(lower[0] == '-');
        assert(lower[0] == text::ascii_lower(s[0]));
        assert(s[0] == '-');
        assert(!text::is_digit(s[0]));
        assert((seq!['-'] + "inf"@).drop_first() =~= "inf"@);
        assert((seq!['-'] + "infinity"@).drop_first() =~= "infinity"@);
        assert("nan"@[0] != "inf"@[0]);
    }
}

/// Percent signs behind the first one do not matter.
pub proof fn law_percent_signs(s: Seq<char>)
    ensures
        top_of(s.push('%').push('%')) == top_of(s.push('%')),
        s.len() == 0 || s.last() != '%' ==> top_of(s.push('%')) == share_of(s),
{
    reveal_with_fuel(without_percent, 3);
    assert(s.push('%').push('%').drop_last() =~= s.push('%'));
    assert(s.push('%').drop_last() =~= s);
}

/// Digits with a point before, among or behind them are a decimal number, and so they are with an
/// exponent behind the letter e, with or without a sign.
pub proof fn law_decimal_numbers(a: Seq<char>, b: Seq<char>, e: Seq<char>)
    requires
        text::all_digits(a),
        text::all_digits(b),
        text::all_digits(e),
        e.len() > 0,
        a.len() + b.len() > 0,
    ensures
        is_mantissa(a + seq!['.'] + b),
        is_decimal(a + seq!['.'] + b),
        is_decimal(a + seq!['.'] + b + seq!['e'] + e),
        is_decimal(a + seq!['.'] + b + seq!['e'] + (seq!['-'] + e)),
        is_decimal(a + seq!['.'] + b + seq!['e'] + (seq!['+'] + e)),
        !is_decimal(a + seq!['.'] + b + seq!['e']),
{
    let m = a + seq!['.'] + b;
    let d = seq!['.'];
    text::lemma_find_from(m, d, 0);
    assert(m.subrange(a.len() as int, (a.len() + 1) as int) =~= d);
    assert(text::occurs_at(m, d, a.len() as int));
    assert forall|j: int| 0 <= j < a.len() implies !text::occurs_at(m, d, j) by {
        assert(m.subrange(j, j + 1)[0] == a[j]);
        assert(text::is_digit(a[j]));
        assert(d[0] == '.');
    }
    assert(text::find(m, d) == Some(a.len()));
    assert(m.take(a.len() as int) =~= a);
    assert(m.skip(a.len() as int + 1) =~= b);
    assert forall|i: int| 0 <= i < m.len() implies m[i] != 'e' by {
        if i < a.len() {
            assert(text::is_digit(a[i]));
        } else if i > a.len() {
            assert(text::is_digit(b[i - a.len() - 1]));
        }
    }
    lemma_exponent(m, Seq::empty());
    assert(text::is_digit(e[0]));
    assert(unsigned(e) == e);
    lemma_exponent(m, e);
    assert((seq!['-'] + e).drop_first() =~= e);
    assert(unsigned(seq!['-'] + e) == e);
    lemma_exponent(m, seq!['-'] + e);
    assert((seq!['+'] + e).drop_first() =~= e);
    assert(unsigned(seq!['+'] + e) == e);
    lemma_exponent(m, seq!['+'] + e);
    assert(m + seq!['e'] + Seq::<char>::empty() =~= m + seq!['e']);
    text::lemma_find_from(m, seq!['e'], 0);
    match text::find(m, seq!['e']) {
        Some(k) => {
            assert(m.subrange(k as int, k as int + 1)[0] == m[k as int]);
            assert(seq!['e'][0] == 'e');
        },
        None => {},
    }
}

/// What stands behind the first letter e is the exponent.
proof fn lemma_exponent(m: Seq<char>, x: Seq<char>)
    requires
        forall|i: int| 0 <= i < m.len() ==> m[i] != 'e',
    ensures
        is_decimal(m + seq!['e'] + x) <==> is_mantissa(m) && unsigned(x).len() > 0
            && text::all_digits(unsigned(x)),
{
    let s = m + seq!['e'] + x;
    let d = seq!['e'];
    text::lemma_find_from(s, d, 0);
    assert(s.subrange(m.len() as int, (m.len() + 1) as int) =~= d);
    assert(text::occurs_at(s, d, m.len() as int));
    assert forall|j: int| 0 <= j < m.len() implies !text::occurs_at(s, d, j) by {
        assert(s.subrange(j, j + 1)[0] == m[j]);
        assert(d[0] == 'e');
    }
    assert(text::find(s, d) == Some(m.len()));
    assert(s.take(m.len() as int) =~= m);
    assert(s.skip(m.len() as int + 1) =~= x);
}

/// A decimal number starts with a digit or a point, and a text with neither a point nor an exponent
/// is one exactly if it is all digits.
pub proof fn law_what_is_no_decimal_number(s: Seq<char>)
    ensures
        is_decimal(s) ==> s.len() > 0 && (text::is_digit(s[0]) || s[0] == '.'),
        !s.contains('.') && !s.contains('e') ==> (is_decimal(s) <==> s.len() > 0 && text::all_digits(
            s,
        )),
        s == seq!['.'] ==> !is_decimal(s),
{
    let d = seq!['.'];
    let e = seq!['e'];
    assert(d[0] == '.' && e[0] == 'e');
    text::lemma_find_from(s, e, 0);
    text::lemma_find_from(s, d, 0);
    match text::find(s, e) {
        Some(k) => {
            assert(s.subrange(k as int, k as int + 1)[0] == s[k as int]);
            assert(s.contains('e'));
            lemma_mantissa_start(s.take(k as int));
            if is_decimal(s) {
                assert(s.take(k as int)[0] == s[0]);
            }
        },
        None => {
            lemma_mantissa_start(s);
        },
    }
    match text::find(s, d) {
        Some(k) => {
            assert(s.subrange(k as int, k as int + 1)[0] == s[k as int]);
            assert(s.contains('.'));
        },
        None => {},
    }
    if s == d {
        match text::find(s, e) {
            Some(k) => {
                assert(s[k as int] == 'e');
            },
            None => {
                assert(s.subrange(0, 1) =~= d);
                assert(text::occurs_at(s, d, 0));
                assert(text::find(s, d) is Some);
            },
        }
    }
}

proof fn lemma_mantissa_start(s: Seq<char>)
    ensures
        is_mantissa(s) ==> s.len() > 0 && (text::is_digit(s[0]) || s[0] == '.'),
{
    let d = seq!['.'];
    assert(d[0] == '.');
    text::lemma_find_from(s, d, 0);
    match text::find(s, d) {
        Some(k) => {
            assert(s.subrange(k as int, k as int + 1)[0] == s[k as int]);
            if is_mantissa(s) && k > 0 {
                assert(text::is_digit(s.take(k as int)[0]));
            }
        },
        None => {},
    }
}

/// A negative share asks for one row, and a share that is a number with a point or an exponent takes
/// fractions to tell.
pub proof fn law_shares_with_fractions(s: Seq<char>)
    requires
        text::unsigned_value(s) is None,
        text::ascii_lowered(s) == s,
    ensures
        is_decimal(s) ==> share_of(s) == Err::<Top, FractionalShare>(FractionalShare),
        is_decimal(s) ==> share_of(seq!['-'] + s) == Ok::<Top, FractionalShare>(Top::Rows(1)),
{
    if is_decimal(s) {
        reveal_strlit("nan");
        reveal_strlit("inf");
        reveal_strlit("infinity");
        law_what_is_no_decimal_number(s);
        let t = seq!['-'] + s;
        assert(unsigned(s) == s);
        assert(t.drop_first() =~= s);
        assert(text::ascii_lowered(t) =~= t) by {
            assert forall|i: int| 0 <= i < t.len() implies text::ascii_lower(t[i]) == t[i] by {
                if i > 0 {
                    assert(text::ascii_lowered(s)[i - 1] == text::ascii_lower(s[i - 1]));
                }
            }
        }
        assert(text::unsigned_value(t) is None) by {
            if text::all_digits(t) {
                assert(text::is_digit(t[0]));
            }
        }
        assert("nan"@[0] == 'n' && "inf"@[0] == 'i' && "infinity"@[0] == 'i');
    }
}

} // verus!
