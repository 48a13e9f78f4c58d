//! Counting by key: how often a key came, with what total, and which keys there are.
use vstd::hash_map::StringHashMap;
use vstd::prelude::*;

verus! {

broadcast use vstd::string::group_string_axioms;

// ---------------------------------------------------------------------------
// Model
// ---------------------------------------------------------------------------

/// The keys of a list of items, each once, in the order in which they first came.
pub open spec fn distinct<K>(items: Seq<(K, u64)>) -> Seq<K>
    decreases items.len(),
{
    if items.len() == 0 {
        Seq::empty()
    } else {
        let before = distinct(items.drop_last());
        if before.contains(items.last().0) {
            before
        } else {
            before.push(items.last().0)
        }
    }
}

/// How many items have a key.
pub open spec fn times<K>(items: Seq<(K, u64)>, k: K) -> nat
    decreases items.len(),
{
    if items.len() == 0 {
        0
    } else {
        times(items.drop_last(), k) + if items.last().0 == k {
            1nat
        } else {
            0nat
        }
    }
}

/// The total amount of the items that have a key.
pub open spec fn total<K>(items: Seq<(K, u64)>, k: K) -> nat
    decreases items.len(),
{
    if items.len() == 0 {
        0
    } else {
        total(items.drop_last(), k) + if items.last().0 == k {
            items.last().1 as nat
        } else {
            0nat
        }
    }
}

/// A key came at most as often as there are items, and it is among the keys exactly if it came; the
/// keys do not repeat.
pub proof fn lemma_keys<K>(items: Seq<(K, u64)>)
    ensures
        forall|k: K| #[trigger] times(items, k) <= items.len(),
        forall|k: K| #[trigger] distinct(items).contains(k) <==> times(items, k) > 0,
        forall|k: K| #[trigger] times(items, k) == 0 ==> total(items, k) == 0,
        distinct(items).no_duplicates(),
        distinct(items).len() <= items.len(),
    decreases items.len(),
{
    if items.len() > 0 {
        let rest = items.drop_last();
        lemma_keys(rest);
        let before = distinct(rest);
        let last = items.last().0;
        assert forall|k: K| #[trigger] times(items, k) <= items.len() by {
            assert(times(rest, k) <= rest.len());
        }
        assert forall|k: K| #[trigger] times(items, k) == 0 implies total(items, k) == 0 by {
            assert(times(rest, k) == 0);
        }
        assert forall|k: K| #[trigger] distinct(items).contains(k) <==> times(items, k) > 0 by {
            assert(before.contains(k) <==> times(rest, k) > 0);
            if !before.contains(last) {
                let after = before.push(last);
                if after.contains(k) {
                    let i = choose|i: int| 0 <= i < after.len() && after[i] == k;
                    if i < before.len() {
                        assert(before[i] == k);
                    }
                }
                if before.contains(k) {
                    let i = choose|i: int| 0 <= i < before.len() && before[i] == k;
                    assert(after[i] == k);
                }
                assert(after[before.len() as int] == last);
            }
        }
    } else {
        assert(forall|k: K| !distinct(items).contains(k));
    }
}

/// What one more item does to the keys and the sums.
pub proof fn lemma_push<K>(items: Seq<(K, u64)>, k: K, amount: u64)
    ensures
        distinct(items.push((k, amount))) == if distinct(items).contains(k) {
            distinct(items)
        } else {
            distinct(items).push(k)
        },
        forall|x: K| #[trigger] times(items.push((k, amount)), x) == times(items, x) + if x == k {
            1nat
        } else {
            0nat
        },
        forall|x: K| #[trigger] total(items.push((k, amount)), x) == total(items, x) + if x == k {
            amount as nat
        } else {
            0nat
        },
{
    assert(items.push((k, amount)).drop_last() =~= items);
}

/// The sum of a list of numbers.
pub open spec fn sum(s: Seq<nat>) -> nat
    decreases s.len(),
{
    if s.len() == 0 {
        0
    } else {
        sum(s.drop_last()) + s.last()
    }
}

/// One number of a list grows by as much as the sum does.
pub proof fn lemma_sum_update(s: Seq<nat>, i: int, x: nat)
    requires
        0 <= i < s.len(),
    ensures
        sum(s.update(i, x)) == sum(s) - s[i] + x,
    decreases s.len(),
{
    if i == s.len() - 1 {
        assert(s.update(i, x).drop_last() =~= s.drop_last());
    } else {
        lemma_sum_update(s.drop_last(), i, x);
        assert(s.update(i, x).drop_last() =~= s.drop_last().update(i, x));
    }
}

/// The counts of all keys add up to the number of items.
pub proof fn law_counts_add_up<K>(items: Seq<(K, u64)>)
    ensures
        sum(distinct(items).map_values(|k: K| times(items, k))) == items.len(),
    decreases items.len(),
{
    let count = |k: K| times(items, k);
    if items.len() == 0 {
        assert(distinct(items).map_values(count) =~= Seq::<nat>::empty());
    } else {
        let rest = items.drop_last();
        let (k, amount) = items.last();
        assert(items =~= rest.push((k, amount)));
        law_counts_add_up(rest);
        lemma_push(rest, k, amount);
        lemma_keys(rest);
        let before = distinct(rest).map_values(|x: K| times(rest, x));
        let after = distinct(items).map_values(count);
        if distinct(rest).contains(k) {
            let i = choose|i: int| 0 <= i < distinct(rest).len() && distinct(rest)[i] == k;
            assert(after =~= before.update(i, before[i] + 1));
            lemma_sum_update(before, i, before[i] + 1);
        } else {
            assert(times(rest, k) == 0);
            assert(after.last() == 1);
            assert(after.drop_last() =~= before) by {
                assert forall|j: int| 0 <= j < before.len() implies after[j] == before[j] by {
                    assert(distinct(rest)[j] != k);
                }
            }
        }
    }
}

/// How often a key came in two lists, and with what total, adds up.
pub proof fn law_two_lists_add_up<K>(a: Seq<(K, u64)>, b: Seq<(K, u64)>, k: K)
    ensures
        times(a + b, k) == times(a, k) + times(b, k),
        total(a + b, k) == total(a, k) + total(b, k),
    decreases b.len(),
{
    if b.len() == 0 {
        assert(a + b =~= a);
    } else {
        assert((a + b).drop_last() =~= a + b.drop_last());
        assert((a + b).last() == b.last());
        law_two_lists_add_up(a, b.drop_last(), k);
    }
}

/// Rearranging rows changes neither how often the keys of their items come nor their totals.
pub proof fn law_rearranging_keeps_the_sums<T, K>(
    a: Seq<T>,
    b: Seq<T>,
    item: spec_fn(T) -> (K, u64),
    k: K,
)
    requires
        a.to_multiset() == b.to_multiset(),
    ensures
        times(a.map_values(item), k) == times(b.map_values(item), k),
        total(a.map_values(item), k) == total(b.map_values(item), k),
    decreases a.len(),
{
    a.to_multiset_ensures();
    b.to_multiset_ensures();
    assert(a.len() == b.len());
    if a.len() > 0 {
        let x = a.last();
        let n = a.len() - 1;
        assert(a[n] == x);
        assert(b.to_multiset().count(x) > 0);
        let i = choose|i: int| 0 <= i < b.len() && b[i] == x;
        assert(a.remove(n) =~= a.drop_last());
        law_rearranging_keeps_the_sums(a.drop_last(), b.remove(i), item, k);
        let left = b.take(i).map_values(item);
        let right = b.skip(i + 1).map_values(item);
        let mid = seq![item(x)];
        assert(mid.drop_last() =~= Seq::empty());
        assert(b.map_values(item) =~= left + mid + right);
        assert(b.remove(i).map_values(item) =~= left + right);
        law_two_lists_add_up(left + mid, right, k);
        law_two_lists_add_up(left, mid, k);
        law_two_lists_add_up(left, right, k);
        assert(a.map_values(item).drop_last() =~= a.drop_last().map_values(item));
        assert(times(mid.drop_last(), k) == 0 && total(mid.drop_last(), k) == 0);
    }
}

/// The total of all items.
pub open spec fn grand_total<K>(items: Seq<(K, u64)>) -> nat
    decreases items.len(),
{
    if items.len() == 0 {
        0
    } else {
        grand_total(items.drop_last()) + items.last().1 as nat
    }
}

/// The totals of all keys add up to the total of all items.
pub proof fn law_totals_add_up<K>(items: Seq<(K, u64)>)
    ensures
        sum(distinct(items).map_values(|k: K| total(items, k))) == grand_total(items),
    decreases items.len(),
{
    let amount_of = |k: K| total(items, k);
    if items.len() == 0 {
        assert(distinct(items).map_values(amount_of) =~= Seq::<nat>::empty());
    } else {
        let rest = items.drop_last();
        let (k, amount) = items.last();
        assert(items =~= rest.push((k, amount)));
        law_totals_add_up(rest);
        lemma_push(rest, k, amount);
        lemma_keys(rest);
        let before = distinct(rest).map_values(|x: K| total(rest, x));
        let after = distinct(items).map_values(amount_of);
        if distinct(rest).contains(k) {
            let i = choose|i: int| 0 <= i < distinct(rest).len() && distinct(rest)[i] == k;
            assert(after =~= before.update(i, before[i] + amount as nat));
            lemma_sum_update(before, i, before[i] + amount as nat);
        } else {
            assert(times(rest, k) == 0);
            assert(after.last() == amount as nat);
            assert(after.drop_last() =~= before) by {
                assert forall|j: int| 0 <= j < before.len() implies after[j] == before[j] by {
                    assert(distinct(rest)[j] != k);
                }
            }
        }
    }
}

// ---------------------------------------------------------------------------
// Counting by text
// ---------------------------------------------------------------------------

/// How often a text came, and with what total.
#[derive(Debug)]
pub struct TallyRow {
    pub name: String,
    pub count: u64,
    pub bytes: u64,
}

/// The rows say of each key of the items how often it came and with what total, in the order in
/// which the keys first came.
pub open spec fn rows_say(rows: Seq<TallyRow>, items: Seq<(Seq<char>, u64)>) -> bool {
    &&& rows.len() == distinct(items).len()
    &&& forall|i: int|
        #![trigger rows[i]]
        0 <= i < rows.len() ==> {
            &&& rows[i].name@ == distinct(items)[i]
            &&& rows[i].count == times(items, rows[i].name@)
            &&& rows[i].bytes == total(items, rows[i].name@)
        }
}

/// A count and a total by text.
pub struct TextTally {
    index: StringHashMap<usize>,
    rows: Vec<TallyRow>,
    items: Ghost<Seq<(Seq<char>, u64)>>,
}

impl View for TextTally {
    type V = Seq<(Seq<char>, u64)>;

    closed spec fn view(&self) -> Seq<(Seq<char>, u64)> {
        self.items@
    }
}

impl TextTally {
    /// The rows hold the sums of what was added, and the index finds them.
    pub closed spec fn wf(&self) -> bool {
        &&& rows_say(self.rows@, self.items@)
        &&& forall|name: Seq<char>| #[trigger]
            self.index@.contains_key(name) <==> distinct(self.items@).contains(name)
        &&& forall|name: Seq<char>| #[trigger]
            self.index@.contains_key(name) ==> self.index@[name] < self.rows@.len()
                && self.rows@[self.index@[name] as int].name@ == name
    }

    /// Nothing was counted yet.
    pub fn new() -> (r: TextTally)
        ensures
            r.wf(),
            r@ == Seq::<(Seq<char>, u64)>::empty(),
    {
        let r = TextTally {
            index: StringHashMap::new(),
            rows: Vec::new(),
            items: Ghost(Seq::empty()),
        };
        assert(distinct(r.items@).len() == 0);
        assert(forall|name: Seq<char>| !distinct(r.items@).contains(name));
        r
    }

    /// The total so far of a text.
    pub fn total_of(&self, name: &str) -> (r: u64)
        requires
            self.wf(),
        ensures
            r == total(self@, name@),
    {
        proof {
            lemma_keys(self.items@);
        }
        match self.index.get(name) {
            Some(i) => self.rows[*i].bytes,
            None => {
                assert(!distinct(self.items@).contains(name@));
                assert(times(self.items@, name@) == 0);
                0
            },
        }
    }

    /// Counts a text once more, with an amount that its total still has room for.
    pub fn count(&mut self, name: &str, amount: u64)
        requires
            old(self).wf(),
            old(self)@.len() < u64::MAX,
            total(old(self)@, name@) + amount <= u64::MAX,
        ensures
            final(self).wf(),
            final(self)@ == old(self)@.push((name@, amount)),
    {
        let ghost before = self.items@;
        let ghost old_rows = self.rows@;
        proof {
            lemma_keys(before);
            lemma_push(before, name@, amount);
        }
        let place: Option<usize> = match self.index.get(name) {
            Some(i) => Some(*i),
            None => None,
        };
        match place {
            Some(i) => {
                assert(self.index@.contains_key(name@));
                assert(times(before, name@) <= before.len());
                assert(old_rows[i as int].count == times(before, name@));
                let row = &mut self.rows[i];
                row.count = row.count + 1;
                row.bytes = row.bytes + amount;
                proof {
                    self.items@ = before.push((name@, amount));
                    assert forall|j: int| 0 <= j < old_rows.len() && j != i implies
                        old_rows[j].name@ != name@ by {
                        assert(distinct(before)[j] == old_rows[j].name@);
                        assert(distinct(before)[i as int] == name@);
                    }
                }
            },
            None => {
                assert(!self.index@.contains_key(name@));
                assert(!distinct(before).contains(name@));
                assert(times(before, name@) == 0);
                let n: usize = self.rows.len();
                self.rows.push(TallyRow { name: name.to_owned(), count: 1, bytes: amount });
                self.index.insert(name.to_owned(), n);
                proof {
                    self.items@ = before.push((name@, amount));
                    let keys = distinct(before);
                    assert(keys.push(name@)[keys.len() as int] == name@);
                    assert forall|x: Seq<char>| #[trigger]
                        self.index@.contains_key(x) <==> distinct(self.items@).contains(x) by {
                        if keys.contains(x) {
                            let j = choose|j: int| 0 <= j < keys.len() && keys[j] == x;
                            assert(keys.push(name@)[j] == x);
                        }
                        if keys.push(name@).contains(x) && x != name@ {
                            let j = choose|j: int|
                                0 <= j < keys.push(name@).len() && keys.push(name@)[j] == x;
                            assert(keys[j] == x);
                        }
                    }
                    assert forall|j: int| 0 <= j < old_rows.len() implies old_rows[j].name@
                        != name@ by {
                        assert(keys[j] == old_rows[j].name@);
                        assert(keys.contains(keys[j]));
                    }
                    assert forall|j: int| 0 <= j < self.rows@.len() implies {
                        &&& (#[trigger] self.rows@[j]).name@ == distinct(self.items@)[j]
                        &&& self.rows@[j].count == times(self.items@, self.rows@[j].name@)
                        &&& self.rows@[j].bytes == total(self.items@, self.rows@[j].name@)
                    } by {
                        if j < old_rows.len() {
                            assert(self.rows@[j] == old_rows[j]);
                        }
                    }
                }
            },
        }
    }

    /// The rows.
    pub fn rows(&self) -> (r: &Vec<TallyRow>)
        requires
            self.wf(),
        ensures
            rows_say(r@, self@),
    {
        &self.rows
    }

    /// The rows, given away.
    pub fn into_rows(self) -> (r: Vec<TallyRow>)
        requires
            self.wf(),
        ensures
            rows_say(r@, self@),
    {
        self.rows
    }
}

/// The first of the keys that came most often.
pub open spec fn leader<K>(items: Seq<(K, u64)>) -> Option<K> {
    if items.len() == 0 {
        None
    } else {
        Some(distinct(items)[first_most(items, distinct(items).len() as int)])
    }
}

/// The first index below `n` of a key that came as often as any before `n`.
pub open spec fn first_most<K>(items: Seq<(K, u64)>, n: int) -> int
    decreases n,
{
    if n <= 1 {
        0
    } else {
        let best = first_most(items, n - 1);
        if times(items, distinct(items)[n - 1]) > times(items, distinct(items)[best]) {
            n - 1
        } else {
            best
        }
    }
}

/// The leader came, and no key came more often.
pub proof fn law_leader<K>(items: Seq<(K, u64)>)
    ensures
        items.len() == 0 <==> leader(items) is None,
        leader(items) matches Some(k) ==> {
            &&& times(items, k) > 0
            &&& forall|x: K| #[trigger] times(items, x) <= times(items, k)
        },
{
    if items.len() > 0 {
        lemma_keys(items);
        let keys = distinct(items);
        assert(times(items, items.last().0) > 0);
        assert(keys.contains(items.last().0));
        assert(keys.len() > 0);
        lemma_first_most(items, keys.len() as int);
        let k = keys[first_most(items, keys.len() as int)];
        assert(keys.contains(k));
        assert forall|x: K| #[trigger] times(items, x) <= times(items, k) by {
            if times(items, x) > 0 {
                assert(keys.contains(x));
                let i = choose|i: int| 0 <= i < keys.len() && keys[i] == x;
                assert(times(items, keys[i]) <= times(items, k));
            }
        }
    }
}

proof fn lemma_first_most<K>(items: Seq<(K, u64)>, n: int)
    requires
        0 < n <= distinct(items).len(),
    ensures
        0 <= first_most(items, n) < n,
        forall|i: int|
            0 <= i < n ==> times(items, #[trigger] distinct(items)[i]) <= times(
                items,
                distinct(items)[first_most(items, n)],
            ),
        forall|i: int|
            0 <= i < first_most(items, n) ==> times(items, #[trigger] distinct(items)[i]) < times(
                items,
                distinct(items)[first_most(items, n)],
            ),
    decreases n,
{
    if n > 1 {
        lemma_first_most(items, n - 1);
    }
}

impl TextTally {
    /// The first of the texts that came most often.
    pub fn most_counted(&self) -> (r: Option<String>)
        requires
            self.wf(),
        ensures
            crate::text::opt_view(r) == leader(self@),
    {
        let ghost items = self.items@;
        if self.rows.len() == 0 {
            proof {
                lemma_keys(items);
                if items.len() > 0 {
                    assert(times(items, items.last().0) > 0);
                    assert(distinct(items).contains(items.last().0));
                }
            }
            return None;
        }
        let mut best: usize = 0;
        let mut i: usize = 1;
        while i < self.rows.len()
            invariant
                rows_say(self.rows@, items),
                items == self.items@,
                best < i <= self.rows@.len(),
                best == first_most(items, i as int),
            decreases self.rows@.len() - i,
        {
            assert(self.rows@[i as int].name@ == distinct(items)[i as int]);
            assert(self.rows@[best as int].name@ == distinct(items)[best as int]);
            if self.rows[i].count > self.rows[best].count {
                best = i;
            }
            i = i + 1;
        }
        proof {
            lemma_keys(items);
        }
        assert(self.rows@[best as int].name@ == distinct(items)[best as int]);
        Some(self.rows[best].name.clone())
    }
}

/// Of the keys that came most often, the leader is the one that came first.
pub proof fn law_the_first_leads<K>(items: Seq<(K, u64)>, i: int, j: int)
    requires
        0 <= i < j < distinct(items).len(),
        leader(items) == Some(distinct(items)[j]),
    ensures
        times(items, distinct(items)[i]) < times(items, distinct(items)[j]),
{
    lemma_keys(items);
    let keys = distinct(items);
    let n = keys.len() as int;
    lemma_first_most(items, n);
    let best = first_most(items, n);
    assert(keys[best] == keys[j]);
    assert(best == j);
    lemma_before_the_first(items, n, i);
}

proof fn lemma_before_the_first<K>(items: Seq<(K, u64)>, n: int, i: int)
    requires
        0 <= i < first_most(items, n),
        n <= distinct(items).len(),
    ensures
        first_most(items, n) < n,
        times(items, distinct(items)[i]) < times(items, distinct(items)[first_most(items, n)]),
    decreases n,
{
    if n > 1 {
        let best = first_most(items, n - 1);
        lemma_first_most(items, n - 1);
        if first_most(items, n) == best {
            lemma_before_the_first(items, n - 1, i);
        } else {
            assert(times(items, distinct(items)[i]) <= times(items, distinct(items)[best]));
        }
    }
}

/// One more item adds one to how often its key came and its amount to its key's total, and a key that
/// did not come before goes behind the others.
pub proof fn law_one_more_item<K>(items: Seq<(K, u64)>, k: K, amount: u64, x: K)
    ensures
        times(Seq::<(K, u64)>::empty(), x) == 0,
        total(Seq::<(K, u64)>::empty(), x) == 0,
        distinct(Seq::<(K, u64)>::empty()).len() == 0,
        times(items.push((k, amount)), k) == times(items, k) + 1,
        total(items.push((k, amount)), k) == total(items, k) + amount,
        x != k ==> times(items.push((k, amount)), x) == times(items, x),
        x != k ==> total(items.push((k, amount)), x) == total(items, x),
        distinct(items).contains(k) ==> distinct(items.push((k, amount))) == distinct(items),
        !distinct(items).contains(k) ==> distinct(items.push((k, amount))) == distinct(items).push(k),
{
    lemma_push(items, k, amount);
}

} // verus!
