//! Text as sequences of characters: searching, trimming, splitting, numbers and ordering.
use vstd::prelude::*;
use vstd::slice::slice_subrange;

verus! {

broadcast use vstd::string::group_string_axioms;

// ---------------------------------------------------------------------------
// Model
// ---------------------------------------------------------------------------

/// The characters with the Unicode `White_Space` property.
pub open spec fn is_space(c: char) -> bool {
    ||| '\u{9}' <= c <= '\u{d}'
    ||| c == '\u{20}'
    ||| c == '\u{85}'
    ||| c == '\u{a0}'
    ||| c == '\u{1680}'
    ||| '\u{2000}' <= c <= '\u{200a}'
    ||| c == '\u{2028}'
    ||| c == '\u{2029}'
    ||| c == '\u{202f}'
    ||| c == '\u{205f}'
    ||| c == '\u{3000}'
}

/// The ASCII digits.
pub open spec fn is_digit(c: char) -> bool {
    '0' <= c <= '9'
}

/// Every character is an ASCII digit.
pub open spec fn all_digits(s: Seq<char>) -> bool {
    forall|i: int| 0 <= i < s.len() ==> is_digit(#[trigger] s[i])
}

/// The text without its leading white space.
pub open spec fn trim_start(s: Seq<char>) -> Seq<char>
    decreases s.len(),
{
    if s.len() > 0 && is_space(s[0]) {
        trim_start(s.drop_first())
    } else {
        s
    }
}

/// The text without its trailing white space.
pub open spec fn trim_end(s: Seq<char>) -> Seq<char>
    decreases s.len(),
{
    if s.len() > 0 && is_space(s.last()) {
        trim_end(s.drop_last())
    } else {
        s
    }
}

/// The text without the white space around it.
pub open spec fn trim(s: Seq<char>) -> Seq<char> {
    trim_end(trim_start(s))
}

/// `p` stands in `s` at index `i`.
pub open spec fn occurs_at(s: Seq<char>, p: Seq<char>, i: int) -> bool {
    0 <= i && i + p.len() <= s.len() && s.subrange(i, i + p.len()) == p
}

/// `p` stands somewhere in `s`.
pub open spec fn contains(s: Seq<char>, p: Seq<char>) -> bool {
    exists|i: int| occurs_at(s, p, i)
}

/// The first index from `i` on at which `p` stands in `s`.
pub open spec fn find_from(s: Seq<char>, p: Seq<char>, i: nat) -> Option<nat>
    decreases s.len() + 1 - i,
{
    if i + p.len() > s.len() {
        None
    } else if occurs_at(s, p, i as int) {
        Some(i)
    } else {
        find_from(s, p, i + 1)
    }
}

/// The first index at which `p` stands in `s`.
pub open spec fn find(s: Seq<char>, p: Seq<char>) -> Option<nat> {
    find_from(s, p, 0)
}

/// `s` begins with `p`.
pub open spec fn starts_with(s: Seq<char>, p: Seq<char>) -> bool {
    occurs_at(s, p, 0)
}

/// `s` ends with `p`.
pub open spec fn ends_with(s: Seq<char>, p: Seq<char>) -> bool {
    occurs_at(s, p, s.len() - p.len())
}

/// The last index at which `c` stands in `s`.
pub open spec fn rfind_char(s: Seq<char>, c: char) -> Option<nat>
    decreases s.len(),
{
    if s.len() == 0 {
        None
    } else if s.last() == c {
        Some((s.len() - 1) as nat)
    } else {
        rfind_char(s.drop_last(), c)
    }
}

/// The pieces of `s` between the occurrences of `d`, which are taken from the left and do not
/// overlap. An empty `d` stands before, between and behind all characters.
pub open spec fn split(s: Seq<char>, d: Seq<char>) -> Seq<Seq<char>>
    decreases s.len(),
{
    if d.len() == 0 {
        seq![Seq::<char>::empty()] + s.map_values(|c: char| seq![c]) + seq![Seq::<char>::empty()]
    } else {
        match find(s, d) {
            None => seq![s],
            Some(k) => {
                proof {
                    lemma_find_from(s, d, 0);
                }
                seq![s.take(k as int)] + split(s.skip((k + d.len()) as int), d)
            },
        }
    }
}

/// A line that a line feed ends, without the carriage return before the line feed.
pub open spec fn strip_return(s: Seq<char>) -> Seq<char> {
    if s.len() > 0 && s.last() == '\r' {
        s.drop_last()
    } else {
        s
    }
}

/// The lines of a text. A line ends in a line feed, or a carriage return and a line feed; the last
/// one needs no ending.
pub open spec fn lines(s: Seq<char>) -> Seq<Seq<char>>
    decreases s.len(),
{
    if s.len() == 0 {
        Seq::empty()
    } else {
        match find(s, seq!['\n']) {
            None => seq![s],
            Some(k) => {
                proof {
                    lemma_find_from(s, seq!['\n'], 0);
                }
                seq![strip_return(s.take(k as int))] + lines(s.skip((k + 1) as int))
            },
        }
    }
}

/// The characters before the first white space behind the leading white space.
pub open spec fn leading_word(s: Seq<char>) -> Seq<char>
    decreases s.len(),
{
    if s.len() == 0 || is_space(s[0]) {
        Seq::empty()
    } else {
        seq![s[0]] + leading_word(s.drop_first())
    }
}

/// The first word of a text; empty where the text holds only white space.
pub open spec fn first_word(s: Seq<char>) -> Seq<char> {
    leading_word(trim_start(s))
}

/// The value of a decimal digit.
pub open spec fn digit_value(c: char) -> nat {
    (c as nat - '0' as nat) as nat
}

/// The number that a sequence of digits writes.
pub open spec fn digits_value(s: Seq<char>) -> nat
    decreases s.len(),
{
    if s.len() == 0 {
        0
    } else {
        digits_value(s.drop_last()) * 10 + digit_value(s.last())
    }
}

/// The number that a text writes in decimal, after an optional plus sign.
pub open spec fn unsigned_value(s: Seq<char>) -> Option<nat> {
    let digits = if s.len() > 0 && s[0] == '+' {
        s.drop_first()
    } else {
        s
    };
    if digits.len() > 0 && all_digits(digits) {
        Some(digits_value(digits))
    } else {
        None
    }
}

/// What reading a text as a 64 bit number gives.
pub open spec fn u64_value(s: Seq<char>) -> Option<u64> {
    match unsigned_value(s) {
        Some(n) => if n <= u64::MAX {
            Some(n as u64)
        } else {
            None
        },
        None => None,
    }
}

/// A number in decimal digits.
pub open spec fn decimal(n: nat) -> Seq<char>
    decreases n,
{
    if n < 10 {
        seq![(('0' as nat) + n) as char]
    } else {
        decimal(n / 10) + decimal(n % 10)
    }
}

/// `a` comes before `b`, or is `b`, character by character.
pub open spec fn lex_le(a: Seq<char>, b: Seq<char>) -> bool
    decreases a.len(),
{
    if a.len() == 0 {
        true
    } else if b.len() == 0 {
        false
    } else if a[0] != b[0] {
        a[0] < b[0]
    } else {
        lex_le(a.drop_first(), b.drop_first())
    }
}

/// The pieces with `sep` between each two.
pub open spec fn join(parts: Seq<Seq<char>>, sep: Seq<char>) -> Seq<char>
    decreases parts.len(),
{
    if parts.len() == 0 {
        Seq::empty()
    } else if parts.len() == 1 {
        parts[0]
    } else {
        join(parts.drop_last(), sep) + sep + parts.last()
    }
}

/// Joining one more part.
pub proof fn lemma_join_push(parts: Seq<Seq<char>>, part: Seq<char>, sep: Seq<char>)
    requires
        parts.len() > 0,
    ensures
        join(parts.push(part), sep) == join(parts, sep) + sep + part,
{
    assert(parts.push(part).drop_last() =~= parts);
}

/// What `find_from` gives is the first occurrence from `i` on, if there is one.
pub proof fn lemma_find_from(s: Seq<char>, p: Seq<char>, i: nat)
    ensures
        match find_from(s, p, i) {
            Some(k) => i <= k && occurs_at(s, p, k as int) && forall|j: int|
                i <= j < k ==> !occurs_at(s, p, j),
            None => forall|j: int| i <= j ==> !occurs_at(s, p, j),
        },
    decreases s.len() + 1 - i,
{
    if i + p.len() <= s.len() && !occurs_at(s, p, i as int) {
        lemma_find_from(s, p, i + 1);
    }
}

// ---------------------------------------------------------------------------
// Conversions
// ---------------------------------------------------------------------------

/// `String::push` puts one character at the end.
pub assume_specification[ String::push ](s: &mut String, c: char)
    ensures
        final(s)@ == old(s)@.push(c),
;

/// The characters of a text.
pub fn to_chars(s: &str) -> (r: Vec<char>)
    ensures
        r@ == s@,
{
    let mut out: Vec<char> = Vec::new();
    for c in it: s.chars()
        invariant
            it.seq() == s@,
            out@ == s@.take(it.index()),
    {
        out.push(c);
        assert(s@.take(it.index() + 1) =~= s@.take(it.index()).push(c));
    }
    assert(s@.take(s@.len() as int) =~= s@);
    out
}

/// The text that characters make.
pub fn from_chars(s: &[char]) -> (r: String)
    ensures
        r@ == s@,
{
    let mut out = String::new();
    for i in 0..s.len()
        invariant
            out@ == s@.take(i as int),
    {
        out.push(s[i]);
        assert(s@.take(i + 1) =~= s@.take(i as int).push(s@[i as int]));
    }
    assert(s@.take(s@.len() as int) =~= s@);
    out
}

/// The text `a` followed by the text `b`.
pub fn concat(a: &str, b: &str) -> (r: String)
    ensures
        r@ == a@ + b@,
{
    let mut out = a.to_owned();
    out.append(b);
    out
}

/// A copy of an optional text.
pub fn copy_text(t: &Option<String>) -> (r: Option<String>)
    ensures
        r == *t,
{
    match t {
        Some(s) => Some(s.clone()),
        None => None,
    }
}

/// The characters of an optional text.
pub open spec fn opt_view(t: Option<String>) -> Option<Seq<char>> {
    match t {
        Some(s) => Some(s@),
        None => None,
    }
}

/// The characters of an optional text.
pub open spec fn str_view(t: Option<&str>) -> Option<Seq<char>> {
    match t {
        Some(s) => Some(s@),
        None => None,
    }
}

/// Do two texts hold the same characters?
pub fn same_text(a: &str, b: &str) -> (r: bool)
    ensures
        r == (a@ == b@),
{
    let x = to_chars(a);
    let y = to_chars(b);
    same_chars(&x, &y)
}

/// Are the characters of two slices the same?
pub fn same_chars(a: &[char], b: &[char]) -> (r: bool)
    ensures
        r == (a@ == b@),
{
    if a.len() != b.len() {
        return false;
    }
    for i in 0..a.len()
        invariant
            a@.len() == b@.len(),
            a@.take(i as int) == b@.take(i as int),
    {
        if a[i] != b[i] {
            assert(a@ != b@);
            return false;
        }
        assert(a@.take(i + 1) =~= a@.take(i as int).push(a@[i as int]));
        assert(b@.take(i + 1) =~= b@.take(i as int).push(b@[i as int]));
    }
    assert(a@.take(a@.len() as int) =~= a@);
    assert(b@.take(b@.len() as int) =~= b@);
    true
}

// ---------------------------------------------------------------------------
// Searching
// ---------------------------------------------------------------------------

/// Is a character white space?
pub fn space(c: char) -> (r: bool)
    ensures
        r == is_space(c),
{
    ('\u{9}' <= c && c <= '\u{d}') || c == '\u{20}' || c == '\u{85}' || c == '\u{a0}' || c
        == '\u{1680}' || ('\u{2000}' <= c && c <= '\u{200a}') || c == '\u{2028}' || c == '\u{2029}'
        || c == '\u{202f}' || c == '\u{205f}' || c == '\u{3000}'
}

fn matches_at(s: &[char], p: &[char], i: usize) -> (r: bool)
    requires
        i + p@.len() <= s@.len(),
    ensures
        r == occurs_at(s@, p@, i as int),
{
    let n: usize = s.len();
    for j in 0..p.len()
        invariant
            n == s@.len(),
            i + p@.len() <= s@.len(),
            s@.subrange(i as int, i + j) == p@.take(j as int),
    {
        if s[i + j] != p[j] {
            assert(s@.subrange(i as int, i + p@.len())[j as int] != p@[j as int]);
            return false;
        }
        assert(s@.subrange(i as int, i + j + 1) =~= s@.subrange(i as int, i + j).push(
            s@[i + j],
        ));
        assert(p@.take(j + 1) =~= p@.take(j as int).push(p@[j as int]));
    }
    assert(p@.take(p@.len() as int) =~= p@);
    true
}

/// The first index from `from` on at which `p` stands in `s`.
pub fn index_from(s: &[char], p: &[char], from: usize) -> (r: Option<usize>)
    ensures
        match r {
            Some(k) => find_from(s@, p@, from as nat) == Some(k as nat),
            None => find_from(s@, p@, from as nat) is None,
        },
{
    if from > s.len() || p.len() > s.len() - from {
        return None;
    }
    let last: usize = s.len() - p.len();
    let mut i: usize = from;
    while i <= last
        invariant
            from <= i <= last + 1,
            last + p@.len() == s@.len(),
            find_from(s@, p@, from as nat) == find_from(s@, p@, i as nat),
        decreases last + 1 - i,
    {
        if matches_at(s, p, i) {
            return Some(i);
        }
        if i == last {
            assert(find_from(s@, p@, (i + 1) as nat) is None);
            return None;
        }
        i = i + 1;
    }
    None
}

/// The first index at which `p` stands in `s`.
pub fn index_of(s: &[char], p: &[char]) -> (r: Option<usize>)
    ensures
        match r {
            Some(k) => find(s@, p@) == Some(k as nat),
            None => find(s@, p@) is None,
        },
{
    index_from(s, p, 0)
}

/// Does `p` stand somewhere in `s`?
pub fn has(s: &[char], p: &[char]) -> (r: bool)
    ensures
        r == contains(s@, p@),
{
    proof {
        lemma_find_from(s@, p@, 0);
    }
    match index_of(s, p) {
        Some(_) => true,
        None => false,
    }
}

/// Does `s` begin with `p`?
pub fn begins(s: &[char], p: &[char]) -> (r: bool)
    ensures
        r == starts_with(s@, p@),
{
    p.len() <= s.len() && matches_at(s, p, 0)
}

/// Does `s` end with `p`?
pub fn ends(s: &[char], p: &[char]) -> (r: bool)
    ensures
        r == ends_with(s@, p@),
{
    p.len() <= s.len() && matches_at(s, p, s.len() - p.len())
}

/// The last index at which `c` stands in `s`.
pub fn last_index_of(s: &[char], c: char) -> (r: Option<usize>)
    ensures
        match r {
            Some(k) => rfind_char(s@, c) == Some(k as nat),
            None => rfind_char(s@, c) is None,
        },
{
    let mut n: usize = s.len();
    assert(s@.take(n as int) =~= s@);
    while n > 0
        invariant
            n <= s@.len(),
            rfind_char(s@, c) == rfind_char(s@.take(n as int), c),
        decreases n,
    {
        if s[n - 1] == c {
            return Some(n - 1);
        }
        assert(s@.take(n as int).drop_last() =~= s@.take(n - 1));
        n = n - 1;
    }
    None
}

/// What `rfind_char` gives is the last occurrence, if there is one.
pub proof fn lemma_rfind_char(s: Seq<char>, c: char)
    ensures
        match rfind_char(s, c) {
            Some(k) => k < s.len() && s[k as int] == c && forall|j: int|
                k < j < s.len() ==> s[j] != c,
            None => forall|j: int| 0 <= j < s.len() ==> s[j] != c,
        },
    decreases s.len(),
{
    if s.len() > 0 && s.last() != c {
        lemma_rfind_char(s.drop_last(), c);
        assert forall|j: int| 0 <= j < s.len() - 1 implies s[j] == s.drop_last()[j] by {}
        match rfind_char(s.drop_last(), c) {
            Some(k) => {
                assert forall|j: int| k < j < s.len() implies s[j] != c by {
                    if j < s.len() - 1 {
                        assert(s[j] == s.drop_last()[j]);
                    }
                }
            },
            None => {
                assert forall|j: int| 0 <= j < s.len() implies s[j] != c by {
                    if j < s.len() - 1 {
                        assert(s[j] == s.drop_last()[j]);
                    }
                }
            },
        }
    }
}

// ---------------------------------------------------------------------------
// Trimming and splitting
// ---------------------------------------------------------------------------

/// The characters without the white space at the start.
pub fn trimmed_start(s: &[char]) -> (r: &[char])
    ensures
        r@ == trim_start(s@),
{
    let mut i: usize = 0;
    assert(s@.skip(0) =~= s@);
    while i < s.len() && space(s[i])
        invariant
            i <= s@.len(),
            trim_start(s@) == trim_start(s@.skip(i as int)),
        decreases s@.len() - i,
    {
        assert(s@.skip(i as int).drop_first() =~= s@.skip(i + 1));
        i = i + 1;
    }
    assert(s@.subrange(i as int, s@.len() as int) =~= s@.skip(i as int));
    slice_subrange(s, i, s.len())
}

/// The characters without the white space at the end.
pub fn trimmed_end(s: &[char]) -> (r: &[char])
    ensures
        r@ == trim_end(s@),
{
    let mut n: usize = s.len();
    assert(s@.take(n as int) =~= s@);
    while n > 0 && space(s[n - 1])
        invariant
            n <= s@.len(),
            trim_end(s@) == trim_end(s@.take(n as int)),
        decreases n,
    {
        assert(s@.take(n as int).drop_last() =~= s@.take(n - 1));
        n = n - 1;
    }
    assert(s@.subrange(0, n as int) =~= s@.take(n as int));
    slice_subrange(s, 0, n)
}

/// The characters without the white space around them.
pub fn trimmed(s: &[char]) -> (r: &[char])
    ensures
        r@ == trim(s@),
{
    trimmed_end(trimmed_start(s))
}

/// The views of a list of character slices.
pub open spec fn views(v: Seq<&[char]>) -> Seq<Seq<char>> {
    Seq::new(v.len(), |i: int| v[i]@)
}

/// The pieces of `s` between the occurrences of `d`.
pub fn pieces<'a>(s: &'a [char], d: &[char]) -> (r: Vec<&'a [char]>)
    ensures
        views(r@) == split(s@, d@),
{
    let mut out: Vec<&'a [char]> = Vec::new();
    if d.len() == 0 {
        out.push(slice_subrange(s, 0, 0));
        for i in 0..s.len()
            invariant
                out@.len() == i + 1,
                out@[0]@ == Seq::<char>::empty(),
                forall|j: int| 0 <= j < i ==> (#[trigger] out@[j + 1])@ == seq![s@[j]],
        {
            out.push(slice_subrange(s, i, i + 1));
            assert(out@[i + 1]@ =~= seq![s@[i as int]]);
        }
        out.push(slice_subrange(s, 0, 0));
        proof {
            let want = split(s@, d@);
            assert(views(out@).len() == want.len());
            assert forall|j: int| 0 <= j < want.len() implies views(out@)[j] == want[j] by {
                if 0 < j && j < want.len() - 1 {
                    assert(out@[(j - 1) + 1]@ == seq![s@[j - 1]]);
                }
            }
            assert(views(out@) =~= want);
        }
        return out;
    }
    let mut from: usize = 0;
    assert(s@.skip(0) =~= s@);
    assert(views(out@) =~= Seq::<Seq<char>>::empty());
    loop
        invariant
            d@.len() > 0,
            from <= s@.len(),
            split(s@, d@) == views(out@) + split(s@.skip(from as int), d@),
        decreases s@.len() - from,
    {
        let rest = slice_subrange(s, from, s.len());
        assert(rest@ =~= s@.skip(from as int));
        let ghost before = views(out@);
        match index_of(rest, d) {
            None => {
                out.push(rest);
                assert(views(out@) =~= before.push(rest@));
                assert(views(out@) =~= before + seq![rest@]);
                return out;
            },
            Some(k) => {
                proof {
                    lemma_find_from(rest@, d@, 0);
                }
                out.push(slice_subrange(rest, 0, k));
                assert(rest@.subrange(0, k as int) =~= rest@.take(k as int));
                assert(views(out@) =~= before.push(rest@.take(k as int)));
                assert(rest@.skip((k + d@.len()) as int) =~= s@.skip((from + k + d@.len()) as int));
                assert(split(rest@, d@) =~= seq![rest@.take(k as int)] + split(
                    s@.skip((from + k + d@.len()) as int),
                    d@,
                ));
                assert(before + split(rest@, d@) =~= views(out@) + split(
                    s@.skip((from + k + d@.len()) as int),
                    d@,
                ));
                from = from + k + d.len();
            },
        }
    }
}

/// The lines of a text.
pub fn line_list<'a>(s: &'a [char]) -> (r: Vec<&'a [char]>)
    ensures
        views(r@) == lines(s@),
{
    let mut out: Vec<&'a [char]> = Vec::new();
    let feed: [char; 1] = ['\n'];
    let mut from: usize = 0;
    assert(feed@ =~= seq!['\n']);
    assert(s@.skip(0) =~= s@);
    assert(views(out@) =~= Seq::<Seq<char>>::empty());
    assert(views(out@) + lines(s@) =~= lines(s@));
    while from < s.len()
        invariant
            feed@ == seq!['\n'],
            from <= s@.len(),
            lines(s@) == views(out@) + lines(s@.skip(from as int)),
        decreases s@.len() - from,
    {
        let rest = slice_subrange(s, from, s.len());
        assert(rest@ =~= s@.skip(from as int));
        let ghost before = views(out@);
        match index_of(rest, &feed) {
            None => {
                out.push(rest);
                assert(views(out@) =~= before + seq![rest@]);
                return out;
            },
            Some(k) => {
                proof {
                    lemma_find_from(rest@, feed@, 0);
                }
                let end: usize = if k > 0 && rest[k - 1] == '\r' {
                    k - 1
                } else {
                    k
                };
                out.push(slice_subrange(rest, 0, end));
                assert(rest@.subrange(0, end as int) =~= strip_return(rest@.take(k as int)));
                assert(rest@.skip(k + 1) =~= s@.skip(from + k + 1));
                assert(views(out@) =~= before.push(strip_return(rest@.take(k as int))));
                assert(before + lines(rest@) =~= views(out@) + lines(s@.skip(from + k + 1)));
                from = from + k + 1;
            },
        }
    }
    assert(s@.skip(from as int) =~= Seq::<char>::empty());
    assert(views(out@) + lines(s@.skip(from as int)) =~= views(out@));
    out
}

/// The first word of a text.
pub fn word(s: &[char]) -> (r: &[char])
    ensures
        r@ == first_word(s@),
{
    let t = trimmed_start(s);
    let mut n: usize = 0;
    assert(t@.skip(0) =~= t@);
    assert(t@.take(0) + leading_word(t@) =~= leading_word(t@));
    while n < t.len() && !space(t[n])
        invariant
            n <= t@.len(),
            leading_word(t@) == t@.take(n as int) + leading_word(t@.skip(n as int)),
        decreases t@.len() - n,
    {
        assert(t@.skip(n as int).drop_first() =~= t@.skip(n + 1));
        assert(t@.take(n as int) + (seq![t@[n as int]] + leading_word(t@.skip(n + 1)))
            =~= t@.take(n + 1) + leading_word(t@.skip(n + 1)));
        n = n + 1;
    }
    assert(t@.take(n as int) + leading_word(t@.skip(n as int)) =~= t@.take(n as int));
    assert(t@.subrange(0, n as int) =~= t@.take(n as int));
    slice_subrange(t, 0, n)
}

// ---------------------------------------------------------------------------
// Numbers
// ---------------------------------------------------------------------------

/// Is a character an ASCII digit?
pub fn digit(c: char) -> (r: bool)
    ensures
        r == is_digit(c),
{
    '0' <= c && c <= '9'
}

/// Are all characters ASCII digits?
pub fn only_digits(s: &[char]) -> (r: bool)
    ensures
        r == all_digits(s@),
{
    for i in 0..s.len()
        invariant
            forall|j: int| 0 <= j < i ==> is_digit(#[trigger] s@[j]),
    {
        if !digit(s[i]) {
            return false;
        }
    }
    true
}

proof fn lemma_digits_value_grows(s: Seq<char>, n: int)
    requires
        0 <= n <= s.len(),
    ensures
        digits_value(s.take(n)) <= digits_value(s),
    decreases s.len() - n,
{
    if n < s.len() {
        assert(s.take(n + 1).drop_last() =~= s.take(n));
        lemma_digits_value_grows(s, n + 1);
    } else {
        assert(s.take(n) =~= s);
    }
}

/// Reads a text as a 64 bit number in decimal.
pub fn parse_u64(s: &[char]) -> (r: Option<u64>)
    ensures
        r == u64_value(s@),
{
    let start: usize = if s.len() > 0 && s[0] == '+' {
        1
    } else {
        0
    };
    let digits = slice_subrange(s, start, s.len());
    proof {
        if start == 1 {
            assert(digits@ =~= s@.drop_first());
        } else {
            assert(digits@ =~= s@);
        }
    }
    if digits.len() == 0 || !only_digits(digits) {
        return None;
    }
    let mut n: u64 = 0;
    assert(digits@.take(0) =~= Seq::<char>::empty());
    for i in 0..digits.len()
        invariant
            digits@.len() > 0,
            all_digits(digits@),
            u64_value(s@) == (if digits_value(digits@) <= u64::MAX {
                Some(digits_value(digits@) as u64)
            } else {
                None
            }),
            n == digits_value(digits@.take(i as int)),
    {
        let c = digits[i];
        assert(is_digit(digits@[i as int]));
        let d: u64 = (c as u32 - '0' as u32) as u64;
        proof {
            assert(digits@.take(i + 1).drop_last() =~= digits@.take(i as int));
            assert(digits_value(digits@.take(i + 1)) == n * 10 + d);
            lemma_digits_value_grows(digits@, i + 1);
        }
        if n > u64::MAX / 10 || n * 10 > u64::MAX - d {
            return None;
        }
        n = n * 10 + d;
    }
    assert(digits@.take(digits@.len() as int) =~= digits@);
    Some(n)
}

/// A number in decimal digits.
pub fn decimal_text(n: u64) -> (r: String)
    ensures
        r@ == decimal(n as nat),
    decreases n,
{
    if n < 10 {
        let mut out = String::new();
        let c: char = ('0' as u8 + n as u8) as char;
        out.push(c);
        assert(out@ =~= decimal(n as nat));
        out
    } else {
        let mut out = decimal_text(n / 10);
        let last = decimal_text(n % 10);
        out.append(last.as_str());
        out
    }
}

// ---------------------------------------------------------------------------
// Order
// ---------------------------------------------------------------------------

/// A text does not come behind itself.
pub proof fn lemma_lex_refl(a: Seq<char>)
    ensures
        lex_le(a, a),
    decreases a.len(),
{
    if a.len() > 0 {
        lemma_lex_refl(a.drop_first());
    }
}

/// Of two texts one comes before the other, or they are the same.
pub proof fn lemma_lex_total(a: Seq<char>, b: Seq<char>)
    ensures
        lex_le(a, b) || lex_le(b, a),
    decreases a.len(),
{
    if a.len() > 0 && b.len() > 0 && a[0] == b[0] {
        lemma_lex_total(a.drop_first(), b.drop_first());
    }
}

/// Two texts that do not come behind one another are the same.
pub proof fn lemma_lex_antisym(a: Seq<char>, b: Seq<char>)
    requires
        lex_le(a, b),
        lex_le(b, a),
    ensures
        a == b,
    decreases a.len(),
{
    if a.len() > 0 && b.len() > 0 {
        lemma_lex_antisym(a.drop_first(), b.drop_first());
        assert(a =~= seq![a[0]] + a.drop_first());
        assert(b =~= seq![b[0]] + b.drop_first());
    } else {
        assert(a =~= b);
    }
}

/// What comes before a text comes before all that come behind it.
pub proof fn lemma_lex_trans(a: Seq<char>, b: Seq<char>, c: Seq<char>)
    requires
        lex_le(a, b),
        lex_le(b, c),
    ensures
        lex_le(a, c),
    decreases a.len(),
{
    if a.len() > 0 && b.len() > 0 && c.len() > 0 && a[0] == b[0] && b[0] == c[0] {
        lemma_lex_trans(a.drop_first(), b.drop_first(), c.drop_first());
    }
}

/// Does `a` come before `b`, or is it `b`?
pub fn comes_before(a: &[char], b: &[char]) -> (r: bool)
    ensures
        r == lex_le(a@, b@),
{
    let mut i: usize = 0;
    assert(a@.skip(0) =~= a@);
    assert(b@.skip(0) =~= b@);
    while i < a.len() && i < b.len() && a[i] == b[i]
        invariant
            i <= a@.len(),
            i <= b@.len(),
            lex_le(a@, b@) == lex_le(a@.skip(i as int), b@.skip(i as int)),
        decreases a@.len() - i,
    {
        assert(a@.skip(i as int).drop_first() =~= a@.skip(i + 1));
        assert(b@.skip(i as int).drop_first() =~= b@.skip(i + 1));
        i = i + 1;
    }
    if i >= a.len() {
        true
    } else if i >= b.len() {
        false
    } else {
        a[i] < b[i]
    }
}

// ---------------------------------------------------------------------------
// Letter case
// ---------------------------------------------------------------------------

/// The lower case of an ASCII character.
pub open spec fn ascii_lower(c: char) -> char {
    if 'A' <= c <= 'Z' {
        (c as nat + 32) as char
    } else {
        c
    }
}

/// The lower case of a text, as `str::to_lowercase` gives it.
pub uninterp spec fn lowercase(s: Seq<char>) -> Seq<char>;

/// The text with small ASCII letters in place of the capital ones.
pub open spec fn ascii_lowered(s: Seq<char>) -> Seq<char> {
    s.map_values(|c: char| ascii_lower(c))
}

/// The lower case of a text: small letters in place of the capital ones where all characters are
/// ASCII, and otherwise what Unicode says of the text with small ASCII letters.
pub open spec fn lowered(s: Seq<char>) -> Seq<char> {
    if vstd::utf8::is_ascii_chars(s) {
        ascii_lowered(s)
    } else {
        lowercase(ascii_lowered(s))
    }
}

/// Two texts that differ only in the case of ASCII letters have the same lower case.
pub proof fn law_lower_case_ignores_ascii_case(a: Seq<char>, b: Seq<char>)
    requires
        ascii_lowered(a) == ascii_lowered(b),
    ensures
        lowered(a) == lowered(b),
{
    if vstd::utf8::is_ascii_chars(a) {
        lemma_ascii_either_way(a, b);
    }
    if vstd::utf8::is_ascii_chars(b) {
        lemma_ascii_either_way(b, a);
    }
}

/// The case of ASCII letters does not matter to whether all characters are ASCII.
proof fn lemma_ascii_either_way(a: Seq<char>, b: Seq<char>)
    requires
        ascii_lowered(a) == ascii_lowered(b),
        vstd::utf8::is_ascii_chars(a),
    ensures
        vstd::utf8::is_ascii_chars(b),
{
    assert(a.len() == ascii_lowered(a).len() && b.len() == ascii_lowered(b).len());
    assert forall|i: int| 0 <= i < b.len() implies '\0' <= #[trigger] b[i] <= '\u{7f}' by {
        assert(ascii_lowered(a)[i] == ascii_lower(a[i]));
        assert(ascii_lowered(b)[i] == ascii_lower(b[i]));
        assert('\0' <= a[i] <= '\u{7f}');
    }
}

/// `str::to_lowercase` maps a text to its lower case after Unicode. The result depends on the text
/// alone; on ASCII text only the letters `A` to `Z` change, each to its small letter.
#[verifier::external_body]
fn std_lowercase(s: &str) -> (r: String)
    ensures
        r@ == lowercase(s@),
        vstd::utf8::is_ascii_chars(s@) ==> r@ == s@.map_values(|c: char| ascii_lower(c)),
{
    s.to_lowercase()
}

/// Small ASCII letters in place of the capital ones.
pub fn fold_ascii(s: &[char]) -> (r: Vec<char>)
    ensures
        r@ == ascii_lowered(s@),
{
    let mut out: Vec<char> = Vec::new();
    for i in 0..s.len()
        invariant
            out@ == ascii_lowered(s@.take(i as int)),
    {
        let c: char = s[i];
        out.push(
            if 'A' <= c && c <= 'Z' {
                (c as u8 + 32) as char
            } else {
                c
            },
        );
        assert(out@ =~= ascii_lowered(s@.take(i + 1)));
    }
    assert(s@.take(s@.len() as int) =~= s@);
    out
}

/// The lower case of a text. The ASCII letters go first, so that their case cannot matter to what
/// becomes of the others.
pub fn to_lower(s: &str) -> (r: String)
    ensures
        r@ == lowered(s@),
{
    let folded = fold_ascii(&to_chars(s));
    proof {
        let t = ascii_lowered(s@);
        assert(vstd::utf8::is_ascii_chars(s@) ==> vstd::utf8::is_ascii_chars(t)) by {
            assert forall|i: int| 0 <= i < t.len() && (s@[i] as u32) < 128 implies (
            #[trigger] t[i] as u32) < 128 by {}
        }
        assert(ascii_lowered(t) =~= t);
    }
    std_lowercase(from_chars(&folded).as_str())
}

// ---------------------------------------------------------------------------
// Laws of texts
// ---------------------------------------------------------------------------

/// The white space of a line is white space, and no ASCII letter, digit or sign is.
pub proof fn law_white_space(c: char)
    ensures
        c == ' ' || c == '\t' || c == '\n' || c == '\r' ==> is_space(c),
        '!' <= c <= '~' ==> !is_space(c),
{
}

/// Trimming the start takes white space away, all there is at the start and nothing else.
pub proof fn law_trim_start(s: Seq<char>)
    ensures
        ({
            let t = trim_start(s);
            let n = s.len() - t.len();
            &&& n >= 0
            &&& s == s.take(n) + t
            &&& forall|i: int| 0 <= i < n ==> is_space(#[trigger] s[i])
            &&& t.len() > 0 ==> !is_space(t[0])
        }),
    decreases s.len(),
{
    if s.len() > 0 && is_space(s[0]) {
        let r = s.drop_first();
        law_trim_start(r);
        let n = s.len() - trim_start(s).len();
        assert forall|i: int| 0 <= i < n implies is_space(#[trigger] s[i]) by {
            if i > 0 {
                assert(r[i - 1] == s[i]);
            }
        }
        assert(s.take(n) =~= seq![s[0]] + r.take(n - 1));
        assert(s =~= seq![s[0]] + r);
        assert(s =~= s.take(n) + trim_start(s));
    } else {
        assert(s =~= s.take(0) + s);
    }
}

/// Trimming the end takes white space away, all there is at the end and nothing else.
pub proof fn law_trim_end(s: Seq<char>)
    ensures
        ({
            let t = trim_end(s);
            &&& t.len() <= s.len()
            &&& t == s.take(t.len() as int)
            &&& forall|i: int| t.len() <= i < s.len() ==> is_space(#[trigger] s[i])
            &&& t.len() > 0 ==> !is_space(t.last())
        }),
    decreases s.len(),
{
    if s.len() > 0 && is_space(s.last()) {
        let r = s.drop_last();
        law_trim_end(r);
        let t = trim_end(s);
        assert(s.take(t.len() as int) =~= r.take(t.len() as int));
        assert forall|i: int| t.len() <= i < s.len() implies is_space(#[trigger] s[i]) by {
            if i < s.len() - 1 {
                assert(r[i] == s[i]);
            }
        }
    } else {
        assert(s =~= s.take(s.len() as int));
    }
}

/// Trimming takes the white space at both ends away, and nothing else.
pub proof fn law_trim(s: Seq<char>)
    ensures
        ({
            let t = trim(s);
            &&& exists|a: Seq<char>, b: Seq<char>|
                s == #[trigger] (a + t + b) && (forall|i: int|
                    0 <= i < a.len() ==> is_space(#[trigger] a[i])) && (forall|i: int|
                    0 <= i < b.len() ==> is_space(#[trigger] b[i]))
            &&& t.len() > 0 ==> !is_space(t[0]) && !is_space(t.last())
        }),
{
    law_trim_start(s);
    let m = trim_start(s);
    law_trim_end(m);
    let t = trim(s);
    let a = s.take(s.len() - m.len());
    let b = m.skip(t.len() as int);
    assert(m =~= t + b);
    assert(s =~= a + t + b);
    assert forall|i: int| 0 <= i < b.len() implies is_space(#[trigger] b[i]) by {
        assert(b[i] == m[t.len() + i]);
    }
    assert forall|i: int| 0 <= i < a.len() implies is_space(#[trigger] a[i]) by {
        assert(a[i] == s[i]);
    }
}

/// A text contains another one exactly if it is that one with something before and behind it.
pub proof fn law_contains(a: Seq<char>, p: Seq<char>, b: Seq<char>, s: Seq<char>)
    ensures
        contains(a + p + b, p),
        contains(s, p) ==> exists|x: Seq<char>, y: Seq<char>| s == #[trigger] (x + p + y),
        starts_with(p + b, p),
        starts_with(s, p) ==> exists|y: Seq<char>| s == #[trigger] (p + y),
        ends_with(a + p, p),
        ends_with(s, p) ==> exists|x: Seq<char>| s == #[trigger] (x + p),
{
    let n = a.len() as int;
    assert((a + p + b).subrange(n, n + p.len()) =~= p);
    assert(occurs_at(a + p + b, p, n));
    assert((p + b).subrange(0, p.len() as int) =~= p);
    assert((a + p).subrange(n, n + p.len()) =~= p);
    if contains(s, p) {
        let i = choose|i: int| occurs_at(s, p, i);
        assert(s =~= s.take(i) + s.subrange(i, i + p.len()) + s.skip(i + p.len()));
        assert(s == s.take(i) + p + s.skip(i + p.len()));
    }
    if starts_with(s, p) {
        assert(s =~= s.subrange(0, p.len() as int) + s.skip(p.len() as int));
        assert(s == p + s.skip(p.len() as int));
    }
    if ends_with(s, p) {
        let i = s.len() - p.len();
        assert(s =~= s.take(i) + s.subrange(i, i + p.len()));
        assert(s == s.take(i) + p);
    }
}

/// Where a text is found, it stands there and nowhere before; it is found wherever it is contained.
pub proof fn law_find(s: Seq<char>, p: Seq<char>)
    ensures
        find(s, p) is Some <==> contains(s, p),
        find(s, p) matches Some(k) ==> occurs_at(s, p, k as int) && forall|j: int|
            0 <= j < k ==> !occurs_at(s, p, j),
{
    lemma_find_from(s, p, 0);
}

/// Cutting a text at a delimiter and joining the pieces with it gives the text back, and no piece
/// holds the delimiter.
pub proof fn law_pieces_join_again(s: Seq<char>, d: Seq<char>)
    requires
        d.len() > 0,
    ensures
        split(s, d).len() >= 1,
        join(split(s, d), d) == s,
        forall|i: int| 0 <= i < split(s, d).len() ==> !contains(#[trigger] split(s, d)[i], d),
    decreases s.len(),
{
    lemma_find_from(s, d, 0);
    match find(s, d) {
        None => {
            assert(split(s, d)[0] == s);
        },
        Some(k) => {
            let head = s.take(k as int);
            let rest = s.skip((k + d.len()) as int);
            law_pieces_join_again(rest, d);
            let pieces = split(s, d);
            assert(pieces =~= seq![head] + split(rest, d));
            lemma_join_front(head, split(rest, d), d);
            assert(s.subrange(k as int, (k + d.len()) as int) == d);
            assert(s =~= head + d + rest);
            assert forall|i: int| 0 <= i < pieces.len() implies !contains(
                #[trigger] pieces[i],
                d,
            ) by {
                if i == 0 {
                    assert forall|j: int| !occurs_at(head, d, j) by {
                        if occurs_at(head, d, j) {
                            assert(s.subrange(j, j + d.len()) =~= head.subrange(j, j + d.len()));
                            assert(occurs_at(s, d, j));
                        }
                    }
                } else {
                    assert(pieces[i] == split(rest, d)[i - 1]);
                }
            }
        },
    }
}

/// Joining with one more part in front.
proof fn lemma_join_front(part: Seq<char>, parts: Seq<Seq<char>>, sep: Seq<char>)
    requires
        parts.len() > 0,
    ensures
        join(seq![part] + parts, sep) == part + sep + join(parts, sep),
    decreases parts.len(),
{
    let all = seq![part] + parts;
    if parts.len() == 1 {
        assert(all.drop_last() =~= seq![part]);
        assert(all.last() == parts[0]);
        assert(join(seq![part], sep) == part);
        assert(join(parts, sep) == parts[0]);
    } else {
        assert(all.drop_last() =~= seq![part] + parts.drop_last());
        lemma_join_front(part, parts.drop_last(), sep);
        assert(all.last() == parts.last());
        assert(part + sep + join(parts.drop_last(), sep) + sep + parts.last() =~= part + sep + (
        join(parts.drop_last(), sep) + sep + parts.last()));
    }
}

/// What stands before the first delimiter is the first piece, and what stands behind it is cut on its
/// own; a text without the delimiter is one piece.
pub proof fn law_the_first_piece(p: Seq<char>, d: Seq<char>, s: Seq<char>)
    requires
        d.len() > 0,
        forall|i: int| 0 <= i < p.len() ==> !occurs_at(p + d + s, d, i),
    ensures
        split(p + d + s, d) == seq![p] + split(s, d),
        !contains(s, d) ==> split(s, d) == seq![s],
{
    let t = p + d + s;
    lemma_find_from(t, d, 0);
    lemma_find_from(s, d, 0);
    assert(t.subrange(p.len() as int, (p.len() + d.len()) as int) =~= d);
    assert(occurs_at(t, d, p.len() as int));
    assert(find(t, d) == Some(p.len()));
    assert(t.take(p.len() as int) =~= p);
    assert(t.skip((p.len() + d.len()) as int) =~= s);
}

/// A line ends at a line feed, and a carriage return before it does not belong to the line; what
/// follows has its own lines, and the last line needs no line feed.
pub proof fn law_lines(p: Seq<char>, s: Seq<char>)
    requires
        forall|i: int| 0 <= i < p.len() ==> p[i] != '\n',
    ensures
        p.len() == 0 || p.last() != '\r' ==> lines(p + seq!['\n'] + s) == seq![p] + lines(s),
        p.len() > 0 && p.last() == '\r' ==> lines(p + seq!['\n'] + s) == seq![p.drop_last()]
            + lines(s),
        p.len() > 0 ==> lines(p) == seq![p],
        p.len() == 0 ==> lines(p).len() == 0,
{
    let d = seq!['\n'];
    let t = p + d + s;
    lemma_find_from(t, d, 0);
    lemma_find_from(p, d, 0);
    assert(t.subrange(p.len() as int, (p.len() + 1) as int) =~= d);
    assert(occurs_at(t, d, p.len() as int));
    assert forall|j: int| 0 <= j < p.len() implies !occurs_at(t, d, j) && !occurs_at(p, d, j) by {
        assert(t[j] == p[j]);
        assert(t.subrange(j, j + 1)[0] == t[j]);
        assert(p.subrange(j, j + 1)[0] == p[j]);
        assert(d[0] == '\n');
    }
    assert(find(t, d) == Some(p.len()));
    assert(t.take(p.len() as int) =~= p);
    assert(t.skip((p.len() + 1) as int) =~= s);
    if p.len() > 0 {
        match find(p, d) {
            Some(k) => {
                assert(occurs_at(p, d, k as int));
            },
            None => {},
        }
    }
}

/// The first word stands behind white space alone, holds none, and ends at white space or with the
/// text; it is empty only where the text holds nothing but white space.
pub proof fn law_first_word(s: Seq<char>)
    ensures
        ({
            let w = first_word(s);
            &&& exists|a: Seq<char>, b: Seq<char>|
                s == #[trigger] (a + w + b) && (forall|i: int|
                    0 <= i < a.len() ==> is_space(#[trigger] a[i])) && (b.len() > 0 ==> is_space(
                    b[0],
                ))
            &&& forall|i: int| 0 <= i < w.len() ==> !is_space(#[trigger] w[i])
            &&& w.len() == 0 <==> forall|i: int| 0 <= i < s.len() ==> is_space(#[trigger] s[i])
        }),
{
    law_trim_start(s);
    let m = trim_start(s);
    lemma_leading_word(m);
    let w = first_word(s);
    let n = s.len() - m.len();
    let a = s.take(n);
    let b = m.skip(w.len() as int);
    assert(m =~= w + b);
    assert(s =~= a + w + b);
    assert forall|i: int| 0 <= i < a.len() implies is_space(#[trigger] a[i]) by {
        assert(a[i] == s[i]);
    }
    if m.len() > 0 {
        assert(s[n] == m[0]);
    }
}

proof fn lemma_leading_word(s: Seq<char>)
    ensures
        ({
            let w = leading_word(s);
            &&& w.len() <= s.len()
            &&& w == s.take(w.len() as int)
            &&& forall|i: int| 0 <= i < w.len() ==> !is_space(#[trigger] w[i])
            &&& w.len() < s.len() ==> is_space(s[w.len() as int])
        }),
    decreases s.len(),
{
    if s.len() > 0 && !is_space(s[0]) {
        let r = s.drop_first();
        lemma_leading_word(r);
        let w = leading_word(s);
        let v = leading_word(r);
        assert(w =~= seq![s[0]] + v);
        assert(s.take(w.len() as int) =~= seq![s[0]] + r.take(v.len() as int));
        assert forall|i: int| 0 <= i < w.len() implies !is_space(#[trigger] w[i]) by {
            if i > 0 {
                assert(w[i] == v[i - 1]);
            }
        }
    } else {
        assert(leading_word(s) =~= s.take(0));
    }
}

/// A number that is written in decimal reads back, with or without a plus sign before it, and is
/// written without needless zeros.
pub proof fn law_numbers_read_back(n: nat)
    ensures
        unsigned_value(decimal(n)) == Some(n),
        unsigned_value(seq!['+'] + decimal(n)) == Some(n),
        n <= u64::MAX ==> u64_value(decimal(n)) == Some(n as u64),
        n > u64::MAX ==> u64_value(decimal(n)) is None,
        decimal(n).len() > 1 ==> decimal(n)[0] != '0',
{
    lemma_decimal(n);
    assert((seq!['+'] + decimal(n)).drop_first() =~= decimal(n));
    assert(decimal(n)[0] != '+') by {
        assert(is_digit(decimal(n)[0]));
    }
}

proof fn lemma_decimal(n: nat)
    ensures
        decimal(n).len() > 0,
        all_digits(decimal(n)),
        digits_value(decimal(n)) == n,
        n > 0 ==> decimal(n)[0] != '0',
        n == 0 ==> decimal(n).len() == 1,
    decreases n,
{
    if n < 10 {
        let d = decimal(n);
        assert(d[0] as nat == '0' as nat + n);
        assert(d.drop_last() =~= Seq::<char>::empty());
        assert(digits_value(d.drop_last()) == 0);
        assert(d.last() == d[0]);
    } else {
        let head = decimal(n / 10);
        let tail = decimal(n % 10);
        lemma_decimal(n / 10);
        let d = decimal(n);
        assert(tail.len() == 1 && tail[0] as nat == '0' as nat + n % 10);
        assert(d =~= head.push(tail[0]));
        assert(d.drop_last() =~= head);
        assert(d.last() == tail[0]);
        assert(d[0] == head[0]);
    }
}

/// Zeros in front of digits do not change the number; an empty text, a sign alone and a text with
/// anything but digits behind the sign are no number.
pub proof fn law_what_is_a_number(s: Seq<char>)
    ensures
        s.len() > 0 && all_digits(s) ==> unsigned_value(seq!['0'] + s) == unsigned_value(s)
            && unsigned_value(seq!['+'] + s) == unsigned_value(s) && unsigned_value(s) is Some,
        unsigned_value(seq!['+'] + s) is Some ==> s.len() > 0 && all_digits(s),
        unsigned_value(s) is Some && s[0] != '+' ==> s.len() > 0 && all_digits(s),
        s.len() == 0 ==> unsigned_value(s) is None,
        unsigned_value(s) is None ==> u64_value(s) is None,
        unsigned_value(s) matches Some(n) ==> (u64_value(s) is Some <==> n <= u64::MAX) && (
        u64_value(s) matches Some(m) ==> m == n),
{
    let z = seq!['0'] + s;
    assert((seq!['+'] + s).drop_first() =~= s);
    if s.len() > 0 && all_digits(s) {
        lemma_zero_in_front(s);
        assert(is_digit(s[0]));
        assert forall|i: int| 0 <= i < z.len() implies is_digit(#[trigger] z[i]) by {
            if i > 0 {
                assert(z[i] == s[i - 1]);
            }
        }
        assert(all_digits(z));
        assert(z[0] == '0');
    }
}

proof fn lemma_zero_in_front(s: Seq<char>)
    ensures
        digits_value(seq!['0'] + s) == digits_value(s),
    decreases s.len(),
{
    let z = seq!['0'] + s;
    if s.len() == 0 {
        assert(z.drop_last() =~= s);
        assert(z.last() == '0');
    } else {
        lemma_zero_in_front(s.drop_last());
        assert(z.drop_last() =~= seq!['0'] + s.drop_last());
        assert(z.last() == s.last());
    }
}

/// One text comes before another one exactly if it is a start of it, or the first character in which
/// they differ is the smaller one.
pub proof fn law_order_of_texts(a: Seq<char>, b: Seq<char>)
    ensures
        lex_le(a, b) <==> (starts_with(b, a) || exists|k: int|
            0 <= k < a.len() && k < b.len() && a.take(k) == #[trigger] b.take(k) && a[k] < b[k]),
    decreases a.len(),
{
    if a.len() == 0 {
        assert(b.subrange(0, 0) =~= a);
    } else if b.len() > 0 {
        let x = a.drop_first();
        let y = b.drop_first();
        if a[0] != b[0] {
            assert(a.take(0) =~= b.take(0));
            if starts_with(b, a) {
                assert(b.subrange(0, a.len() as int)[0] == b[0]);
            }
            assert forall|k: int|
                0 <= k < a.len() && k < b.len() && a.take(k) == #[trigger] b.take(k) && a[k]
                    < b[k] implies a[0] < b[0] by {
                if k > 0 {
                    assert(a.take(k)[0] == b.take(k)[0]);
                }
            }
        } else {
            law_order_of_texts(x, y);
            if starts_with(y, x) {
                assert(b.subrange(0, a.len() as int) =~= seq![b[0]] + y.subrange(
                    0,
                    x.len() as int,
                ));
                assert(a =~= seq![a[0]] + x);
            }
            if starts_with(b, a) {
                assert(y.subrange(0, x.len() as int) =~= b.subrange(
                    0,
                    a.len() as int,
                ).drop_first());
            }
            assert forall|k: int|
                0 <= k < x.len() && k < y.len() && x.take(k) == #[trigger] y.take(k) && x[k]
                    < y[k] implies a.take(k + 1) == b.take(k + 1) && a[k + 1] < b[k + 1] by {
                assert(a.take(k + 1) =~= seq![a[0]] + x.take(k));
                assert(b.take(k + 1) =~= seq![b[0]] + y.take(k));
            }
            if exists|k: int|
                0 <= k < x.len() && k < y.len() && x.take(k) == #[trigger] y.take(k) && x[k]
                    < y[k] {
                let k = choose|k: int|
                    0 <= k < x.len() && k < y.len() && x.take(k) == #[trigger] y.take(k) && x[k]
                        < y[k];
                assert(a.take(k + 1) == b.take(k + 1));
            }
            if exists|k: int|
                0 <= k < a.len() && k < b.len() && a.take(k) == #[trigger] b.take(k) && a[k]
                    < b[k] {
                let k = choose|k: int|
                    0 <= k < a.len() && k < b.len() && a.take(k) == #[trigger] b.take(k) && a[k]
                        < b[k];
                assert(k > 0);
                assert(x.take(k - 1) =~= a.take(k).drop_first());
                assert(y.take(k - 1) =~= b.take(k).drop_first());
                assert(x[k - 1] == a[k] && y[k - 1] == b[k]);
            }
        }
    } else {
        assert(!starts_with(b, a));
    }
}

/// The capital ASCII letters become the small ones, each its own, and other characters stay.
pub proof fn law_ascii_lower(c: char)
    ensures
        'A' <= c <= 'Z' ==> 'a' <= ascii_lower(c) <= 'z' && ascii_lower(c) as int - 'a' as int
            == c as int - 'A' as int,
        !('A' <= c <= 'Z') ==> ascii_lower(c) == c,
{
}

/// A text of ASCII characters alone keeps its length in lower case, and each of its characters
/// becomes its small letter.
pub proof fn law_lower_case_of_ascii(s: Seq<char>, i: int)
    requires
        vstd::utf8::is_ascii_chars(s),
        0 <= i < s.len(),
    ensures
        lowered(s).len() == s.len(),
        lowered(s)[i] == ascii_lower(s[i]),
        lowered(s) == ascii_lowered(s),
{
}

/// Joining puts the separator between each two parts, and nowhere else.
pub proof fn law_join(parts: Seq<Seq<char>>, part: Seq<char>, sep: Seq<char>)
    ensures
        join(seq![part], sep) == part,
        parts.len() == 0 ==> join(parts, sep).len() == 0,
        parts.len() > 0 ==> join(parts.push(part), sep) == join(parts, sep) + sep + part,
        parts.len() > 0 ==> join(seq![part] + parts, sep) == part + sep + join(parts, sep),
{
    assert(parts.push(part).drop_last() =~= parts);
    if parts.len() > 0 {
        lemma_join_front(part, parts, sep);
    }
}

/// An empty delimiter stands between all characters, before the first and behind the last.
pub proof fn law_an_empty_delimiter(s: Seq<char>, i: int)
    ensures
        split(s, Seq::empty()).len() == s.len() + 2,
        split(s, Seq::empty())[0].len() == 0,
        split(s, Seq::empty()).last().len() == 0,
        0 <= i < s.len() ==> split(s, Seq::empty())[i + 1] == seq![s[i]],
{
}

/// White space is what Unicode calls so: the ASCII controls from tab to carriage return, the space,
/// and the spaces and separators beyond ASCII.
pub proof fn law_which_characters_are_white_space(c: char)
    ensures
        is_space(c) <==> {
            let n = c as u32;
            9 <= n <= 13 || n == 32 || n == 133 || n == 160 || n == 5760 || 8192 <= n <= 8202 || n
                == 8232 || n == 8233 || n == 8239 || n == 8287 || n == 12288
        },
{
}

/// The lower case of a text with characters beyond ASCII is that of the text with small ASCII
/// letters.
pub proof fn law_lower_case_beyond_ascii(s: Seq<char>)
    ensures
        !vstd::utf8::is_ascii_chars(s) ==> lowered(s) == lowercase(ascii_lowered(s)),
{
}

/// A part of a part is a part.
pub proof fn lemma_contains_part(s: Seq<char>, part: Seq<char>, word: Seq<char>)
    requires
        contains(s, part),
        contains(part, word),
    ensures
        contains(s, word),
{
    let i = choose|i: int| occurs_at(s, part, i);
    let j = choose|j: int| occurs_at(part, word, j);
    assert(s.subrange(i + j, i + j + word.len()) =~= part.subrange(j, j + word.len()));
    assert(occurs_at(s, word, i + j));
}

} // verus!
