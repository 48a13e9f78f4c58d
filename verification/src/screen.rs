//! The interactive screen: what it shows, and what keys do.
use vstd::prelude::*;

use crate::display::{DisplayConfig, GroupBy, SortBy};
use crate::groups;
use crate::groups::Grouping;
use crate::lists;
use crate::plain;
use crate::records::IpRecord;
use crate::sorting;
use crate::table;
use crate::table::{Caption, TableView};
use crate::tally;
use crate::tally::TallyRow;
use crate::text;

verus! {

broadcast use vstd::string::group_string_axioms;

// ---------------------------------------------------------------------------
// Searching
// ---------------------------------------------------------------------------

/// An optional text holds what is searched for.
pub open spec fn opt_contains(t: Option<String>, lower: Seq<char>) -> bool {
    t matches Some(s) && text::contains(text::lowered(s@), lower)
}

/// One of the texts of a record holds what is searched for, in upper or lower case.
pub open spec fn record_matches(rec: IpRecord, lower: Seq<char>) -> bool {
    ||| text::contains(text::lowered(rec.ip@), lower)
    ||| opt_contains(rec.reverse_dns, lower)
    ||| opt_contains(rec.org, lower)
    ||| opt_contains(rec.asn, lower)
    ||| opt_contains(rec.infra, lower)
    ||| opt_contains(rec.country, lower)
    ||| opt_contains(rec.company_domain, lower)
    ||| opt_contains(rec.user_agent, lower)
}

/// The records that match a search; all of them match an empty one.
pub open spec fn matching(recs: Seq<IpRecord>, query: Seq<char>) -> Seq<IpRecord> {
    if query.len() == 0 {
        recs
    } else {
        recs.filter(|r: IpRecord| record_matches(r, text::lowered(query)))
    }
}

fn holds(t: &Option<String>, lower: &[char]) -> (r: bool)
    ensures
        r == opt_contains(*t, lower@),
{
    match t {
        Some(s) => {
            let chars = text::to_chars(text::to_lower(s.as_str()).as_str());
            text::has(&chars, lower)
        },
        None => false,
    }
}

/// Does a record match what is searched for, which is in lower case?
pub fn matches_query(rec: &IpRecord, lower: &[char]) -> (r: bool)
    ensures
        r == record_matches(*rec, lower@),
{
    let ip = text::to_chars(text::to_lower(rec.ip.as_str()).as_str());
    text::has(&ip, lower) || holds(&rec.reverse_dns, lower) || holds(&rec.org, lower) || holds(
        &rec.asn,
        lower,
    ) || holds(&rec.infra, lower) || holds(&rec.country, lower) || holds(
        &rec.company_domain,
        lower,
    ) || holds(&rec.user_agent, lower)
}

/// The records that match a search.
pub fn search(recs: &Vec<IpRecord>, query: &str) -> (r: Vec<IpRecord>)
    ensures
        r@ == matching(recs@, query@),
{
    let all: bool = query.unicode_len() == 0;
    let lower = text::to_chars(text::to_lower(query).as_str());
    let ghost wanted = |r: IpRecord| all || record_matches(r, text::lowered(query@));
    let mut out: Vec<IpRecord> = Vec::new();
    proof {
        reveal(Seq::filter);
    }
    for i in 0..recs.len()
        invariant
            lower@ == text::lowered(query@),
            wanted == (|r: IpRecord| all || record_matches(r, text::lowered(query@))),
            out@ == recs@.take(i as int).filter(wanted),
    {
        let rec = &recs[i];
        proof {
            reveal(Seq::filter);
            assert(recs@.take(i + 1).drop_last() =~= recs@.take(i as int));
            assert(recs@.take(i + 1).last() == *rec);
        }
        if all || matches_query(rec, &lower) {
            assert(wanted(*rec));
            out.push(rec.copy());
        } else {
            assert(!wanted(*rec));
        }
    }
    assert(recs@.take(recs@.len() as int) =~= recs@);
    proof {
        if all {
            lists::lemma_filter_all(recs@, wanted);
        } else {
            assert(wanted =~= (|r: IpRecord| record_matches(r, text::lowered(query@))));
        }
    }
    out
}

/// The records in order.
pub fn sort_records(recs: &Vec<IpRecord>, by: SortBy) -> (r: Vec<IpRecord>)
    ensures
        r@ == sorting::ordered(recs@, by),
{
    let order = sorting::order_of(recs, by);
    let mut out: Vec<IpRecord> = Vec::new();
    for i in 0..order.len()
        invariant
            order@.len() == recs@.len(),
            forall|j: int| 0 <= j < order@.len() ==> (#[trigger] order@[j]) < recs@.len(),
            forall|j: int|
                0 <= j < order@.len() ==> recs@[#[trigger] order@[j] as int] == sorting::ordered(
                    recs@,
                    by,
                )[j],
            out@.len() == i,
            forall|j: int| 0 <= j < i ==> #[trigger] out@[j] == sorting::ordered(recs@, by)[j],
    {
        out.push(recs[order[i]].copy());
    }
    assert(out@ =~= sorting::ordered(recs@, by));
    out
}

/// The records that a search leaves, in order.
pub open spec fn listed(recs: Seq<IpRecord>, query: Seq<char>, by: SortBy) -> Seq<IpRecord> {
    sorting::ordered(matching(recs, query), by)
}

// ---------------------------------------------------------------------------
// What the screen shows
// ---------------------------------------------------------------------------

/// What the screen is set to.
#[derive(Debug)]
pub struct Screen {
    pub config: DisplayConfig,
    /// The row that is marked.
    pub selected: Option<usize>,
    pub searching: bool,
    pub query: String,
    pub help: bool,
}

/// What the screen is set to, as a mathematical value.
pub ghost struct ScreenView {
    pub config: DisplayConfig,
    pub selected: Option<usize>,
    pub searching: bool,
    pub query: Seq<char>,
    pub help: bool,
}

impl View for Screen {
    type V = ScreenView;

    open spec fn view(&self) -> ScreenView {
        ScreenView {
            config: self.config,
            selected: self.selected,
            searching: self.searching,
            query: self.query@,
            help: self.help,
        }
    }
}

/// What records are grouped by, where they are.
pub open spec fn grouping_of(g: GroupBy) -> Option<Grouping> {
    match g {
        GroupBy::Ip => None,
        GroupBy::Org => Some(Grouping::Org),
        GroupBy::Asn => Some(Grouping::Asn),
        GroupBy::UserAgent => None,
        GroupBy::CloudProvider => Some(Grouping::Cloud),
    }
}

fn find_grouping(g: GroupBy) -> (r: Option<Grouping>)
    ensures
        r == grouping_of(g),
{
    match g {
        GroupBy::Ip => None,
        GroupBy::Org => Some(Grouping::Org),
        GroupBy::Asn => Some(Grouping::Asn),
        GroupBy::UserAgent => None,
        GroupBy::CloudProvider => Some(Grouping::Cloud),
    }
}

/// How many records wait for a lookup.
pub open spec fn waiting(recs: Seq<IpRecord>) -> nat {
    recs.filter(|r: IpRecord| r.lookup_in_progress).len()
}

/// How many lookups are on their way.
pub open spec fn pending(recs: Seq<IpRecord>, tasks: nat) -> nat {
    if waiting(recs) > tasks {
        waiting(recs)
    } else {
        tasks
    }
}

/// How many lookups are on their way: as many as there are records that wait for one, or tasks if
/// those are more.
pub fn pending_count(recs: &Vec<IpRecord>, tasks: usize) -> (r: usize)
    ensures
        r == pending(recs@, tasks as nat),
{
    let ghost open = |r: IpRecord| r.lookup_in_progress;
    let mut n: usize = 0;
    proof {
        reveal(Seq::filter);
    }
    for i in 0..recs.len()
        invariant
            open == (|r: IpRecord| r.lookup_in_progress),
            n <= i,
            n == recs@.take(i as int).filter(open).len(),
    {
        proof {
            reveal(Seq::filter);
            assert(recs@.take(i + 1).drop_last() =~= recs@.take(i as int));
            assert(recs@.take(i + 1).last() == recs@[i as int]);
        }
        if recs[i].lookup_in_progress {
            assert(open(recs@[i as int]));
            n = n + 1;
        } else {
            assert(!open(recs@[i as int]));
        }
    }
    assert(recs@.take(recs@.len() as int) =~= recs@);
    if n > tasks {
        n
    } else {
        tasks
    }
}

/// This is the table that the screen shows.
pub open spec fn is_shown(
    t: TableView,
    recs: Seq<IpRecord>,
    agents: Seq<TallyRow>,
    query: Seq<char>,
    caption: Caption,
    dc: DisplayConfig,
) -> bool {
    let rows = listed(recs, query, dc.sort_by);
    match (dc.group_by, grouping_of(dc.group_by)) {
        (_, Some(grouping)) => table::is_group_table(t, rows, grouping, caption, dc),
        (GroupBy::UserAgent, None) => table::is_agent_table(t, agents, caption, dc),
        (_, None) => table::is_ip_table(t, plain::displayed(rows), caption, dc),
    }
}

/// The sums of the table fit.
pub open spec fn sums_fit(
    recs: Seq<IpRecord>,
    agents: Seq<TallyRow>,
    query: Seq<char>,
    dc: DisplayConfig,
) -> bool {
    let rows = listed(recs, query, dc.sort_by);
    match (dc.group_by, grouping_of(dc.group_by)) {
        (_, Some(grouping)) => table::group_sums_fit(rows, grouping, dc.cloud_detail),
        (GroupBy::UserAgent, None) => sorting::bytes_sum(agents) <= u64::MAX,
        (_, None) => sorting::bytes_sum(plain::displayed(rows)) <= u64::MAX,
    }
}

/// The table that the screen shows: of the records that the search leaves, ordered and grouped as
/// the screen is set to. There is none if a sum does not fit.
pub fn current_table(
    recs: &Vec<IpRecord>,
    agents: &Vec<TallyRow>,
    query: &str,
    caption: &Caption,
    dc: &DisplayConfig,
) -> (r: Option<TableView>)
    ensures
        match r {
            Some(t) => sums_fit(recs@, agents@, query@, *dc) && is_shown(
                t,
                recs@,
                agents@,
                query@,
                *caption,
                *dc,
            ),
            None => !sums_fit(recs@, agents@, query@, *dc),
        },
{
    let rows = sort_records(&search(recs, query), dc.sort_by);
    match find_grouping(dc.group_by) {
        Some(grouping) => table::group_view(&rows, grouping, caption, dc),
        None => match dc.group_by {
            GroupBy::UserAgent => table::agent_view(agents, caption, dc),
            _ => table::ip_view(&plain::display_set(&rows), caption, dc),
        },
    }
}

/// How many rows the table has.
pub open spec fn rows_shown(
    recs: Seq<IpRecord>,
    agents: nat,
    query: Seq<char>,
    dc: DisplayConfig,
) -> nat {
    let found = matching(recs, query);
    match (dc.group_by, grouping_of(dc.group_by)) {
        (_, Some(grouping)) => groups::groups_of(
            groups::keys_of(found, grouping, dc.cloud_detail),
            found,
        ).len(),
        (GroupBy::UserAgent, None) => agents,
        (_, None) => plain::displayed(found).len(),
    }
}

/// How many rows the table has. The number is not known if a sum of a group does not fit.
pub fn row_count(
    recs: &Vec<IpRecord>,
    agents: usize,
    query: &str,
    dc: &DisplayConfig,
) -> (r: Option<usize>)
    ensures
        match r {
            Some(n) => n == rows_shown(recs@, agents as nat, query@, *dc),
            None => grouping_of(dc.group_by) matches Some(grouping) && !groups::sums_fit(
                groups::keys_of(matching(recs@, query@), grouping, dc.cloud_detail),
                matching(recs@, query@),
            ),
        },
{
    let found = search(recs, query);
    match find_grouping(dc.group_by) {
        Some(grouping) => match groups::aggregate(&found, grouping, dc.cloud_detail) {
            Some(gs) => {
                proof {
                    assert(found@.len() == found.len());
                    assert(groups::group_views(gs@).len() == gs@.len());
                    groups::lemma_group_count(
                        groups::keys_of(found@, grouping, dc.cloud_detail),
                        found@,
                        SortBy::Hits,
                    );
                }
                Some(gs.len())
            },
            None => None,
        },
        None => match dc.group_by {
            GroupBy::UserAgent => Some(agents),
            _ => Some(plain::display_set(&found).len()),
        },
    }
}

// ---------------------------------------------------------------------------
// Keys
// ---------------------------------------------------------------------------

/// A key that was pressed.
#[derive(Clone, Copy, Debug, PartialEq, Eq, Structural)]
pub enum Key {
    Esc,
    Enter,
    Backspace,
    Up,
    Down,
    PageUp,
    PageDown,
    Home,
    End,
    Char(char),
    /// A letter together with Ctrl or Alt.
    Chord(char),
    Function(u8),
    Other,
}

/// What has to be done besides drawing the screen anew.
#[derive(Clone, Copy, Debug, PartialEq, Eq, Structural)]
pub enum Action {
    Nothing,
    /// The program ends.
    Quit,
    /// The addresses are to be selected anew, in the order that is set.
    Reselect,
}

/// The last row, or the first where there are none.
pub open spec fn last_row(rows: nat) -> nat {
    if rows == 0 {
        0
    } else {
        (rows - 1) as nat
    }
}

/// The marked row moved down by some rows, but not beyond the last.
pub open spec fn moved_down(selected: Option<usize>, n: nat, rows: nat) -> usize {
    let from = match selected {
        Some(i) => i as nat,
        None => 0,
    };
    if from + n <= last_row(rows) {
        (from + n) as usize
    } else {
        last_row(rows) as usize
    }
}

/// The marked row moved up by some rows, but not beyond the first.
pub open spec fn moved_up(selected: Option<usize>, n: nat) -> usize {
    let from = match selected {
        Some(i) => i as nat,
        None => 0,
    };
    if from >= n {
        (from - n) as usize
    } else {
        0
    }
}

/// What a key does while the help is shown: it may close it.
pub open spec fn key_in_help(s: ScreenView, key: Key) -> ScreenView {
    match key {
        Key::Esc => ScreenView { help: false, ..s },
        Key::Char(c) | Key::Chord(c) => if c == '?' || c == 'q' {
            ScreenView { help: false, ..s }
        } else {
            s
        },
        _ => s,
    }
}

/// What a key does while a search is typed.
pub open spec fn key_in_search(s: ScreenView, key: Key) -> ScreenView {
    match key {
        Key::Esc => ScreenView { searching: false, query: Seq::empty(), selected: Some(0), ..s },
        Key::Enter => ScreenView { searching: false, selected: Some(0), ..s },
        Key::Backspace => ScreenView {
            query: if s.query.len() == 0 {
                s.query
            } else {
                s.query.drop_last()
            },
            selected: Some(0),
            ..s
        },
        Key::Char(c) | Key::Chord(c) => ScreenView {
            query: s.query.push(c),
            selected: Some(0),
            ..s
        },
        _ => s,
    }
}

/// What the order being switched does: the addresses are selected anew in the other order.
pub open spec fn order_switched(s: ScreenView) -> (ScreenView, Action) {
    let dc = s.config;
    (
        ScreenView {
            config: DisplayConfig { sort_by: dc.sort_by.toggled(), ..dc },
            selected: Some(0),
            ..s
        },
        Action::Reselect,
    )
}

/// What a letter does in the table, other than to start a search or to switch the order.
pub open spec fn letter_in_table(s: ScreenView, c: char, rows: nat) -> (ScreenView, Action) {
    let dc = s.config;
    if c == 'q' {
        (s, Action::Quit)
    } else if c == '?' {
        (ScreenView { help: true, ..s }, Action::Nothing)
    } else if c == 'f' {
        (ScreenView { searching: true, ..s }, Action::Nothing)
    } else if c == 'g' {
        (
            ScreenView {
                config: DisplayConfig { group_by: dc.group_by.following(), ..dc },
                selected: Some(0),
                ..s
            },
            Action::Nothing,
        )
    } else if c == 'r' {
        (
            ScreenView { config: DisplayConfig { show_rdns: !dc.show_rdns, ..dc }, ..s },
            Action::Nothing,
        )
    } else if c == 'u' {
        (
            ScreenView { config: DisplayConfig { show_ua: !dc.show_ua, ..dc }, ..s },
            Action::Nothing,
        )
    } else if c == 'o' {
        (
            ScreenView { config: DisplayConfig { show_org: !dc.show_org, ..dc }, ..s },
            Action::Nothing,
        )
    } else if c == 'y' {
        (
            ScreenView { config: DisplayConfig { show_country: !dc.show_country, ..dc }, ..s },
            Action::Nothing,
        )
    } else if c == 'd' {
        (
            ScreenView { config: DisplayConfig { show_domain: !dc.show_domain, ..dc }, ..s },
            Action::Nothing,
        )
    } else if c == 'c' {
        (
            ScreenView { config: DisplayConfig { cloud_detail: !dc.cloud_detail, ..dc }, ..s },
            Action::Nothing,
        )
    } else if c == 'j' {
        (
            ScreenView { selected: Some(moved_down(s.selected, 1, rows)), ..s },
            Action::Nothing,
        )
    } else if c == 'k' {
        (ScreenView { selected: Some(moved_up(s.selected, 1)), ..s }, Action::Nothing)
    } else {
        (s, Action::Nothing)
    }
}

/// What a key does in the table.
pub open spec fn key_in_table(s: ScreenView, key: Key, rows: nat) -> (ScreenView, Action) {
    match key {
        Key::Esc => (s, Action::Quit),
        Key::Char(c) => if c == 's' || c == '/' {
            (ScreenView { searching: true, ..s }, Action::Nothing)
        } else {
            letter_in_table(s, c, rows)
        },
        Key::Chord(c) => if c == 's' {
            order_switched(s)
        } else {
            letter_in_table(s, c, rows)
        },
        Key::Function(n) => if n == 3 {
            (ScreenView { searching: true, ..s }, Action::Nothing)
        } else {
            (s, Action::Nothing)
        },
        Key::Down => (
            ScreenView { selected: Some(moved_down(s.selected, 1, rows)), ..s },
            Action::Nothing,
        ),
        Key::Up => (
            ScreenView { selected: Some(moved_up(s.selected, 1)), ..s },
            Action::Nothing,
        ),
        Key::PageDown => (
            ScreenView { selected: Some(moved_down(s.selected, 20, rows)), ..s },
            Action::Nothing,
        ),
        Key::PageUp => (
            ScreenView { selected: Some(moved_up(s.selected, 20)), ..s },
            Action::Nothing,
        ),
        Key::Home => (ScreenView { selected: Some(0), ..s }, Action::Nothing),
        Key::End => (
            ScreenView { selected: Some(last_row(rows) as usize), ..s },
            Action::Nothing,
        ),
        _ => (s, Action::Nothing),
    }
}

/// What a key does.
pub open spec fn pressed(s: ScreenView, key: Key, rows: nat) -> (ScreenView, Action) {
    if s.help {
        (key_in_help(s, key), Action::Nothing)
    } else if s.searching {
        (key_in_search(s, key), Action::Nothing)
    } else {
        key_in_table(s, key, rows)
    }
}

fn move_down(selected: Option<usize>, n: usize, rows: usize) -> (r: usize)
    ensures
        r == moved_down(selected, n as nat, rows as nat),
{
    let from: usize = match selected {
        Some(i) => i,
        None => 0,
    };
    let last: usize = if rows == 0 {
        0
    } else {
        rows - 1
    };
    if from <= last && n <= last - from {
        from + n
    } else {
        last
    }
}

fn move_up(selected: Option<usize>, n: usize) -> (r: usize)
    ensures
        r == moved_up(selected, n as nat),
{
    let from: usize = match selected {
        Some(i) => i,
        None => 0,
    };
    if from >= n {
        from - n
    } else {
        0
    }
}

impl Screen {
    /// The table with the first row marked; nothing is searched for.
    pub fn new(config: DisplayConfig) -> (r: Screen)
        ensures
            r@ == (ScreenView {
                config,
                selected: Some(0),
                searching: false,
                query: Seq::empty(),
                help: false,
            }),
    {
        Screen { config, selected: Some(0), searching: false, query: String::new(), help: false }
    }

    /// Do keys move in the table, so that the number of its rows matters?
    pub fn in_table(&self) -> (r: bool)
        ensures
            r == (!self@.help && !self@.searching),
    {
        !self.help && !self.searching
    }

    fn press_in_search(&mut self, key: Key)
        ensures
            final(self)@ == key_in_search(old(self)@, key),
    {
        match key {
            Key::Esc => {
                self.searching = false;
                self.query = String::new();
                self.selected = Some(0);
            },
            Key::Enter => {
                self.searching = false;
                self.selected = Some(0);
            },
            Key::Backspace => {
                let chars = text::to_chars(self.query.as_str());
                let n: usize = chars.len();
                if n > 0 {
                    let kept = vstd::slice::slice_subrange(chars.as_slice(), 0, n - 1);
                    self.query = text::from_chars(kept);
                    assert(self.query@ =~= old(self).query@.drop_last());
                }
                self.selected = Some(0);
            },
            Key::Char(c) | Key::Chord(c) => {
                self.query.push(c);
                self.selected = Some(0);
            },
            _ => {},
        }
    }

    fn press_letter(&mut self, c: char, rows: usize) -> (r: Action)
        ensures
            (final(self)@, r) == letter_in_table(old(self)@, c, rows as nat),
    {
        if c == 'q' {
            return Action::Quit;
        } else if c == '?' {
            self.help = true;
        } else if c == 'f' {
            self.searching = true;
        } else if c == 'g' {
            self.config.group_by = self.config.group_by.next();
            self.selected = Some(0);
        } else if c == 'r' {
            self.config.show_rdns = !self.config.show_rdns;
        } else if c == 'u' {
            self.config.show_ua = !self.config.show_ua;
        } else if c == 'o' {
            self.config.show_org = !self.config.show_org;
        } else if c == 'y' {
            self.config.show_country = !self.config.show_country;
        } else if c == 'd' {
            self.config.show_domain = !self.config.show_domain;
        } else if c == 'c' {
            self.config.cloud_detail = !self.config.cloud_detail;
        } else if c == 'j' {
            self.selected = Some(move_down(self.selected, 1, rows));
        } else if c == 'k' {
            self.selected = Some(move_up(self.selected, 1));
        }
        Action::Nothing
    }

    /// A key was pressed, while the table has so many rows.
    pub fn press(&mut self, key: Key, rows: usize) -> (r: Action)
        ensures
            (final(self)@, r) == pressed(old(self)@, key, rows as nat),
    {
        if self.help {
            let closes: bool = match key {
                Key::Esc => true,
                Key::Char(c) | Key::Chord(c) => c == '?' || c == 'q',
                _ => false,
            };
            if closes {
                self.help = false;
            }
            return Action::Nothing;
        }
        if self.searching {
            self.press_in_search(key);
            return Action::Nothing;
        }
        match key {
            Key::Esc => {
                return Action::Quit;
            },
            Key::Char(c) => {
                if c == 's' || c == '/' {
                    self.searching = true;
                } else {
                    return self.press_letter(c, rows);
                }
            },
            Key::Chord(c) => {
                if c == 's' {
                    self.config.sort_by = self.config.sort_by.toggle();
                    self.selected = Some(0);
                    return Action::Reselect;
                }
                return self.press_letter(c, rows);
            },
            Key::Function(n) => {
                if n == 3 {
                    self.searching = true;
                }
            },
            Key::Down => {
                self.selected = Some(move_down(self.selected, 1, rows));
            },
            Key::Up => {
                self.selected = Some(move_up(self.selected, 1));
            },
            Key::PageDown => {
                self.selected = Some(move_down(self.selected, 20, rows));
            },
            Key::PageUp => {
                self.selected = Some(move_up(self.selected, 20));
            },
            Key::Home => {
                self.selected = Some(0);
            },
            Key::End => {
                self.selected = Some(
                    if rows == 0 {
                        0
                    } else {
                        rows - 1
                    },
                );
            },
            _ => {},
        }
        Action::Nothing
    }
}

/// Moving in the table keeps the mark on a row of it, or on the first where there are none.
pub proof fn law_the_mark_stays_in_the_table(s: ScreenView, key: Key, rows: nat)
    requires
        rows <= usize::MAX,
        s.selected matches Some(i) && i <= last_row(rows),
    ensures
        pressed(s, key, rows).0.selected matches Some(i) && i <= last_row(rows),
{
}

/// The keys that switch a column, the detail or the order do so, and pressed twice undo it.
pub proof fn law_switches_undo_themselves(s: ScreenView, key: Key, rows: nat)
    requires
        !s.help,
        !s.searching,
        key == Key::Chord('s') || (key matches Key::Char(c) && (c == 'r' || c == 'u' || c == 'o' || c
            == 'y' || c == 'd' || c == 'c')),
    ensures
        ({
            let once = pressed(s, key, rows).0;
            let twice = pressed(once, key, rows).0;
            once.config != s.config && twice.config == s.config
        }),
{
}

/// While the help is shown or a search is typed, no key quits or selects anew, and none changes what
/// is shown.
pub proof fn law_only_the_table_acts(s: ScreenView, key: Key, rows: nat)
    requires
        s.help || s.searching,
    ensures
        pressed(s, key, rows).1 == Action::Nothing,
        pressed(s, key, rows).0.config == s.config,
{
}

/// The keys that start a search do so and change nothing else: what is typed next is searched for,
/// and the order stays.
pub proof fn law_keys_start_a_search(s: ScreenView, c: char, typed: char, rows: nat)
    requires
        !s.help,
        !s.searching,
        c == 's' || c == '/' || c == 'f',
    ensures
        ({
            let (after, action) = pressed(s, Key::Char(c), rows);
            let next = pressed(after, Key::Char(typed), rows).0;
            &&& after == (ScreenView { searching: true, ..s })
            &&& action == Action::Nothing
            &&& next.query == s.query.push(typed)
            &&& next.config == s.config
        }),
{
}

/// Typing a character and taking it back leaves the search as it was.
pub proof fn law_backspace_undoes_typing(s: ScreenView, c: char, rows: nat)
    requires
        s.searching,
        !s.help,
    ensures
        ({
            let typed = pressed(s, Key::Char(c), rows).0;
            &&& typed.query == s.query.push(c)
            &&& pressed(typed, Key::Backspace, rows).0.query == s.query
        }),
{
    assert(s.query.push(c).drop_last() =~= s.query);
}

/// Escape cancels a search: the table shows all records again.
pub proof fn law_escape_cancels_a_search(s: ScreenView, rows: nat, recs: Seq<IpRecord>)
    requires
        s.searching,
        !s.help,
    ensures
        ({
            let after = pressed(s, Key::Esc, rows).0;
            !after.searching && matching(recs, after.query) == recs
        }),
{
}

// ---------------------------------------------------------------------------
// Boxes over the table
// ---------------------------------------------------------------------------

/// A box on the screen.
#[derive(Clone, Copy, Debug, PartialEq, Eq, Structural)]
pub struct Popup {
    pub x: u16,
    pub y: u16,
    pub width: u16,
    pub height: u16,
}

/// The difference of two lengths, or nothing where the second is longer.
pub open spec fn less(a: u16, b: u16) -> nat {
    if a >= b {
        (a - b) as nat
    } else {
        0
    }
}

/// The smaller of two lengths.
pub open spec fn smaller(a: u16, b: u16) -> u16 {
    if a <= b {
        a
    } else {
        b
    }
}

/// A box in the middle of an area, cut to it.
pub fn centered(area_width: u16, area_height: u16, width: u16, height: u16) -> (r: Popup)
    ensures
        r.x == less(area_width, width) / 2,
        r.y == less(area_height, height) / 2,
        r.width == smaller(width, area_width),
        r.height == smaller(height, area_height),
        r.x + r.width <= area_width,
        r.y + r.height <= area_height,
{
    let free_x: u16 = if area_width >= width {
        area_width - width
    } else {
        0
    };
    let free_y: u16 = if area_height >= height {
        area_height - height
    } else {
        0
    };
    Popup {
        x: free_x / 2,
        y: free_y / 2,
        width: if width <= area_width {
            width
        } else {
            area_width
        },
        height: if height <= area_height {
            height
        } else {
            area_height
        },
    }
}

/// The box of the help: 60 columns and 26 rows, but with a margin of 4 in all.
pub fn help_popup(area_width: u16, area_height: u16) -> (r: Popup)
    ensures
        r.width == smaller(60, less(area_width, 4) as u16),
        r.height == smaller(26, less(area_height, 4) as u16),
        r.x == less(area_width, r.width) / 2,
        r.y == less(area_height, r.height) / 2,
        r.x + r.width <= area_width,
        r.y + r.height <= area_height,
{
    let free_x: u16 = if area_width >= 4 {
        area_width - 4
    } else {
        0
    };
    let free_y: u16 = if area_height >= 4 {
        area_height - 4
    } else {
        0
    };
    let width: u16 = if free_x >= 60 {
        60
    } else {
        free_x
    };
    let height: u16 = if free_y >= 26 {
        26
    } else {
        free_y
    };
    centered(area_width, area_height, width, height)
}

/// What is said while the addresses are selected anew.
pub open spec fn resorting_said(by: SortBy) -> Seq<char> {
    " Resorting by "@ + by.name() + "... "@
}

/// What is said while the addresses are selected anew, and how wide and high its box is.
pub fn resorting_note(by: SortBy) -> (r: (String, u16, u16))
    ensures
        r.0@ == resorting_said(by),
        r.1 == r.0@.len() + 2,
        r.2 == 3,
{
    proof {
        reveal_strlit(" Resorting by ");
        reveal_strlit("... ");
        reveal_strlit("hits");
        reveal_strlit("bw");
    }
    let mut out = " Resorting by ".to_owned();
    out.append(by.label());
    out.append("... ");
    let n: u16 = out.as_str().unicode_len() as u16;
    (out, n + 2, 3)
}

// ---------------------------------------------------------------------------
// Help
// ---------------------------------------------------------------------------

/// A line of the help.
#[derive(Debug)]
pub enum HelpLine {
    Heading(&'static str),
    Blank,
    Binding { keys: String, meaning: &'static str },
    Note(&'static str),
}

/// A line of the help, as a mathematical value.
pub ghost enum HelpView {
    Heading(Seq<char>),
    Blank,
    Binding { keys: Seq<char>, meaning: Seq<char> },
    Note(Seq<char>),
}

impl View for HelpLine {
    type V = HelpView;

    open spec fn view(&self) -> HelpView {
        match *self {
            HelpLine::Heading(s) => HelpView::Heading(s@),
            HelpLine::Blank => HelpView::Blank,
            HelpLine::Binding { keys, meaning } => HelpView::Binding {
                keys: keys@,
                meaning: meaning@,
            },
            HelpLine::Note(s) => HelpView::Note(s@),
        }
    }
}

/// The lines of the help as mathematical values.
pub open spec fn help_views(lines: Seq<HelpLine>) -> Seq<HelpView> {
    lines.map_values(|l: HelpLine| l@)
}

/// A line that says what keys do; the keys are padded to 14 columns.
pub open spec fn binding(keys: Seq<char>, meaning: Seq<char>) -> HelpView {
    HelpView::Binding { keys: plain::padded(keys, 14), meaning }
}

/// What the keys do.
pub open spec fn bindings() -> Seq<HelpView> {
    seq![
        binding("j / Down"@, "Move down"@),
        binding("k / Up"@, "Move up"@),
        binding("PgDn / PgUp"@, "Scroll by 20 rows"@),
        binding("Home / End"@, "Jump to first / last row"@),
        binding("s, /, f, F3"@, "Search / filter"@),
        binding("Ctrl-S"@, "Toggle sort (hits / bandwidth)"@),
        binding("g"@, "Cycle group by (IP / Org / ASN / UA / Cloud)"@),
        binding("r"@, "Toggle reverse DNS column"@),
        binding("u"@, "Toggle user agent column"@),
        binding("o"@, "Toggle org column"@),
        binding("y"@, "Toggle country column"@),
        binding("d"@, "Toggle domain column"@),
        binding("c"@, "Toggle cloud detail / aggregate"@),
        binding("?"@, "Show / dismiss this help"@),
        binding("q / Esc"@, "Quit"@),
    ]
}

/// The help.
pub open spec fn help_text(has_bytes: bool) -> Seq<HelpView> {
    seq![HelpView::Heading("  Keybindings"@), HelpView::Blank] + bindings() + seq![
        HelpView::Blank,
    ] + table::when(
        has_bytes,
        seq![HelpView::Note("  Sort toggle (Ctrl-S) re-selects top N from full dataset."@)],
    ) + seq![HelpView::Blank, HelpView::Note("  Press ? or Esc to close"@)]
}

fn bind(lines: &mut Vec<HelpLine>, keys: &str, meaning: &'static str)
    ensures
        help_views(final(lines)@) == help_views(old(lines)@).push(binding(keys@, meaning@)),
{
    let ghost before = help_views(lines@);
    lines.push(HelpLine::Binding { keys: plain::pad(keys, 14), meaning });
    assert(help_views(lines@) =~= before.push(binding(keys@, meaning@)));
}

fn say(lines: &mut Vec<HelpLine>, line: HelpLine)
    ensures
        help_views(final(lines)@) == help_views(old(lines)@).push(line@),
{
    let ghost before = help_views(lines@);
    lines.push(line);
    assert(help_views(lines@) =~= before.push(line@));
}

/// The help.
pub fn help_lines(has_bytes: bool) -> (r: Vec<HelpLine>)
    ensures
        help_views(r@) == help_text(has_bytes),
{
    let mut lines: Vec<HelpLine> = Vec::new();
    say(&mut lines, HelpLine::Heading("  Keybindings"));
    say(&mut lines, HelpLine::Blank);
    bind(&mut lines, "j / Down", "Move down");
    bind(&mut lines, "k / Up", "Move up");
    bind(&mut lines, "PgDn / PgUp", "Scroll by 20 rows");
    bind(&mut lines, "Home / End", "Jump to first / last row");
    bind(&mut lines, "s, /, f, F3", "Search / filter");
    bind(&mut lines, "Ctrl-S", "Toggle sort (hits / bandwidth)");
    bind(&mut lines, "g", "Cycle group by (IP / Org / ASN / UA / Cloud)");
    bind(&mut lines, "r", "Toggle reverse DNS column");
    bind(&mut lines, "u", "Toggle user agent column");
    bind(&mut lines, "o", "Toggle org column");
    bind(&mut lines, "y", "Toggle country column");
    bind(&mut lines, "d", "Toggle domain column");
    bind(&mut lines, "c", "Toggle cloud detail / aggregate");
    bind(&mut lines, "?", "Show / dismiss this help");
    bind(&mut lines, "q / Esc", "Quit");
    assert(help_views(lines@) =~= seq![HelpView::Heading("  Keybindings"@), HelpView::Blank]
        + bindings());
    say(&mut lines, HelpLine::Blank);
    if has_bytes {
        say(
            &mut lines,
            HelpLine::Note("  Sort toggle (Ctrl-S) re-selects top N from full dataset."),
        );
    }
    say(&mut lines, HelpLine::Blank);
    say(&mut lines, HelpLine::Note("  Press ? or Esc to close"));
    assert(help_views(lines@) =~= help_text(has_bytes));
    lines
}

// ---------------------------------------------------------------------------
// Laws of searching
// ---------------------------------------------------------------------------

/// A search keeps only records that match, and all of them.
pub proof fn law_search_keeps_what_matches(recs: Seq<IpRecord>, query: Seq<char>, rec: IpRecord)
    requires
        query.len() > 0,
    ensures
        matching(recs, query).contains(rec) <==> recs.contains(rec) && record_matches(
            rec,
            text::lowered(query),
        ),
{
    let p = |r: IpRecord| record_matches(r, text::lowered(query));
    lists::lemma_filter_rows(recs, p);
    if matching(recs, query).contains(rec) {
        let i = choose|i: int| 0 <= i < recs.filter(p).len() && recs.filter(p)[i] == rec;
        assert(p(recs.filter(p)[i]));
    }
    if recs.contains(rec) && p(rec) {
        let i = choose|i: int| 0 <= i < recs.len() && recs[i] == rec;
        assert(p(recs[i]));
    }
}

/// A record that matches a search matches every part of what is searched for too.
pub proof fn law_a_longer_search_finds_less(rec: IpRecord, long: Seq<char>, short: Seq<char>)
    requires
        record_matches(rec, long),
        text::contains(long, short),
    ensures
        record_matches(rec, short),
{
    assert forall|s: Seq<char>| #[trigger] text::contains(s, long) implies text::contains(
        s,
        short,
    ) by {
        text::lemma_contains_part(s, long, short);
    }
}

/// Searching does not tell capital from small ASCII letters.
pub proof fn law_search_ignores_case(recs: Seq<IpRecord>, a: Seq<char>, b: Seq<char>)
    requires
        text::ascii_lowered(a) == text::ascii_lowered(b),
    ensures
        matching(recs, a) == matching(recs, b),
{
    assert(a.len() == text::ascii_lowered(a).len() && b.len() == text::ascii_lowered(b).len());
    text::law_lower_case_ignores_ascii_case(a, b);
}

// ---------------------------------------------------------------------------
// Laws of the keys
// ---------------------------------------------------------------------------

/// In the table, and nowhere else, escape and `q` end the program; only Ctrl-S selects the addresses
/// anew, in the other order.
pub proof fn law_which_keys_act(s: ScreenView, key: Key, rows: nat)
    requires
        !s.help,
        !s.searching,
    ensures
        pressed(s, key, rows).1 == Action::Quit <==> key == Key::Esc || key == Key::Char('q') || key
            == Key::Chord('q'),
        pressed(s, key, rows).1 == Action::Reselect <==> key == Key::Chord('s'),
        pressed(s, key, rows).1 == Action::Quit ==> pressed(s, key, rows).0 == s,
        pressed(s, key, rows).1 == Action::Reselect ==> pressed(s, key, rows).0 == (ScreenView {
            config: DisplayConfig { sort_by: s.config.sort_by.toggled(), ..s.config },
            selected: Some(0),
            ..s
        }),
{
}

/// Each letter that switches something switches its own thing and nothing else; `g` brings the next
/// grouping and marks the first row, and `?` shows the help.
pub proof fn law_letters_in_the_table(s: ScreenView, c: char, rows: nat)
    requires
        !s.help,
        !s.searching,
    ensures
        ({
            let after = pressed(s, Key::Char(c), rows).0;
            let dc = s.config;
            &&& c == 'r' ==> after == (ScreenView {
                config: DisplayConfig { show_rdns: !dc.show_rdns, ..dc },
                ..s
            })
            &&& c == 'u' ==> after == (ScreenView {
                config: DisplayConfig { show_ua: !dc.show_ua, ..dc },
                ..s
            })
            &&& c == 'o' ==> after == (ScreenView {
                config: DisplayConfig { show_org: !dc.show_org, ..dc },
                ..s
            })
            &&& c == 'y' ==> after == (ScreenView {
                config: DisplayConfig { show_country: !dc.show_country, ..dc },
                ..s
            })
            &&& c == 'd' ==> after == (ScreenView {
                config: DisplayConfig { show_domain: !dc.show_domain, ..dc },
                ..s
            })
            &&& c == 'c' ==> after == (ScreenView {
                config: DisplayConfig { cloud_detail: !dc.cloud_detail, ..dc },
                ..s
            })
            &&& c == 'g' ==> after == (ScreenView {
                config: DisplayConfig { group_by: dc.group_by.following(), ..dc },
                selected: Some(0),
                ..s
            })
            &&& c == '?' ==> after == (ScreenView { help: true, ..s })
            &&& c == 's' || c == '/' || c == 'f' ==> after == (ScreenView { searching: true, ..s })
            &&& after.query == s.query
            &&& after.config.sort_by == dc.sort_by
            &&& after.config.has_bytes == dc.has_bytes
        }),
{
}

/// Moving marks the next row, the one before, the twentieth from there, the first or the last, and
/// never one beyond the ends.
pub proof fn law_moving_the_mark(s: ScreenView, i: usize, rows: nat)
    requires
        !s.help,
        !s.searching,
        s.selected == Some(i),
        i < rows <= usize::MAX,
    ensures
        ({
            let down = pressed(s, Key::Down, rows).0.selected;
            let up = pressed(s, Key::Up, rows).0.selected;
            let page_down = pressed(s, Key::PageDown, rows).0.selected;
            let page_up = pressed(s, Key::PageUp, rows).0.selected;
            &&& i + 1 < rows ==> down == Some((i + 1) as usize)
            &&& i + 1 >= rows ==> down == Some((rows - 1) as usize)
            &&& i > 0 ==> up == Some((i - 1) as usize)
            &&& i == 0 ==> up == Some(0usize)
            &&& i + 20 < rows ==> page_down == Some((i + 20) as usize)
            &&& i + 20 >= rows ==> page_down == Some((rows - 1) as usize)
            &&& i >= 20 ==> page_up == Some((i - 20) as usize)
            &&& i < 20 ==> page_up == Some(0usize)
            &&& pressed(s, Key::Home, rows).0.selected == Some(0usize)
            &&& pressed(s, Key::End, rows).0.selected == Some((rows - 1) as usize)
            &&& pressed(s, Key::Char('j'), rows) == pressed(s, Key::Down, rows)
            &&& pressed(s, Key::Char('k'), rows) == pressed(s, Key::Up, rows)
        }),
{
}

/// Without a marked row, moving starts from the first one.
pub proof fn law_moving_without_a_mark(s: ScreenView, rows: nat)
    requires
        !s.help,
        !s.searching,
        s.selected is None,
    ensures
        pressed(s, Key::Down, rows) == pressed(
            (ScreenView { selected: Some(0), ..s }),
            Key::Down,
            rows,
        ),
        pressed(s, Key::PageDown, rows) == pressed(
            (ScreenView { selected: Some(0), ..s }),
            Key::PageDown,
            rows,
        ),
        pressed(s, Key::Up, rows).0.selected == Some(0usize),
        pressed(s, Key::PageUp, rows).0.selected == Some(0usize),
{
}

/// The help is closed by escape, `?` and `q`, and other keys do nothing while it is shown.
pub proof fn law_keys_in_the_help(s: ScreenView, key: Key, rows: nat)
    requires
        s.help,
    ensures
        key == Key::Esc || key == Key::Char('?') || key == Key::Char('q') ==> pressed(s, key, rows).0
            == (ScreenView { help: false, ..s }),
        !(key == Key::Esc || key == Key::Char('?') || key == Key::Char('q') || key == Key::Chord(
            '?',
        ) || key == Key::Chord('q')) ==> pressed(s, key, rows).0 == s,
{
}

/// While a search is typed, every character belongs to it, the keys of the table included; enter
/// ends typing and keeps what was typed, and any change marks the first row.
pub proof fn law_keys_in_a_search(s: ScreenView, c: char, rows: nat)
    requires
        s.searching,
        !s.help,
    ensures
        pressed(s, Key::Char(c), rows).0 == (ScreenView {
            query: s.query.push(c),
            selected: Some(0),
            ..s
        }),
        pressed(s, Key::Enter, rows).0 == (ScreenView { searching: false, selected: Some(0), ..s }),
        pressed(s, Key::Esc, rows).0 == (ScreenView {
            searching: false,
            query: Seq::empty(),
            selected: Some(0),
            ..s
        }),
        s.query.len() == 0 ==> pressed(s, Key::Backspace, rows).0.query.len() == 0,
        s.query.len() > 0 ==> pressed(s, Key::Backspace, rows).0.query == s.query.drop_last(),
        pressed(s, Key::Down, rows).0 == s,
        pressed(s, Key::Up, rows).0 == s,
{
}

/// A search looks at the address, the name, the organisation, the autonomous system, the cloud, the
/// country, the domain and the user agent of a record, and at nothing else.
pub proof fn law_what_is_searched(recs: Seq<IpRecord>, rec: IpRecord, query: Seq<char>)
    ensures
        matching(Seq::empty(), query).len() == 0,
        query.len() == 0 ==> matching(recs, query) == recs,
        query.len() > 0 ==> {
            let word = text::lowered(query);
            let in_some = |t: Option<String>|
                t is Some && text::contains(text::lowered(t->0@), word);
            let found = text::contains(text::lowered(rec.ip@), word) || in_some(rec.reverse_dns)
                || in_some(rec.org) || in_some(rec.asn) || in_some(rec.infra) || in_some(rec.country)
                || in_some(rec.company_domain) || in_some(rec.user_agent);
            &&& found ==> matching(recs.push(rec), query) == matching(recs, query).push(rec)
            &&& !found ==> matching(recs.push(rec), query) == matching(recs, query)
        },
{
    reveal(Seq::filter);
    assert(recs.push(rec).drop_last() =~= recs);
}

/// A record waits while its lookup is in progress.
pub proof fn law_what_waits(recs: Seq<IpRecord>, rec: IpRecord)
    ensures
        waiting(Seq::empty()) == 0,
        rec.lookup_in_progress ==> waiting(recs.push(rec)) == waiting(recs) + 1,
        !rec.lookup_in_progress ==> waiting(recs.push(rec)) == waiting(recs),
{
    reveal(Seq::filter);
    assert(recs.push(rec).drop_last() =~= recs);
}

/// The table that is shown is of addresses, of the groups that are asked for, or of user agents; the
/// search leaves records out but no user agents.
pub proof fn law_which_table_is_shown(
    t: TableView,
    recs: Seq<IpRecord>,
    agents: Seq<TallyRow>,
    query: Seq<char>,
    caption: Caption,
    dc: DisplayConfig,
)
    requires
        is_shown(t, recs, agents, query, caption, dc),
    ensures
        ({
            let rows = sorting::ordered(matching(recs, query), dc.sort_by);
            &&& dc.group_by == GroupBy::Ip ==> table::is_ip_table(
                t,
                plain::displayed(rows),
                caption,
                dc,
            )
            &&& dc.group_by == GroupBy::Org ==> table::is_group_table(
                t,
                rows,
                Grouping::Org,
                caption,
                dc,
            )
            &&& dc.group_by == GroupBy::Asn ==> table::is_group_table(
                t,
                rows,
                Grouping::Asn,
                caption,
                dc,
            )
            &&& dc.group_by == GroupBy::CloudProvider ==> table::is_group_table(
                t,
                rows,
                Grouping::Cloud,
                caption,
                dc,
            )
            &&& dc.group_by == GroupBy::UserAgent ==> table::is_agent_table(t, agents, caption, dc)
        }),
{
}

/// The help says what each key does, one key to a line, and closes with how to leave it; the note on
/// the order stands there only where there is a choice.
pub proof fn law_the_help_says_what_keys_do(has_bytes: bool)
    ensures
        ({
            let help = help_text(has_bytes);
            &&& help[0] == HelpView::Heading("  Keybindings"@)
            &&& help[1] == HelpView::Blank
            &&& help[2] == (HelpView::Binding {
                keys: plain::padded("j / Down"@, 14),
                meaning: "Move down"@,
            })
            &&& help[3] == (HelpView::Binding {
                keys: plain::padded("k / Up"@, 14),
                meaning: "Move up"@,
            })
            &&& help[4] == (HelpView::Binding {
                keys: plain::padded("PgDn / PgUp"@, 14),
                meaning: "Scroll by 20 rows"@,
            })
            &&& help[5] == (HelpView::Binding {
                keys: plain::padded("Home / End"@, 14),
                meaning: "Jump to first / last row"@,
            })
            &&& help[6] == (HelpView::Binding {
                keys: plain::padded("s, /, f, F3"@, 14),
                meaning: "Search / filter"@,
            })
            &&& help[7] == (HelpView::Binding {
                keys: plain::padded("Ctrl-S"@, 14),
                meaning: "Toggle sort (hits / bandwidth)"@,
            })
            &&& help[8] == (HelpView::Binding {
                keys: plain::padded("g"@, 14),
                meaning: "Cycle group by (IP / Org / ASN / UA / Cloud)"@,
            })
            &&& help[9] == (HelpView::Binding {
                keys: plain::padded("r"@, 14),
                meaning: "Toggle reverse DNS column"@,
            })
            &&& help[10] == (HelpView::Binding {
                keys: plain::padded("u"@, 14),
                meaning: "Toggle user agent column"@,
            })
            &&& help[11] == (HelpView::Binding {
                keys: plain::padded("o"@, 14),
                meaning: "Toggle org column"@,
            })
            &&& help[12] == (HelpView::Binding {
                keys: plain::padded("y"@, 14),
                meaning: "Toggle country column"@,
            })
            &&& help[13] == (HelpView::Binding {
                keys: plain::padded("d"@, 14),
                meaning: "Toggle domain column"@,
            })
            &&& help[14] == (HelpView::Binding {
                keys: plain::padded("c"@, 14),
                meaning: "Toggle cloud detail / aggregate"@,
            })
            &&& help[15] == (HelpView::Binding {
                keys: plain::padded("?"@, 14),
                meaning: "Show / dismiss this help"@,
            })
            &&& help[16] == (HelpView::Binding {
                keys: plain::padded("q / Esc"@, 14),
                meaning: "Quit"@,
            })
            &&& help[17] == HelpView::Blank
            &&& help.len() == if has_bytes {
                21int
            } else {
                20int
            }
            &&& has_bytes ==> help[18] == HelpView::Note(
                "  Sort toggle (Ctrl-S) re-selects top N from full dataset."@,
            )
            &&& help.last() == HelpView::Note("  Press ? or Esc to close"@)
        }),
{
}

/// The smaller of two lengths is one of them and not above the other, and a length less another one
/// is what is left of it.
pub proof fn law_lengths(a: u16, b: u16)
    ensures
        smaller(a, b) <= a && smaller(a, b) <= b,
        smaller(a, b) == a || smaller(a, b) == b,
        a >= b ==> less(a, b) + b == a,
        a < b ==> less(a, b) == 0,
{
}

/// The sums that have to fit are those of the table that is shown.
pub proof fn law_sums_of_the_table_shown(
    recs: Seq<IpRecord>,
    agents: Seq<TallyRow>,
    query: Seq<char>,
    dc: DisplayConfig,
)
    ensures
        ({
            let rows = sorting::ordered(matching(recs, query), dc.sort_by);
            let fit = sums_fit(recs, agents, query, dc);
            &&& dc.group_by == GroupBy::UserAgent ==> (fit <==> sorting::bytes_sum(agents)
                <= u64::MAX)
            &&& dc.group_by == GroupBy::Ip ==> (fit <==> sorting::bytes_sum(plain::displayed(rows))
                <= u64::MAX)
            &&& dc.group_by == GroupBy::Org ==> (fit <==> table::group_sums_fit(
                rows,
                Grouping::Org,
                dc.cloud_detail,
            ))
            &&& dc.group_by == GroupBy::Asn ==> (fit <==> table::group_sums_fit(
                rows,
                Grouping::Asn,
                dc.cloud_detail,
            ))
            &&& dc.group_by == GroupBy::CloudProvider ==> (fit <==> table::group_sums_fit(
                rows,
                Grouping::Cloud,
                dc.cloud_detail,
            ))
        }),
{
}

/// The table has as many rows as there are records of the display set that match, groups of the
/// records that match, or user agents.
pub proof fn law_how_many_rows_are_shown(
    recs: Seq<IpRecord>,
    agents: nat,
    query: Seq<char>,
    dc: DisplayConfig,
)
    ensures
        ({
            let n = rows_shown(recs, agents, query, dc);
            let found = matching(recs, query);
            &&& dc.group_by == GroupBy::UserAgent ==> n == agents
            &&& dc.group_by == GroupBy::Ip ==> n == found.filter(
                |r: IpRecord| r.in_display_set,
            ).len()
            &&& dc.group_by == GroupBy::Org ==> n == tally::distinct(
                groups::hits_by(groups::keys_of(found, Grouping::Org, dc.cloud_detail), found),
            ).len()
            &&& dc.group_by == GroupBy::Asn ==> n == tally::distinct(
                groups::hits_by(groups::keys_of(found, Grouping::Asn, dc.cloud_detail), found),
            ).len()
            &&& dc.group_by == GroupBy::CloudProvider ==> n == tally::distinct(
                groups::hits_by(groups::keys_of(found, Grouping::Cloud, dc.cloud_detail), found),
            ).len()
        }),
{
}

/// Where the mark stands behind the last row, as after a search, moving down brings it to the last
/// row, and moving up takes it up from where it was; in an empty table it goes to the first row.
pub proof fn law_moving_from_behind_the_table(s: ScreenView, i: usize, rows: nat)
    requires
        !s.help,
        !s.searching,
        s.selected == Some(i),
        i >= rows,
        rows <= usize::MAX,
    ensures
        rows > 0 ==> pressed(s, Key::Down, rows).0.selected == Some((rows - 1) as usize),
        rows > 0 ==> pressed(s, Key::PageDown, rows).0.selected == Some((rows - 1) as usize),
        rows == 0 ==> pressed(s, Key::Down, rows).0.selected == Some(0usize),
        rows == 0 ==> pressed(s, Key::PageDown, rows).0.selected == Some(0usize),
        rows == 0 ==> pressed(s, Key::End, rows).0.selected == Some(0usize),
        i > 0 ==> pressed(s, Key::Up, rows).0.selected == Some((i - 1) as usize),
        i >= 20 ==> pressed(s, Key::PageUp, rows).0.selected == Some((i - 20) as usize),
        i < 20 ==> pressed(s, Key::PageUp, rows).0.selected == Some(0usize),
{
}

/// As many lookups are on their way as there are records that wait or tasks that run, whichever are
/// more.
pub proof fn law_what_is_pending(recs: Seq<IpRecord>, tasks: nat)
    ensures
        pending(recs, tasks) >= waiting(recs),
        pending(recs, tasks) >= tasks,
        pending(recs, tasks) == waiting(recs) || pending(recs, tasks) == tasks,
{
}

} // verus!
