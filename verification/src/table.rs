//! Tables as the screen shows them.
use vstd::prelude::*;

use crate::display::{DisplayConfig, SortBy};
use crate::groups;
use crate::groups::{Group, Grouping};
use crate::ranking;
use crate::ranking::Rank;
use crate::records::IpRecord;
use crate::sorting;
use crate::sorting::Ranked;
use crate::tally;
use crate::tally::TallyRow;
use crate::text;
use crate::wording;

verus! {

broadcast use vstd::string::group_string_axioms;

// ---------------------------------------------------------------------------
// Model
// ---------------------------------------------------------------------------

/// What stands in a cell: a text, or a share that is shown in percent.
#[derive(Debug)]
pub enum Cell {
    Text(String),
    Share { part: u64, whole: u64 },
}

/// What stands in a cell, as a mathematical value.
pub ghost enum CellView {
    Text(Seq<char>),
    Share { part: nat, whole: nat },
}

impl View for Cell {
    type V = CellView;

    open spec fn view(&self) -> CellView {
        match *self {
            Cell::Text(s) => CellView::Text(s@),
            Cell::Share { part, whole } => CellView::Share { part: part as nat, whole: whole as nat },
        }
    }
}

/// The cells of a row as mathematical values.
pub open spec fn cells(row: Seq<Cell>) -> Seq<CellView> {
    row.map_values(|c: Cell| c@)
}

/// How wide a column is.
#[derive(Clone, Copy, Debug, PartialEq, Eq, Structural)]
pub enum Width {
    Min(u16),
    Length(u16),
}

/// A table with its title, its columns and its rows.
#[derive(Debug)]
pub struct TableView {
    pub title: String,
    pub header: Vec<&'static str>,
    pub widths: Vec<Width>,
    pub rows: Vec<Vec<Cell>>,
}

/// The characters of the titles of columns.
pub open spec fn header_views(header: Seq<&'static str>) -> Seq<Seq<char>> {
    header.map_values(|h: &'static str| h@)
}

/// The rows of a table as mathematical values.
pub open spec fn row_views(rows: Seq<Vec<Cell>>) -> Seq<Seq<CellView>> {
    rows.map_values(|r: Vec<Cell>| cells(r@))
}

/// The values, where a condition holds.
pub open spec fn when<T>(b: bool, s: Seq<T>) -> Seq<T> {
    if b {
        s
    } else {
        Seq::empty()
    }
}

/// A text, or a dash where there is none.
pub open spec fn or_dash(t: Option<String>) -> Seq<char> {
    match t {
        Some(s) => s@,
        None => "-"@,
    }
}

/// A text, or a dash where there is none.
pub fn text_or_dash(t: &Option<String>) -> (r: &str)
    ensures
        r@ == or_dash(*t),
{
    match t {
        Some(s) => s.as_str(),
        None => "-",
    }
}

fn put(row: &mut Vec<Cell>, s: String)
    ensures
        cells(final(row)@) == cells(old(row)@).push(CellView::Text(s@)),
{
    let ghost before = cells(row@);
    row.push(Cell::Text(s));
    assert(cells(row@) =~= before.push(CellView::Text(s@)));
}

fn put_share(row: &mut Vec<Cell>, part: u64, whole: u64)
    ensures
        cells(final(row)@) == cells(old(row)@).push(
            CellView::Share { part: part as nat, whole: whole as nat },
        ),
{
    let ghost before = cells(row@);
    row.push(Cell::Share { part, whole });
    assert(cells(row@) =~= before.push(
        CellView::Share { part: part as nat, whole: whole as nat },
    ));
}

pub(crate) fn put_when(row: &mut Vec<Cell>, shown: bool, s: String)
    ensures
        cells(final(row)@) == cells(old(row)@) + when(shown, seq![CellView::Text(s@)]),
{
    let ghost before = cells(row@);
    if shown {
        put(row, s);
    }
    assert(cells(row@) =~= before + when(shown, seq![CellView::Text(s@)]));
}

pub(crate) fn put_share_when(row: &mut Vec<Cell>, shown: bool, part: u64, whole: u64)
    ensures
        cells(final(row)@) == cells(old(row)@) + when(
            shown,
            seq![CellView::Share { part: part as nat, whole: whole as nat }],
        ),
{
    let ghost before = cells(row@);
    if shown {
        put_share(row, part, whole);
    }
    assert(cells(row@) =~= before + when(
        shown,
        seq![CellView::Share { part: part as nat, whole: whole as nat }],
    ));
}

fn name_when(header: &mut Vec<&'static str>, shown: bool, s: &'static str)
    ensures
        header_views(final(header)@) == header_views(old(header)@) + when(shown, seq![s@]),
{
    let ghost before = header_views(header@);
    if shown {
        header.push(s);
    }
    assert(header_views(header@) =~= before + when(shown, seq![s@]));
}

fn width_when(widths: &mut Vec<Width>, shown: bool, w: Width)
    ensures
        final(widths)@ == old(widths)@ + when(shown, seq![w]),
{
    let ghost before = widths@;
    if shown {
        widths.push(w);
    }
    assert(widths@ =~= before + when(shown, seq![w]));
}

// ---------------------------------------------------------------------------
// Titles
// ---------------------------------------------------------------------------

/// What is said of lookups that are not done.
pub open spec fn pending_said(pending: nat) -> Seq<char> {
    if pending > 0 {
        ", "@ + text::decimal(pending) + " pending"@
    } else {
        Seq::empty()
    }
}

/// What is said of the order, where there is a choice.
pub open spec fn sort_said(dc: DisplayConfig) -> Seq<char> {
    if dc.has_bytes {
        " [sort:"@ + dc.sort_by.name() + "]"@
    } else {
        Seq::empty()
    }
}

/// What is said of a switch.
pub open spec fn on_off(b: bool) -> Seq<char> {
    if b {
        "on"@
    } else {
        "off"@
    }
}

/// What is said of how much of a cloud is shown.
pub open spec fn detail_said(b: bool) -> Seq<char> {
    if b {
        "detail"@
    } else {
        "agg"@
    }
}

/// What search says in a title: what is being typed, or what the rows are filtered by.
pub open spec fn search_said(searching: bool, query: Seq<char>) -> Seq<char> {
    if searching {
        " [SEARCH: "@ + query + "█]"@
    } else if query.len() > 0 {
        " [filter: "@ + query + "]"@
    } else {
        Seq::empty()
    }
}

/// What the title says besides the rows.
pub struct Caption<'a> {
    pub filter_desc: &'a str,
    pub total_lines: u64,
    pub pending: u64,
    pub search: &'a str,
}

/// What search says in a title.
pub fn search_text(searching: bool, query: &str) -> (r: String)
    ensures
        r@ == search_said(searching, query@),
{
    if searching {
        let mut out = " [SEARCH: ".to_owned();
        out.append(query);
        out.append("█]");
        out
    } else if query.unicode_len() > 0 {
        let mut out = " [filter: ".to_owned();
        out.append(query);
        out.append("]");
        out
    } else {
        String::new()
    }
}

fn add_pending(out: &mut String, pending: u64)
    ensures
        final(out)@ == old(out)@ + pending_said(pending as nat),
{
    if pending > 0 {
        out.append(", ");
        out.append(text::decimal_text(pending).as_str());
        out.append(" pending");
    }
    assert(out@ =~= old(out)@ + pending_said(pending as nat));
}

fn add_sort(out: &mut String, dc: &DisplayConfig)
    ensures
        final(out)@ == old(out)@ + sort_said(*dc),
{
    if dc.has_bytes {
        out.append(" [sort:");
        out.append(dc.sort_by.label());
        out.append("]");
    }
    assert(out@ =~= old(out)@ + sort_said(*dc));
}

fn on_or_off(b: bool) -> (r: &'static str)
    ensures
        r@ == on_off(b),
{
    if b {
        "on"
    } else {
        "off"
    }
}

fn detail_or_agg(b: bool) -> (r: &'static str)
    ensures
        r@ == detail_said(b),
{
    if b {
        "detail"
    } else {
        "agg"
    }
}

/// Which columns are shown.
pub open spec fn toggles_said(dc: DisplayConfig) -> Seq<char> {
    "r:"@ + on_off(dc.show_rdns) + " u:"@ + on_off(dc.show_ua) + " o:"@ + on_off(dc.show_org)
        + " y:"@ + on_off(dc.show_country) + " d:"@ + on_off(dc.show_domain) + " c:"@ + detail_said(
        dc.cloud_detail,
    )
}

fn toggles(dc: &DisplayConfig) -> (r: String)
    ensures
        r@ == toggles_said(*dc),
{
    let mut out = "r:".to_owned();
    out.append(on_or_off(dc.show_rdns));
    out.append(" u:");
    out.append(on_or_off(dc.show_ua));
    out.append(" o:");
    out.append(on_or_off(dc.show_org));
    out.append(" y:");
    out.append(on_or_off(dc.show_country));
    out.append(" d:");
    out.append(on_or_off(dc.show_domain));
    out.append(" c:");
    out.append(detail_or_agg(dc.cloud_detail));
    out
}

/// The title of the table of addresses.
pub open spec fn ip_title(
    desc: Seq<char>,
    lines: nat,
    pending: nat,
    search: Seq<char>,
    dc: DisplayConfig,
) -> Seq<char> {
    " "@ + desc + " IPs, "@ + text::decimal(lines) + " lines"@ + pending_said(pending) + " ["@
        + toggles_said(dc) + "] [by:"@ + dc.group_by.name() + "]"@ + sort_said(dc) + search
        + " (g/s/r/u/o/y/d/c/f/?=help, q=quit)"@
}

fn make_ip_title(caption: &Caption, dc: &DisplayConfig) -> (r: String)
    ensures
        r@ == ip_title(
            caption.filter_desc@,
            caption.total_lines as nat,
            caption.pending as nat,
            caption.search@,
            *dc,
        ),
{
    let mut out = " ".to_owned();
    out.append(caption.filter_desc);
    out.append(" IPs, ");
    out.append(text::decimal_text(caption.total_lines).as_str());
    out.append(" lines");
    add_pending(&mut out, caption.pending);
    out.append(" [");
    out.append(toggles(dc).as_str());
    out.append("] [by:");
    out.append(dc.group_by.label());
    out.append("]");
    add_sort(&mut out, dc);
    out.append(caption.search);
    out.append(" (g/s/r/u/o/y/d/c/f/?=help, q=quit)");
    out
}

/// The title of a table of groups.
pub open spec fn group_title(
    desc: Seq<char>,
    label: Seq<char>,
    lines: nat,
    pending: nat,
    search: Seq<char>,
    dc: DisplayConfig,
) -> Seq<char> {
    " "@ + desc + " IPs by "@ + label + ", "@ + text::decimal(lines) + " lines"@ + pending_said(
        pending,
    ) + " [c:"@ + detail_said(dc.cloud_detail) + "]"@ + " [by:"@ + dc.group_by.name() + "]"@
        + sort_said(dc) + search + " (g/s/c/f/?=help, q=quit)"@
}

fn make_group_title(caption: &Caption, label: &str, dc: &DisplayConfig) -> (r: String)
    ensures
        r@ == group_title(
            caption.filter_desc@,
            label@,
            caption.total_lines as nat,
            caption.pending as nat,
            caption.search@,
            *dc,
        ),
{
    let mut out = " ".to_owned();
    out.append(caption.filter_desc);
    out.append(" IPs by ");
    out.append(label);
    out.append(", ");
    out.append(text::decimal_text(caption.total_lines).as_str());
    out.append(" lines");
    add_pending(&mut out, caption.pending);
    out.append(" [c:");
    out.append(detail_or_agg(dc.cloud_detail));
    out.append("]");
    out.append(" [by:");
    out.append(dc.group_by.label());
    out.append("]");
    add_sort(&mut out, dc);
    out.append(caption.search);
    out.append(" (g/s/c/f/?=help, q=quit)");
    out
}

/// The title of the table of user agents.
pub open spec fn agent_title(
    desc: Seq<char>,
    lines: nat,
    pending: nat,
    search: Seq<char>,
    dc: DisplayConfig,
) -> Seq<char> {
    " "@ + desc + " IPs by User Agent, "@ + text::decimal(lines) + " lines"@ + pending_said(pending)
        + " [by:"@ + dc.group_by.name() + "]"@ + sort_said(dc) + search
        + " (g/s/f/?=help, q=quit)"@
}

fn make_agent_title(caption: &Caption, dc: &DisplayConfig) -> (r: String)
    ensures
        r@ == agent_title(
            caption.filter_desc@,
            caption.total_lines as nat,
            caption.pending as nat,
            caption.search@,
            *dc,
        ),
{
    let mut out = " ".to_owned();
    out.append(caption.filter_desc);
    out.append(" IPs by User Agent, ");
    out.append(text::decimal_text(caption.total_lines).as_str());
    out.append(" lines");
    add_pending(&mut out, caption.pending);
    out.append(" [by:");
    out.append(dc.group_by.label());
    out.append("]");
    add_sort(&mut out, dc);
    out.append(caption.search);
    out.append(" (g/s/f/?=help, q=quit)");
    out
}

// ---------------------------------------------------------------------------
// One row for each address
// ---------------------------------------------------------------------------

/// The columns of the table of addresses.
pub open spec fn ip_header(dc: DisplayConfig) -> Seq<Seq<char>> {
    seq!["Count"@, "%"@] + when(dc.has_bytes, seq!["Bandwidth"@, "BW%"@]) + seq!["IP"@] + when(
        dc.show_rdns,
        seq!["Reverse DNS"@],
    ) + when(dc.show_org, seq!["Org"@]) + when(dc.show_country, seq!["CC"@]) + when(
        dc.show_domain,
        seq!["Domain"@],
    ) + when(dc.show_ua, seq!["User Agent"@])
}

fn make_ip_header(dc: &DisplayConfig) -> (r: Vec<&'static str>)
    ensures
        header_views(r@) == ip_header(*dc),
{
    let mut out: Vec<&'static str> = Vec::new();
    name_when(&mut out, true, "Count");
    name_when(&mut out, true, "%");
    name_when(&mut out, dc.has_bytes, "Bandwidth");
    name_when(&mut out, dc.has_bytes, "BW%");
    name_when(&mut out, true, "IP");
    assert(header_views(out@) =~= seq!["Count"@, "%"@] + when(
        dc.has_bytes,
        seq!["Bandwidth"@, "BW%"@],
    ) + seq!["IP"@]);
    name_when(&mut out, dc.show_rdns, "Reverse DNS");
    name_when(&mut out, dc.show_org, "Org");
    name_when(&mut out, dc.show_country, "CC");
    name_when(&mut out, dc.show_domain, "Domain");
    name_when(&mut out, dc.show_ua, "User Agent");
    out
}

/// One or none.
pub open spec fn one(b: bool) -> nat {
    if b {
        1
    } else {
        0
    }
}

/// How many columns there are.
pub open spec fn column_count(dc: DisplayConfig) -> nat {
    3 + one(dc.show_rdns) + one(dc.show_ua) + one(dc.show_org) + one(dc.show_country) + one(
        dc.show_domain,
    ) + 2 * one(dc.has_bytes)
}

/// What the wide columns gain where there are few columns.
pub open spec fn extra_width(dc: DisplayConfig) -> nat {
    let n = column_count(dc);
    if n <= 4 {
        60
    } else if n <= 5 {
        30
    } else if n <= 6 {
        15
    } else {
        0
    }
}

fn find_extra_width(dc: &DisplayConfig) -> (r: u16)
    ensures
        r == extra_width(*dc),
{
    let mut n: u8 = 3;
    if dc.show_rdns {
        n = n + 1;
    }
    if dc.show_ua {
        n = n + 1;
    }
    if dc.show_org {
        n = n + 1;
    }
    if dc.show_country {
        n = n + 1;
    }
    if dc.show_domain {
        n = n + 1;
    }
    if dc.has_bytes {
        n = n + 2;
    }
    if n <= 4 {
        60
    } else if n <= 5 {
        30
    } else if n <= 6 {
        15
    } else {
        0
    }
}

/// The widths of the columns.
pub open spec fn ip_widths(dc: DisplayConfig) -> Seq<Width> {
    let extra = extra_width(dc);
    seq![Width::Min(10), Width::Length(6)] + when(
        dc.has_bytes,
        seq![Width::Length(10), Width::Length(6)],
    ) + seq![Width::Length(40)] + when(
        dc.show_rdns,
        seq![Width::Length((40 + extra) as u16)],
    ) + when(dc.show_org, seq![Width::Length((27 + extra) as u16)]) + when(
        dc.show_country,
        seq![Width::Length(4)],
    ) + when(dc.show_domain, seq![Width::Length((22 + extra) as u16)]) + when(
        dc.show_ua,
        seq![Width::Min(20)],
    )
}

fn make_ip_widths(dc: &DisplayConfig) -> (r: Vec<Width>)
    ensures
        r@ == ip_widths(*dc),
{
    let extra: u16 = find_extra_width(dc);
    let mut out: Vec<Width> = Vec::new();
    width_when(&mut out, true, Width::Min(10));
    width_when(&mut out, true, Width::Length(6));
    width_when(&mut out, dc.has_bytes, Width::Length(10));
    width_when(&mut out, dc.has_bytes, Width::Length(6));
    width_when(&mut out, true, Width::Length(40));
    assert(out@ =~= seq![Width::Min(10), Width::Length(6)] + when(
        dc.has_bytes,
        seq![Width::Length(10), Width::Length(6)],
    ) + seq![Width::Length(40)]);
    width_when(&mut out, dc.show_rdns, Width::Length(40 + extra));
    width_when(&mut out, dc.show_org, Width::Length(27 + extra));
    width_when(&mut out, dc.show_country, Width::Length(4));
    width_when(&mut out, dc.show_domain, Width::Length(22 + extra));
    width_when(&mut out, dc.show_ua, Width::Min(20));
    out
}

/// The number of requests, with an hourglass while a lookup is on its way.
pub open spec fn count_said(rec: IpRecord) -> Seq<char> {
    text::decimal(rec.count as nat) + if rec.lookup_in_progress {
        "⏳"@
    } else {
        ""@
    }
}

/// An optional text that is cut to a width; a dash where it is missing.
pub open spec fn cut(t: Option<String>, width: nat) -> CellView {
    CellView::Text(wording::truncated(or_dash(t), width))
}

/// A part of a whole.
pub open spec fn share(part: u64, whole: nat) -> CellView {
    CellView::Share { part: part as nat, whole }
}

/// The row of a record.
pub open spec fn ip_row(
    rec: IpRecord,
    total_lines: nat,
    total_bytes: nat,
    dc: DisplayConfig,
) -> Seq<CellView> {
    let extra = extra_width(dc);
    seq![CellView::Text(count_said(rec)), share(rec.count, total_lines)] + when(
        dc.has_bytes,
        seq![
            CellView::Text(wording::size_text(rec.bytes as nat)),
            share(rec.bytes, total_bytes),
        ],
    ) + seq![CellView::Text(rec.ip@)] + when(
        dc.show_rdns,
        seq![cut(rec.reverse_dns, 38 + extra)],
    ) + when(
        dc.show_org,
        seq![
            CellView::Text(
                wording::truncated(groups::org_of(rec, dc.cloud_detail), 25 + extra),
            ),
        ],
    ) + when(dc.show_country, seq![CellView::Text(or_dash(rec.country))]) + when(
        dc.show_domain,
        seq![cut(rec.company_domain, 20 + extra)],
    ) + when(dc.show_ua, seq![cut(rec.user_agent, 40 + extra)])
}

fn make_ip_row(rec: &IpRecord, total_lines: u64, total_bytes: u64, dc: &DisplayConfig) -> (r: Vec<
    Cell,
>)
    ensures
        cells(r@) == ip_row(*rec, total_lines as nat, total_bytes as nat, *dc),
{
    let extra: usize = find_extra_width(dc) as usize;
    let mut out: Vec<Cell> = Vec::new();
    let mut count = text::decimal_text(rec.count);
    if rec.lookup_in_progress {
        count.append("⏳");
    } else {
        count.append("");
    }
    put(&mut out, count);
    put_share(&mut out, rec.count, total_lines);
    put_when(&mut out, dc.has_bytes, wording::format_bytes(rec.bytes));
    put_share_when(&mut out, dc.has_bytes, rec.bytes, total_bytes);
    put(&mut out, rec.ip.clone());
    assert(cells(out@) =~= seq![
        CellView::Text(count_said(*rec)),
        share(rec.count, total_lines as nat),
    ] + when(
        dc.has_bytes,
        seq![
            CellView::Text(wording::size_text(rec.bytes as nat)),
            share(rec.bytes, total_bytes as nat),
        ],
    ) + seq![CellView::Text(rec.ip@)]);
    put_when(
        &mut out,
        dc.show_rdns,
        wording::truncate_str(text_or_dash(&rec.reverse_dns), 38 + extra),
    );
    let org = groups::org_shown_for(rec, dc.cloud_detail);
    put_when(&mut out, dc.show_org, wording::truncate_str(org.as_str(), 25 + extra));
    put_when(&mut out, dc.show_country, text_or_dash(&rec.country).to_owned());
    put_when(
        &mut out,
        dc.show_domain,
        wording::truncate_str(text_or_dash(&rec.company_domain), 20 + extra),
    );
    put_when(
        &mut out,
        dc.show_ua,
        wording::truncate_str(text_or_dash(&rec.user_agent), 40 + extra),
    );
    out
}

/// This is the table of addresses.
pub open spec fn is_ip_table(
    t: TableView,
    recs: Seq<IpRecord>,
    caption: Caption,
    dc: DisplayConfig,
) -> bool {
    &&& t.title@ == ip_title(
        caption.filter_desc@,
        caption.total_lines as nat,
        caption.pending as nat,
        caption.search@,
        dc,
    )
    &&& header_views(t.header@) == ip_header(dc)
    &&& t.widths@ == ip_widths(dc)
    &&& row_views(t.rows@) == recs.map_values(
        |rec: IpRecord| ip_row(rec, caption.total_lines as nat, sorting::bytes_sum(recs), dc),
    )
}

/// The table of addresses: one row for each record, in their order. There is none if the bytes in
/// sum do not fit.
pub fn ip_view(recs: &Vec<IpRecord>, caption: &Caption, dc: &DisplayConfig) -> (r: Option<
    TableView,
>)
    ensures
        match r {
            Some(t) => sorting::bytes_sum(recs@) <= u64::MAX && is_ip_table(
                t,
                recs@,
                *caption,
                *dc,
            ),
            None => sorting::bytes_sum(recs@) > u64::MAX,
        },
{
    let total: u64 = match sorting::total_bytes(recs) {
        Some(n) => n,
        None => {
            return None;
        },
    };
    let mut rows: Vec<Vec<Cell>> = Vec::new();
    for i in 0..recs.len()
        invariant
            rows@.len() == i,
            forall|j: int|
                0 <= j < i ==> cells((#[trigger] rows@[j])@) == ip_row(
                    recs@[j],
                    caption.total_lines as nat,
                    total as nat,
                    *dc,
                ),
    {
        rows.push(make_ip_row(&recs[i], caption.total_lines, total, dc));
    }
    assert(row_views(rows@) =~= recs@.map_values(
        |rec: IpRecord| ip_row(rec, caption.total_lines as nat, sorting::bytes_sum(recs@), *dc),
    ));
    Some(
        TableView {
            title: make_ip_title(caption, dc),
            header: make_ip_header(dc),
            widths: make_ip_widths(dc),
            rows,
        },
    )
}

/// A table of addresses has as many widths and cells to a row as columns.
pub proof fn law_ip_table_is_rectangular(
    rec: IpRecord,
    total_lines: nat,
    total_bytes: nat,
    dc: DisplayConfig,
)
    ensures
        ip_header(dc).len() == column_count(dc),
        ip_widths(dc).len() == column_count(dc),
        ip_row(rec, total_lines, total_bytes, dc).len() == column_count(dc),
{
}

// ---------------------------------------------------------------------------
// One row for each group
// ---------------------------------------------------------------------------

impl Grouping {
    /// The heading of the column of keys.
    pub open spec fn heading(self) -> Seq<char> {
        match self {
            Grouping::Org => "Org"@,
            Grouping::Asn => "ASN"@,
            Grouping::Cloud => "Cloud Provider"@,
        }
    }

    /// Organisations are shown with their domains.
    pub open spec fn shows_domains(self) -> bool {
        self == Grouping::Org
    }

    /// The heading of the column of keys.
    pub fn label(self) -> (r: &'static str)
        ensures
            r@ == self.heading(),
    {
        match self {
            Grouping::Org => "Org",
            Grouping::Asn => "ASN",
            Grouping::Cloud => "Cloud Provider",
        }
    }
}

/// The columns of a table of groups.
pub open spec fn group_header(grouping: Grouping, dc: DisplayConfig) -> Seq<Seq<char>> {
    seq!["Count"@, "%"@, "IPs"@] + when(dc.has_bytes, seq!["Bandwidth"@, "BW%"@]) + seq![
        grouping.heading(),
    ] + when(grouping.shows_domains(), seq!["Domain"@])
}

/// The widths of the columns of a table of groups.
pub open spec fn group_widths(grouping: Grouping, dc: DisplayConfig) -> Seq<Width> {
    seq![Width::Min(10), Width::Length(6), Width::Length(6)] + when(
        dc.has_bytes,
        seq![Width::Length(10), Width::Length(6)],
    ) + seq![Width::Min(40)] + when(grouping.shows_domains(), seq![Width::Min(20)])
}

/// The row of a group.
pub open spec fn group_row(
    g: groups::GroupView,
    domains: Seq<char>,
    total_lines: nat,
    total_bytes: nat,
    grouping: Grouping,
    dc: DisplayConfig,
) -> Seq<CellView> {
    seq![
        CellView::Text(text::decimal(g.count)),
        CellView::Share { part: g.count, whole: total_lines },
        CellView::Text(text::decimal(g.ips)),
    ] + when(
        dc.has_bytes,
        seq![
            CellView::Text(wording::size_text(g.bytes)),
            CellView::Share { part: g.bytes, whole: total_bytes },
        ],
    ) + seq![CellView::Text(g.key)] + when(
        grouping.shows_domains(),
        seq![CellView::Text(domains)],
    )
}

fn make_group_row(
    g: &Group,
    domains: &str,
    total_lines: u64,
    total_bytes: u64,
    grouping: Grouping,
    dc: &DisplayConfig,
) -> (r: Vec<Cell>)
    ensures
        cells(r@) == group_row(
            g@,
            domains@,
            total_lines as nat,
            total_bytes as nat,
            grouping,
            *dc,
        ),
{
    let mut out: Vec<Cell> = Vec::new();
    put(&mut out, text::decimal_text(g.count));
    put_share(&mut out, g.count, total_lines);
    put(&mut out, text::decimal_text(g.ips as u64));
    put_when(&mut out, dc.has_bytes, wording::format_bytes(g.bytes));
    put_share_when(&mut out, dc.has_bytes, g.bytes, total_bytes);
    put(&mut out, g.key.clone());
    assert(cells(out@) =~= seq![
        CellView::Text(text::decimal(g.count as nat)),
        CellView::Share { part: g.count as nat, whole: total_lines as nat },
        CellView::Text(text::decimal(g.ips as nat)),
    ] + when(
        dc.has_bytes,
        seq![
            CellView::Text(wording::size_text(g.bytes as nat)),
            CellView::Share { part: g.bytes as nat, whole: total_bytes as nat },
        ],
    ) + seq![CellView::Text(g.key@)]);
    let with_domains: bool = match grouping {
        Grouping::Org => true,
        _ => false,
    };
    put_when(&mut out, with_domains, domains.to_owned());
    out
}

/// The groups of a table, in the order in which it shows them.
pub open spec fn groups_shown(
    recs: Seq<IpRecord>,
    grouping: Grouping,
    dc: DisplayConfig,
) -> Seq<groups::GroupView> {
    groups::groups_ordered(
        groups::groups_of(groups::keys_of(recs, grouping, dc.cloud_detail), recs),
        dc.sort_by,
    )
}

/// The rows of a table of groups.
pub open spec fn group_rows(
    recs: Seq<IpRecord>,
    grouping: Grouping,
    total_lines: nat,
    dc: DisplayConfig,
) -> Seq<Seq<CellView>> {
    let keys = groups::keys_of(recs, grouping, dc.cloud_detail);
    groups_shown(recs, grouping, dc).map_values(
        |g: groups::GroupView|
            group_row(
                g,
                groups::domains_text(keys, recs, g.key),
                total_lines,
                sorting::bytes_sum(recs),
                grouping,
                dc,
            ),
    )
}

/// The sums of a table of groups fit.
pub open spec fn group_sums_fit(
    recs: Seq<IpRecord>,
    grouping: Grouping,
    cloud_detail: bool,
) -> bool {
    &&& groups::sums_fit(groups::keys_of(recs, grouping, cloud_detail), recs)
    &&& sorting::bytes_sum(recs) <= u64::MAX
}

fn list_keys(recs: &Vec<IpRecord>, grouping: Grouping, cloud_detail: bool) -> (r: Vec<String>)
    ensures
        groups::key_views(r@) == groups::keys_of(recs@, grouping, cloud_detail),
        r@.len() == recs@.len(),
{
    let mut keys: Vec<String> = Vec::new();
    for i in 0..recs.len()
        invariant
            keys@.len() == i,
            forall|j: int|
                0 <= j < i ==> (#[trigger] keys@[j])@ == groups::key_of(
                    recs@[j],
                    grouping,
                    cloud_detail,
                ),
    {
        keys.push(groups::group_key(&recs[i], grouping, cloud_detail));
    }
    assert(groups::key_views(keys@) =~= groups::keys_of(recs@, grouping, cloud_detail));
    keys
}

/// The groups of records have distinct keys, and keep them when they are brought in order.
proof fn lemma_distinct_groups(
    keys: Seq<Seq<char>>,
    recs: Seq<IpRecord>,
    listed: Seq<Group>,
    by: SortBy,
)
    requires
        groups::group_views(listed) == groups::groups_of(keys, recs),
        listed.len() <= usize::MAX,
    ensures
        groups::distinct_keys(sorting::ordered(listed, by)),
{
    tally::lemma_keys(groups::hits_by(keys, recs));
    assert(groups::group_views(listed).len() == listed.len());
    assert(groups::groups_of(keys, recs).len() == tally::distinct(
        groups::hits_by(keys, recs),
    ).len());
    assert(sorting::distinct_names(listed, by)) by {
        assert forall|i: int, j: int|
            0 <= i < listed.len() && 0 <= j < listed.len() && (
            #[trigger] listed[i]).rank(by).1 == (#[trigger] listed[j]).rank(by).1 implies i == j by {
            assert(groups::groups_of(keys, recs)[i] == listed[i]@);
            assert(groups::groups_of(keys, recs)[j] == listed[j]@);
            assert(groups::groups_of(keys, recs)[i].key == tally::distinct(
                groups::hits_by(keys, recs),
            )[i]);
        }
    }
    sorting::law_ordered(listed, by);
    let shown = sorting::ordered(listed, by);
    assert forall|i: int, j: int|
        0 <= i < shown.len() && 0 <= j < shown.len() && (#[trigger] shown[i]).key@ == (
        #[trigger] shown[j]).key@ implies i == j by {
        assert(shown[i].rank(by).1 == shown[j].rank(by).1);
    }
}

/// This is the table of groups.
pub open spec fn is_group_table(
    t: TableView,
    recs: Seq<IpRecord>,
    grouping: Grouping,
    caption: Caption,
    dc: DisplayConfig,
) -> bool {
    &&& t.title@ == group_title(
        caption.filter_desc@,
        grouping.heading(),
        caption.total_lines as nat,
        caption.pending as nat,
        caption.search@,
        dc,
    )
    &&& header_views(t.header@) == group_header(grouping, dc)
    &&& t.widths@ == group_widths(grouping, dc)
    &&& row_views(t.rows@) == group_rows(recs, grouping, caption.total_lines as nat, dc)
}

/// The table of groups: one row for each group, the most hits or bytes first. There is none if a
/// sum does not fit.
pub fn group_view(
    recs: &Vec<IpRecord>,
    grouping: Grouping,
    caption: &Caption,
    dc: &DisplayConfig,
) -> (r: Option<TableView>)
    ensures
        match r {
            Some(t) => group_sums_fit(recs@, grouping, dc.cloud_detail) && is_group_table(
                t,
                recs@,
                grouping,
                *caption,
                *dc,
            ),
            None => !group_sums_fit(recs@, grouping, dc.cloud_detail),
        },
{
    let total: u64 = match sorting::total_bytes(recs) {
        Some(n) => n,
        None => {
            return None;
        },
    };
    let keys = list_keys(recs, grouping, dc.cloud_detail);
    let ghost names = groups::key_views(keys@);
    let listed = match groups::group_by_keys(recs, &keys) {
        Some(gs) => gs,
        None => {
            return None;
        },
    };
    let shown = groups::sort_groups(&listed, dc.sort_by);
    proof {
        assert(listed@.len() == listed.len());
        lemma_distinct_groups(names, recs@, listed@, dc.sort_by);
    }
    let domains = groups::group_domains(recs, &keys, &shown);
    let mut rows: Vec<Vec<Cell>> = Vec::new();
    for i in 0..shown.len()
        invariant
            domains@.len() == shown@.len(),
            names == groups::key_views(keys@),
            forall|j: int|
                0 <= j < domains@.len() ==> (#[trigger] domains@[j])@ == groups::domains_text(
                    names,
                    recs@,
                    shown@[j].key@,
                ),
            rows@.len() == i,
            forall|j: int|
                0 <= j < i ==> cells((#[trigger] rows@[j])@) == group_row(
                    shown@[j]@,
                    groups::domains_text(names, recs@, shown@[j].key@),
                    caption.total_lines as nat,
                    total as nat,
                    grouping,
                    *dc,
                ),
    {
        rows.push(
            make_group_row(
                &shown[i],
                domains[i].as_str(),
                caption.total_lines,
                total,
                grouping,
                dc,
            ),
        );
    }
    proof {
        let views = groups::group_views(shown@);
        assert(views == groups_shown(recs@, grouping, *dc));
        assert(row_views(rows@) =~= group_rows(
            recs@,
            grouping,
            caption.total_lines as nat,
            *dc,
        )) by {
            assert forall|j: int| 0 <= j < rows@.len() implies row_views(rows@)[j] == group_rows(
                recs@,
                grouping,
                caption.total_lines as nat,
                *dc,
            )[j] by {
                assert(views[j] == shown@[j]@);
            }
        }
    }
    let with_domains: bool = match grouping {
        Grouping::Org => true,
        _ => false,
    };
    let mut header: Vec<&'static str> = Vec::new();
    name_when(&mut header, true, "Count");
    name_when(&mut header, true, "%");
    name_when(&mut header, true, "IPs");
    name_when(&mut header, dc.has_bytes, "Bandwidth");
    name_when(&mut header, dc.has_bytes, "BW%");
    name_when(&mut header, true, grouping.label());
    name_when(&mut header, with_domains, "Domain");
    assert(header_views(header@) =~= group_header(grouping, *dc));
    let mut widths: Vec<Width> = Vec::new();
    width_when(&mut widths, true, Width::Min(10));
    width_when(&mut widths, true, Width::Length(6));
    width_when(&mut widths, true, Width::Length(6));
    width_when(&mut widths, dc.has_bytes, Width::Length(10));
    width_when(&mut widths, dc.has_bytes, Width::Length(6));
    width_when(&mut widths, true, Width::Min(40));
    width_when(&mut widths, with_domains, Width::Min(20));
    assert(widths@ =~= group_widths(grouping, *dc));
    Some(
        TableView {
            title: make_group_title(caption, grouping.label(), dc),
            header,
            widths,
            rows,
        },
    )
}

// ---------------------------------------------------------------------------
// One row for each user agent
// ---------------------------------------------------------------------------

impl Ranked for TallyRow {
    open spec fn rank(&self, by: SortBy) -> Rank {
        match by {
            SortBy::Hits => (self.count, self.name@),
            SortBy::Bandwidth => (self.bytes, self.name@),
        }
    }

    fn weight(&self, by: SortBy) -> (r: u64) {
        match by {
            SortBy::Hits => self.count,
            SortBy::Bandwidth => self.bytes,
        }
    }

    fn name(&self) -> (r: &str) {
        self.name.as_str()
    }
}

/// The row of a user agent.
pub open spec fn agent_row(
    row: TallyRow,
    total_lines: nat,
    total_bytes: nat,
    dc: DisplayConfig,
) -> Seq<CellView> {
    seq![
        CellView::Text(text::decimal(row.count as nat)),
        share(row.count, total_lines),
    ] + when(
        dc.has_bytes,
        seq![
            CellView::Text(wording::size_text(row.bytes as nat)),
            share(row.bytes, total_bytes),
        ],
    ) + seq![CellView::Text(row.name@)]
}

fn make_agent_row(
    row: &TallyRow,
    total_lines: u64,
    total_bytes: u64,
    dc: &DisplayConfig,
) -> (r: Vec<Cell>)
    ensures
        cells(r@) == agent_row(*row, total_lines as nat, total_bytes as nat, *dc),
{
    let mut out: Vec<Cell> = Vec::new();
    put(&mut out, text::decimal_text(row.count));
    put_share(&mut out, row.count, total_lines);
    put_when(&mut out, dc.has_bytes, wording::format_bytes(row.bytes));
    put_share_when(&mut out, dc.has_bytes, row.bytes, total_bytes);
    put(&mut out, row.name.clone());
    assert(cells(out@) =~= agent_row(*row, total_lines as nat, total_bytes as nat, *dc));
    out
}

/// The columns of the table of user agents.
pub open spec fn agent_header(dc: DisplayConfig) -> Seq<Seq<char>> {
    seq!["Count"@, "%"@] + when(dc.has_bytes, seq!["Bandwidth"@, "BW%"@]) + seq!["User Agent"@]
}

/// The widths of the columns of the table of user agents.
pub open spec fn agent_widths(dc: DisplayConfig) -> Seq<Width> {
    seq![Width::Min(10), Width::Length(6)] + when(
        dc.has_bytes,
        seq![Width::Length(10), Width::Length(6)],
    ) + seq![Width::Min(40)]
}

/// This is the table of user agents.
pub open spec fn is_agent_table(
    t: TableView,
    agents: Seq<TallyRow>,
    caption: Caption,
    dc: DisplayConfig,
) -> bool {
    &&& t.title@ == agent_title(
        caption.filter_desc@,
        caption.total_lines as nat,
        caption.pending as nat,
        caption.search@,
        dc,
    )
    &&& header_views(t.header@) == agent_header(dc)
    &&& t.widths@ == agent_widths(dc)
    &&& row_views(t.rows@) == sorting::ordered(agents, dc.sort_by).map_values(
        |row: TallyRow|
            agent_row(row, caption.total_lines as nat, sorting::bytes_sum(agents), dc),
    )
}

/// The table of user agents: one row for each, the most hits or bytes first. There is none if the
/// bytes in sum do not fit.
pub fn agent_view(agents: &Vec<TallyRow>, caption: &Caption, dc: &DisplayConfig) -> (r: Option<
    TableView,
>)
    ensures
        match r {
            Some(t) => sorting::bytes_sum(agents@) <= u64::MAX && is_agent_table(
                t,
                agents@,
                *caption,
                *dc,
            ),
            None => sorting::bytes_sum(agents@) > u64::MAX,
        },
{
    let total: u64 = match sorting::total_bytes(agents) {
        Some(n) => n,
        None => {
            return None;
        },
    };
    let order = sorting::order_of(agents, dc.sort_by);
    let ghost shown = sorting::ordered(agents@, dc.sort_by);
    let mut rows: Vec<Vec<Cell>> = Vec::new();
    for i in 0..order.len()
        invariant
            order@.len() == agents@.len(),
            forall|j: int| 0 <= j < order@.len() ==> (#[trigger] order@[j]) < agents@.len(),
            forall|j: int|
                0 <= j < order@.len() ==> agents@[#[trigger] order@[j] as int] == shown[j],
            rows@.len() == i,
            forall|j: int|
                0 <= j < i ==> cells((#[trigger] rows@[j])@) == agent_row(
                    shown[j],
                    caption.total_lines as nat,
                    total as nat,
                    *dc,
                ),
    {
        rows.push(make_agent_row(&agents[order[i]], caption.total_lines, total, dc));
    }
    assert(row_views(rows@) =~= shown.map_values(
        |row: TallyRow| agent_row(row, caption.total_lines as nat, sorting::bytes_sum(agents@), *dc),
    ));
    let mut header: Vec<&'static str> = Vec::new();
    name_when(&mut header, true, "Count");
    name_when(&mut header, true, "%");
    name_when(&mut header, dc.has_bytes, "Bandwidth");
    name_when(&mut header, dc.has_bytes, "BW%");
    name_when(&mut header, true, "User Agent");
    assert(header_views(header@) =~= agent_header(*dc));
    let mut widths: Vec<Width> = Vec::new();
    width_when(&mut widths, true, Width::Min(10));
    width_when(&mut widths, true, Width::Length(6));
    width_when(&mut widths, dc.has_bytes, Width::Length(10));
    width_when(&mut widths, dc.has_bytes, Width::Length(6));
    width_when(&mut widths, true, Width::Min(40));
    assert(widths@ =~= agent_widths(*dc));
    Some(TableView { title: make_agent_title(caption, dc), header, widths, rows })
}

/// The tables of groups and of user agents have as many widths and cells to a row as columns.
pub proof fn law_grouped_tables_are_rectangular(
    g: groups::GroupView,
    domains: Seq<char>,
    agent: TallyRow,
    total_lines: nat,
    total_bytes: nat,
    grouping: Grouping,
    dc: DisplayConfig,
)
    ensures
        group_widths(grouping, dc).len() == group_header(grouping, dc).len(),
        group_row(g, domains, total_lines, total_bytes, grouping, dc).len() == group_header(
            grouping,
            dc,
        ).len(),
        agent_widths(dc).len() == agent_header(dc).len(),
        agent_row(agent, total_lines, total_bytes, dc).len() == agent_header(dc).len(),
{
}

// ---------------------------------------------------------------------------
// Laws of the columns
// ---------------------------------------------------------------------------

/// Each cell of a record's row stands under its own heading, whichever columns are shown. The wide
/// columns, and what stands in them, have the same share in the room that is left.
#[verifier::rlimit(60)]
pub proof fn law_each_cell_of_an_address_stands_under_its_heading(
    rec: IpRecord,
    total_lines: nat,
    total_bytes: nat,
    dc: DisplayConfig,
    i: int,
)
    requires
        0 <= i < ip_header(dc).len(),
    ensures
        ({
            let header = ip_header(dc);
            let widths = ip_widths(dc);
            let row = ip_row(rec, total_lines, total_bytes, dc);
            let extra = extra_width(dc);
            &&& header[i] == "Count"@ && rec.lookup_in_progress ==> row[i] == CellView::Text(
                text::decimal(rec.count as nat) + "⏳"@,
            )
            &&& header[i] == "Count"@ && !rec.lookup_in_progress ==> row[i] == CellView::Text(
                text::decimal(rec.count as nat),
            )
            &&& header[i] == "%"@ ==> row[i] == (CellView::Share {
                part: rec.count as nat,
                whole: total_lines,
            })
            &&& header[i] == "Bandwidth"@ ==> row[i] == CellView::Text(
                wording::size_text(rec.bytes as nat),
            )
            &&& header[i] == "BW%"@ ==> row[i] == (CellView::Share {
                part: rec.bytes as nat,
                whole: total_bytes,
            })
            &&& header[i] == "IP"@ ==> row[i] == CellView::Text(rec.ip@)
            &&& header[i] == "Reverse DNS"@ && rec.reverse_dns is Some ==> row[i] == CellView::Text(
                wording::truncated(rec.reverse_dns->0@, 38 + extra),
            )
            &&& header[i] == "Reverse DNS"@ && rec.reverse_dns is None ==> row[i] == CellView::Text(
                wording::truncated("-"@, 38 + extra),
            )
            &&& header[i] == "Org"@ ==> row[i] == CellView::Text(
                wording::truncated(groups::org_of(rec, dc.cloud_detail), 25 + extra),
            )
            &&& header[i] == "CC"@ && rec.country is Some ==> row[i] == CellView::Text(
                rec.country->0@,
            )
            &&& header[i] == "CC"@ && rec.country is None ==> row[i] == CellView::Text(
                "-"@,
            )
            &&& header[i] == "Domain"@ && rec.company_domain is Some ==> row[i] == CellView::Text(
                wording::truncated(rec.company_domain->0@, 20 + extra),
            )
            &&& header[i] == "Domain"@ && rec.company_domain is None ==> row[i] == CellView::Text(
                wording::truncated("-"@, 20 + extra),
            )
            &&& header[i] == "User Agent"@ && rec.user_agent is Some ==> row[i] == CellView::Text(
                wording::truncated(rec.user_agent->0@, 40 + extra),
            )
            &&& header[i] == "User Agent"@ && rec.user_agent is None ==> row[i] == CellView::Text(
                wording::truncated("-"@, 40 + extra),
            )
            &&& header[i] == "Count"@ ==> widths[i] == Width::Min(10)
            &&& header[i] == "%"@ ==> widths[i] == Width::Length(6)
            &&& header[i] == "Bandwidth"@ ==> widths[i] == Width::Length(10)
            &&& header[i] == "BW%"@ ==> widths[i] == Width::Length(6)
            &&& header[i] == "IP"@ ==> widths[i] == Width::Length(40)
            &&& header[i] == "Reverse DNS"@ ==> widths[i] == Width::Length((40 + extra) as u16)
            &&& header[i] == "Org"@ ==> widths[i] == Width::Length((27 + extra) as u16)
            &&& header[i] == "CC"@ ==> widths[i] == Width::Length(4)
            &&& header[i] == "Domain"@ ==> widths[i] == Width::Length((22 + extra) as u16)
            &&& header[i] == "User Agent"@ ==> widths[i] == Width::Min(20)
        }),
{
    lemma_headings_differ();
    reveal_strlit("");
    assert(text::decimal(rec.count as nat) + ""@ =~= text::decimal(rec.count as nat));
    law_where_each_column_stands(dc, i);
    lemma_address_cells(rec, total_lines, total_bytes, dc, i);
}

/// A column of the table of addresses is there exactly if it is switched on; no heading stands there
/// twice.
#[verifier::rlimit(60)]
pub proof fn law_columns_are_there_if_they_are_shown(dc: DisplayConfig)
    ensures
        ({
            let header = ip_header(dc);
            &&& header.contains("Count"@)
            &&& header.contains("%"@)
            &&& header.contains("IP"@)
            &&& header.contains("Bandwidth"@) <==> dc.has_bytes
            &&& header.contains("BW%"@) <==> dc.has_bytes
            &&& header.contains("Reverse DNS"@) <==> dc.show_rdns
            &&& header.contains("Org"@) <==> dc.show_org
            &&& header.contains("CC"@) <==> dc.show_country
            &&& header.contains("Domain"@) <==> dc.show_domain
            &&& header.contains("User Agent"@) <==> dc.show_ua
        }),
{
    lemma_headings_differ();
    let header = ip_header(dc);
    let a = 2 + 2 * one(dc.has_bytes);
    let b = a + 1 + one(dc.show_rdns);
    let c = b + one(dc.show_org);
    let d = c + one(dc.show_country);
    let e = d + one(dc.show_domain);
    law_where_each_column_stands(dc, 0);
    law_where_each_column_stands(dc, 1);
    law_where_each_column_stands(dc, 2);
    law_where_each_column_stands(dc, 3);
    law_where_each_column_stands(dc, a as int);
    law_where_each_column_stands(dc, (a + 1) as int);
    law_where_each_column_stands(dc, b as int);
    law_where_each_column_stands(dc, c as int);
    law_where_each_column_stands(dc, d as int);
    law_where_each_column_stands(dc, e as int);
    assert forall|i: int| 0 <= i < header.len() implies (#[trigger] header[i] == "Bandwidth"@
        ==> dc.has_bytes) && (header[i] == "BW%"@ ==> dc.has_bytes) && (header[i]
        == "Reverse DNS"@ ==> dc.show_rdns) && (header[i] == "Org"@ ==> dc.show_org) && (header[i]
        == "CC"@ ==> dc.show_country) && (header[i] == "Domain"@ ==> dc.show_domain) && (header[i]
        == "User Agent"@ ==> dc.show_ua) by {
        law_where_each_column_stands(dc, i);
    }
    assert(header.len() == column_count(dc));
}

/// The fewer columns there are, the wider the wide ones.
pub proof fn law_few_columns_are_wider(dc: DisplayConfig)
    ensures
        ip_header(dc).len() <= 4 ==> extra_width(dc) == 60,
        ip_header(dc).len() == 5 ==> extra_width(dc) == 30,
        ip_header(dc).len() == 6 ==> extra_width(dc) == 15,
        ip_header(dc).len() >= 7 ==> extra_width(dc) == 0,
{
}

/// Each cell of a group's row stands under its own heading; the last column but the domains holds
/// the keys, under the heading of the grouping, and only organisations have a column of domains.
#[verifier::rlimit(30)]
pub proof fn law_each_cell_of_a_group_stands_under_its_heading(
    g: groups::GroupView,
    domains: Seq<char>,
    total_lines: nat,
    total_bytes: nat,
    grouping: Grouping,
    dc: DisplayConfig,
    i: int,
)
    requires
        0 <= i < group_header(grouping, dc).len(),
    ensures
        ({
            let header = group_header(grouping, dc);
            let widths = group_widths(grouping, dc);
            let row = group_row(g, domains, total_lines, total_bytes, grouping, dc);
            let key = match grouping {
                Grouping::Org => "Org"@,
                Grouping::Asn => "ASN"@,
                Grouping::Cloud => "Cloud Provider"@,
            };
            &&& header[i] == "Count"@ ==> row[i] == CellView::Text(text::decimal(g.count))
            &&& header[i] == "IPs"@ ==> row[i] == CellView::Text(text::decimal(g.ips))
            &&& header[i] == "%"@ ==> row[i] == (CellView::Share {
                part: g.count as nat,
                whole: total_lines,
            })
            &&& header[i] == "Bandwidth"@ ==> row[i] == CellView::Text(
                wording::size_text(g.bytes as nat),
            )
            &&& header[i] == "BW%"@ ==> row[i] == (CellView::Share {
                part: g.bytes as nat,
                whole: total_bytes,
            })
            &&& header[i] == key ==> row[i] == CellView::Text(g.key)
            &&& header[i] == "Domain"@ ==> row[i] == CellView::Text(domains)
            &&& header[i] == "Count"@ ==> widths[i] == Width::Min(10)
            &&& header[i] == "%"@ ==> widths[i] == Width::Length(6)
            &&& header[i] == "IPs"@ ==> widths[i] == Width::Length(6)
            &&& header[i] == "Bandwidth"@ ==> widths[i] == Width::Length(10)
            &&& header[i] == "BW%"@ ==> widths[i] == Width::Length(6)
            &&& header[i] == "Domain"@ ==> widths[i] == Width::Min(20)
            &&& header[i] == key ==> widths[i] == Width::Min(40)
            &&& header.len() == 4 + (if dc.has_bytes {
                2int
            } else {
                0int
            }) + (if grouping == Grouping::Org {
                1int
            } else {
                0int
            })
            &&& header.contains(key)
            &&& grouping == Grouping::Org ==> header.last() == "Domain"@
            &&& grouping != Grouping::Org ==> header.last() == key
        }),
{
    lemma_headings_differ();
    let n = if dc.has_bytes {
        5int
    } else {
        3int
    };
    assert(group_header(grouping, dc)[n] == grouping.heading());
}

/// Each cell of a user agent's row stands under its own heading.
pub proof fn law_each_cell_of_an_agent_stands_under_its_heading(
    row_of: TallyRow,
    total_lines: nat,
    total_bytes: nat,
    dc: DisplayConfig,
    i: int,
)
    requires
        0 <= i < agent_header(dc).len(),
    ensures
        ({
            let header = agent_header(dc);
            let widths = agent_widths(dc);
            let row = agent_row(row_of, total_lines, total_bytes, dc);
            &&& header[i] == "Count"@ ==> row[i] == CellView::Text(
                text::decimal(row_of.count as nat),
            )
            &&& header[i] == "%"@ ==> row[i] == (CellView::Share {
                part: row_of.count as nat,
                whole: total_lines,
            })
            &&& header[i] == "Bandwidth"@ ==> row[i] == CellView::Text(
                wording::size_text(row_of.bytes as nat),
            )
            &&& header[i] == "BW%"@ ==> row[i] == (CellView::Share {
                part: row_of.bytes as nat,
                whole: total_bytes,
            })
            &&& header[i] == "User Agent"@ ==> row[i] == CellView::Text(row_of.name@)
            &&& header[i] == "Count"@ ==> widths[i] == Width::Min(10)
            &&& header[i] == "%"@ ==> widths[i] == Width::Length(6)
            &&& header[i] == "Bandwidth"@ ==> widths[i] == Width::Length(10)
            &&& header[i] == "BW%"@ ==> widths[i] == Width::Length(6)
            &&& header[i] == "User Agent"@ ==> widths[i] == Width::Min(40)
            &&& header.len() == if dc.has_bytes {
                5int
            } else {
                3int
            }
            &&& header.last() == "User Agent"@
        }),
{
    lemma_headings_differ();
}

/// No heading is another one.
pub proof fn lemma_headings_differ()
    ensures
        "Count"@ != "%"@,
        "Count"@ != "Bandwidth"@,
        "Count"@ != "BW%"@,
        "Count"@ != "IP"@,
        "Count"@ != "Reverse DNS"@,
        "Count"@ != "Org"@,
        "Count"@ != "ASN"@,
        "Count"@ != "CC"@,
        "Count"@ != "Domain"@,
        "Count"@ != "User Agent"@,
        "Count"@ != "IPs"@,
        "Count"@ != "Cloud Provider"@,
        "%"@ != "Bandwidth"@,
        "%"@ != "BW%"@,
        "%"@ != "IP"@,
        "%"@ != "Reverse DNS"@,
        "%"@ != "Org"@,
        "%"@ != "ASN"@,
        "%"@ != "CC"@,
        "%"@ != "Domain"@,
        "%"@ != "User Agent"@,
        "%"@ != "IPs"@,
        "%"@ != "Cloud Provider"@,
        "Bandwidth"@ != "BW%"@,
        "Bandwidth"@ != "IP"@,
        "Bandwidth"@ != "Reverse DNS"@,
        "Bandwidth"@ != "Org"@,
        "Bandwidth"@ != "ASN"@,
        "Bandwidth"@ != "CC"@,
        "Bandwidth"@ != "Domain"@,
        "Bandwidth"@ != "User Agent"@,
        "Bandwidth"@ != "IPs"@,
        "Bandwidth"@ != "Cloud Provider"@,
        "BW%"@ != "IP"@,
        "BW%"@ != "Reverse DNS"@,
        "BW%"@ != "Org"@,
        "BW%"@ != "ASN"@,
        "BW%"@ != "CC"@,
        "BW%"@ != "Domain"@,
        "BW%"@ != "User Agent"@,
        "BW%"@ != "IPs"@,
        "BW%"@ != "Cloud Provider"@,
        "IP"@ != "Reverse DNS"@,
        "IP"@ != "Org"@,
        "IP"@ != "ASN"@,
        "IP"@ != "CC"@,
        "IP"@ != "Domain"@,
        "IP"@ != "User Agent"@,
        "IP"@ != "IPs"@,
        "IP"@ != "Cloud Provider"@,
        "Reverse DNS"@ != "Org"@,
        "Reverse DNS"@ != "ASN"@,
        "Reverse DNS"@ != "CC"@,
        "Reverse DNS"@ != "Domain"@,
        "Reverse DNS"@ != "User Agent"@,
        "Reverse DNS"@ != "IPs"@,
        "Reverse DNS"@ != "Cloud Provider"@,
        "Org"@ != "ASN"@,
        "Org"@ != "CC"@,
        "Org"@ != "Domain"@,
        "Org"@ != "User Agent"@,
        "Org"@ != "IPs"@,
        "Org"@ != "Cloud Provider"@,
        "ASN"@ != "CC"@,
        "ASN"@ != "Domain"@,
        "ASN"@ != "User Agent"@,
        "ASN"@ != "IPs"@,
        "ASN"@ != "Cloud Provider"@,
        "CC"@ != "Domain"@,
        "CC"@ != "User Agent"@,
        "CC"@ != "IPs"@,
        "CC"@ != "Cloud Provider"@,
        "Domain"@ != "User Agent"@,
        "Domain"@ != "IPs"@,
        "Domain"@ != "Cloud Provider"@,
        "User Agent"@ != "IPs"@,
        "User Agent"@ != "Cloud Provider"@,
        "IPs"@ != "Cloud Provider"@,
{
    reveal_strlit("Count");
    reveal_strlit("%");
    reveal_strlit("Bandwidth");
    reveal_strlit("BW%");
    reveal_strlit("IP");
    reveal_strlit("Reverse DNS");
    reveal_strlit("Org");
    reveal_strlit("ASN");
    reveal_strlit("CC");
    reveal_strlit("Domain");
    reveal_strlit("User Agent");
    reveal_strlit("IPs");
    reveal_strlit("Cloud Provider");
    assert("Count"@.len() == 5);
    assert("%"@.len() == 1);
    assert("Bandwidth"@.len() == 9);
    assert("BW%"@.len() == 3);
    assert("IP"@.len() == 2);
    assert("Reverse DNS"@.len() == 11);
    assert("Org"@.len() == 3);
    assert("ASN"@.len() == 3);
    assert("CC"@.len() == 2);
    assert("Domain"@.len() == 6);
    assert("User Agent"@.len() == 10);
    assert("IPs"@.len() == 3);
    assert("Cloud Provider"@.len() == 14);
    assert("Count"@[0] == 'C');
    assert("%"@[0] == '%');
    assert("Bandwidth"@[0] == 'B');
    assert("BW%"@[0] == 'B');
    assert("IP"@[0] == 'I');
    assert("Reverse DNS"@[0] == 'R');
    assert("Org"@[0] == 'O');
    assert("ASN"@[0] == 'A');
    assert("CC"@[0] == 'C');
    assert("Domain"@[0] == 'D');
    assert("User Agent"@[0] == 'U');
    assert("IPs"@[0] == 'I');
    assert("Cloud Provider"@[0] == 'C');
}

/// One value or none behind others.
proof fn lemma_one_behind<T>(s: Seq<T>, b: bool, t: T, i: int)
    ensures
        ({
            let r = s + when(b, seq![t]);
            &&& r.len() == s.len() + one(b)
            &&& 0 <= i < s.len() ==> r[i] == s[i]
            &&& b && i == s.len() ==> r[i] == t
        }),
{
}

/// The values of the columns that are shown.
spec fn laid_out<T>(
    t0: T,
    t1: T,
    t2: T,
    t3: T,
    t4: T,
    t5: T,
    t6: T,
    t7: T,
    t8: T,
    t9: T,
    dc: DisplayConfig,
) -> Seq<T> {
    seq![t0, t1] + when(dc.has_bytes, seq![t2, t3]) + seq![t4] + when(dc.show_rdns, seq![t5]) + when(
        dc.show_org,
        seq![t6],
    ) + when(dc.show_country, seq![t7]) + when(dc.show_domain, seq![t8]) + when(
        dc.show_ua,
        seq![t9],
    )
}

/// Where each of the columns that are shown stands.
proof fn lemma_laid_out<T>(
    t0: T,
    t1: T,
    t2: T,
    t3: T,
    t4: T,
    t5: T,
    t6: T,
    t7: T,
    t8: T,
    t9: T,
    dc: DisplayConfig,
    i: int,
)
    ensures
        laid_out(t0, t1, t2, t3, t4, t5, t6, t7, t8, t9, dc).len() == column_count(dc),
        0 <= i < column_count(dc) ==> {
            let a = 2 + 2 * one(dc.has_bytes);
            let b = a + 1 + one(dc.show_rdns);
            let c = b + one(dc.show_org);
            let d = c + one(dc.show_country);
            let e = d + one(dc.show_domain);
            let v = laid_out(t0, t1, t2, t3, t4, t5, t6, t7, t8, t9, dc)[i];
            &&& i == 0 ==> v == t0
            &&& i == 1 ==> v == t1
            &&& dc.has_bytes && i == 2 ==> v == t2
            &&& dc.has_bytes && i == 3 ==> v == t3
            &&& i == a ==> v == t4
            &&& dc.show_rdns && i == a + 1 ==> v == t5
            &&& dc.show_org && i == b ==> v == t6
            &&& dc.show_country && i == c ==> v == t7
            &&& dc.show_domain && i == d ==> v == t8
            &&& dc.show_ua && i == e ==> v == t9
        },
{
    let s = seq![t0, t1] + when(dc.has_bytes, seq![t2, t3]) + seq![t4];
    let s5 = s + when(dc.show_rdns, seq![t5]);
    let s6 = s5 + when(dc.show_org, seq![t6]);
    let s7 = s6 + when(dc.show_country, seq![t7]);
    let s8 = s7 + when(dc.show_domain, seq![t8]);
    lemma_one_behind(s, dc.show_rdns, t5, i);
    lemma_one_behind(s5, dc.show_org, t6, i);
    lemma_one_behind(s6, dc.show_country, t7, i);
    lemma_one_behind(s7, dc.show_domain, t8, i);
    lemma_one_behind(s8, dc.show_ua, t9, i);
}

/// Where each column of the table of addresses stands, and how wide it is.
pub proof fn law_where_each_column_stands(dc: DisplayConfig, i: int)
    ensures
        ip_header(dc).len() == column_count(dc),
        0 <= i < ip_header(dc).len() ==> {
            let extra = extra_width(dc);
            let a = 2 + 2 * one(dc.has_bytes);
            let b = a + 1 + one(dc.show_rdns);
            let c = b + one(dc.show_org);
            let d = c + one(dc.show_country);
            let e = d + one(dc.show_domain);
            let h = ip_header(dc)[i];
            let w = ip_widths(dc)[i];
            &&& i == 0 ==> h == "Count"@ && w == Width::Min(10)
            &&& i == 1 ==> h == "%"@ && w == Width::Length(6)
            &&& dc.has_bytes && i == 2 ==> h == "Bandwidth"@ && w == Width::Length(10)
            &&& dc.has_bytes && i == 3 ==> h == "BW%"@ && w == Width::Length(6)
            &&& i == a ==> h == "IP"@ && w == Width::Length(40)
            &&& dc.show_rdns && i == a + 1
                ==> h == "Reverse DNS"@ && w == Width::Length((40 + extra) as u16)
            &&& dc.show_org && i == b ==> h == "Org"@ && w == Width::Length((27 + extra) as u16)
            &&& dc.show_country && i == c ==> h == "CC"@ && w == Width::Length(4)
            &&& dc.show_domain && i == d ==> h == "Domain"@ && w == Width::Length((22 + extra) as u16)
            &&& dc.show_ua && i == e ==> h == "User Agent"@ && w == Width::Min(20)
            &&& i == 0 || i == 1 || (dc.has_bytes && i == 2) || (dc.has_bytes && i == 3) || i == a
                || (dc.show_rdns && i == a + 1) || (dc.show_org && i == b)
                || (dc.show_country && i == c) || (dc.show_domain && i == d)
                || (dc.show_ua && i == e)
        },
{
    let extra = extra_width(dc);
    lemma_laid_out(
        "Count"@,
        "%"@,
        "Bandwidth"@,
        "BW%"@,
        "IP"@,
        "Reverse DNS"@,
        "Org"@,
        "CC"@,
        "Domain"@,
        "User Agent"@,
        dc,
        i,
    );
    lemma_laid_out(
        Width::Min(10),
        Width::Length(6),
        Width::Length(10),
        Width::Length(6),
        Width::Length(40),
        Width::Length((40 + extra) as u16),
        Width::Length((27 + extra) as u16),
        Width::Length(4),
        Width::Length((22 + extra) as u16),
        Width::Min(20),
        dc,
        i,
    );
}

/// Where each cell of a row of the table of addresses stands.
proof fn lemma_address_cells(
    rec: IpRecord,
    total_lines: nat,
    total_bytes: nat,
    dc: DisplayConfig,
    i: int,
)
    ensures
        0 <= i < column_count(dc) ==> {
            let extra = extra_width(dc);
            let a = 2 + 2 * one(dc.has_bytes);
            let b = a + 1 + one(dc.show_rdns);
            let c = b + one(dc.show_org);
            let d = c + one(dc.show_country);
            let e = d + one(dc.show_domain);
            let cell = ip_row(rec, total_lines, total_bytes, dc)[i];
            &&& i == 0 ==> cell == CellView::Text(count_said(rec))
            &&& i == 1 ==> cell == share(rec.count, total_lines)
            &&& dc.has_bytes && i == 2 ==> cell == CellView::Text(wording::size_text(rec.bytes as nat))
            &&& dc.has_bytes && i == 3 ==> cell == share(rec.bytes, total_bytes)
            &&& i == a ==> cell == CellView::Text(rec.ip@)
            &&& dc.show_rdns && i == a + 1 ==> cell == cut(rec.reverse_dns, 38 + extra)
            &&& dc.show_org && i == b ==> cell == CellView::Text(
                wording::truncated(groups::org_of(rec, dc.cloud_detail), 25 + extra),
            )
            &&& dc.show_country && i == c ==> cell == CellView::Text(or_dash(rec.country))
            &&& dc.show_domain && i == d ==> cell == cut(rec.company_domain, 20 + extra)
            &&& dc.show_ua && i == e ==> cell == cut(rec.user_agent, 40 + extra)
        },
{
    let extra = extra_width(dc);
    lemma_laid_out(
        CellView::Text(count_said(rec)),
        share(rec.count, total_lines),
        CellView::Text(wording::size_text(rec.bytes as nat)),
        share(rec.bytes, total_bytes),
        CellView::Text(rec.ip@),
        cut(rec.reverse_dns, 38 + extra),
        CellView::Text(wording::truncated(groups::org_of(rec, dc.cloud_detail), 25 + extra)),
        CellView::Text(or_dash(rec.country)),
        cut(rec.company_domain, 20 + extra),
        cut(rec.user_agent, 40 + extra),
        dc,
        i,
    );
}

/// User agents with more hits come first in the order of hits, and those with more bytes in the order of
/// bytes; equal ones are ordered by text.
pub proof fn law_agents_are_ordered(rows: Seq<TallyRow>, i: int, j: int)
    requires
        rows.len() <= usize::MAX,
        0 <= i < j < rows.len(),
    ensures
        ({
            let s = sorting::ordered(rows, SortBy::Hits);
            s[i].count > s[j].count
                || (s[i].count == s[j].count && text::lex_le(s[i].name@, s[j].name@))
        }),
        ({
            let s = sorting::ordered(rows, SortBy::Bandwidth);
            s[i].bytes > s[j].bytes
                || (s[i].bytes == s[j].bytes && text::lex_le(s[i].name@, s[j].name@))
        }),
{
    sorting::law_ordered(rows, SortBy::Hits);
    sorting::law_ordered(rows, SortBy::Bandwidth);
    let h = sorting::ordered(rows, SortBy::Hits);
    let b = sorting::ordered(rows, SortBy::Bandwidth);
    assert(ranking::rank_le(h[i].rank(SortBy::Hits), h[j].rank(SortBy::Hits)));
    assert(ranking::rank_le(b[i].rank(SortBy::Bandwidth), b[j].rank(SortBy::Bandwidth)));
}

// ---------------------------------------------------------------------------
// Laws of the titles and of whole tables
// ---------------------------------------------------------------------------

/// The title of the table of addresses says, in this order, how the report was cut down, how many
/// lines were read, what is pending, which columns are on, the grouping, the order where bytes are
/// known, and the search.
pub proof fn law_title_of_addresses(
    desc: Seq<char>,
    lines: nat,
    pending: nat,
    search: Seq<char>,
    dc: DisplayConfig,
)
    ensures
        ({
            let said = |b: bool|
                if b {
                    "on"@
                } else {
                    "off"@
                };
            let detail = if dc.cloud_detail {
                "detail"@
            } else {
                "agg"@
            };
            let waits = if pending > 0 {
                ", "@ + text::decimal(pending) + " pending"@
            } else {
                Seq::empty()
            };
            let order = if dc.has_bytes {
                " [sort:"@ + dc.sort_by.name() + "]"@
            } else {
                Seq::empty()
            };
            let columns = "r:"@ + said(dc.show_rdns) + " u:"@ + said(dc.show_ua) + " o:"@ + said(
                dc.show_org,
            ) + " y:"@ + said(dc.show_country) + " d:"@ + said(dc.show_domain) + " c:"@ + detail;
            ip_title(desc, lines, pending, search, dc) == " "@ + desc + " IPs, "@ + text::decimal(
                lines,
            ) + " lines"@ + waits + " ["@ + columns + "] [by:"@ + dc.group_by.name() + "]"@ + order
                + search + " (g/s/r/u/o/y/d/c/f/?=help, q=quit)"@
        }),
{
}

/// What the title says of a search is what is being typed, or what the rows are filtered by.
pub proof fn law_search_in_the_title(query: Seq<char>)
    ensures
        search_said(true, query) == " [SEARCH: "@ + query + "█]"@,
        query.len() > 0 ==> search_said(false, query) == " [filter: "@ + query + "]"@,
        query.len() == 0 ==> search_said(false, query).len() == 0,
{
}

/// The table of addresses has a row for each record, in their order; shares are of all lines and of
/// the bytes of the records together.
pub proof fn law_rows_of_addresses(
    t: TableView,
    recs: Seq<IpRecord>,
    caption: Caption,
    dc: DisplayConfig,
    k: int,
)
    requires
        is_ip_table(t, recs, caption, dc),
        0 <= k < recs.len(),
    ensures
        t.rows@.len() == recs.len(),
        t.header@.len() == t.widths@.len(),
        cells(t.rows@[k]@) == ip_row(
            recs[k],
            caption.total_lines as nat,
            sorting::bytes_sum(recs),
            dc,
        ),
        forall|i: int| 0 <= i < t.header@.len() ==> (#[trigger] t.header@[i])@ == ip_header(dc)[i],
{
    assert(row_views(t.rows@).len() == recs.len());
    assert(row_views(t.rows@)[k] == cells(t.rows@[k]@));
    assert(header_views(t.header@).len() == t.header@.len());
    law_where_each_column_stands(dc, 0);
    law_ip_table_is_rectangular(recs[k], 0, 0, dc);
    assert forall|i: int| 0 <= i < t.header@.len() implies (#[trigger] t.header@[i])@ == ip_header(
        dc,
    )[i] by {
        assert(header_views(t.header@)[i] == t.header@[i]@);
    }
}

/// A row of the table of groups says of its group the requests, the addresses and the bytes of the
/// records with its key, and what part they are of all lines and of the bytes of all records.
pub proof fn law_rows_of_groups(
    t: TableView,
    recs: Seq<IpRecord>,
    grouping: Grouping,
    caption: Caption,
    dc: DisplayConfig,
    k: int,
)
    requires
        is_group_table(t, recs, grouping, caption, dc),
        0 <= k < t.rows@.len(),
    ensures
        ({
            let keys = groups::keys_of(recs, grouping, dc.cloud_detail);
            let all = groups::groups_ordered(groups::groups_of(keys, recs), dc.sort_by);
            &&& t.rows@.len() == all.len()
            &&& cells(t.rows@[k]@) == group_row(
                all[k],
                groups::domains_text(keys, recs, all[k].key),
                caption.total_lines as nat,
                sorting::bytes_sum(recs),
                grouping,
                dc,
            )
        }),
{
    assert(row_views(t.rows@).len() == t.rows@.len());
    assert(row_views(t.rows@)[k] == cells(t.rows@[k]@));
}

/// The table of user agents has a row for each of them, in order.
pub proof fn law_rows_of_agents(
    t: TableView,
    agents: Seq<TallyRow>,
    caption: Caption,
    dc: DisplayConfig,
    k: int,
)
    requires
        agents.len() <= usize::MAX,
        is_agent_table(t, agents, caption, dc),
        0 <= k < agents.len(),
    ensures
        t.rows@.len() == agents.len(),
        cells(t.rows@[k]@) == agent_row(
            sorting::ordered(agents, dc.sort_by)[k],
            caption.total_lines as nat,
            sorting::bytes_sum(agents),
            dc,
        ),
{
    sorting::law_ordered(agents, dc.sort_by);
    assert(row_views(t.rows@).len() == t.rows@.len());
    assert(row_views(t.rows@)[k] == cells(t.rows@[k]@));
}

/// The bytes of a list of user agents are those of each, added up.
pub proof fn law_bytes_of_agents(rows: Seq<TallyRow>, row: TallyRow)
    ensures
        sorting::bytes_sum(Seq::<TallyRow>::empty()) == 0,
        sorting::bytes_sum(rows.push(row)) == sorting::bytes_sum(rows) + row.bytes,
{
    assert(rows.push(row).drop_last() =~= rows);
}

/// The title of a table of groups says, in this order, how the report was cut down, what it is
/// grouped by, how many lines were read, what is pending, the detail, the grouping, the order where
/// bytes are known, and the search.
pub proof fn law_title_of_groups(
    desc: Seq<char>,
    label: Seq<char>,
    lines: nat,
    pending: nat,
    search: Seq<char>,
    dc: DisplayConfig,
)
    ensures
        ({
            let detail = if dc.cloud_detail {
                "detail"@
            } else {
                "agg"@
            };
            let waits = if pending > 0 {
                ", "@ + text::decimal(pending) + " pending"@
            } else {
                Seq::empty()
            };
            let order = if dc.has_bytes {
                " [sort:"@ + dc.sort_by.name() + "]"@
            } else {
                Seq::empty()
            };
            &&& group_title(desc, label, lines, pending, search, dc) == " "@ + desc + " IPs by "@
                + label + ", "@ + text::decimal(lines) + " lines"@ + waits + " [c:"@ + detail + "]"@
                + " [by:"@ + dc.group_by.name() + "]"@ + order + search
                + " (g/s/c/f/?=help, q=quit)"@
            &&& agent_title(desc, lines, pending, search, dc) == " "@ + desc
                + " IPs by User Agent, "@ + text::decimal(lines) + " lines"@ + waits + " [by:"@
                + dc.group_by.name() + "]"@ + order + search + " (g/s/f/?=help, q=quit)"@
        }),
{
}

} // verus!
