//! The report as plain text.
use vstd::prelude::*;

use crate::groups;
use crate::log::IpCount;
use crate::records::IpRecord;
use crate::sorting;
use crate::table;
use crate::table::{Cell, CellView};
use crate::text;
use crate::wording;

verus! {

broadcast use vstd::string::group_string_axioms;

// ---------------------------------------------------------------------------
// Lines
// ---------------------------------------------------------------------------

/// A text with spaces behind it up to a width.
pub open spec fn padded(s: Seq<char>, width: nat) -> Seq<char> {
    if s.len() >= width {
        s
    } else {
        s + Seq::new((width - s.len()) as nat, |i: int| ' ')
    }
}

/// Texts in columns: each is padded to the width of its column, and a space stands between. A text
/// that has no column is not padded.
pub open spec fn line_text(texts: Seq<Seq<char>>, widths: Seq<usize>) -> Seq<char>
    decreases texts.len(),
{
    if texts.len() == 0 {
        Seq::empty()
    } else {
        let last = if texts.len() <= widths.len() {
            padded(texts.last(), widths[texts.len() - 1] as nat)
        } else {
            texts.last()
        };
        if texts.len() == 1 {
            last
        } else {
            line_text(texts.drop_last(), widths) + " "@ + last
        }
    }
}

/// A text with spaces behind it up to a width.
pub fn pad(s: &str, width: usize) -> (r: String)
    ensures
        r@ == padded(s@, width as nat),
{
    let mut out = s.to_owned();
    let n: usize = s.unicode_len();
    if n >= width {
        return out;
    }
    for i in n..width
        invariant
            n == s@.len(),
            n < width,
            out@ == s@ + Seq::new((i - n) as nat, |k: int| ' '),
    {
        out.push(' ');
        assert(out@ =~= s@ + Seq::new((i + 1 - n) as nat, |k: int| ' '));
    }
    out
}

/// The characters of texts.
pub open spec fn text_views(texts: Seq<String>) -> Seq<Seq<char>> {
    texts.map_values(|t: String| t@)
}

/// A line of texts in columns.
pub fn make_line(texts: &Vec<String>, widths: &Vec<usize>) -> (r: String)
    ensures
        r@ == line_text(text_views(texts@), widths@),
{
    let ghost all = text_views(texts@);
    let mut out = String::new();
    for i in 0..texts.len()
        invariant
            all == text_views(texts@),
            out@ == line_text(all.take(i as int), widths@),
    {
        assert(all.take(i + 1).drop_last() =~= all.take(i as int));
        assert(all.take(i + 1).last() == texts@[i as int]@);
        if i > 0 {
            out.append(" ");
        }
        let ghost before = out@;
        if i < widths.len() {
            out.append(pad(texts[i].as_str(), widths[i]).as_str());
        } else {
            out.append(texts[i].as_str());
        }
        assert(out@ =~= line_text(all.take(i + 1), widths@));
    }
    assert(all.take(all.len() as int) =~= all);
    out
}

/// A plain table: its headings, the widths of all columns but the last, the length of the rule
/// under the headings, and the rows.
#[derive(Debug)]
pub struct PlainTable {
    pub header: Vec<String>,
    pub widths: Vec<usize>,
    pub rule: usize,
    pub rows: Vec<Vec<Cell>>,
}

fn head(out: &mut Vec<String>, shown: bool, s: &str)
    ensures
        text_views(final(out)@) == text_views(old(out)@) + table::when(shown, seq![s@]),
{
    let ghost before = text_views(out@);
    if shown {
        out.push(s.to_owned());
    }
    assert(text_views(out@) =~= before + table::when(shown, seq![s@]));
}

fn wide(out: &mut Vec<usize>, shown: bool, n: usize)
    ensures
        final(out)@ == old(out)@ + table::when(shown, seq![n]),
{
    let ghost before = out@;
    if shown {
        out.push(n);
    }
    assert(out@ =~= before + table::when(shown, seq![n]));
}

// ---------------------------------------------------------------------------
// Counts alone
// ---------------------------------------------------------------------------

/// The titles of the columns of a report on counts.
pub open spec fn count_header(has_bytes: bool) -> Seq<Seq<char>> {
    seq!["Count"@, "%"@] + table::when(has_bytes, seq!["Bandwidth"@, "BW%"@]) + seq![
        "IP"@,
        "User Agent"@,
    ]
}

/// The widths of the columns of a report on counts.
pub open spec fn count_widths(has_bytes: bool) -> Seq<usize> {
    seq![8usize, 6usize] + table::when(has_bytes, seq![10usize, 6usize]) + seq![45usize]
}

/// The row of an address without lookups.
pub open spec fn count_row(
    c: IpCount,
    total_lines: nat,
    total_bytes: nat,
    has_bytes: bool,
) -> Seq<CellView> {
    seq![
        CellView::Text(text::decimal(c.count as nat)),
        table::share(c.count, total_lines),
    ] + table::when(
        has_bytes,
        seq![
            CellView::Text(wording::size_text(c.bytes as nat)),
            table::share(c.bytes, total_bytes),
        ],
    ) + seq![CellView::Text(c.ip@), CellView::Text(table::or_dash(c.user_agent))]
}

/// The rows of a report on counts; shares are of all lines and of the bytes of the report.
pub open spec fn count_rows(
    counts: Seq<IpCount>,
    total_lines: nat,
    has_bytes: bool,
) -> Seq<Seq<CellView>> {
    counts.map_values(
        |c: IpCount| count_row(c, total_lines, sorting::bytes_sum(counts), has_bytes),
    )
}

/// How long the rule under the headings of a report on counts is.
pub open spec fn count_rule(has_bytes: bool) -> nat {
    if has_bytes {
        126
    } else {
        110
    }
}

fn make_count_row(c: &IpCount, total_lines: u64, total_bytes: u64, has_bytes: bool) -> (r: Vec<
    Cell,
>)
    ensures
        table::cells(r@) == count_row(*c, total_lines as nat, total_bytes as nat, has_bytes),
{
    let mut out: Vec<Cell> = Vec::new();
    table::put_when(&mut out, true, text::decimal_text(c.count));
    table::put_share_when(&mut out, true, c.count, total_lines);
    table::put_when(&mut out, has_bytes, wording::format_bytes(c.bytes));
    table::put_share_when(&mut out, has_bytes, c.bytes, total_bytes);
    table::put_when(&mut out, true, c.ip.clone());
    table::put_when(&mut out, true, table::text_or_dash(&c.user_agent).to_owned());
    assert(table::cells(out@) =~= count_row(
        *c,
        total_lines as nat,
        total_bytes as nat,
        has_bytes,
    ));
    out
}

/// The report without lookups. Where bytes are shown, there is none if they do not fit in sum.
pub fn count_report(counts: &Vec<IpCount>, total_lines: u64, has_bytes: bool) -> (r: Option<
    PlainTable,
>)
    ensures
        match r {
            Some(t) => {
                &&& has_bytes ==> sorting::bytes_sum(counts@) <= u64::MAX
                &&& text_views(t.header@) == count_header(has_bytes)
                &&& t.widths@ == count_widths(has_bytes)
                &&& t.rule == count_rule(has_bytes)
                &&& table::row_views(t.rows@) == count_rows(counts@, total_lines as nat, has_bytes)
            },
            None => has_bytes && sorting::bytes_sum(counts@) > u64::MAX,
        },
{
    let total: u64 = if has_bytes {
        match sorting::total_bytes(counts) {
            Some(n) => n,
            None => {
                return None;
            },
        }
    } else {
        0
    };
    let mut rows: Vec<Vec<Cell>> = Vec::new();
    for i in 0..counts.len()
        invariant
            has_bytes ==> total == sorting::bytes_sum(counts@),
            rows@.len() == i,
            forall|j: int|
                0 <= j < i ==> table::cells((#[trigger] rows@[j])@) == count_row(
                    counts@[j],
                    total_lines as nat,
                    sorting::bytes_sum(counts@),
                    has_bytes,
                ),
    {
        let row = make_count_row(&counts[i], total_lines, total, has_bytes);
        rows.push(row);
    }
    assert(table::row_views(rows@) =~= counts@.map_values(
        |c: IpCount| count_row(c, total_lines as nat, sorting::bytes_sum(counts@), has_bytes),
    ));
    let mut header: Vec<String> = Vec::new();
    head(&mut header, true, "Count");
    head(&mut header, true, "%");
    head(&mut header, has_bytes, "Bandwidth");
    head(&mut header, has_bytes, "BW%");
    head(&mut header, true, "IP");
    head(&mut header, true, "User Agent");
    assert(text_views(header@) =~= count_header(has_bytes));
    let mut widths: Vec<usize> = Vec::new();
    wide(&mut widths, true, 8);
    wide(&mut widths, true, 6);
    wide(&mut widths, has_bytes, 10);
    wide(&mut widths, has_bytes, 6);
    wide(&mut widths, true, 45);
    assert(widths@ =~= count_widths(has_bytes));
    Some(
        PlainTable {
            header,
            widths,
            rule: if has_bytes {
                126
            } else {
                110
            },
            rows,
        },
    )
}

// ---------------------------------------------------------------------------
// Records
// ---------------------------------------------------------------------------

/// The titles of the columns of a report on records.
pub open spec fn record_header(has_bytes: bool) -> Seq<Seq<char>> {
    seq!["Count"@, "%"@] + table::when(has_bytes, seq!["Bandwidth"@, "BW%"@]) + seq![
        "IP"@,
        "Reverse DNS"@,
        "Org"@,
        "ASN"@,
        "CC"@,
        "Domain"@,
        "User Agent"@,
    ]
}

/// The widths of the columns of a report on records.
pub open spec fn record_widths(has_bytes: bool) -> Seq<usize> {
    seq![8usize, 6usize] + table::when(has_bytes, seq![10usize, 6usize]) + seq![
        40usize,
        40usize,
        30usize,
        12usize,
        4usize,
        22usize,
    ]
}

/// The row of a record.
pub open spec fn record_row(
    rec: IpRecord,
    total_lines: nat,
    total_bytes: nat,
    has_bytes: bool,
    cloud_detail: bool,
) -> Seq<CellView> {
    seq![
        CellView::Text(text::decimal(rec.count as nat)),
        table::share(rec.count, total_lines),
    ] + table::when(
        has_bytes,
        seq![
            CellView::Text(wording::size_text(rec.bytes as nat)),
            table::share(rec.bytes, total_bytes),
        ],
    ) + seq![
        CellView::Text(rec.ip@),
        table::cut(rec.reverse_dns, 38),
        CellView::Text(wording::truncated(groups::org_of(rec, cloud_detail), 28)),
        CellView::Text(table::or_dash(rec.asn)),
        CellView::Text(table::or_dash(rec.country)),
        table::cut(rec.company_domain, 20),
        table::cut(rec.user_agent, 50),
    ]
}

fn make_record_row(
    rec: &IpRecord,
    total_lines: u64,
    total_bytes: u64,
    has_bytes: bool,
    cloud_detail: bool,
) -> (r: Vec<Cell>)
    ensures
        table::cells(r@) == record_row(
            *rec,
            total_lines as nat,
            total_bytes as nat,
            has_bytes,
            cloud_detail,
        ),
{
    let mut out: Vec<Cell> = Vec::new();
    table::put_when(&mut out, true, text::decimal_text(rec.count));
    table::put_share_when(&mut out, true, rec.count, total_lines);
    table::put_when(&mut out, has_bytes, wording::format_bytes(rec.bytes));
    table::put_share_when(&mut out, has_bytes, rec.bytes, total_bytes);
    let ghost front = seq![
        CellView::Text(text::decimal(rec.count as nat)),
        table::share(rec.count, total_lines as nat),
    ] + table::when(
        has_bytes,
        seq![
            CellView::Text(wording::size_text(rec.bytes as nat)),
            table::share(rec.bytes, total_bytes as nat),
        ],
    );
    assert(table::cells(out@) =~= front);
    table::put_when(&mut out, true, rec.ip.clone());
    table::put_when(
        &mut out,
        true,
        wording::truncate_str(table::text_or_dash(&rec.reverse_dns), 38),
    );
    let org = groups::org_shown_for(rec, cloud_detail);
    table::put_when(&mut out, true, wording::truncate_str(org.as_str(), 28));
    table::put_when(&mut out, true, table::text_or_dash(&rec.asn).to_owned());
    table::put_when(&mut out, true, table::text_or_dash(&rec.country).to_owned());
    table::put_when(
        &mut out,
        true,
        wording::truncate_str(table::text_or_dash(&rec.company_domain), 20),
    );
    table::put_when(&mut out, true, wording::truncate_str(table::text_or_dash(&rec.user_agent), 50));
    assert(table::cells(out@) =~= front + seq![
        CellView::Text(rec.ip@),
        table::cut(rec.reverse_dns, 38),
        CellView::Text(wording::truncated(groups::org_of(*rec, cloud_detail), 28)),
        CellView::Text(table::or_dash(rec.asn)),
        CellView::Text(table::or_dash(rec.country)),
        table::cut(rec.company_domain, 20),
        table::cut(rec.user_agent, 50),
    ]);
    out
}

/// The records that the report shows.
pub open spec fn displayed(recs: Seq<IpRecord>) -> Seq<IpRecord> {
    recs.filter(|r: IpRecord| r.in_display_set)
}

/// The rows of a report on records; shares are of all lines and of the bytes of the records shown.
pub open spec fn record_rows(
    recs: Seq<IpRecord>,
    total_lines: nat,
    has_bytes: bool,
    cloud_detail: bool,
) -> Seq<Seq<CellView>> {
    let kept = displayed(recs);
    kept.map_values(
        |rec: IpRecord|
            record_row(rec, total_lines, sorting::bytes_sum(kept), has_bytes, cloud_detail),
    )
}

/// How long the rule under the headings of a report on records is.
pub open spec fn record_rule(has_bytes: bool) -> nat {
    if has_bytes {
        227
    } else {
        211
    }
}

/// The records that the report shows.
pub fn display_set(recs: &Vec<IpRecord>) -> (r: Vec<IpRecord>)
    ensures
        r@ == displayed(recs@),
{
    let ghost shown = |r: IpRecord| r.in_display_set;
    let mut out: Vec<IpRecord> = Vec::new();
    proof {
        reveal(Seq::filter);
    }
    for i in 0..recs.len()
        invariant
            shown == (|r: IpRecord| r.in_display_set),
            out@ == recs@.take(i as int).filter(shown),
    {
        proof {
            reveal(Seq::filter);
            assert(recs@.take(i + 1).drop_last() =~= recs@.take(i as int));
            assert(recs@.take(i + 1).last() == recs@[i as int]);
        }
        if recs[i].in_display_set {
            assert(shown(recs@[i as int]));
            out.push(recs[i].copy());
        } else {
            assert(!shown(recs@[i as int]));
        }
    }
    assert(recs@.take(recs@.len() as int) =~= recs@);
    out
}

/// The report with lookups, of the records that it shows and in their order. Where bytes are shown,
/// there is none if they do not fit in sum.
pub fn record_report(
    recs: &Vec<IpRecord>,
    total_lines: u64,
    has_bytes: bool,
    cloud_detail: bool,
) -> (r: Option<PlainTable>)
    ensures
        match r {
            Some(t) => {
                &&& has_bytes ==> sorting::bytes_sum(displayed(recs@)) <= u64::MAX
                &&& text_views(t.header@) == record_header(has_bytes)
                &&& t.widths@ == record_widths(has_bytes)
                &&& t.rule == record_rule(has_bytes)
                &&& table::row_views(t.rows@) == record_rows(
                    recs@,
                    total_lines as nat,
                    has_bytes,
                    cloud_detail,
                )
            },
            None => has_bytes && sorting::bytes_sum(displayed(recs@)) > u64::MAX,
        },
{
    let shown = display_set(recs);
    let total: u64 = if has_bytes {
        match sorting::total_bytes(&shown) {
            Some(n) => n,
            None => {
                return None;
            },
        }
    } else {
        0
    };
    let mut rows: Vec<Vec<Cell>> = Vec::new();
    for i in 0..shown.len()
        invariant
            has_bytes ==> total == sorting::bytes_sum(shown@),
            rows@.len() == i,
            forall|j: int|
                0 <= j < i ==> table::cells((#[trigger] rows@[j])@) == record_row(
                    shown@[j],
                    total_lines as nat,
                    sorting::bytes_sum(shown@),
                    has_bytes,
                    cloud_detail,
                ),
    {
        let row = make_record_row(&shown[i], total_lines, total, has_bytes, cloud_detail);
        rows.push(row);
    }
    assert(table::row_views(rows@) =~= shown@.map_values(
        |rec: IpRecord|
            record_row(
                rec,
                total_lines as nat,
                sorting::bytes_sum(displayed(recs@)),
                has_bytes,
                cloud_detail,
            ),
    ));
    let mut header: Vec<String> = Vec::new();
    head(&mut header, true, "Count");
    head(&mut header, true, "%");
    head(&mut header, has_bytes, "Bandwidth");
    head(&mut header, has_bytes, "BW%");
    head(&mut header, true, "IP");
    head(&mut header, true, "Reverse DNS");
    head(&mut header, true, "Org");
    head(&mut header, true, "ASN");
    head(&mut header, true, "CC");
    head(&mut header, true, "Domain");
    head(&mut header, true, "User Agent");
    assert(text_views(header@) =~= record_header(has_bytes));
    let mut widths: Vec<usize> = Vec::new();
    wide(&mut widths, true, 8);
    wide(&mut widths, true, 6);
    wide(&mut widths, has_bytes, 10);
    wide(&mut widths, has_bytes, 6);
    wide(&mut widths, true, 40);
    wide(&mut widths, true, 40);
    wide(&mut widths, true, 30);
    wide(&mut widths, true, 12);
    wide(&mut widths, true, 4);
    wide(&mut widths, true, 22);
    assert(widths@ =~= record_widths(has_bytes));
    Some(
        PlainTable {
            header,
            widths,
            rule: if has_bytes {
                227
            } else {
                211
            },
            rows,
        },
    )
}

/// The plain tables have a heading for each cell of a row, and a width for each but the last.
pub proof fn law_plain_tables_are_rectangular(
    c: IpCount,
    rec: IpRecord,
    total_lines: nat,
    total_bytes: nat,
    has_bytes: bool,
    cloud_detail: bool,
)
    ensures
        count_row(c, total_lines, total_bytes, has_bytes).len() == count_header(has_bytes).len(),
        count_widths(has_bytes).len() + 1 == count_header(has_bytes).len(),
        record_row(rec, total_lines, total_bytes, has_bytes, cloud_detail).len() == record_header(
            has_bytes,
        ).len(),
        record_widths(has_bytes).len() + 1 == record_header(has_bytes).len(),
{
}

/// Each cell of a record's row stands under its own heading: the ASN, or a dash, under "ASN", the
/// country, or a dash, under "CC", and so on, with bytes shown or not. Each column has the width of
/// what stands in it.
pub proof fn law_each_cell_of_a_record_stands_under_its_heading(
    rec: IpRecord,
    total_lines: nat,
    total_bytes: nat,
    has_bytes: bool,
    cloud_detail: bool,
    i: int,
)
    requires
        0 <= i < record_header(has_bytes).len(),
    ensures
        ({
            let header = record_header(has_bytes);
            let widths = record_widths(has_bytes);
            let row = record_row(rec, total_lines, total_bytes, has_bytes, cloud_detail);
            &&& header[i] == "Count"@ ==> row[i] == CellView::Text(text::decimal(rec.count as nat))
            &&& header[i] == "%"@ ==> row[i] == (CellView::Share {
                part: rec.count as nat,
                whole: total_lines,
            })
            &&& header[i] == "Bandwidth"@ ==> row[i] == CellView::Text(
                wording::size_text(rec.bytes as nat),
            )
            &&& header[i] == "BW%"@ ==> row[i] == (CellView::Share {
                part: rec.bytes as nat,
                whole: total_bytes,
            })
            &&& header[i] == "IP"@ ==> row[i] == CellView::Text(rec.ip@)
            &&& header[i] == "Reverse DNS"@ && rec.reverse_dns is Some ==> row[i] == CellView::Text(
                wording::truncated(rec.reverse_dns->0@, 38),
            )
            &&& header[i] == "Reverse DNS"@ && rec.reverse_dns is None ==> row[i] == CellView::Text(
                wording::truncated("-"@, 38),
            )
            &&& header[i] == "Org"@ ==> row[i] == CellView::Text(
                wording::truncated(groups::org_of(rec, cloud_detail), 28),
            )
            &&& header[i] == "ASN"@ && rec.asn is Some ==> row[i] == CellView::Text(
                rec.asn->0@,
            )
            &&& header[i] == "ASN"@ && rec.asn is None ==> row[i] == CellView::Text(
                "-"@,
            )
            &&& header[i] == "CC"@ && rec.country is Some ==> row[i] == CellView::Text(
                rec.country->0@,
            )
            &&& header[i] == "CC"@ && rec.country is None ==> row[i] == CellView::Text(
                "-"@,
            )
            &&& header[i] == "Domain"@ && rec.company_domain is Some ==> row[i] == CellView::Text(
                wording::truncated(rec.company_domain->0@, 20),
            )
            &&& header[i] == "Domain"@ && rec.company_domain is None ==> row[i] == CellView::Text(
                wording::truncated("-"@, 20),
            )
            &&& header[i] == "User Agent"@ && rec.user_agent is Some ==> row[i] == CellView::Text(
                wording::truncated(rec.user_agent->0@, 50),
            )
            &&& header[i] == "User Agent"@ && rec.user_agent is None ==> row[i] == CellView::Text(
                wording::truncated("-"@, 50),
            )
            &&& header[i] == "Count"@ ==> widths[i] == 8
            &&& header[i] == "%"@ ==> widths[i] == 6
            &&& header[i] == "Bandwidth"@ ==> widths[i] == 10
            &&& header[i] == "BW%"@ ==> widths[i] == 6
            &&& header[i] == "IP"@ ==> widths[i] == 40
            &&& header[i] == "Reverse DNS"@ ==> widths[i] == 40
            &&& header[i] == "Org"@ ==> widths[i] == 30
            &&& header[i] == "ASN"@ ==> widths[i] == 12
            &&& header[i] == "CC"@ ==> widths[i] == 4
            &&& header[i] == "Domain"@ ==> widths[i] == 22
        }),
{
    table::lemma_headings_differ();
    lemma_a_dash_is_short();
}

/// A dash is never cut.
proof fn lemma_a_dash_is_short()
    ensures
        wording::truncated("-"@, 20) == "-"@,
        wording::truncated("-"@, 38) == "-"@,
        wording::truncated("-"@, 50) == "-"@,
{
    reveal_strlit("-");
}

/// The report on records has every heading once, and those on bytes exactly if bytes are shown.
pub proof fn law_headings_of_a_report_on_records(has_bytes: bool)
    ensures
        ({
            let header = record_header(has_bytes);
            &&& header.no_duplicates()
            &&& header.len() == if has_bytes {
                11int
            } else {
                9int
            }
            &&& header.contains("Bandwidth"@) <==> has_bytes
            &&& header.contains("BW%"@) <==> has_bytes
            &&& header.contains("Count"@)
            &&& header.contains("%"@)
            &&& header.contains("IP"@)
            &&& header.contains("Reverse DNS"@)
            &&& header.contains("Org"@)
            &&& header.contains("ASN"@)
            &&& header.contains("CC"@)
            &&& header.contains("Domain"@)
            &&& header.last() == "User Agent"@
        }),
{
    table::lemma_headings_differ();
    let header = record_header(has_bytes);
    let n = if has_bytes {
        4int
    } else {
        2int
    };
    assert(header[0] == "Count"@ && header[1] == "%"@);
    assert(has_bytes ==> header[2] == "Bandwidth"@ && header[3] == "BW%"@);
    assert(header[n] == "IP"@);
    assert(header[n + 1] == "Reverse DNS"@);
    assert(header[n + 2] == "Org"@);
    assert(header[n + 3] == "ASN"@);
    assert(header[n + 4] == "CC"@);
    assert(header[n + 5] == "Domain"@);
}

/// Each cell of a count's row stands under its own heading, with bytes shown or not.
pub proof fn law_each_cell_of_a_count_stands_under_its_heading(
    c: IpCount,
    total_lines: nat,
    total_bytes: nat,
    has_bytes: bool,
    i: int,
)
    requires
        0 <= i < count_header(has_bytes).len(),
    ensures
        ({
            let header = count_header(has_bytes);
            let widths = count_widths(has_bytes);
            let row = count_row(c, total_lines, total_bytes, has_bytes);
            &&& header[i] == "Count"@ ==> row[i] == CellView::Text(text::decimal(c.count as nat))
            &&& header[i] == "%"@ ==> row[i] == (CellView::Share {
                part: c.count as nat,
                whole: total_lines,
            })
            &&& header[i] == "Bandwidth"@ ==> row[i] == CellView::Text(
                wording::size_text(c.bytes as nat),
            )
            &&& header[i] == "BW%"@ ==> row[i] == (CellView::Share {
                part: c.bytes as nat,
                whole: total_bytes,
            })
            &&& header[i] == "IP"@ ==> row[i] == CellView::Text(c.ip@)
            &&& header[i] == "User Agent"@ && c.user_agent is Some ==> row[i] == CellView::Text(
                c.user_agent->0@,
            )
            &&& header[i] == "User Agent"@ && c.user_agent is None ==> row[i] == CellView::Text(
                "-"@,
            )
            &&& header[i] == "Count"@ ==> widths[i] == 8
            &&& header[i] == "%"@ ==> widths[i] == 6
            &&& header[i] == "Bandwidth"@ ==> widths[i] == 10
            &&& header[i] == "BW%"@ ==> widths[i] == 6
            &&& header[i] == "IP"@ ==> widths[i] == 45
        }),
        count_header(has_bytes).len() == if has_bytes {
            6int
        } else {
            4int
        },
        count_header(has_bytes).no_duplicates(),
        count_header(has_bytes).last() == "User Agent"@,
{
    table::lemma_headings_differ();
}

/// A padded text is at least as wide as its column: the text comes first, and only spaces follow.
pub proof fn law_padding(s: Seq<char>, width: nat, i: int)
    ensures
        s.len() >= width ==> padded(s, width) == s,
        s.len() < width ==> padded(s, width).len() == width,
        0 <= i < s.len() ==> padded(s, width)[i] == s[i],
        s.len() <= i < width ==> padded(s, width)[i] == ' ',
{
}

/// One more text in a line stands behind the others and a space, padded to its own column.
pub proof fn law_columns_of_a_line(texts: Seq<Seq<char>>, t: Seq<char>, widths: Seq<usize>)
    ensures
        ({
            let n = texts.len() as int;
            let cell = if n < widths.len() {
                padded(t, widths[n] as nat)
            } else {
                t
            };
            &&& n == 0 ==> line_text(texts.push(t), widths) == cell
            &&& n > 0 ==> line_text(texts.push(t), widths) == line_text(texts, widths) + " "@ + cell
        }),
        line_text(Seq::empty(), widths).len() == 0,
{
    assert(texts.push(t).drop_last() =~= texts);
}

/// Exactly the records of the display set are shown, in their order.
pub proof fn law_only_the_display_set_is_shown(recs: Seq<IpRecord>, rec: IpRecord)
    ensures
        displayed(Seq::empty()).len() == 0,
        rec.in_display_set ==> displayed(recs.push(rec)) == displayed(recs).push(rec),
        !rec.in_display_set ==> displayed(recs.push(rec)) == displayed(recs),
{
    reveal(Seq::filter);
    assert(recs.push(rec).drop_last() =~= recs);
}

/// The order of the columns of a report on records.
pub proof fn law_order_of_the_columns(has_bytes: bool)
    ensures
        record_header(true) == seq![
            "Count"@,
            "%"@,
            "Bandwidth"@,
            "BW%"@,
            "IP"@,
            "Reverse DNS"@,
            "Org"@,
            "ASN"@,
            "CC"@,
            "Domain"@,
            "User Agent"@,
        ],
        record_header(false) == record_header(true).take(2) + record_header(true).skip(4),
        count_header(true) == seq!["Count"@, "%"@, "Bandwidth"@, "BW%"@, "IP"@, "User Agent"@],
        count_header(false) == count_header(true).take(2) + count_header(true).skip(4),
{
    assert(record_header(false) =~= record_header(true).take(2) + record_header(true).skip(4));
    assert(count_header(false) =~= count_header(true).take(2) + count_header(true).skip(4));
}

/// The report on counts has a row for each address, in their order.
pub proof fn law_rows_of_a_report_on_counts(
    counts: Seq<IpCount>,
    total_lines: nat,
    has_bytes: bool,
    k: int,
)
    requires
        0 <= k < counts.len(),
    ensures
        count_rows(counts, total_lines, has_bytes).len() == counts.len(),
        count_rows(counts, total_lines, has_bytes)[k] == count_row(
            counts[k],
            total_lines,
            sorting::bytes_sum(counts),
            has_bytes,
        ),
{
}

/// The report on records has a row for each record of the display set, in their order, and the bytes
/// that shares are taken of are those of these records alone.
pub proof fn law_rows_of_a_report_on_records(
    recs: Seq<IpRecord>,
    total_lines: nat,
    has_bytes: bool,
    cloud_detail: bool,
    k: int,
)
    requires
        0 <= k < displayed(recs).len(),
    ensures
        record_rows(recs, total_lines, has_bytes, cloud_detail).len() == displayed(recs).len(),
        record_rows(recs, total_lines, has_bytes, cloud_detail)[k] == record_row(
            displayed(recs)[k],
            total_lines,
            sorting::bytes_sum(displayed(recs)),
            has_bytes,
            cloud_detail,
        ),
{
}

/// The rules are longer by the columns of bytes, 16 characters, where these are shown.
pub proof fn law_rules()
    ensures
        count_rule(false) == 110,
        count_rule(true) == count_rule(false) + 16,
        record_rule(false) == 211,
        record_rule(true) == record_rule(false) + 16,
{
}

} // verus!
