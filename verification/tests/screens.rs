use ip_report::display::{DisplayConfig, GroupBy, SortBy};
use ip_report::groups::{aggregate, aggregate_by_field, Grouping};
use ip_report::log::IpCount;
use ip_report::plain::{count_report, make_line, pad, record_report};
use ip_report::records::IpRecord;
use ip_report::screen::{
    centered, current_table, help_lines, help_popup, pending_count, resorting_note, row_count,
    search, Action, HelpLine, Key, Popup, Screen,
};
use ip_report::table::{search_text, Caption, Cell, TableView, Width};
use ip_report::tally::TallyRow;

fn some(s: &str) -> Option<String> {
    Some(s.to_string())
}

fn rec(ip: &str, count: u64, bytes: u64, org: Option<&str>, infra: Option<&str>) -> IpRecord {
    IpRecord {
        ip: ip.to_string(),
        count,
        user_agent: some("curl/8"),
        reverse_dns: None,
        org: org.map(|s| s.to_string()),
        asn: None,
        infra: infra.map(|s| s.to_string()),
        country: some("DE"),
        company_domain: None,
        bytes,
        looked_up: true,
        lookup_in_progress: false,
        in_display_set: true,
    }
}

fn three() -> Vec<IpRecord> {
    let mut v = vec![
        rec("10.0.0.1", 5, 4096, Some("Acme"), None),
        rec("10.0.0.2", 9, 1024, Some("Acme"), None),
        rec("10.0.0.3", 7, 0, None, Some("AWS / EC2")),
    ];
    v[0].company_domain = some("acme.example");
    v[1].company_domain = some("acme.org");
    v[2].lookup_in_progress = true;
    v
}

fn agents() -> Vec<TallyRow> {
    vec![
        TallyRow { name: "curl".to_string(), count: 2, bytes: 10 },
        TallyRow { name: "Mozilla".to_string(), count: 3, bytes: 5 },
    ]
}

fn caption<'a>(search: &'a str) -> Caption<'a> {
    Caption { filter_desc: "top 3 of 3", total_lines: 21, pending: 1, search }
}

fn show(c: &Cell) -> String {
    match c {
        Cell::Text(s) => s.clone(),
        Cell::Share { part, whole } => format!("{}/{}", part, whole),
    }
}

fn rows(t: &TableView) -> Vec<Vec<String>> {
    t.rows.iter().map(|r| r.iter().map(show).collect()).collect()
}

#[test]
fn table_of_addresses() {
    let dc = DisplayConfig::new(true, SortBy::Hits);
    let t = current_table(&three(), &agents(), "", &caption(""), &dc).unwrap();
    assert_eq!(
        t.title,
        " top 3 of 3 IPs, 21 lines, 1 pending [r:on u:on o:on y:on d:on c:detail] [by:IP] [sort:hits] (g/s/r/u/o/y/d/c/f/?=help, q=quit)"
    );
    assert_eq!(
        t.header,
        vec!["Count", "%", "Bandwidth", "BW%", "IP", "Reverse DNS", "Org", "CC", "Domain", "User Agent"]
    );
    assert_eq!(t.widths.len(), 10);
    assert_eq!(t.widths[0], Width::Min(10));
    assert_eq!(t.widths[5], Width::Length(40));
    let r = rows(&t);
    assert_eq!(
        r[0],
        vec!["9", "9/21", "1.0 KB", "1024/5120", "10.0.0.2", "-", "Acme", "DE", "acme.org", "curl/8"]
    );
    assert_eq!(
        r[1],
        vec!["7⏳", "7/21", "0 B", "0/5120", "10.0.0.3", "-", "(AWS / EC2)", "DE", "-", "curl/8"]
    );
    assert_eq!(r[2][4], "10.0.0.1");
}

#[test]
fn columns_can_be_hidden() {
    let mut dc = DisplayConfig::new(false, SortBy::Bandwidth);
    dc.show_rdns = false;
    dc.show_ua = false;
    dc.show_country = false;
    dc.show_domain = false;
    let mut recs = three();
    recs[0].org = some(&"x".repeat(100));
    recs[1].in_display_set = false;
    let t = current_table(&recs, &agents(), "", &caption(" [filter: q]"), &dc).unwrap();
    assert_eq!(t.header, vec!["Count", "%", "IP", "Org"]);
    assert_eq!(
        t.widths,
        vec![Width::Min(10), Width::Length(6), Width::Length(40), Width::Length(87)]
    );
    let r = rows(&t);
    assert_eq!(r.len(), 2);
    // Ordered by bytes, and cut to the width that few columns leave.
    assert_eq!(r[0][2], "10.0.0.1");
    assert_eq!(r[0][3].chars().count(), 85);
    assert!(t.title.ends_with("[by:IP] [filter: q] (g/s/r/u/o/y/d/c/f/?=help, q=quit)"));
    dc.show_ua = true;
    let t = current_table(&recs, &agents(), "", &caption(""), &dc).unwrap();
    assert_eq!(t.widths[3], Width::Length(57));
    dc.show_country = true;
    let t = current_table(&recs, &agents(), "", &caption(""), &dc).unwrap();
    assert_eq!(t.widths[3], Width::Length(42));
    dc.show_domain = true;
    let t = current_table(&recs, &agents(), "", &caption(""), &dc).unwrap();
    assert_eq!(t.widths[3], Width::Length(27));
}

#[test]
fn table_of_organisations() {
    let mut dc = DisplayConfig::new(true, SortBy::Hits);
    dc.group_by = GroupBy::Org;
    dc.cloud_detail = false;
    let t = current_table(&three(), &agents(), "", &caption(""), &dc).unwrap();
    assert_eq!(
        t.title,
        " top 3 of 3 IPs by Org, 21 lines, 1 pending [c:agg] [by:Org] [sort:hits] (g/s/c/f/?=help, q=quit)"
    );
    assert_eq!(t.header, vec!["Count", "%", "IPs", "Bandwidth", "BW%", "Org", "Domain"]);
    let r = rows(&t);
    // The domains come in the order of the records.
    assert_eq!(
        r[0],
        vec!["14", "14/21", "2", "5.0 KB", "5120/5120", "Acme", "acme.org, acme.example"]
    );
    assert_eq!(r[1], vec!["7", "7/21", "1", "0 B", "0/5120", "(AWS)", "-"]);
}

#[test]
fn table_of_clouds_and_systems() {
    let mut dc = DisplayConfig::new(false, SortBy::Hits);
    dc.group_by = GroupBy::CloudProvider;
    let t = current_table(&three(), &agents(), "", &caption(""), &dc).unwrap();
    assert_eq!(t.header, vec!["Count", "%", "IPs", "Cloud Provider"]);
    assert_eq!(rows(&t), vec![vec!["14", "14/21", "2", "Other/Unknown"], vec!["7", "7/21", "1", "AWS"]]);
    dc.group_by = GroupBy::Asn;
    let mut recs = three();
    recs[0].asn = some("AS1");
    let t = current_table(&recs, &agents(), "", &caption(""), &dc).unwrap();
    assert_eq!(t.header[3], "ASN");
    assert_eq!(
        rows(&t),
        vec![
            vec!["9", "9/21", "1", "Acme"],
            vec!["7", "7/21", "1", "(AWS / EC2)"],
            vec!["5", "5/21", "1", "AS1"]
        ]
    );
}

#[test]
fn table_of_user_agents() {
    let mut dc = DisplayConfig::new(true, SortBy::Hits);
    dc.group_by = GroupBy::UserAgent;
    let t = current_table(&three(), &agents(), "nothing matches", &caption(""), &dc).unwrap();
    assert_eq!(
        t.title,
        " top 3 of 3 IPs by User Agent, 21 lines, 1 pending [by:UA] [sort:hits] (g/s/f/?=help, q=quit)"
    );
    assert_eq!(
        rows(&t),
        vec![
            vec!["3", "3/21", "5 B", "5/15", "Mozilla"],
            vec!["2", "2/21", "10 B", "10/15", "curl"]
        ]
    );
    dc.sort_by = SortBy::Bandwidth;
    let t = current_table(&three(), &agents(), "", &caption(""), &dc).unwrap();
    assert_eq!(rows(&t)[0][4], "curl");
}

#[test]
fn sums_that_are_too_large() {
    let recs = vec![
        rec("a", 1, u64::MAX, Some("x"), None),
        rec("b", 1, 1, Some("y"), None),
    ];
    let mut dc = DisplayConfig::new(true, SortBy::Hits);
    assert!(current_table(&recs, &agents(), "", &caption(""), &dc).is_none());
    dc.group_by = GroupBy::Org;
    assert!(current_table(&recs, &agents(), "", &caption(""), &dc).is_none());
    // Each group by itself fits.
    assert_eq!(row_count(&recs, 0, "", &dc), Some(2));
    let recs = vec![
        rec("a", 1, u64::MAX, Some("x"), None),
        rec("b", 1, 1, Some("x"), None),
    ];
    assert_eq!(row_count(&recs, 0, "", &dc), None);
    assert!(aggregate(&recs, Grouping::Org, true).is_none());
    assert!(record_report(&recs, 1, true, true).is_none());
    assert!(record_report(&recs, 1, false, true).is_some());
}

#[test]
fn groups_by_any_key() {
    let recs = three();
    let key = |r: &IpRecord| r.country.clone().unwrap_or_default();
    let groups = aggregate_by_field(&recs, &key).unwrap();
    assert_eq!(groups.len(), 1);
    assert_eq!(groups[0].key, "DE");
    assert_eq!(groups[0].count, 21);
    assert_eq!(groups[0].ips, 3);
    assert_eq!(groups[0].bytes, 5120);
    let key = |r: &IpRecord| r.ip.clone();
    let groups = aggregate_by_field(&recs, &key).unwrap();
    let order: Vec<&str> = groups.iter().map(|g| g.key.as_str()).collect();
    assert_eq!(order, vec!["10.0.0.2", "10.0.0.3", "10.0.0.1"]);
    assert_eq!(groups.iter().map(|g| g.count).sum::<u64>(), 21);
    assert_eq!(groups.iter().map(|g| g.ips).sum::<usize>(), recs.len());
}

#[test]
fn searching_records() {
    let mut recs = three();
    recs[0].reverse_dns = some("Host.Example");
    recs[1].asn = some("AS77");
    recs[2].country = some("FR");
    recs[2].user_agent = some("Mozilla");
    let ips = |q: &str| -> Vec<String> { search(&recs, q).into_iter().map(|r| r.ip).collect() };
    assert_eq!(ips("").len(), 3);
    assert_eq!(ips("host.EX"), vec!["10.0.0.1"]);
    assert_eq!(ips("acme"), vec!["10.0.0.1", "10.0.0.2"]);
    assert_eq!(ips("ACME.ORG"), vec!["10.0.0.2"]);
    assert_eq!(ips("as77"), vec!["10.0.0.2"]);
    assert_eq!(ips("ec2"), vec!["10.0.0.3"]);
    assert_eq!(ips("fr"), vec!["10.0.0.3"]);
    assert_eq!(ips("moz"), vec!["10.0.0.3"]);
    assert_eq!(ips("0.0.3"), vec!["10.0.0.3"]);
    assert_eq!(ips("zzz").len(), 0);
    assert_eq!(ips("CURL"), ips("curl"));
}

#[test]
fn number_of_rows() {
    let mut recs = three();
    recs[0].in_display_set = false;
    let mut dc = DisplayConfig::new(true, SortBy::Hits);
    assert_eq!(row_count(&recs, 2, "", &dc), Some(2));
    assert_eq!(row_count(&recs, 2, "acme", &dc), Some(1));
    dc.group_by = GroupBy::Org;
    assert_eq!(row_count(&recs, 2, "", &dc), Some(2));
    assert_eq!(row_count(&recs, 2, "ec2", &dc), Some(1));
    dc.group_by = GroupBy::UserAgent;
    assert_eq!(row_count(&recs, 2, "ec2", &dc), Some(2));
    dc.group_by = GroupBy::CloudProvider;
    assert_eq!(row_count(&recs, 2, "", &dc), Some(2));
}

#[test]
fn lookups_on_their_way() {
    assert_eq!(pending_count(&three(), 0), 1);
    assert_eq!(pending_count(&three(), 4), 4);
    assert_eq!(pending_count(&vec![], 0), 0);
}

fn press(s: &mut Screen, keys: &[Key], rows: usize) -> Action {
    let mut last = Action::Nothing;
    for k in keys {
        last = s.press(*k, rows);
    }
    last
}

fn screen() -> Screen {
    Screen::new(DisplayConfig::new(true, SortBy::Hits))
}

#[test]
fn moving_in_the_table() {
    let mut s = screen();
    assert_eq!(s.selected, Some(0));
    press(&mut s, &[Key::Down, Key::Char('j')], 50);
    assert_eq!(s.selected, Some(2));
    press(&mut s, &[Key::PageDown], 50);
    assert_eq!(s.selected, Some(22));
    press(&mut s, &[Key::PageDown, Key::PageDown], 50);
    assert_eq!(s.selected, Some(49));
    press(&mut s, &[Key::Up, Key::Char('k')], 50);
    assert_eq!(s.selected, Some(47));
    press(&mut s, &[Key::PageUp, Key::PageUp, Key::PageUp], 50);
    assert_eq!(s.selected, Some(0));
    press(&mut s, &[Key::End], 50);
    assert_eq!(s.selected, Some(49));
    press(&mut s, &[Key::Home], 50);
    assert_eq!(s.selected, Some(0));
    press(&mut s, &[Key::Down, Key::End], 0);
    assert_eq!(s.selected, Some(0));
    s.selected = None;
    press(&mut s, &[Key::Down], 50);
    assert_eq!(s.selected, Some(1));
}

#[test]
fn switching_columns() {
    let mut s = screen();
    let before = s.config;
    for c in ['r', 'u', 'o', 'y', 'd', 'c'] {
        assert_eq!(press(&mut s, &[Key::Char(c)], 5), Action::Nothing);
        assert_ne!(s.config, before);
        press(&mut s, &[Key::Char(c)], 5);
        assert_eq!(s.config, before);
    }
    s.selected = Some(3);
    assert_eq!(press(&mut s, &[Key::Chord('s')], 5), Action::Reselect);
    assert_eq!(s.config.sort_by, SortBy::Bandwidth);
    assert_eq!(s.selected, Some(0));
    s.selected = Some(3);
    press(&mut s, &[Key::Char('g')], 5);
    assert_eq!(s.config.group_by, GroupBy::Org);
    assert_eq!(s.selected, Some(0));
}

#[test]
fn typing_a_search() {
    for start in [Key::Char('s'), Key::Char('/'), Key::Char('f'), Key::Function(3)] {
        let mut s = screen();
        let before = s.config;
        assert_eq!(press(&mut s, &[start], 5), Action::Nothing);
        assert_eq!(s.config, before);
        assert!(s.searching && !s.in_table());
        s.selected = Some(4);
        // Letters are typed and do nothing else.
        press(&mut s, &[Key::Char('q'), Key::Char('?'), Key::Char('s')], 5);
        assert_eq!(s.query, "q?s");
        assert_eq!(s.selected, Some(0));
        press(&mut s, &[Key::Backspace], 5);
        assert_eq!(s.query, "q?");
        press(&mut s, &[Key::Enter], 5);
        assert!(!s.searching);
        assert_eq!(s.query, "q?");
        press(&mut s, &[Key::Char('f'), Key::Backspace, Key::Backspace, Key::Backspace], 5);
        assert_eq!(s.query, "");
        press(&mut s, &[Key::Char('x'), Key::Esc], 5);
        assert_eq!(s.query, "");
        assert!(!s.searching);
    }
    let mut s = screen();
    assert_eq!(press(&mut s, &[Key::Function(4), Key::Other, Key::Enter], 5), Action::Nothing);
    assert!(s.in_table());
}

#[test]
fn letters_with_ctrl() {
    let mut s = screen();
    let before = s.config;
    assert_eq!(press(&mut s, &[Key::Chord('s'), Key::Chord('s')], 5), Action::Reselect);
    assert_eq!(s.config, before);
    // Other letters do what they do alone, and keys without a meaning do nothing.
    assert_eq!(press(&mut s, &[Key::Chord('/'), Key::Char('t'), Key::Char('S')], 5), Action::Nothing);
    assert_eq!(s.config, before);
    assert!(s.in_table());
    press(&mut s, &[Key::Chord('j')], 5);
    assert_eq!(s.selected, Some(1));
    press(&mut s, &[Key::Chord('f'), Key::Chord('s')], 5);
    assert_eq!(s.query, "s");
    assert_eq!(press(&mut s, &[Key::Enter, Key::Chord('q')], 5), Action::Quit);
}

#[test]
fn showing_the_help() {
    for close in [Key::Esc, Key::Char('?'), Key::Char('q'), Key::Chord('q')] {
        let mut s = screen();
        press(&mut s, &[Key::Char('?')], 5);
        assert!(s.help);
        assert_eq!(press(&mut s, &[Key::Char('s'), Key::Chord('s'), Key::Down], 5), Action::Nothing);
        assert_eq!(s.selected, Some(0));
        assert_eq!(s.config.sort_by, SortBy::Hits);
        assert_eq!(press(&mut s, &[close], 5), Action::Nothing);
        assert!(!s.help);
    }
}

#[test]
fn quitting() {
    assert_eq!(press(&mut screen(), &[Key::Char('q')], 5), Action::Quit);
    assert_eq!(press(&mut screen(), &[Key::Esc], 5), Action::Quit);
}

#[test]
fn boxes_in_the_middle() {
    assert_eq!(centered(100, 40, 20, 3), Popup { x: 40, y: 18, width: 20, height: 3 });
    assert_eq!(centered(10, 2, 20, 3), Popup { x: 0, y: 0, width: 10, height: 2 });
    assert_eq!(help_popup(100, 40), Popup { x: 20, y: 7, width: 60, height: 26 });
    assert_eq!(help_popup(30, 10), Popup { x: 2, y: 2, width: 26, height: 6 });
    assert_eq!(help_popup(3, 3), Popup { x: 1, y: 1, width: 0, height: 0 });
    assert_eq!(resorting_note(SortBy::Hits), (" Resorting by hits... ".to_string(), 24, 3));
    assert_eq!(resorting_note(SortBy::Bandwidth), (" Resorting by bw... ".to_string(), 22, 3));
}

#[test]
fn lines_of_the_help() {
    let lines = help_lines(true);
    assert_eq!(lines.len(), 21);
    assert!(matches!(lines[0], HelpLine::Heading("  Keybindings")));
    match &lines[2] {
        HelpLine::Binding { keys, meaning } => {
            assert_eq!(keys, "j / Down      ");
            assert_eq!(*meaning, "Move down");
        }
        _ => panic!("no binding"),
    }
    assert!(matches!(lines[18], HelpLine::Note(_)));
    assert_eq!(help_lines(false).len(), 20);
}

#[test]
fn what_the_title_says_of_a_search() {
    assert_eq!(search_text(true, "ab"), " [SEARCH: ab█]");
    assert_eq!(search_text(true, ""), " [SEARCH: █]");
    assert_eq!(search_text(false, "ab"), " [filter: ab]");
    assert_eq!(search_text(false, ""), "");
}

#[test]
fn plain_lines() {
    let line = |texts: &[&str], widths: &[usize]| {
        make_line(&texts.iter().map(|s| s.to_string()).collect(), &widths.to_vec())
    };
    assert_eq!(line(&["a", "bcd", "e"], &[3, 2]), format!("{:<3} {:<2} {}", "a", "bcd", "e"));
    assert_eq!(line(&["ä", "x"], &[3]), format!("{:<3} {}", "ä", "x"));
    assert_eq!(line(&[], &[3]), "");
    assert_eq!(line(&["a"], &[3]), "a  ");
    assert_eq!(pad("ab", 4), "ab  ");
    assert_eq!(pad("abc", 2), "abc");
}

#[test]
fn plain_counts() {
    let counts = vec![IpCount {
        ip: "10.0.0.1".to_string(),
        count: 4,
        is_v6: false,
        user_agent: None,
        bytes: 2048,
    }];
    let t = count_report(&counts, 8, true).unwrap();
    assert_eq!(t.header, vec!["Count", "%", "Bandwidth", "BW%", "IP", "User Agent"]);
    assert_eq!(t.widths, vec![8, 6, 10, 6, 45]);
    assert_eq!(t.rule, 126);
    let cells: Vec<String> = t.rows[0].iter().map(show).collect();
    assert_eq!(cells, vec!["4", "4/8", "2.0 KB", "2048/2048", "10.0.0.1", "-"]);
    let t = count_report(&counts, 8, false).unwrap();
    assert_eq!(t.widths, vec![8, 6, 45]);
    assert_eq!(t.rule, 110);
    let cells: Vec<String> = t.rows[0].iter().map(show).collect();
    assert_eq!(cells, vec!["4", "4/8", "10.0.0.1", "-"]);
}

#[test]
fn plain_records() {
    let mut recs = three();
    recs[1].in_display_set = false;
    recs[2].country = None;
    let t = record_report(&recs, 21, true, true).unwrap();
    assert_eq!(
        t.header,
        vec![
            "Count", "%", "Bandwidth", "BW%", "IP", "Reverse DNS", "Org", "ASN", "CC", "Domain",
            "User Agent"
        ]
    );
    assert_eq!(t.widths, vec![8, 6, 10, 6, 40, 40, 30, 12, 4, 22]);
    assert_eq!(t.rule, 227);
    assert_eq!(t.rows.len(), 2);
    let cells: Vec<String> = t.rows[1].iter().map(show).collect();
    assert_eq!(
        cells,
        vec!["7", "7/21", "0 B", "0/4096", "10.0.0.3", "-", "(AWS / EC2)", "-", "-", "-", "curl/8"]
    );
    let t = record_report(&recs, 21, false, false).unwrap();
    assert_eq!(t.rule, 211);
    let cells: Vec<String> = t.rows[1].iter().map(show).collect();
    assert_eq!(cells, vec!["7", "7/21", "10.0.0.3", "-", "(AWS)", "-", "-", "-", "curl/8"]);
}

#[test]
fn grouping_ignores_the_order_of_records() {
    let rows = |recs: &Vec<IpRecord>, g: Grouping| {
        aggregate(recs, g, true)
            .unwrap()
            .into_iter()
            .map(|g| (g.key, g.count, g.ips, g.bytes))
            .collect::<Vec<_>>()
    };
    let mut back = three();
    back.reverse();
    let mut turned = three();
    turned.rotate_left(1);
    for g in [Grouping::Org, Grouping::Asn, Grouping::Cloud] {
        assert_eq!(rows(&back, g), rows(&three(), g));
        assert_eq!(rows(&turned, g), rows(&three(), g));
    }
}
