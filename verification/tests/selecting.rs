use ip_report::display::{DisplayConfig, GroupBy, SortBy};
use ip_report::log::IpCount;
use ip_report::selection::{apply_filters, FractionalShare, Top};

fn count(ip: &str, count: u64, ua: &str, bytes: u64) -> IpCount {
    IpCount {
        ip: ip.to_string(),
        count,
        is_v6: false,
        user_agent: Some(ua.to_string()),
        bytes,
    }
}

fn four() -> Vec<IpCount> {
    vec![
        count("192.168.1.1", 100, "UA1", 0),
        count("192.168.1.2", 50, "UA2", 0),
        count("192.168.1.3", 25, "UA3", 0),
        count("192.168.1.4", 10, "UA4", 0),
    ]
}

fn ips(rows: &[IpCount]) -> Vec<&str> {
    rows.iter().map(|c| c.ip.as_str()).collect()
}

#[test]
fn test_apply_filters_top() {
    let counts = four();
    let filtered = apply_filters(&counts, Top::parse("2").ok(), None, SortBy::Hits);
    assert_eq!(filtered.len(), 2);
    assert_eq!(filtered[0].ip, "192.168.1.1");
    assert_eq!(filtered[0].count, 100);
    assert_eq!(filtered[1].ip, "192.168.1.2");
    assert_eq!(filtered[1].count, 50);
}

#[test]
fn test_apply_filters_percentage() {
    let counts = four();
    let filtered = apply_filters(&counts, Top::parse("50%").ok(), None, SortBy::Hits);
    assert_eq!(filtered.len(), 2); // 50% of 4 = 2
}

#[test]
fn test_apply_filters_min() {
    let counts = four();
    let filtered = apply_filters(&counts, None, Some(30), SortBy::Hits);
    assert_eq!(filtered.len(), 2); // Only >= 30
    assert_eq!(filtered[0].count, 100);
    assert_eq!(filtered[1].count, 50);
}

#[test]
fn test_group_by_cycle_includes_asn() {
    assert_eq!(GroupBy::Ip.next(), GroupBy::Org);
    assert_eq!(GroupBy::Org.next(), GroupBy::Asn);
    assert_eq!(GroupBy::Asn.next(), GroupBy::UserAgent);
    assert_eq!(GroupBy::UserAgent.next(), GroupBy::CloudProvider);
    assert_eq!(GroupBy::CloudProvider.next(), GroupBy::Ip);
}

#[test]
fn test_group_by_labels() {
    assert_eq!(GroupBy::Ip.label(), "IP");
    assert_eq!(GroupBy::Org.label(), "Org");
    assert_eq!(GroupBy::Asn.label(), "ASN");
    assert_eq!(GroupBy::UserAgent.label(), "UA");
    assert_eq!(GroupBy::CloudProvider.label(), "Cloud");
}

#[test]
fn orders_toggle() {
    assert_eq!(SortBy::Hits.toggle(), SortBy::Bandwidth);
    assert_eq!(SortBy::Bandwidth.toggle(), SortBy::Hits);
    assert_eq!(SortBy::Hits.label(), "hits");
    assert_eq!(SortBy::Bandwidth.label(), "bw");
}

#[test]
fn everything_is_shown_at_first() {
    let dc = DisplayConfig::new(true, SortBy::Bandwidth);
    assert!(dc.has_bytes && dc.show_rdns && dc.show_ua && dc.show_org);
    assert!(dc.cloud_detail && dc.show_country && dc.show_domain);
    assert_eq!(dc.sort_by, SortBy::Bandwidth);
    assert_eq!(dc.group_by, GroupBy::Ip);
}

#[test]
fn order_of_the_rows() {
    let counts = vec![
        count("b", 5, "", 1),
        count("a", 5, "", 2),
        count("c", 7, "", 0),
        count("B", 5, "", 2),
    ];
    assert_eq!(
        ips(&apply_filters(&counts, None, None, SortBy::Hits)),
        vec!["c", "B", "a", "b"]
    );
    assert_eq!(
        ips(&apply_filters(&counts, None, None, SortBy::Bandwidth)),
        vec!["B", "a", "b", "c"]
    );
}

#[test]
fn listing_order_does_not_matter() {
    let mut counts = four();
    let before = format!("{:?}", apply_filters(&counts, Top::parse("3").ok(), Some(20), SortBy::Hits));
    counts.reverse();
    let after = format!("{:?}", apply_filters(&counts, Top::parse("3").ok(), Some(20), SortBy::Hits));
    assert_eq!(before, after);
    counts.swap(0, 2);
    let after = format!("{:?}", apply_filters(&counts, Top::parse("3").ok(), Some(20), SortBy::Hits));
    assert_eq!(before, after);
}

#[test]
fn limits_and_least_counts_together() {
    let counts = four();
    assert_eq!(
        ips(&apply_filters(&counts, Top::parse("3").ok(), Some(50), SortBy::Hits)),
        vec!["192.168.1.1", "192.168.1.2"]
    );
    assert_eq!(apply_filters(&counts, Top::parse("0").ok(), None, SortBy::Hits).len(), 0);
    assert_eq!(apply_filters(&counts, Top::parse("99").ok(), None, SortBy::Hits).len(), 4);
    assert_eq!(apply_filters(&counts, Top::parse("junk").ok(), None, SortBy::Hits).len(), 4);
    assert_eq!(apply_filters(&vec![], Top::parse("10%").ok(), None, SortBy::Hits).len(), 0);
}

#[test]
fn what_is_asked_for() {
    assert_eq!(Top::parse("12"), Ok(Top::Rows(12)));
    assert_eq!(Top::parse("+12"), Ok(Top::Rows(12)));
    assert_eq!(Top::parse("-1"), Ok(Top::All));
    assert_eq!(Top::parse(""), Ok(Top::All));
    assert_eq!(Top::parse("10%"), Ok(Top::Percent(10)));
    assert_eq!(Top::parse("+10%"), Ok(Top::Percent(10)));
    assert_eq!(Top::parse("10%%"), Ok(Top::Percent(10)));
    for fraction in ["12.5%", ".5%", "5.%", "1e1%", "1E+1%", "+2.5e-1%"] {
        assert_eq!(Top::parse(fraction), Err(FractionalShare));
    }
    for junk in ["%", "x%", " 10%", "abc%", ".%", "1e%", "e5%", "1.2.3%", "++1%", "1e1.5%", "in%"] {
        assert_eq!(Top::parse(junk), Ok(Top::All));
    }
    for all in ["inf%", "+Infinity%", "99999999999999999999%"] {
        assert_eq!(Top::parse(all), Ok(Top::All));
    }
    for one in ["-5%", "-0.5%", "nan%", "-NaN%", "-inf%"] {
        assert_eq!(Top::parse(one), Ok(Top::Rows(1)));
    }
}

/// The rows that a share in percent keeps, in floating point.
fn by_floats(text: &str, len: usize) -> usize {
    let pct: f64 = text.trim_end_matches('%').parse().unwrap_or(100.0);
    ((len as f64 * pct / 100.0).ceil() as usize).max(1).min(len)
}

#[test]
fn shares_agree_with_floating_point() {
    let texts = [
        "0%", "1%", "7%", "33%", "50%", "99%", "100%", "250%", "+3%", "%", "x%", " 10%", "-5%", "-0%",
        "nan%", "-nan%", "inf%", "-inf%", "infinity%", "99999999999999999999%", "1e%", ".%", "+%",
    ];
    for text in texts {
        for len in [0, 1, 2, 3, 10, 99, 100, 101, 12345] {
            assert_eq!(Top::parse(text).unwrap().rows(len), by_floats(text, len), "{} of {}", text, len);
        }
    }
}

#[test]
fn whole_shares_are_those_of_floating_point() {
    for n in (0usize..400).chain([999, 1000, 1001, 65_535, 1_000_003, 123_456_789]) {
        for p in (0u64..=130).chain([1000, 100_000]) {
            let share = ((n as f64 * p as f64 / 100.0).ceil() as usize).max(1);
            assert_eq!(Top::Percent(p).rows(n), share.min(n));
        }
    }
}

#[test]
fn all_of_the_rows() {
    assert_eq!(Top::All.rows(7), 7);
    assert_eq!(Top::Rows(3).rows(7), 3);
    assert_eq!(Top::Rows(30).rows(7), 7);
    assert_eq!(Top::Percent(100).rows(7), 7);
    assert_eq!(Top::Percent(0).rows(7), 1);
    assert_eq!(Top::Percent(1).rows(101), 2);
}
