use ip_report::log::IpCount;
use ip_report::records::{
    list_candidates, reselect, skipped_count, unknown_ips, CachedRow, Candidate, IpRecord,
};

fn some(s: &str) -> Option<String> {
    Some(s.to_string())
}

fn counted(ip: &str, count: u64, ua: Option<&str>) -> IpCount {
    IpCount {
        ip: ip.to_string(),
        count,
        is_v6: false,
        user_agent: ua.map(|s| s.to_string()),
        bytes: count * 10,
    }
}

fn cached(ip: &str, looked_up: bool) -> CachedRow {
    CachedRow {
        ip: ip.to_string(),
        is_v6: false,
        user_agent: some("cached ua"),
        reverse_dns: some("cached dns"),
        org: some("cached org"),
        asn: None,
        looked_up,
        infra: None,
        country: some("DE"),
        company_domain: None,
    }
}

fn full() -> Vec<IpCount> {
    vec![
        counted("a", 100, Some("ua a")),
        counted("b", 50, None),
        counted("c", 20, None),
        counted("d", 5, None),
    ]
}

fn display() -> Vec<IpCount> {
    full().into_iter().take(1).collect()
}

fn ips(c: &[Candidate]) -> Vec<(&str, bool)> {
    c.iter().map(|c| (c.counted.ip.as_str(), c.in_display)).collect()
}

#[test]
fn who_gets_a_record() {
    let chosen = list_candidates(&display(), &full(), false, 10);
    assert_eq!(ips(&chosen), vec![("a", true)]);
    assert_eq!(skipped_count(&full(), &chosen), 3);
    let chosen = list_candidates(&display(), &full(), true, 10);
    assert_eq!(ips(&chosen), vec![("a", true), ("b", false), ("c", false)]);
    // What gets a record and what is skipped add up.
    assert_eq!(skipped_count(&full(), &chosen), 1);
    assert_eq!(chosen.len() + skipped_count(&full(), &chosen), full().len());
    let chosen = list_candidates(&display(), &full(), true, 0);
    assert_eq!(skipped_count(&full(), &chosen), 0);
}

#[test]
fn new_records() {
    let chosen = list_candidates(&display(), &full(), true, 10);
    let r = reselect(&chosen, &vec![], &vec![cached("b", true), cached("c", false)]);
    assert_eq!(r.records.len(), 3);
    // Nothing is stored of the first.
    assert_eq!(r.records[0].user_agent.as_deref(), Some("ua a"));
    assert_eq!(r.records[0].org, None);
    assert!(!r.records[0].looked_up && r.records[0].lookup_in_progress);
    assert!(r.records[0].in_display_set);
    // The second was looked up before.
    assert_eq!(r.records[1].user_agent.as_deref(), Some("cached ua"));
    assert_eq!(r.records[1].org.as_deref(), Some("cached org"));
    assert!(r.records[1].looked_up && !r.records[1].lookup_in_progress);
    assert_eq!(r.records[1].bytes, 500);
    assert!(!r.records[1].in_display_set);
    // The third is stored but was not looked up.
    assert!(!r.records[2].looked_up && r.records[2].lookup_in_progress);
    let jobs: Vec<(&str, u64)> = r.jobs.iter().map(|j| (j.ip.as_str(), j.count)).collect();
    assert_eq!(jobs, vec![("a", 100), ("c", 20)]);
    assert_eq!(r.inserts, vec![0]);
}

#[test]
fn records_that_are_kept() {
    let chosen = list_candidates(&display(), &full(), true, 10);
    let mut before = reselect(&chosen, &vec![], &vec![]).records;
    before[0].org = some("found");
    before[0].looked_up = true;
    before[0].lookup_in_progress = false;
    before[1].user_agent = some("seen before");
    let swapped: Vec<IpCount> = full().into_iter().skip(1).take(1).collect();
    let again = list_candidates(&swapped, &full(), true, 0);
    assert_eq!(ips(&again), vec![("b", true), ("a", false), ("c", false), ("d", false)]);
    assert_eq!(unknown_ips(&again, &before), vec!["d".to_string()]);
    let r = reselect(&again, &before, &vec![cached("a", false), cached("d", true)]);
    assert_eq!(r.records[0].ip, "b");
    assert_eq!(r.records[0].user_agent.as_deref(), Some("seen before"));
    assert!(r.records[0].in_display_set);
    // A lookup on its way stays so, and is not started again.
    assert!(r.records[0].lookup_in_progress);
    assert_eq!(r.records[1].org.as_deref(), Some("found"));
    assert!(r.records[1].looked_up);
    assert!(!r.records[1].in_display_set);
    assert_eq!(r.records[3].org.as_deref(), Some("cached org"));
    assert_eq!(r.jobs.len(), 0);
    assert_eq!(r.inserts.len(), 0);
}

fn show(records: &[IpRecord]) -> String {
    format!("{:?}", records)
}

#[test]
fn selecting_twice_changes_nothing() {
    let chosen = list_candidates(&display(), &full(), true, 0);
    let first = reselect(&chosen, &vec![], &vec![cached("b", true)]);
    let second = reselect(&chosen, &first.records, &vec![cached("a", true)]);
    assert_eq!(show(&second.records), show(&first.records));
    assert_eq!(second.jobs.len(), 0);
    assert_eq!(second.inserts.len(), 0);
}
