use ip_report::address::Network;
use ip_report::batch::{chunked, plan_lookups, record_query};
use ip_report::cloud::CloudProvider;
use ip_report::lookup::{
    apply_lookup, batch_result, from_ipinfo, ipinfo_batch_url, ipinfo_url, needs_name, read_value,
    IpInfoAsn, IpInfoCompany, IpInfoResponse, Lookup, LookupResult, Question, WhoisReader,
};
use ip_report::ranges::{CloudRange, CloudRangeCache};
use ip_report::records::{IpRecord, LookupJob};

fn some(s: &str) -> Option<String> {
    Some(s.to_string())
}

fn field(v: &serde_json::Value, key: &str) -> Option<String> {
    v[key].as_str().map(|s| s.to_string())
}

fn response(json: &str) -> IpInfoResponse {
    let v: serde_json::Value = serde_json::from_str(json).unwrap();
    IpInfoResponse {
        hostname: field(&v, "hostname"),
        country: field(&v, "country"),
        org: field(&v, "org"),
        asn: if v["asn"].is_object() {
            Some(IpInfoAsn {
                asn: field(&v["asn"], "asn"),
                name: field(&v["asn"], "name"),
                domain: field(&v["asn"], "domain"),
                route: field(&v["asn"], "route"),
                asn_type: field(&v["asn"], "type"),
            })
        } else {
            None
        },
        company: if v["company"].is_object() {
            Some(IpInfoCompany {
                name: field(&v["company"], "name"),
                domain: field(&v["company"], "domain"),
            })
        } else {
            None
        },
    }
}

const STRUCTURED: &str = r#"{
    "ip": "8.8.8.8",
    "hostname": "dns.google",
    "city": "Mountain View",
    "region": "California",
    "country": "US",
    "loc": "37.4056,-122.0775",
    "org": "AS15169 Google LLC",
    "postal": "94043",
    "timezone": "America/Los_Angeles",
    "asn": {
        "asn": "AS15169",
        "name": "Google LLC",
        "domain": "google.com",
        "route": "8.8.8.0/24",
        "type": "hosting"
    },
    "company": {
        "name": "Google LLC",
        "domain": "google.com",
        "type": "hosting"
    }
}"#;

const FREE_TIER: &str = r#"{
    "ip": "8.8.8.8",
    "city": "Mountain View",
    "region": "California",
    "country": "US",
    "loc": "37.4056,-122.0775",
    "org": "AS15169 Google LLC",
    "postal": "94043",
    "timezone": "America/Los_Angeles"
}"#;

#[test]
fn test_ipinfo_response_structured() {
    let resp = response(STRUCTURED);
    assert_eq!(resp.hostname.as_deref(), Some("dns.google"));
    assert_eq!(resp.country.as_deref(), Some("US"));
    assert_eq!(resp.org.as_deref(), Some("AS15169 Google LLC"));

    let found = from_ipinfo(&resp, some("ignored.example"), some("GCP"));
    assert_eq!(found.reverse_dns.as_deref(), Some("dns.google"));
    assert_eq!(found.org.as_deref(), Some("Google LLC"));
    assert_eq!(found.asn.as_deref(), Some("AS15169"));
    assert_eq!(found.infra.as_deref(), Some("GCP"));
    assert_eq!(found.country.as_deref(), Some("US"));
    assert_eq!(found.company_domain.as_deref(), Some("google.com"));
    assert!(found.complete);
    let stored = found.asn_to_store().unwrap();
    assert_eq!(stored.route.as_deref(), Some("8.8.8.0/24"));
    assert_eq!(stored.asn_type.as_deref(), Some("hosting"));

    let asn = resp.asn.unwrap();
    assert_eq!(asn.asn.as_deref(), Some("AS15169"));
    assert_eq!(asn.name.as_deref(), Some("Google LLC"));
    assert_eq!(asn.domain.as_deref(), Some("google.com"));
    assert_eq!(asn.route.as_deref(), Some("8.8.8.0/24"));
    assert_eq!(asn.asn_type.as_deref(), Some("hosting"));

    let company = resp.company.unwrap();
    assert_eq!(company.name.as_deref(), Some("Google LLC"));
    assert_eq!(company.domain.as_deref(), Some("google.com"));
}

#[test]
fn test_ipinfo_response_free_tier() {
    let resp = response(FREE_TIER);
    assert_eq!(resp.hostname, None);
    assert_eq!(resp.country.as_deref(), Some("US"));
    assert_eq!(resp.org.as_deref(), Some("AS15169 Google LLC"));
    assert!(resp.asn.is_none());
    assert!(resp.company.is_none());

    let found = from_ipinfo(&resp, some("a.example"), None);
    assert_eq!(found.reverse_dns.as_deref(), Some("a.example"));
    assert_eq!(found.org.as_deref(), Some("Google LLC"));
    assert_eq!(found.asn.as_deref(), Some("AS15169"));
    assert_eq!(found.company_domain, None);
    assert!(found.asn_to_store().is_none());
}

#[test]
fn answers_without_an_organisation() {
    let resp = response(r#"{"asn": {"name": "x"}}"#);
    let found = from_ipinfo(&resp, None, None);
    assert_eq!(found.org, None);
    assert_eq!(found.asn, None);
    assert!(found.asn_detail.is_some());
    // An autonomous system without a number is not stored.
    assert!(found.asn_to_store().is_none());
}

#[test]
fn addresses_of_a_batch() {
    let resp = response(STRUCTURED);
    assert!(!needs_name(Some(&resp)));
    assert!(needs_name(Some(&response(FREE_TIER))));
    assert!(needs_name(None));
    assert!(batch_result(Some(&resp), None, None).complete);
    let missing = batch_result(None, some("n"), some("AWS"));
    assert!(!missing.complete);
    assert_eq!(missing.reverse_dns.as_deref(), Some("n"));
    assert_eq!(missing.infra.as_deref(), Some("AWS"));
    assert_eq!(missing.org, None);
}

#[test]
fn urls_of_ipinfo() {
    assert_eq!(ipinfo_url("1.2.3.4", "tok"), "https://ipinfo.io/1.2.3.4?token=tok");
    assert_eq!(ipinfo_batch_url("tok"), "https://ipinfo.io/batch?token=tok");
}

fn aws_cache() -> CloudRangeCache {
    let mut cache = CloudRangeCache::new();
    cache.ipv4_ranges.push(CloudRange {
        provider: CloudProvider::AWS,
        service: some("EC2"),
        region: None,
        network: Network::parse("52.0.0.0/8").unwrap(),
    });
    cache
}

#[test]
fn lookup_with_ipinfo() {
    let cache = aws_cache();
    let lookup = Lookup::start(Some(&cache), "52.1.1.1", true, 10, 10);
    assert_eq!(lookup.question(), Question::Ipinfo);
    let lookup = lookup.ipinfo_answered(response(STRUCTURED));
    assert_eq!(lookup.question(), Question::Nothing);
    let found = lookup.result().unwrap();
    assert_eq!(found.infra.as_deref(), Some("AWS / EC2"));
    assert_eq!(found.reverse_dns.as_deref(), Some("dns.google"));
    assert!(found.complete);

    let lookup = Lookup::start(Some(&cache), "1.1.1.1", true, 11, 10);
    let lookup = lookup.ipinfo_answered(response(FREE_TIER));
    assert_eq!(lookup.question(), Question::Name);
    let found = lookup.name_resolved(some("one")).result().unwrap();
    assert_eq!(found.reverse_dns.as_deref(), Some("one"));
    assert_eq!(found.infra, None);
    assert!(found.complete);
}

#[test]
fn lookup_with_too_few_requests() {
    let cache = aws_cache();
    let lookup = Lookup::start(Some(&cache), "52.1.1.1", true, 9, 10);
    assert_eq!(lookup.question(), Question::Name);
    let found = lookup.name_resolved(None).result().unwrap();
    assert_eq!(found.infra.as_deref(), Some("AWS / EC2"));
    assert_eq!(found.reverse_dns, None);
    assert!(!found.complete);
}

#[test]
fn lookup_without_ipinfo() {
    let cache = aws_cache();
    let reader = WhoisReader::new().unwrap();
    let lookup = Lookup::start(Some(&cache), "52.1.1.1", false, 1, 10);
    let lookup = lookup.name_resolved(some("n"));
    // The address is in a range, so whois is not asked.
    assert_eq!(lookup.question(), Question::Nothing);
    assert!(lookup.result().unwrap().complete);

    let lookup = Lookup::start(None, "52.1.1.1", false, 1, 10);
    assert_eq!(lookup.question(), Question::Name);
    let lookup = lookup.name_resolved(some("n"));
    assert_eq!(lookup.question(), Question::Whois);
    let found = lookup
        .whois_answered(&reader, Some("OrgName: Acme\n"))
        .result()
        .unwrap();
    assert_eq!(found.org.as_deref(), Some("Acme"));
    assert_eq!(found.reverse_dns.as_deref(), Some("n"));
    assert!(found.complete);

    let lookup = Lookup::start(None, "52.1.1.1", false, 1, 10).name_resolved(None);
    let found = lookup.whois_answered(&reader, None).result().unwrap();
    assert_eq!(found.org, None);
    assert!(found.complete);
    assert!(Lookup::start(None, "x", false, 1, 10).result().is_none());
}

#[test]
fn answers_of_whois() {
    let reader = WhoisReader::new().unwrap();
    let org = |s: &str| reader.extract_org_from_whois(s);
    assert_eq!(org("OrgName:   Acme Corp  \r\n"), some("Acme Corp"));
    assert_eq!(org("orgname: a"), some("a"));
    assert_eq!(org("netname: NET\ndescr: Desc\norg-name: Org\n"), some("Org"));
    assert_eq!(org("descr: \ndescr: second\n"), some("second"));
    assert_eq!(org("Organization: O\nnetname: N"), some("O"));
    assert_eq!(org("netname: N"), some("N"));
    assert_eq!(org(" OrgName: indented"), None);
    assert_eq!(org(""), None);
}

#[test]
fn values_of_groups() {
    assert_eq!(read_value(&Some(vec![some("x"), some("  v ")])), some("v"));
    assert_eq!(read_value(&Some(vec![some("x"), some("  ")])), None);
    assert_eq!(read_value(&Some(vec![some("x"), None])), None);
    assert_eq!(read_value(&Some(vec![some("x")])), None);
    assert_eq!(read_value(&None), None);
}

fn record(ip: &str) -> IpRecord {
    IpRecord {
        ip: ip.to_string(),
        count: 3,
        user_agent: some("ua"),
        reverse_dns: None,
        org: some("old"),
        asn: None,
        infra: None,
        country: None,
        company_domain: None,
        bytes: 7,
        looked_up: false,
        lookup_in_progress: true,
        in_display_set: true,
    }
}

fn findings() -> LookupResult {
    LookupResult {
        reverse_dns: some("r"),
        org: None,
        asn: some("AS1"),
        infra: some("AWS"),
        country: some("DE"),
        company_domain: some("d"),
        asn_detail: None,
        complete: true,
    }
}

#[test]
fn findings_are_entered_once() {
    let mut records = vec![record("1.1.1.1"), record("2.2.2.2"), record("2.2.2.2")];
    apply_lookup(&mut records, "2.2.2.2", &findings());
    assert_eq!(records[0].reverse_dns, None);
    assert!(records[0].lookup_in_progress);
    assert_eq!(records[1].reverse_dns.as_deref(), Some("r"));
    assert_eq!(records[1].org, None);
    assert_eq!(records[1].asn.as_deref(), Some("AS1"));
    assert_eq!(records[1].infra.as_deref(), Some("AWS"));
    assert_eq!(records[1].country.as_deref(), Some("DE"));
    assert_eq!(records[1].company_domain.as_deref(), Some("d"));
    assert!(records[1].looked_up && !records[1].lookup_in_progress);
    assert_eq!(records[1].count, 3);
    assert_eq!(records[1].user_agent.as_deref(), Some("ua"));
    assert!(records[2].lookup_in_progress);
    apply_lookup(&mut records, "9.9.9.9", &findings());
    assert!(records[0].lookup_in_progress);
    assert_eq!(records.len(), 3);
}

#[test]
fn lists_in_pieces() {
    let items: Vec<String> = (0..7).map(|i| i.to_string()).collect();
    let lens = |n: usize| -> Vec<usize> { chunked(&items, n).iter().map(|c| c.len()).collect() };
    assert_eq!(lens(3), vec![3, 3, 1]);
    assert_eq!(lens(7), vec![7]);
    assert_eq!(lens(100), vec![7]);
    assert_eq!(lens(1), vec![1; 7]);
    assert_eq!(chunked(&vec![], 5).len(), 0);
    assert_eq!(chunked(&items, 3).concat(), items);
}

#[test]
fn lookups_in_batches() {
    let jobs: Vec<LookupJob> = (0..2500)
        .map(|i| LookupJob {
            ip: i.to_string(),
            count: i % 2,
        })
        .collect();
    let plan = plan_lookups(&jobs, true, 1);
    let lens: Vec<usize> = plan.batches.iter().map(|b| b.len()).collect();
    assert_eq!(lens, vec![1000, 250]);
    assert_eq!(plan.batches[0][0], "1");
    assert_eq!(plan.single.len(), 1250);
    assert!(plan.single.iter().all(|j| j.count == 0));
    let plan = plan_lookups(&jobs, false, 1);
    assert_eq!(plan.batches.len(), 0);
    assert_eq!(plan.single.len(), 2500);
}

#[test]
fn queries_for_records() {
    assert!(record_query(0).ends_with("WHERE ip IN ()"));
    assert!(record_query(1).ends_with("WHERE ip IN (?)"));
    assert!(record_query(3).ends_with("FROM ips WHERE ip IN (?,?,?)"));
    assert!(record_query(3).starts_with("SELECT ip, is_v6, user_agent, "));
}
