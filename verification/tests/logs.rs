use std::io::{BufRead, BufReader, Write};

use ip_report::address::IpAddress;
use ip_report::log::{extract_ua_base, FilterError, Filters, IpCount, LineOutcome, LogTally};
use ip_report::pattern::compile;
use ip_report::parsers::{
    captured_address, first_word_address, quoted, read_combined, DelimiterParser, GenericParser,
    LogParser, NginxParser,
};

struct Outcome {
    ips: Vec<IpCount>,
    total: u64,
    agents: Vec<(String, u64, u64)>,
}

impl Outcome {
    fn ip(&self, ip: &str) -> &IpCount {
        self.ips.iter().find(|c| c.ip == ip).unwrap()
    }

    fn agent(&self, name: &str) -> Option<u64> {
        self.agents.iter().find(|a| a.0 == name).map(|a| a.1)
    }

    fn agent_bytes(&self, name: &str) -> Option<u64> {
        self.agents.iter().find(|a| a.0 == name).map(|a| a.2)
    }
}

fn read_all<P: LogParser>(
    lines: &[&str],
    filter: Option<&str>,
    ua_filter: Option<&str>,
    max: Option<u64>,
    parser: &P,
) -> Outcome {
    let filters = Filters::compile(filter, ua_filter).unwrap();
    let mut tally = LogTally::new();
    for line in lines {
        let line = format!("{}\n", line);
        match tally.read_line(parser, &filters, max, &line) {
            LineOutcome::LimitReached => break,
            LineOutcome::Overflow => panic!("overflow"),
            _ => {}
        }
    }
    Outcome {
        ips: tally.ip_counts(),
        total: tally.lines(),
        agents: tally
            .ua_counts()
            .iter()
            .map(|r| (r.name.clone(), r.count, r.bytes))
            .collect(),
    }
}

fn generic(lines: &[&str]) -> Outcome {
    read_all(lines, None, None, None, &GenericParser::new().unwrap())
}

#[test]
fn test_parse_file_with_user_agents() {
    let r = generic(&[
        "192.168.1.1 \"Mozilla/5.0 (Windows NT 10.0)\"",
        "192.168.1.2 \"Mozilla/5.1 (Linux)\"",
        "192.168.1.3 \"curl/7.64.0\"",
        "192.168.1.4 \"curl/8.1.2\"",
        "192.168.1.5 \"Python-requests/2.28.0\"",
        "192.168.1.1 \"Mozilla/5.0 (Mac)\"",
    ]);

    assert_eq!(r.total, 6);
    assert_eq!(r.ips.len(), 5); // 5 unique IPs

    // Check global UA counts (base names only)
    assert_eq!(r.agents.len(), 3); // Mozilla, curl, Python-requests
    assert_eq!(r.agent("Mozilla"), Some(3)); // 2 from different IPs + 1 repeated IP
    assert_eq!(r.agent("curl"), Some(2));
    assert_eq!(r.agent("Python-requests"), Some(1));

    // Check IP counts
    assert_eq!(r.ip("192.168.1.1").count, 2); // Appears twice
    assert_eq!(r.ip("192.168.1.3").count, 1);

    // Check that full UA string is preserved for individual IPs
    let ip1_ua = &r.ip("192.168.1.1").user_agent;
    assert!(ip1_ua.is_some());
    // Should be one of the full strings, not just "Mozilla"
    assert!(ip1_ua.as_ref().unwrap().contains("/"));
}

#[test]
fn test_parse_file_delimiter_mode() {
    let r = read_all(
        &[
            "192.168.1.1,200,GET,curl/7.64.0",
            "192.168.1.2,404,POST,wget/1.20",
            "192.168.1.1,200,GET,curl/8.0.0",
        ],
        None,
        None,
        None,
        &DelimiterParser::new(",", Some(1), Some(4), None),
    );

    assert_eq!(r.total, 3);
    assert_eq!(r.ips.len(), 2);

    // Check global UA counts
    assert_eq!(r.agent("curl"), Some(2));
    assert_eq!(r.agent("wget"), Some(1));
}

#[test]
fn test_parse_file_with_filters() {
    // Filter only GET requests
    let r = read_all(
        &[
            "192.168.1.1 GET \"Mozilla/5.0\"",
            "192.168.1.2 POST \"curl/7.64.0\"",
            "192.168.1.3 GET \"wget/1.20\"",
        ],
        Some("GET"),
        None,
        None,
        &GenericParser::new().unwrap(),
    );

    assert_eq!(r.total, 2); // Only GET requests
    assert_eq!(r.ips.len(), 2);
    assert_eq!(r.agents.len(), 2); // Mozilla and wget
    assert!(r.agent("Mozilla").is_some());
    assert!(r.agent("wget").is_some());
    assert!(r.agent("curl").is_none()); // Filtered out
}

#[test]
fn test_parse_file_ua_filter() {
    // Filter only curl user agents
    let r = read_all(
        &[
            "192.168.1.1 \"Mozilla/5.0\"",
            "192.168.1.2 \"curl/7.64.0\"",
            "192.168.1.3 \"wget/1.20\"",
        ],
        None,
        Some("curl"),
        None,
        &GenericParser::new().unwrap(),
    );

    assert_eq!(r.total, 1); // Only curl
    assert_eq!(r.ips.len(), 1);
    assert_eq!(r.agents.len(), 1);
    assert_eq!(r.agent("curl"), Some(1));
}

#[test]
fn test_parse_file_with_bytes_field() {
    let r = read_all(
        &[
            "192.168.1.1;200;1024;curl/7.64.0",
            "192.168.1.1;200;2048;curl/7.64.0",
            "192.168.1.2;404;512;wget/1.20",
        ],
        None,
        None,
        None,
        &DelimiterParser::new(";", Some(1), Some(4), Some(3)),
    );

    assert_eq!(r.total, 3);
    assert_eq!(r.ips.len(), 2);

    // IP 192.168.1.1 should have 1024 + 2048 = 3072 bytes
    assert_eq!(r.ip("192.168.1.1").bytes, 3072);
    // IP 192.168.1.2 should have 512 bytes
    assert_eq!(r.ip("192.168.1.2").bytes, 512);

    // Global UA bytes: curl = 3072, wget = 512
    assert_eq!(r.agent_bytes("curl"), Some(3072));
    assert_eq!(r.agent_bytes("wget"), Some(512));
}

#[test]
fn test_parse_file_nginx_format() {
    let r = read_all(
        &[
            r#"192.168.1.1 - - [10/Oct/2023:13:55:36 +0000] "GET /index.html HTTP/1.1" 200 2326 "http://example.com" "Mozilla/5.0 (Windows NT 10.0)""#,
            r#"192.168.1.1 - frank [10/Oct/2023:13:55:37 +0000] "POST /api/data HTTP/1.1" 201 512 "-" "curl/7.64.0""#,
            r#"10.0.0.1 - - [10/Oct/2023:13:55:38 +0000] "GET /style.css HTTP/1.1" 304 0 "http://example.com/index.html" "Mozilla/5.0 (Linux)""#,
        ],
        None,
        None,
        None,
        &NginxParser::new().unwrap(),
    );

    assert_eq!(r.total, 3);
    assert_eq!(r.ips.len(), 2);

    // 192.168.1.1: 2 hits, 2326 + 512 = 2838 bytes
    let ip1 = r.ip("192.168.1.1");
    assert_eq!(ip1.count, 2);
    assert_eq!(ip1.bytes, 2838);

    // 10.0.0.1: 1 hit, 0 bytes
    let ip2 = r.ip("10.0.0.1");
    assert_eq!(ip2.count, 1);
    assert_eq!(ip2.bytes, 0);

    // UA counts
    assert_eq!(r.agent("Mozilla"), Some(2));
    assert_eq!(r.agent("curl"), Some(1));

    // UA bytes
    assert_eq!(r.agent_bytes("Mozilla"), Some(2326));
    assert_eq!(r.agent_bytes("curl"), Some(512));
}

#[test]
fn test_parse_file_nginx_format_ipv6() {
    let r = read_all(
        &[r#"2001:db8::1 - - [10/Oct/2023:13:55:36 +0000] "GET / HTTP/1.1" 200 1024 "-" "curl/8.0""#],
        None,
        None,
        None,
        &NginxParser::new().unwrap(),
    );

    assert_eq!(r.total, 1);
    assert_eq!(r.ips.len(), 1);

    let rec = r.ip("2001:db8::1");
    assert_eq!(rec.count, 1);
    assert_eq!(rec.is_v6, true); // is_v6
    assert_eq!(rec.bytes, 1024);
}

#[test]
fn test_extract_ua_base() {
    assert_eq!(extract_ua_base("Mozilla/5.0"), "Mozilla");
    assert_eq!(extract_ua_base("curl/7.64.0"), "curl");
    assert_eq!(extract_ua_base("Python-requests/2.28.0"), "Python-requests");
    assert_eq!(extract_ua_base("SimpleUA"), "SimpleUA"); // No slash
    assert_eq!(extract_ua_base(""), "");
}

#[test]
fn base_of_other_texts() {
    assert_eq!(extract_ua_base("/5.0"), "");
    assert_eq!(extract_ua_base("a/b/c"), "a");
    assert_eq!(extract_ua_base("Ünï/1"), "Ünï");
}

#[test]
fn test_ipv6_parsing_and_matching() {
    let r = generic(&[
        "2600:9000::1 \"CloudFront\"",
        "2606:4700::1 \"Cloudflare\"",
        "::1 \"localhost\"",
    ]);

    assert_eq!(r.total, 3);
    assert_eq!(r.ips.len(), 3);

    // Check IPv6 flag is set
    assert_eq!(r.ip("2600:9000::1").is_v6, true); // is_v6 = true
    assert_eq!(r.ip("::1").is_v6, true);

    // Check UA counts
    assert_eq!(r.agent("CloudFront"), Some(1));
    assert_eq!(r.agent("Cloudflare"), Some(1));
    assert_eq!(r.agent("localhost"), Some(1));
}

#[test]
fn test_multiple_ips_same_ua() {
    let r = generic(&[
        "192.168.1.1 \"curl/7.64.0\"",
        "192.168.1.2 \"curl/7.64.0\"",
        "192.168.1.3 \"curl/7.65.0\"",
        "192.168.1.4 \"curl/8.0.0\"",
    ]);

    assert_eq!(r.total, 4);
    assert_eq!(r.ips.len(), 4);

    // All should be grouped under "curl"
    assert_eq!(r.agents.len(), 1);
    assert_eq!(r.agent("curl"), Some(4));
}

#[test]
fn test_no_user_agent() {
    let r = generic(&[
        "192.168.1.1",
        "192.168.1.2 \"\"",
        "192.168.1.3 \"curl/7.64.0\"",
    ]);

    assert_eq!(r.total, 3);
    assert_eq!(r.ips.len(), 3);

    // Only curl should be counted
    assert_eq!(r.agents.len(), 1);
    assert_eq!(r.agent("curl"), Some(1));
}

#[test]
fn test_parse_files_gzip() {
    let mut gz = flate2::write::GzEncoder::new(Vec::new(), flate2::Compression::default());
    gz.write_all(b"192.168.1.1 \"curl/7.64.0\"\n192.168.1.2 \"wget/1.20\"\n192.168.1.1 \"curl/8.0.0\"\n")
        .unwrap();
    let packed = gz.finish().unwrap();

    let lines: Vec<String> = BufReader::new(flate2::read::GzDecoder::new(packed.as_slice()))
        .lines()
        .map(|l| l.unwrap())
        .collect();
    let refs: Vec<&str> = lines.iter().map(|l| l.as_str()).collect();
    let r = generic(&refs);

    assert_eq!(r.total, 3);
    assert_eq!(r.ips.len(), 2);
    assert_eq!(r.ip("192.168.1.1").count, 2);
    assert_eq!(r.ip("192.168.1.2").count, 1);
    assert_eq!(r.agent("curl"), Some(2));
    assert_eq!(r.agent("wget"), Some(1));
}

#[test]
fn test_parse_files_multiple() {
    // Two files, one after the other.
    let a = ["192.168.1.1 \"curl/7.64.0\"", "192.168.1.2 \"wget/1.20\""];
    let b = ["192.168.1.1 \"curl/8.0.0\"", "10.0.0.1 \"Python-requests/2.28\""];
    let lines: Vec<&str> = a.iter().chain(b.iter()).copied().collect();
    let r = generic(&lines);

    assert_eq!(r.total, 4);
    assert_eq!(r.ips.len(), 3); // 192.168.1.1, 192.168.1.2, 10.0.0.1
    assert_eq!(r.ip("192.168.1.1").count, 2); // aggregated across files
    assert_eq!(r.agent("curl"), Some(2));
    assert_eq!(r.agent("wget"), Some(1));
    assert_eq!(r.agent("Python-requests"), Some(1));
}

#[test]
fn counts_add_up() {
    let r = read_all(
        &[
            "10.0.0.1|5|a/1",
            "10.0.0.2|7|b/1",
            "10.0.0.1|11|a/2",
            "x|1|c/1",
            "::1|13|",
        ],
        None,
        None,
        None,
        &DelimiterParser::new("|", Some(1), Some(3), Some(2)),
    );
    assert_eq!(r.total, 4);
    assert_eq!(r.ips.iter().map(|c| c.count).sum::<u64>(), 4);
    assert_eq!(r.ips.iter().map(|c| c.bytes).sum::<u64>(), 36);
    assert_eq!(r.agents.iter().map(|a| a.1).sum::<u64>(), 3);
    assert_eq!(r.ip("::1").user_agent, None);
    // Addresses come in the order in which they were first seen.
    let order: Vec<&str> = r.ips.iter().map(|c| c.ip.as_str()).collect();
    assert_eq!(order, vec!["10.0.0.1", "10.0.0.2", "::1"]);
}

#[test]
fn the_agent_that_came_most_often() {
    let r = generic(&[
        "10.0.0.1 \"a\"",
        "10.0.0.1 \"b\"",
        "10.0.0.1 \"b\"",
        "10.0.0.1 \"a\"",
        "10.0.0.1 \"b\"",
        "10.0.0.2 \"c\"",
        "10.0.0.2 \"d\"",
    ]);
    assert_eq!(r.ip("10.0.0.1").user_agent.as_deref(), Some("b"));
    // The first one where two came equally often.
    assert_eq!(r.ip("10.0.0.2").user_agent.as_deref(), Some("c"));
}

#[test]
fn limit_on_lines() {
    let lines = ["10.0.0.1 \"a\"", "junk", "10.0.0.2 \"b\"", "10.0.0.3 \"c\""];
    let parser = GenericParser::new().unwrap();
    // The line that reaches the limit is the last one that counts.
    let r = read_all(&lines, None, None, Some(2), &parser);
    assert_eq!(r.total, 2);
    assert_eq!(r.ips.len(), 2);
    let r = read_all(&lines, None, None, Some(1), &parser);
    assert_eq!(r.total, 1);
    assert_eq!(r.ips.len(), 1);
    assert_eq!(r.ip("10.0.0.1").count, 1);
    let twice = ["1.1.1.1", "1.1.1.1", "2.2.2.2"];
    let r = read_all(&twice, None, None, Some(2), &parser);
    assert_eq!(r.total, 2);
    assert_eq!(r.ips.len(), 1);
    assert_eq!(r.ip("1.1.1.1").count, 2);
    let empty = LogTally::new();
    assert!(empty.is_full(Some(0)) && !empty.is_full(Some(1)) && !empty.is_full(None));
    let r = read_all(&lines, None, None, Some(100), &parser);
    assert_eq!(r.total, 3);
    assert_eq!(r.ips.len(), 3);
}

#[test]
fn two_logs_add_up() {
    let parser = GenericParser::new().unwrap();
    let a = ["10.0.0.1 \"x/1\"", "10.0.0.2 \"y/1\""];
    let b = ["10.0.0.2 \"x/2\"", "junk", "10.0.0.3"];
    let both: Vec<&str> = a.iter().chain(b.iter()).copied().collect();
    let ra = read_all(&a, None, None, None, &parser);
    let rb = read_all(&b, None, None, None, &parser);
    let r = read_all(&both, None, None, None, &parser);
    assert_eq!(r.total, ra.total + rb.total);
    assert_eq!(r.total, r.ips.iter().map(|c| c.count).sum::<u64>());
    assert_eq!(r.ip("10.0.0.2").count, 2);
    assert_eq!(r.ip("10.0.0.1").count, ra.ip("10.0.0.1").count);
    assert_eq!(r.ip("10.0.0.3").count, rb.ip("10.0.0.3").count);
    assert_eq!(r.agents, vec![("x".to_string(), 2, 0), ("y".to_string(), 1, 0)]);
}

#[test]
fn refused_filters_are_named_in_turn() {
    let cause = |p: &str| compile(p).unwrap_err().cause;
    match Filters::compile(Some("("), Some("[")) {
        Err(FilterError::InvalidFilter(e)) => assert_eq!(e.cause, cause("(")),
        _ => panic!("the filter for lines goes first"),
    }
    match Filters::from_compiled(Some(("a", compile("a"))), Some(("[", compile("[")))) {
        Err(FilterError::InvalidUaFilter(e)) => assert_eq!(e.cause, cause("[")),
        _ => panic!("the filter for user agents is wrong"),
    }
    assert!(Filters::from_compiled(Some(("a", compile("a"))), None).is_ok());
}

#[test]
fn sums_that_do_not_fit() {
    let parser = DelimiterParser::new(",", Some(1), Some(3), Some(2));
    let filters = Filters::compile(None, None).unwrap();
    let mut tally = LogTally::new();
    let big = "10.0.0.1,18446744073709551615,a/1";
    assert_eq!(tally.read_line(&parser, &filters, None, big), LineOutcome::Counted);
    assert_eq!(
        tally.read_line(&parser, &filters, None, "10.0.0.1,1,b/1"),
        LineOutcome::Overflow
    );
    assert_eq!(
        tally.read_line(&parser, &filters, None, "10.0.0.2,1,a/2"),
        LineOutcome::Overflow
    );
    assert_eq!(
        tally.read_line(&parser, &filters, None, "10.0.0.2,1,b/2"),
        LineOutcome::Counted
    );
    assert_eq!(
        tally.read_line(&parser, &filters, None, "none"),
        LineOutcome::Skipped
    );
    assert_eq!(tally.lines(), 2);
}

#[test]
fn refused_filters() {
    assert!(matches!(
        Filters::compile(Some("("), None),
        Err(FilterError::InvalidFilter(_))
    ));
    assert!(matches!(
        Filters::compile(None, Some("[")),
        Err(FilterError::InvalidUaFilter(_))
    ));
    assert!(matches!(
        Filters::compile(Some("("), Some("[")),
        Err(FilterError::InvalidFilter(_))
    ));
    assert!(Filters::compile(Some("(?i)error|warning"), Some("bot")).is_ok());
}

#[test]
fn agent_filter_needs_an_agent() {
    let r = read_all(
        &["10.0.0.1", "10.0.0.2 \"Bot/1\""],
        None,
        Some("(?i)bot"),
        None,
        &GenericParser::new().unwrap(),
    );
    assert_eq!(r.total, 1);
    assert_eq!(r.ips[0].ip, "10.0.0.2");
}

#[test]
fn white_space_at_the_end_is_no_part_of_a_line() {
    let r = read_all(
        &["10.0.0.1,x \t\r"],
        Some("x$"),
        None,
        None,
        &DelimiterParser::new(",", None, None, None),
    );
    assert_eq!(r.total, 1);
    assert_eq!(r.ips[0].user_agent.as_deref(), Some("x"));
}

fn hit<P: LogParser>(p: &P, line: &str) -> Option<(String, Option<String>, u64)> {
    p.parse_line(line)
        .map(|l| (l.ip.to_text(), l.user_agent, l.bytes))
}

fn found(ip: &str, ua: Option<&str>, bytes: u64) -> Option<(String, Option<String>, u64)> {
    Some((ip.to_string(), ua.map(|s| s.to_string()), bytes))
}

#[test]
fn fields_by_number() {
    let p = DelimiterParser::new("|", Some(6), Some(10), Some(4));
    assert_eq!(
        hit(&p, "HIT|200|1507167062421|412|390|163.172.53.229|-|https://x|WA|Mozilla/5.0|id|DE"),
        found("163.172.53.229", Some("Mozilla/5.0"), 412)
    );
    assert!(p.has_bytes());
    assert!(!DelimiterParser::new("|", None, None, None).has_bytes());
    // Missing fields.
    assert_eq!(hit(&p, "HIT|200|x|412|390"), None);
    assert_eq!(hit(&p, "HIT|200|x| 412 |390|1.2.3.4"), found("1.2.3.4", None, 412));
    assert_eq!(hit(&p, "HIT|200|x|many|390|1.2.3.4|a|b|c|"), found("1.2.3.4", None, 0));
    // Field 0 is the first one.
    let p = DelimiterParser::new(",", Some(0), None, None);
    assert_eq!(hit(&p, "1.2.3.4,ua"), found("1.2.3.4", None, 0));
}

#[test]
fn fields_without_numbers() {
    let p = DelimiterParser::new(",", None, None, Some(1));
    assert_eq!(
        hit(&p, "99,x,1.2.3.4,5.6.7.8,agent,,"),
        found("1.2.3.4", Some("agent"), 99)
    );
    assert_eq!(hit(&p, "99,x"), None);
    let p = DelimiterParser::new(",", None, Some(2), None);
    assert_eq!(hit(&p, "1.2.3.4,,z"), found("1.2.3.4", None, 0));
    assert_eq!(hit(&p, "1.2.3.4,y,z"), found("1.2.3.4", Some("y"), 0));
    let p = DelimiterParser::new("--", None, None, None);
    assert_eq!(hit(&p, "a--1.2.3.4--b"), found("1.2.3.4", Some("b"), 0));
}

#[test]
fn generic_lines() {
    let p = GenericParser::new().unwrap();
    assert!(!p.has_bytes());
    assert_eq!(hit(&p, "  1.2.3.4 x"), found("1.2.3.4", None, 0));
    assert_eq!(
        hit(&p, "from 10.20.30.40 \"GET /\" \"agent\""),
        found("10.20.30.40", Some("agent"), 0)
    );
    assert_eq!(hit(&p, "from 2001:db8:0:0:0:0:0:1 x"), found("2001:db8::1", None, 0));
    // Compressed addresses are found whole, wherever the double colon stands.
    assert_eq!(hit(&p, "from 2001:db8::1 ok"), found("2001:db8::1", None, 0));
    assert_eq!(hit(&p, "from ::1 ok"), found("::1", None, 0));
    assert_eq!(hit(&p, "from 2001:db8:: ok"), found("2001:db8::", None, 0));
    assert_eq!(hit(&p, "from 2001:db8::1:2:3 ok"), found("2001:db8::1:2:3", None, 0));
    assert_eq!(hit(&p, "from 2001:db8:1:2:3::4"), found("2001:db8:1:2:3::4", None, 0));
    assert_eq!(hit(&p, "from 1:2:3:4:5:6:7:: ok"), found("1:2:3:4:5:6:7:0", None, 0));
    assert_eq!(hit(&p, "from ::2:3:4:5:6:7:8 ok"), found("0:2:3:4:5:6:7:8", None, 0));
    assert_eq!(hit(&p, "from 1::8."), found("1::8", None, 0));
    assert_eq!(hit(&p, "from :: ok"), found("::", None, 0));
    assert_eq!(hit(&p, "[10/Oct/2023:13:55:36 +0000] [::1]:8080"), found("::1", None, 0));
    assert_eq!(hit(&p, "client:2001:db8::1, up"), found("2001:db8::1", None, 0));
    assert_eq!(hit(&p, "from ::ffff:192.0.2.1 ok"), found("::ffff:192.0.2.1", None, 0));
    assert_eq!(hit(&p, "from 64:ff9b::192.0.2.33"), found("64:ff9b::c000:221", None, 0));
    assert_eq!(hit(&p, "via 1:2:3:4:5:6:1.2.3.4!"), found("1:2:3:4:5:6:102:304", None, 0));
    // An IPv4 address goes before an IPv6 address.
    assert_eq!(hit(&p, "from 2001:db8::1 to 10.0.0.1"), found("10.0.0.1", None, 0));
    // It is a part of a longer address only where that address ends with it.
    assert_eq!(hit(&p, "from 10.0.0.2 via ::ffff:1.2.3.4"), found("10.0.0.2", None, 0));
    assert_eq!(hit(&p, "from 1.2.3.4 via ::ffff:1.2.3.4"), found("1.2.3.4", None, 0));
    assert_eq!(hit(&p, "from ::ffff:1.2.3.4 via 1.2.3.4"), found("::ffff:1.2.3.4", None, 0));
    assert_eq!(hit(&p, "at 13:55:36:1.2.3.4"), found("1.2.3.4", None, 0));
    assert_eq!(hit(&p, "from 0:1:2:3:4:5:6:1.2.3.4"), found("1.2.3.4", None, 0));
    // A double colon in a word is an address too, and the first match counts.
    assert_eq!(hit(&p, "at std::io x"), found("::", None, 0));
    assert_eq!(hit(&p, "std::io 2001:db8::1"), found("::", None, 0));
    assert_eq!(hit(&p, "x ::1 2001:db8:0:0:0:0:0:5"), found("2001:db8::5", None, 0));
    assert_eq!(hit(&p, "from 1:2:3:4::5:6:7:8 x"), found("1:2:3:4::", None, 0));
    assert_eq!(hit(&p, "on 2001:db8::1:http"), found("2001:db8::1", None, 0));
    assert_eq!(hit(&p, "at 13:55:36 x"), None);
    // A match that is no address is passed over.
    assert_eq!(hit(&p, "999.1.1.1 and 2001:db8:1:2:3:4:5:6"), found("2001:db8:1:2:3:4:5:6", None, 0));
    assert_eq!(hit(&p, "nothing"), None);
    assert_eq!(hit(&p, ""), None);
}

#[test]
fn nginx_lines() {
    let p = NginxParser::new().unwrap();
    assert!(p.has_bytes());
    assert_eq!(
        hit(&p, r#"1.2.3.4 - - [t] "GET /" 200 17 "-" "a b""#),
        found("1.2.3.4", Some("a b"), 17)
    );
    assert_eq!(
        hit(&p, r#"1.2.3.4 - - [t] "GET /" 200 99999999999999999999 "-" """#),
        found("1.2.3.4", None, 0)
    );
    assert_eq!(hit(&p, r#"host - - [t] "GET /" 200 17 "-" "a""#), None);
    assert_eq!(hit(&p, "1.2.3.4"), None);
}

#[test]
fn groups_of_a_match() {
    let g = |s: &str| Some(s.to_string());
    let line = read_combined(&vec![g("all"), g("1.2.3.4"), g("5"), g("ua")]).unwrap();
    assert_eq!(line.ip, IpAddress::V4(0x01020304));
    assert_eq!(line.bytes, 5);
    assert_eq!(line.user_agent.as_deref(), Some("ua"));
    let line = read_combined(&vec![g("all"), g("::1"), None, g("")]).unwrap();
    assert_eq!(line.bytes, 0);
    assert_eq!(line.user_agent, None);
    assert!(read_combined(&vec![g("1.2.3.4")]).is_none());
    assert!(read_combined(&vec![g("x"), None, g("5"), g("ua")]).is_none());
    assert_eq!(
        captured_address(&Some(vec![g("x"), g("1.2.3.4")])),
        Some(IpAddress::V4(0x01020304))
    );
    assert_eq!(captured_address(&Some(vec![g("1.2.3.4")])), None);
    assert_eq!(captured_address(&None), None);
}

#[test]
fn parts_of_a_line() {
    assert_eq!(quoted("a \"b\" c \"d\" e").as_deref(), Some("d"));
    assert_eq!(quoted("a \"b"), None);
    assert_eq!(quoted("a"), None);
    assert_eq!(quoted("\"\"").as_deref(), Some(""));
    assert_eq!(first_word_address("\t::1 x"), Some(IpAddress::V6(1)));
    assert_eq!(first_word_address("x ::1"), None);
    assert_eq!(first_word_address("   "), None);
}
