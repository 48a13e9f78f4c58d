use ip_report::lookup::WhoisReader;
use ip_report::parsers::{GenericParser, LogParser, NginxParser};
use ip_report::pattern::{compilation, compile};

const WHOIS: [&str; 5] = [
    "(?i)^OrgName:\\s*(.+)$",
    "(?i)^org-name:\\s*(.+)$",
    "(?i)^Organization:\\s*(.+)$",
    "(?i)^descr:\\s*(.+)$",
    "(?i)^netname:\\s*(.+)$",
];

#[test]
fn compiling_gives_the_expression_or_the_cause() {
    assert_eq!(compile("PO(S)T").unwrap().as_str(), "PO(S)T");
    let cause = regex::Regex::new("(").unwrap_err();
    assert_eq!(compile("(").unwrap_err().cause, cause);
    assert_eq!(
        compilation(Err(cause.clone())).unwrap_err().cause,
        cause
    );
    assert_eq!(
        compilation(regex::Regex::new("a+")).unwrap().as_str(),
        "a+"
    );
}

#[test]
fn parsers_hand_back_what_failed() {
    let of = |p: &str| compile(p).unwrap_err().cause;
    assert_eq!(
        NginxParser::from_compiled(compile("(")).err().unwrap().cause,
        of("(")
    );
    // The error of the first expression comes back.
    assert_eq!(
        GenericParser::from_compiled(["[", "(", "a", "*", "b"].iter().map(|p| compile(p)).collect())
            .err()
            .unwrap()
            .cause,
        of("[")
    );
    assert!(NginxParser::new().unwrap().has_bytes());
    assert!(!GenericParser::new().unwrap().has_bytes());
}

#[test]
fn a_reader_needs_all_its_patterns() {
    let all = WHOIS.iter().map(|p| compile(p)).collect();
    let reader = WhoisReader::from_compiled(all).unwrap();
    assert_eq!(
        reader
            .extract_org_from_whois("netname: NET\nOrgName:  Acme Inc. \n")
            .as_deref(),
        Some("Acme Inc.")
    );
    let some = vec![
        compile(WHOIS[0]),
        compile("["),
        compile(WHOIS[2]),
        compile("("),
        compile(WHOIS[4]),
    ];
    assert_eq!(
        WhoisReader::from_compiled(some).err().unwrap().cause,
        compile("[").unwrap_err().cause
    );
}
