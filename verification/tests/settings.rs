use ip_report::display::SortBy;
use ip_report::options::{describe_selection, AnyParser, OptionError, Options, ParserChoice};
use ip_report::parsers::LogParser;

fn none() -> Options {
    Options {
        top: None,
        min: None,
        format: None,
        delimiter: None,
        ip_field: None,
        ua_field: None,
        bytes_field: None,
        sort: None,
    }
}

fn some(s: &str) -> Option<String> {
    Some(s.to_string())
}

#[test]
fn without_options() {
    let s = none().resolve().unwrap();
    assert_eq!(s.top.as_deref(), Some("10000"));
    assert_eq!(s.min, None);
    assert_eq!(s.sort_by, SortBy::Hits);
    assert!(matches!(s.parser, ParserChoice::Generic));
}

#[test]
fn rows_or_hits() {
    let mut o = none();
    o.min = Some(5);
    let s = o.resolve().unwrap();
    assert_eq!(s.top, None);
    assert_eq!(s.min, Some(5));
    o.top = some("10%");
    let e = o.resolve().unwrap_err();
    assert!(matches!(e, OptionError::TopAndMin));
    assert_eq!(e.message(), "Cannot use both --top and --min together");
}

#[test]
fn formats() {
    let mut o = none();
    o.format = some("nginx");
    o.delimiter = some(",");
    assert!(matches!(o.resolve().unwrap().parser, ParserChoice::Nginx));
    o.format = some("bunny");
    o.delimiter = None;
    o.ua_field = Some(11);
    match o.resolve().unwrap().parser {
        ParserChoice::Delimiter { delimiter, ip_field, ua_field, bytes_field } => {
            assert_eq!(delimiter, "|");
            assert_eq!(ip_field, Some(6));
            assert_eq!(ua_field, Some(11));
            assert_eq!(bytes_field, Some(4));
        }
        _ => panic!("no delimiter"),
    }
    o.format = some("apache");
    assert_eq!(
        o.resolve().unwrap_err().message(),
        "Unknown format 'apache'. Supported formats: nginx, bunny"
    );
}

#[test]
fn fields_need_a_delimiter() {
    let mut o = none();
    o.bytes_field = Some(3);
    assert_eq!(
        o.resolve().unwrap_err().message(),
        "--bytes-field requires --delimiter"
    );
    o.delimiter = some(";");
    match o.resolve().unwrap().parser {
        ParserChoice::Delimiter { delimiter, ip_field, bytes_field, .. } => {
            assert_eq!(delimiter, ";");
            assert_eq!(ip_field, None);
            assert_eq!(bytes_field, Some(3));
        }
        _ => panic!("no delimiter"),
    }
}

#[test]
fn orders() {
    let mut o = none();
    for (name, by) in [
        ("hits", SortBy::Hits),
        ("bandwidth", SortBy::Bandwidth),
        ("bw", SortBy::Bandwidth),
    ] {
        o.sort = some(name);
        assert_eq!(o.resolve().unwrap().sort_by, by);
    }
    o.sort = some("Hits");
    assert_eq!(
        o.resolve().unwrap_err().message(),
        "Unknown sort 'Hits'. Supported: hits, bandwidth (or bw)"
    );
}

#[test]
fn the_first_error_is_told() {
    let mut o = none();
    o.format = some("x");
    o.sort = some("y");
    o.bytes_field = Some(1);
    assert!(matches!(o.resolve().unwrap_err(), OptionError::UnknownFormat(_)));
    o.format = None;
    assert!(matches!(
        o.resolve().unwrap_err(),
        OptionError::BytesFieldWithoutDelimiter
    ));
    o.bytes_field = None;
    assert!(matches!(o.resolve().unwrap_err(), OptionError::UnknownSort(_)));
}

#[test]
fn parsers_of_choice() {
    let p = ParserChoice::Nginx.make().unwrap();
    assert!(matches!(p, AnyParser::Nginx(_)));
    assert!(p.has_bytes());
    assert!(p.parse_line("1.2.3.4").is_none());
    let p = ParserChoice::Generic.make().unwrap();
    assert!(!p.has_bytes());
    assert!(p.parse_line("1.2.3.4").is_some());
    let p = ParserChoice::Delimiter {
        delimiter: ",".to_string(),
        ip_field: Some(2),
        ua_field: None,
        bytes_field: Some(1),
    }
    .make()
    .unwrap();
    assert!(p.has_bytes());
    assert_eq!(p.parse_line("7,1.2.3.4").unwrap().bytes, 7);
}

#[test]
fn how_the_report_was_cut_down() {
    assert_eq!(describe_selection(Some("10%"), None, 40), "top 10% of 40");
    assert_eq!(describe_selection(None, Some(3), 40), "min 3 of 40");
    assert_eq!(describe_selection(None, None, 40), "40");
}
