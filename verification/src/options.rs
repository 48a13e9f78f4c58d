//! The options of the command line, and what they come to.
use vstd::prelude::*;

use crate::display::SortBy;
use crate::parsers::{DelimiterParser, GenericParser, Hit, LogParser, NginxParser, ParsedLine};
use crate::pattern::PatternError;
use crate::text;

verus! {

broadcast use vstd::string::group_string_axioms;

/// The options that depend on each other, as they were given.
#[derive(Debug)]
pub struct Options {
    pub top: Option<String>,
    pub min: Option<u64>,
    pub format: Option<String>,
    pub delimiter: Option<String>,
    pub ip_field: Option<usize>,
    pub ua_field: Option<usize>,
    pub bytes_field: Option<usize>,
    pub sort: Option<String>,
}

/// Why options were refused.
#[derive(Debug)]
pub enum OptionError {
    TopAndMin,
    UnknownFormat(String),
    BytesFieldWithoutDelimiter,
    UnknownSort(String),
}

/// Why options were refused, as a mathematical value.
pub ghost enum Complaint {
    TopAndMin,
    UnknownFormat(Seq<char>),
    BytesFieldWithoutDelimiter,
    UnknownSort(Seq<char>),
}

/// How log lines are read.
#[derive(Debug)]
pub enum ParserChoice {
    Nginx,
    Delimiter {
        delimiter: String,
        ip_field: Option<usize>,
        ua_field: Option<usize>,
        bytes_field: Option<usize>,
    },
    Generic,
}

/// What the options come to.
#[derive(Debug)]
pub struct Settings {
    pub top: Option<String>,
    pub min: Option<u64>,
    pub parser: ParserChoice,
    pub sort_by: SortBy,
}

/// How log lines are read, as a mathematical value.
pub ghost enum ChoiceView {
    Nginx,
    Delimiter {
        delimiter: Seq<char>,
        ip_field: Option<usize>,
        ua_field: Option<usize>,
        bytes_field: Option<usize>,
    },
    Generic,
}

impl View for ParserChoice {
    type V = ChoiceView;

    open spec fn view(&self) -> ChoiceView {
        match *self {
            ParserChoice::Nginx => ChoiceView::Nginx,
            ParserChoice::Delimiter { delimiter, ip_field, ua_field, bytes_field } => {
                ChoiceView::Delimiter { delimiter: delimiter@, ip_field, ua_field, bytes_field }
            },
            ParserChoice::Generic => ChoiceView::Generic,
        }
    }
}

/// What is given, or else a preset.
pub open spec fn given<T>(a: Option<T>, b: T) -> Option<T> {
    match a {
        Some(_) => a,
        None => Some(b),
    }
}

impl Options {
    /// The format is asked for by its name.
    pub open spec fn asks_format(self, name: Seq<char>) -> bool {
        self.format matches Some(f) && f@ == name
    }

    /// The format is one that is known, or none is given.
    pub open spec fn format_known(self) -> bool {
        self.format is None || self.asks_format("nginx"@) || self.asks_format("bunny"@)
    }

    /// The delimiter: the one that is given, or that of the format.
    pub open spec fn delimiter_used(self) -> Option<Seq<char>> {
        if self.asks_format("bunny"@) {
            given(text::opt_view(self.delimiter), "|"@)
        } else {
            text::opt_view(self.delimiter)
        }
    }

    /// A field's number: the one that is given, or that of the format.
    pub open spec fn field_used(self, asked: Option<usize>, preset: usize) -> Option<usize> {
        if self.asks_format("bunny"@) {
            given(asked, preset)
        } else {
            asked
        }
    }

    /// The order that is asked for.
    pub open spec fn order(self) -> Option<SortBy> {
        match self.sort {
            Some(s) => if s@ == "bandwidth"@ || s@ == "bw"@ {
                Some(SortBy::Bandwidth)
            } else if s@ == "hits"@ {
                Some(SortBy::Hits)
            } else {
                None
            },
            None => Some(SortBy::Hits),
        }
    }

    /// How log lines are read: the format of nginx by its own expression, fields where there is a
    /// delimiter, and otherwise by whatever looks like an address.
    pub open spec fn choice(self) -> ChoiceView {
        if self.asks_format("nginx"@) {
            ChoiceView::Nginx
        } else {
            match self.delimiter_used() {
                Some(delimiter) => ChoiceView::Delimiter {
                    delimiter,
                    ip_field: self.field_used(self.ip_field, 6),
                    ua_field: self.field_used(self.ua_field, 10),
                    bytes_field: self.field_used(self.bytes_field, 4),
                },
                None => ChoiceView::Generic,
            }
        }
    }

    /// How many rows are wanted: what is given, or ten thousand where a least number of hits is not
    /// given either.
    pub open spec fn top_used(self) -> Option<Seq<char>> {
        if self.top is None && self.min is None {
            Some("10000"@)
        } else {
            text::opt_view(self.top)
        }
    }

    /// A field of bytes is asked for in lines that have no fields.
    pub open spec fn bytes_without_delimiter(self) -> bool {
        self.field_used(self.bytes_field, 4) is Some && self.delimiter_used() is None
    }

    /// What is wrong with the options, if anything is; of several things the first.
    pub open spec fn complaint(self) -> Option<Complaint> {
        if self.top is Some && self.min is Some {
            Some(Complaint::TopAndMin)
        } else if !self.format_known() {
            Some(Complaint::UnknownFormat(self.format->0@))
        } else if self.bytes_without_delimiter() {
            Some(Complaint::BytesFieldWithoutDelimiter)
        } else if self.order() is None {
            Some(Complaint::UnknownSort(self.sort->0@))
        } else {
            None
        }
    }

    fn is_format(&self, name: &str) -> (r: bool)
        ensures
            r == self.asks_format(name@),
    {
        match &self.format {
            Some(f) => text::same_text(f.as_str(), name),
            None => false,
        }
    }

    /// Works the options out.
    pub fn resolve(&self) -> (r: Result<Settings, OptionError>)
        ensures
            match r {
                Err(OptionError::TopAndMin) => self.top is Some && self.min is Some,
                Err(OptionError::UnknownFormat(name)) => {
                    &&& !(self.top is Some && self.min is Some)
                    &&& !self.format_known()
                    &&& self.format == Some(name)
                },
                Err(OptionError::BytesFieldWithoutDelimiter) => {
                    &&& !(self.top is Some && self.min is Some)
                    &&& self.format_known()
                    &&& self.bytes_without_delimiter()
                },
                Err(OptionError::UnknownSort(name)) => {
                    &&& !(self.top is Some && self.min is Some)
                    &&& self.format_known()
                    &&& !self.bytes_without_delimiter()
                    &&& self.order() is None
                    &&& self.sort == Some(name)
                },
                Ok(s) => {
                    &&& !(self.top is Some && self.min is Some)
                    &&& self.format_known()
                    &&& !self.bytes_without_delimiter()
                    &&& self.order() == Some(s.sort_by)
                    &&& text::opt_view(s.top) == self.top_used()
                    &&& s.min == self.min
                    &&& s.parser@ == self.choice()
                },
            },
            self.complaint() == match r {
                Ok(_) => None,
                Err(OptionError::TopAndMin) => Some(Complaint::TopAndMin),
                Err(OptionError::UnknownFormat(name)) => Some(Complaint::UnknownFormat(name@)),
                Err(OptionError::BytesFieldWithoutDelimiter) => Some(
                    Complaint::BytesFieldWithoutDelimiter,
                ),
                Err(OptionError::UnknownSort(name)) => Some(Complaint::UnknownSort(name@)),
            },
    {
        if self.top.is_some() && self.min.is_some() {
            return Err(OptionError::TopAndMin);
        }
        let top = if self.top.is_none() && self.min.is_none() {
            Some("10000".to_owned())
        } else {
            text::copy_text(&self.top)
        };
        let nginx = self.is_format("nginx");
        let bunny = self.is_format("bunny");
        match &self.format {
            Some(name) => {
                if !nginx && !bunny {
                    return Err(OptionError::UnknownFormat(name.clone()));
                }
            },
            None => {},
        }
        let delimiter = if bunny && self.delimiter.is_none() {
            Some("|".to_owned())
        } else {
            text::copy_text(&self.delimiter)
        };
        let ip_field: Option<usize> = if bunny && self.ip_field.is_none() {
            Some(6)
        } else {
            self.ip_field
        };
        let ua_field: Option<usize> = if bunny && self.ua_field.is_none() {
            Some(10)
        } else {
            self.ua_field
        };
        let bytes_field: Option<usize> = if bunny && self.bytes_field.is_none() {
            Some(4)
        } else {
            self.bytes_field
        };
        if bytes_field.is_some() && delimiter.is_none() {
            return Err(OptionError::BytesFieldWithoutDelimiter);
        }
        let sort_by = match &self.sort {
            Some(s) => {
                if text::same_text(s.as_str(), "bandwidth") || text::same_text(s.as_str(), "bw") {
                    SortBy::Bandwidth
                } else if text::same_text(s.as_str(), "hits") {
                    SortBy::Hits
                } else {
                    return Err(OptionError::UnknownSort(s.clone()));
                }
            },
            None => SortBy::Hits,
        };
        let parser = if nginx {
            ParserChoice::Nginx
        } else {
            match delimiter {
                Some(delimiter) => ParserChoice::Delimiter {
                    delimiter,
                    ip_field,
                    ua_field,
                    bytes_field,
                },
                None => ParserChoice::Generic,
            }
        };
        Ok(Settings { top, min: self.min, parser, sort_by })
    }
}

impl OptionError {
    /// What is said of the error.
    pub open spec fn said(self) -> Seq<char> {
        match self {
            OptionError::TopAndMin => "Cannot use both --top and --min together"@,
            OptionError::UnknownFormat(name) => "Unknown format '"@ + name@
                + "'. Supported formats: nginx, bunny"@,
            OptionError::BytesFieldWithoutDelimiter => "--bytes-field requires --delimiter"@,
            OptionError::UnknownSort(name) => "Unknown sort '"@ + name@
                + "'. Supported: hits, bandwidth (or bw)"@,
        }
    }

    /// What is said of the error.
    pub fn message(&self) -> (r: String)
        ensures
            r@ == self.said(),
    {
        match self {
            OptionError::TopAndMin => "Cannot use both --top and --min together".to_owned(),
            OptionError::UnknownFormat(name) => {
                let mut out = "Unknown format '".to_owned();
                out.append(name.as_str());
                out.append("'. Supported formats: nginx, bunny");
                out
            },
            OptionError::BytesFieldWithoutDelimiter => {
                "--bytes-field requires --delimiter".to_owned()
            },
            OptionError::UnknownSort(name) => {
                let mut out = "Unknown sort '".to_owned();
                out.append(name.as_str());
                out.append("'. Supported: hits, bandwidth (or bw)");
                out
            },
        }
    }
}

/// How the report was cut down, out of so many addresses.
pub open spec fn selection_said(top: Option<Seq<char>>, min: Option<u64>, total: nat) -> Seq<char> {
    match (top, min) {
        (Some(t), _) => "top "@ + t + " of "@ + text::decimal(total),
        (None, Some(n)) => "min "@ + text::decimal(n as nat) + " of "@ + text::decimal(total),
        (None, None) => text::decimal(total),
    }
}

/// How the report was cut down.
pub fn describe_selection(top: Option<&str>, min: Option<u64>, total: usize) -> (r: String)
    ensures
        r@ == selection_said(text::str_view(top), min, total as nat),
{
    match (top, min) {
        (Some(t), _) => {
            let mut out = "top ".to_owned();
            out.append(t);
            out.append(" of ");
            out.append(text::decimal_text(total as u64).as_str());
            out
        },
        (None, Some(n)) => {
            let mut out = "min ".to_owned();
            out.append(text::decimal_text(n).as_str());
            out.append(" of ");
            out.append(text::decimal_text(total as u64).as_str());
            out
        },
        (None, None) => text::decimal_text(total as u64),
    }
}

/// A parser of any format.
pub enum AnyParser {
    Nginx(NginxParser),
    Delimiter(DelimiterParser),
    Generic(GenericParser),
}

impl LogParser for AnyParser {
    open spec fn hit(&self, line: Seq<char>) -> Option<Hit> {
        match *self {
            AnyParser::Nginx(p) => p.hit(line),
            AnyParser::Delimiter(p) => p.hit(line),
            AnyParser::Generic(p) => p.hit(line),
        }
    }

    open spec fn knows_bytes(&self) -> bool {
        match *self {
            AnyParser::Nginx(p) => p.knows_bytes(),
            AnyParser::Delimiter(p) => p.knows_bytes(),
            AnyParser::Generic(p) => p.knows_bytes(),
        }
    }

    fn parse_line(&self, line: &str) -> (r: Option<ParsedLine>) {
        match self {
            AnyParser::Nginx(p) => p.parse_line(line),
            AnyParser::Delimiter(p) => p.parse_line(line),
            AnyParser::Generic(p) => p.parse_line(line),
        }
    }

    fn has_bytes(&self) -> (r: bool) {
        match self {
            AnyParser::Nginx(p) => p.has_bytes(),
            AnyParser::Delimiter(p) => p.has_bytes(),
            AnyParser::Generic(p) => p.has_bytes(),
        }
    }
}

impl ParserChoice {
    /// Makes the parser. Fields between delimiters need no expression, so nothing can go wrong with
    /// them.
    pub fn make(&self) -> (r: Result<AnyParser, PatternError>)
        ensures
            self is Delimiter ==> r is Ok,
            match (r, self@) {
                (Ok(p), ChoiceView::Nginx) => p is Nginx,
                (
                    Ok(p),
                    ChoiceView::Delimiter { delimiter, ip_field, ua_field, bytes_field },
                ) => p matches AnyParser::Delimiter(d) && d.delimiter@ == delimiter && d.ip_field
                    == ip_field && d.ua_field == ua_field && d.bytes_field == bytes_field,
                (Ok(p), ChoiceView::Generic) => p is Generic,
                (Err(_), _) => true,
            },
    {
        match self {
            ParserChoice::Nginx => match NginxParser::new() {
                Ok(p) => Ok(AnyParser::Nginx(p)),
                Err(e) => Err(e),
            },
            ParserChoice::Delimiter { delimiter, ip_field, ua_field, bytes_field } => Ok(
                AnyParser::Delimiter(
                    DelimiterParser::new(delimiter.as_str(), *ip_field, *ua_field, *bytes_field),
                ),
            ),
            ParserChoice::Generic => match GenericParser::new() {
                Ok(p) => Ok(AnyParser::Generic(p)),
                Err(e) => Err(e),
            },
        }
    }
}

/// The format of Bunny is a preset: it does what its delimiter and its fields do when they are given
/// one by one, and a field that is given wins.
pub proof fn law_bunny_is_a_preset(o: Options, plain: Options)
    requires
        o.asks_format("bunny"@),
        plain.format is None,
        text::opt_view(plain.delimiter) == given(text::opt_view(o.delimiter), "|"@),
        plain.ip_field == given(o.ip_field, 6usize),
        plain.ua_field == given(o.ua_field, 10usize),
        plain.bytes_field == given(o.bytes_field, 4usize),
    ensures
        plain.choice() == o.choice(),
        !o.bytes_without_delimiter(),
        o.ip_field is Some ==> o.field_used(o.ip_field, 6) == o.ip_field,
{
    reveal_strlit("nginx");
    reveal_strlit("bunny");
    assert("nginx"@[0] != "bunny"@[0]);
}

/// Without any option, lines are read by whatever looks like an address, and the ten thousand
/// addresses with the most hits are shown.
pub proof fn law_defaults(o: Options)
    requires
        o.top is None,
        o.min is None,
        o.format is None,
        o.delimiter is None,
        o.bytes_field is None,
        o.sort is None,
    ensures
        o.choice() == ChoiceView::Generic,
        o.top_used() == Some("10000"@),
        o.order() == Some(SortBy::Hits),
        o.format_known() && !o.bytes_without_delimiter(),
{
}

/// Hits and bandwidth, which is also called bw, are the orders that can be asked for; hits is the
/// order that is not asked for.
pub proof fn law_orders(o: Options)
    ensures
        o.sort is None ==> o.order() == Some(SortBy::Hits),
        o.sort matches Some(s) ==> {
            &&& s@ == "hits"@ <==> o.order() == Some(SortBy::Hits)
            &&& s@ == "bandwidth"@ || s@ == "bw"@ <==> o.order() == Some(SortBy::Bandwidth)
        },
{
    reveal_strlit("hits");
    reveal_strlit("bandwidth");
    reveal_strlit("bw");
    assert("hits"@.len() == 4 && "bandwidth"@.len() == 9 && "bw"@.len() == 2);
}

/// Two formats are known by name, and no name at all is fine too.
pub proof fn law_formats(o: Options)
    ensures
        o.format is None ==> o.format_known(),
        o.format matches Some(f) ==> (o.format_known() <==> f@ == "nginx"@ || f@ == "bunny"@),
{
}

/// Where no format is asked for, lines are read by fields exactly if a delimiter is given, with the
/// fields that are given; nginx is read by its own expression whatever else is given.
pub proof fn law_how_lines_are_read(o: Options)
    ensures
        o.format is None ==> match o.delimiter {
            Some(d) => o.choice() == (ChoiceView::Delimiter {
                delimiter: d@,
                ip_field: o.ip_field,
                ua_field: o.ua_field,
                bytes_field: o.bytes_field,
            }),
            None => o.choice() == ChoiceView::Generic,
        },
        o.format is Some && o.format->0@ == "nginx"@ ==> o.choice() == ChoiceView::Nginx,
        o.format is Some && o.format->0@ == "bunny"@ ==> {
            &&& o.choice() matches ChoiceView::Delimiter {
                delimiter,
                ip_field,
                ua_field,
                bytes_field,
            }
            &&& o.delimiter is None ==> delimiter == "|"@
            &&& o.delimiter matches Some(d) ==> delimiter == d@
            &&& o.ip_field is None ==> ip_field == Some(6usize)
            &&& o.ip_field is Some ==> ip_field == o.ip_field
            &&& o.ua_field is None ==> ua_field == Some(10usize)
            &&& o.ua_field is Some ==> ua_field == o.ua_field
            &&& o.bytes_field is None ==> bytes_field == Some(4usize)
            &&& o.bytes_field is Some ==> bytes_field == o.bytes_field
        },
{
    reveal_strlit("nginx");
    reveal_strlit("bunny");
    assert("nginx"@[0] != "bunny"@[0]);
}

/// What is given as the number of rows is used as it is; a least number of hits alone leaves the
/// number open, and without either it is ten thousand.
pub proof fn law_how_many_are_asked_for(o: Options)
    ensures
        o.top matches Some(t) ==> o.top_used() == Some(t@),
        o.top is None && o.min is Some ==> o.top_used() is None,
        o.top is None && o.min is None ==> o.top_used() == Some("10000"@),
{
}

/// A field of bytes needs a delimiter, given or of a format.
pub proof fn law_bytes_need_a_delimiter(o: Options)
    ensures
        o.format is None ==> (o.bytes_without_delimiter() <==> o.bytes_field is Some
            && o.delimiter is None),
        o.delimiter is Some ==> !o.bytes_without_delimiter(),
        o.format is Some && o.format->0@ == "bunny"@ ==> !o.bytes_without_delimiter(),
        o.bytes_field is None && (o.format is None || o.format->0@ != "bunny"@)
            ==> !o.bytes_without_delimiter(),
{
}

/// How a report was cut down is said with the number of rows or the least number of hits, and with
/// the number of addresses there are.
pub proof fn law_what_is_said_of_a_selection(top: Seq<char>, min: u64, total: nat)
    ensures
        selection_said(Some(top), None, total) == "top "@ + top + " of "@ + text::decimal(total),
        selection_said(None, Some(min), total) == "min "@ + text::decimal(min as nat) + " of "@
            + text::decimal(total),
        selection_said(None, None, total) == text::decimal(total),
{
}

/// A parser of any format reads a line as the parser that it is.
pub proof fn law_a_parser_reads_as_what_it_is(
    n: NginxParser,
    d: DelimiterParser,
    g: GenericParser,
    line: Seq<char>,
)
    ensures
        AnyParser::Nginx(n).hit(line) == n.hit(line),
        AnyParser::Delimiter(d).hit(line) == d.hit(line),
        AnyParser::Generic(g).hit(line) == g.hit(line),
        AnyParser::Nginx(n).knows_bytes(),
        AnyParser::Delimiter(d).knows_bytes() <==> d.bytes_field is Some,
        !AnyParser::Generic(g).knows_bytes(),
{
}

/// What is said of an error names what was wrong, and what would be right.
pub proof fn law_messages(name: String)
    ensures
        OptionError::TopAndMin.said() == "Cannot use both --top and --min together"@,
        OptionError::UnknownFormat(name).said() == "Unknown format '"@ + name@
            + "'. Supported formats: nginx, bunny"@,
        OptionError::BytesFieldWithoutDelimiter.said() == "--bytes-field requires --delimiter"@,
        OptionError::UnknownSort(name).said() == "Unknown sort '"@ + name@
            + "'. Supported: hits, bandwidth (or bw)"@,
{
}

/// Options are refused exactly if both a number of rows and a least number of hits are given, the
/// format or the order is not known, or a field of bytes is asked for without a delimiter. Both
/// limits are complained of first, then the format, then the field and then the order.
pub proof fn law_what_is_refused(o: Options)
    ensures
        o.complaint() == Some(Complaint::TopAndMin) <==> o.top is Some && o.min is Some,
        ({
            let one_limit = o.top is None || o.min is None;
            let known = o.format is None || o.format->0@ == "nginx"@ || o.format->0@ == "bunny"@;
            let lost = o.bytes_field is Some && o.delimiter is None && (o.format is None
                || o.format->0@ != "bunny"@);
            let ordered = o.sort is None || o.sort->0@ == "hits"@ || o.sort->0@ == "bw"@
                || o.sort->0@ == "bandwidth"@;
            &&& one_limit && !known <==> o.complaint() is Some && o.complaint()->0 is UnknownFormat
            &&& one_limit && known && lost <==> o.complaint() == Some(
                Complaint::BytesFieldWithoutDelimiter,
            )
            &&& one_limit && known && !lost && !ordered <==> o.complaint() is Some
                && o.complaint()->0 is UnknownSort
            &&& one_limit && known && !lost && ordered <==> o.complaint() is None
        }),
        o.complaint() matches Some(Complaint::UnknownFormat(name)) ==> name == o.format->0@,
        o.complaint() matches Some(Complaint::UnknownSort(name)) ==> name == o.sort->0@,
{
    reveal_strlit("hits");
    reveal_strlit("bandwidth");
    reveal_strlit("bw");
    assert("hits"@.len() == 4 && "bandwidth"@.len() == 9 && "bw"@.len() == 2);
}

} // verus!
