//! When the stored address ranges are too old, and where new ones come from.
use vstd::prelude::*;

use crate::cloud;
use crate::cloud::CloudProvider;
use crate::text;

verus! {

broadcast use vstd::string::group_string_axioms;

// ---------------------------------------------------------------------------
// Time
// ---------------------------------------------------------------------------

/// A point in time: the seconds since the start of 1970 (UTC), and the nanoseconds into the second;
/// a leap second counts as more than a thousand million nanoseconds of the second before.
pub type Timestamp = (i64, u32);

/// The point in time that a text in the notation of RFC 3339 writes.
pub uninterp spec fn time_of(s: Seq<char>) -> Option<Timestamp>;

/// The time from `then` to `now`, in whole seconds and nanoseconds of the same sign, for points in
/// time that the calendar has.
pub uninterp spec fn elapsed(now: Timestamp, then: Timestamp) -> Option<(i64, i32)>;

/// `DateTime::parse_from_rfc3339` reads a date, a time and an offset. What it makes of a text
/// depends on the text alone.
#[verifier::external_body]
fn read_time(s: &str) -> (r: Option<Timestamp>)
    ensures
        r == time_of(s@),
{
    match chrono::DateTime::parse_from_rfc3339(s) {
        Ok(t) => Some((t.timestamp(), t.timestamp_subsec_nanos())),
        Err(_) => None,
    }
}

/// `DateTime::signed_duration_since` gives the time between two points in time. It depends on them
/// alone, and outside of leap seconds it is their difference.
#[verifier::external_body]
fn time_between(now: Timestamp, then: Timestamp) -> (r: Option<(i64, i32)>)
    ensures
        r == elapsed(now, then),
        r matches Some((secs, nanos)) ==> now.1 < 1_000_000_000 && then.1 < 1_000_000_000 ==> secs
            * 1_000_000_000 + nanos == (now.0 - then.0) * 1_000_000_000 + (now.1 - then.1),
{
    let now = chrono::DateTime::from_timestamp(now.0, now.1)?;
    let then = chrono::DateTime::from_timestamp(then.0, then.1)?;
    let age = now.signed_duration_since(then);
    Some((age.num_seconds(), age.subsec_nanos()))
}

/// The age is more than a number of hours.
pub open spec fn older(age: (i64, i32), hours: u64) -> bool {
    age.0 * 1_000_000_000 + age.1 > hours * 3600 * 1_000_000_000
}

/// Is an age more than a number of hours?
pub fn is_older(age: (i64, i32), hours: u64) -> (r: bool)
    ensures
        r == older(age, hours),
{
    age.0 as i128 * 1_000_000_000 + age.1 as i128 > hours as i128 * 3600 * 1_000_000_000
}

/// Ranges have to be fetched anew where it is not known when they were fetched, and where that is
/// too long ago.
pub open spec fn stale(last_fetch: Option<Seq<char>>, now: Timestamp, max_age_hours: u64) -> bool {
    match last_fetch {
        Some(s) => match time_of(s) {
            Some(then) => match elapsed(now, then) {
                Some(age) => older(age, max_age_hours),
                None => true,
            },
            None => true,
        },
        None => true,
    }
}

/// Do the ranges of a provider have to be fetched anew?
pub fn should_refresh_cloud_ranges(
    last_fetch: Option<&str>,
    now: Timestamp,
    max_age_hours: u64,
) -> (r: bool)
    ensures
        r == stale(text::str_view(last_fetch), now, max_age_hours),
{
    match last_fetch {
        Some(s) => match read_time(s) {
            Some(then) => match time_between(now, then) {
                Some(age) => is_older(age, max_age_hours),
                None => true,
            },
            None => true,
        },
        None => true,
    }
}

/// Ranges that are not too old stay so for a longer limit, and those that are too old stay so for a
/// shorter one.
pub proof fn law_a_longer_limit_refreshes_less(
    last_fetch: Option<Seq<char>>,
    now: Timestamp,
    shorter: u64,
    longer: u64,
)
    requires
        shorter <= longer,
        stale(last_fetch, now, longer),
    ensures
        stale(last_fetch, now, shorter),
{
}

// ---------------------------------------------------------------------------
// Whether to fetch
// ---------------------------------------------------------------------------

/// All providers.
pub open spec fn every_provider() -> Seq<CloudProvider> {
    seq![
        CloudProvider::AWS,
        CloudProvider::Azure,
        CloudProvider::GCP,
        CloudProvider::DigitalOcean,
        CloudProvider::Cloudflare,
    ]
}

/// The providers that are wanted: all of them unless some are named.
pub open spec fn wanted_of(named: Option<Seq<CloudProvider>>) -> Seq<CloudProvider> {
    match named {
        Some(list) => list,
        None => every_provider(),
    }
}

/// The providers that are wanted: all of them unless some are named.
pub fn providers_wanted(named: &Option<Vec<CloudProvider>>) -> (r: Vec<CloudProvider>)
    ensures
        r@ == wanted_of(
            match *named {
                Some(list) => Some(list@),
                None => None,
            },
        ),
{
    let mut out: Vec<CloudProvider> = Vec::new();
    match named {
        Some(list) => {
            for i in 0..list.len()
                invariant
                    out@ == list@.take(i as int),
            {
                out.push(list[i]);
                assert(list@.take(i + 1) =~= list@.take(i as int).push(list@[i as int]));
            }
            assert(list@.take(list@.len() as int) =~= list@);
        },
        None => {
            out.push(CloudProvider::AWS);
            out.push(CloudProvider::Azure);
            out.push(CloudProvider::GCP);
            out.push(CloudProvider::DigitalOcean);
            out.push(CloudProvider::Cloudflare);
            assert(out@ =~= every_provider());
        },
    }
    out
}

/// The providers that a list with commas names; other words in it are passed over.
pub open spec fn providers_named(words: Seq<Seq<char>>) -> Seq<CloudProvider>
    decreases words.len(),
{
    if words.len() == 0 {
        Seq::empty()
    } else {
        let before = providers_named(words.drop_last());
        match cloud::provider_named(text::lowered(text::trim(words.last()))) {
            Some(p) => before.push(p),
            None => before,
        }
    }
}

/// The providers that a list with commas names.
pub fn parse_provider_list(list: &str) -> (r: Vec<CloudProvider>)
    ensures
        r@ == providers_named(text::split(list@, seq![','])),
{
    let chars = text::to_chars(list);
    let comma: [char; 1] = [','];
    assert(comma@ =~= seq![',']);
    let words = text::pieces(&chars, &comma);
    let ghost all = text::views(words@);
    let mut out: Vec<CloudProvider> = Vec::new();
    for i in 0..words.len()
        invariant
            all == text::views(words@),
            out@ == providers_named(all.take(i as int)),
    {
        assert(all.take(i + 1).drop_last() =~= all.take(i as int));
        assert(all.take(i + 1).last() == words@[i as int]@);
        let word = text::from_chars(text::trimmed(words[i]));
        match CloudProvider::from_str(word.as_str()) {
            Some(p) => {
                out.push(p);
            },
            None => {},
        }
    }
    assert(all.take(all.len() as int) =~= all);
    out
}

/// Some provider's ranges are too old.
pub open spec fn any_stale(
    last_fetches: Seq<Option<String>>,
    now: Timestamp,
    max_age_hours: u64,
) -> bool {
    exists|i: int|
        0 <= i < last_fetches.len() && stale(
            text::opt_view(#[trigger] last_fetches[i]),
            now,
            max_age_hours,
        )
}

/// Ranges are fetched when that is asked for, and when those of some provider are too old.
pub open spec fn refresh_due(
    asked: bool,
    forced: bool,
    last_fetches: Seq<Option<String>>,
    now: Timestamp,
    max_age_hours: u64,
) -> bool {
    asked || forced || any_stale(last_fetches, now, max_age_hours)
}

/// Are ranges to be fetched? They are when that is asked for, and when those of some provider are
/// too old.
pub fn needs_refresh(
    asked: bool,
    forced: bool,
    last_fetches: &Vec<Option<String>>,
    now: Timestamp,
    max_age_hours: u64,
) -> (r: bool)
    ensures
        r == refresh_due(asked, forced, last_fetches@, now, max_age_hours),
{
    if asked || forced {
        return true;
    }
    for i in 0..last_fetches.len()
        invariant
            forall|j: int|
                0 <= j < i ==> !stale(
                    text::opt_view(#[trigger] last_fetches@[j]),
                    now,
                    max_age_hours,
                ),
    {
        let last: Option<&str> = match &last_fetches[i] {
            Some(s) => Some(s.as_str()),
            None => None,
        };
        if should_refresh_cloud_ranges(last, now, max_age_hours) {
            assert(stale(text::opt_view(last_fetches@[i as int]), now, max_age_hours));
            return true;
        }
    }
    false
}

/// What is said after fetching.
pub open spec fn summary_text(succeeded: nat, failed: nat) -> Option<Seq<char>> {
    if succeeded > 0 {
        Some(
            "Cloud ranges updated: "@ + text::decimal(succeeded) + " succeeded, "@ + text::decimal(
                failed,
            ) + " failed"@,
        )
    } else if failed > 0 {
        Some("Warning: All cloud range fetches failed, will use cached data if available"@)
    } else {
        None
    }
}

/// What is said after fetching: how many providers' ranges were stored, or that none were.
pub fn refresh_summary(succeeded: u64, failed: u64) -> (r: Option<String>)
    ensures
        text::opt_view(r) == summary_text(succeeded as nat, failed as nat),
{
    if succeeded > 0 {
        let mut out = "Cloud ranges updated: ".to_owned();
        out.append(text::decimal_text(succeeded).as_str());
        out.append(" succeeded, ");
        out.append(text::decimal_text(failed).as_str());
        out.append(" failed");
        Some(out)
    } else if failed > 0 {
        Some(
            "Warning: All cloud range fetches failed, will use cached data if available".to_owned(),
        )
    } else {
        None
    }
}

// ---------------------------------------------------------------------------
// Where to fetch
// ---------------------------------------------------------------------------

/// Where a provider's list is, and how it is to be read.
#[derive(Clone, Copy, Debug, PartialEq, Eq, Structural)]
pub enum Source {
    /// The list is one document.
    Document,
    /// A page has to be searched for the place of the list.
    Page,
    /// There is one list for IPv4 and one for IPv6.
    TwoLists,
}

impl CloudProvider {
    /// How the list is to be read.
    pub open spec fn source(self) -> Source {
        match self {
            CloudProvider::Azure => Source::Page,
            CloudProvider::Cloudflare => Source::TwoLists,
            _ => Source::Document,
        }
    }

    /// Where the list, the page or the list for IPv4 is.
    pub open spec fn source_url(self) -> Seq<char> {
        match self {
            CloudProvider::AWS => "https://ip-ranges.amazonaws.com/ip-ranges.json"@,
            CloudProvider::Azure => {
                "https://www.microsoft.com/en-us/download/confirmation.aspx?id=56519"@
            },
            CloudProvider::GCP => "https://www.gstatic.com/ipranges/cloud.json"@,
            CloudProvider::DigitalOcean => "https://digitalocean.com/geo/google.csv"@,
            CloudProvider::Cloudflare => "https://www.cloudflare.com/ips-v4"@,
        }
    }

    /// What is noted as the place of the list.
    pub open spec fn noted_url(self) -> Seq<char> {
        match self {
            CloudProvider::Azure => {
                "https://www.microsoft.com/en-us/download/details.aspx?id=56519"@
            },
            _ => self.source_url(),
        }
    }

    /// Where the list for IPv6 is, for a provider that has one apart.
    pub open spec fn ipv6_url(self) -> Option<Seq<char>> {
        match self {
            CloudProvider::Cloudflare => Some("https://www.cloudflare.com/ips-v6"@),
            _ => None,
        }
    }

    /// How the provider's list is to be read, and where it is.
    pub fn list_source(&self) -> (r: (Source, &'static str))
        ensures
            r.0 == self.source(),
            r.1@ == self.source_url(),
    {
        match self {
            CloudProvider::AWS => {
                (Source::Document, "https://ip-ranges.amazonaws.com/ip-ranges.json")
            },
            CloudProvider::Azure => {
                (
                    Source::Page,
                    "https://www.microsoft.com/en-us/download/confirmation.aspx?id=56519",
                )
            },
            CloudProvider::GCP => (Source::Document, "https://www.gstatic.com/ipranges/cloud.json"),
            CloudProvider::DigitalOcean => {
                (Source::Document, "https://digitalocean.com/geo/google.csv")
            },
            CloudProvider::Cloudflare => (Source::TwoLists, "https://www.cloudflare.com/ips-v4"),
        }
    }

    /// Where the list for IPv6 is, for a provider that has one apart.
    pub fn ipv6_source(&self) -> (r: Option<&'static str>)
        ensures
            text::str_view(r) == self.ipv6_url(),
    {
        match self {
            CloudProvider::Cloudflare => Some("https://www.cloudflare.com/ips-v6"),
            _ => None,
        }
    }

    /// What is noted as the place of the list.
    pub fn metadata_url(&self) -> (r: &'static str)
        ensures
            r@ == self.noted_url(),
    {
        match self {
            CloudProvider::Azure => "https://www.microsoft.com/en-us/download/details.aspx?id=56519",
            _ => self.list_source().1,
        }
    }
}

// ---------------------------------------------------------------------------
// Trying again
// ---------------------------------------------------------------------------

/// How a request went.
#[derive(Clone, Copy, Debug, PartialEq, Eq, Structural)]
pub enum Reply {
    /// An answer came, with this status.
    Status(u16),
    /// No answer came.
    Failure,
}

/// What follows a request.
#[derive(Clone, Copy, Debug, PartialEq, Eq, Structural)]
pub enum NextStep {
    /// The answer is to be read.
    Accept,
    /// The request is to be made again after some seconds.
    RetryAfter(u64),
    /// There is no answer; some seconds pass before that is said.
    GiveUpAfter(u64),
}

/// How often a request is made at most.
pub const MAX_ATTEMPTS: u32 = 3;

/// The status of a success.
pub open spec fn is_success(status: u16) -> bool {
    200 <= status < 300
}

/// The status of an error of the server.
pub open spec fn is_server_error(status: u16) -> bool {
    500 <= status < 600
}

/// The pause after an attempt: twice as long each time.
pub open spec fn pause(attempt: u32) -> nat {
    vstd::arithmetic::power2::pow2(attempt as nat)
}

fn pause_after(attempt: u32) -> (r: u64)
    requires
        1 <= attempt <= MAX_ATTEMPTS,
    ensures
        r == pause(attempt),
{
    proof {
        vstd::arithmetic::power2::lemma2_to64();
    }
    if attempt == 1 {
        2
    } else if attempt == 2 {
        4
    } else {
        8
    }
}

/// What follows a request to ipinfo, the first attempt being number 1. Too many requests (status
/// 429) mean a pause in any case; an error of the server or no answer mean a pause and another
/// attempt. After the last attempt there is no other.
pub open spec fn ipinfo_next(reply: Reply, attempt: u32, step: NextStep) -> bool {
    let again = attempt < MAX_ATTEMPTS;
    match reply {
        Reply::Status(status) => if is_success(status) {
            step == NextStep::Accept
        } else if status == 429 {
            if again {
                step matches NextStep::RetryAfter(n) && n == pause(attempt)
            } else {
                step matches NextStep::GiveUpAfter(n) && n == pause(attempt)
            }
        } else if again && is_server_error(status) {
            step matches NextStep::RetryAfter(n) && n == pause(attempt)
        } else {
            step == NextStep::GiveUpAfter(0)
        },
        Reply::Failure => if again {
            step matches NextStep::RetryAfter(n) && n == pause(attempt)
        } else {
            step == NextStep::GiveUpAfter(0)
        },
    }
}

/// What follows a request to ipinfo.
pub fn after_ipinfo(reply: Reply, attempt: u32) -> (r: NextStep)
    requires
        1 <= attempt <= MAX_ATTEMPTS,
    ensures
        ipinfo_next(reply, attempt, r),
{
    let again = attempt < MAX_ATTEMPTS;
    match reply {
        Reply::Status(status) => {
            if 200 <= status && status < 300 {
                NextStep::Accept
            } else if status == 429 {
                if again {
                    NextStep::RetryAfter(pause_after(attempt))
                } else {
                    NextStep::GiveUpAfter(pause_after(attempt))
                }
            } else if again && 500 <= status && status < 600 {
                NextStep::RetryAfter(pause_after(attempt))
            } else {
                NextStep::GiveUpAfter(0)
            }
        },
        Reply::Failure => {
            if again {
                NextStep::RetryAfter(pause_after(attempt))
            } else {
                NextStep::GiveUpAfter(0)
            }
        },
    }
}

/// A request to ipinfo is made at most three times, and a success is always accepted.
pub proof fn law_ipinfo_attempts_are_few(reply: Reply, attempt: u32, step: NextStep)
    requires
        1 <= attempt,
        ipinfo_next(reply, attempt, step),
    ensures
        step is RetryAfter ==> attempt < MAX_ATTEMPTS,
        step is Accept <==> (reply matches Reply::Status(status) && is_success(status)),
{
}

/// What follows a request for a provider's list, after some failures before it. Only a request
/// without an answer is a failure; with any answer but a success the request is made again at once.
pub open spec fn list_next(reply: Reply, failures: u32, step: NextStep) -> bool {
    match reply {
        Reply::Status(status) => if is_success(status) {
            step == NextStep::Accept
        } else {
            step == NextStep::RetryAfter(0)
        },
        Reply::Failure => if failures + 1 >= MAX_ATTEMPTS {
            step == NextStep::GiveUpAfter(0)
        } else {
            step matches NextStep::RetryAfter(n) && n == pause((failures + 1) as u32)
        },
    }
}

/// What follows a request for a provider's list, and how many failures there were with it.
pub fn after_list_request(reply: Reply, failures: u32) -> (r: (NextStep, u32))
    requires
        failures < MAX_ATTEMPTS,
    ensures
        list_next(reply, failures, r.0),
        r.1 == failures + if reply is Failure {
            1int
        } else {
            0int
        },
        r.0 is RetryAfter ==> r.1 < MAX_ATTEMPTS,
{
    match reply {
        Reply::Status(status) => {
            if 200 <= status && status < 300 {
                (NextStep::Accept, failures)
            } else {
                (NextStep::RetryAfter(0), failures)
            }
        },
        Reply::Failure => {
            if failures + 1 >= MAX_ATTEMPTS {
                (NextStep::GiveUpAfter(0), failures + 1)
            } else {
                (NextStep::RetryAfter(pause_after(failures + 1)), failures + 1)
            }
        },
    }
}

// ---------------------------------------------------------------------------
// Laws of what is fetched and when
// ---------------------------------------------------------------------------

/// An age is more than a number of hours exactly if it has more seconds than these have, 3600 to
/// the hour, or as many and some nanoseconds.
pub proof fn law_ages_are_told_in_hours(seconds: i64, nanos: i32, hours: u64)
    requires
        0 <= nanos < 1_000_000_000,
    ensures
        older((seconds, nanos), hours) <==> seconds > 3600 * hours || (seconds == 3600 * hours
            && nanos > 0),
{
}

/// Ranges are fetched anew where no time of fetching is stored or it cannot be read, and otherwise
/// exactly if they are older than the limit.
pub proof fn law_when_ranges_are_too_old(s: Seq<char>, now: Timestamp, hours: u64)
    ensures
        stale(None, now, hours),
        time_of(s) is None ==> stale(Some(s), now, hours),
        time_of(s) matches Some(then) ==> (elapsed(now, then) matches Some(age) ==> (stale(
            Some(s),
            now,
            hours,
        ) <==> age.0 * 1_000_000_000 + age.1 > hours * 3600 * 1_000_000_000)),
        time_of(s) matches Some(then) ==> (elapsed(now, then) is None ==> stale(
            Some(s),
            now,
            hours,
        )),
{
}

/// Some ranges are too old exactly if those of one provider are.
pub proof fn law_one_old_list_is_enough(
    fetches: Seq<Option<String>>,
    last: Option<String>,
    now: Timestamp,
    hours: u64,
)
    ensures
        !any_stale(Seq::empty(), now, hours),
        any_stale(fetches.push(last), now, hours) <==> any_stale(fetches, now, hours) || stale(
            text::opt_view(last),
            now,
            hours,
        ),
{
    let all = fetches.push(last);
    if any_stale(all, now, hours) {
        let i = choose|i: int|
            0 <= i < all.len() && stale(text::opt_view(#[trigger] all[i]), now, hours);
        if i < fetches.len() {
            assert(fetches[i] == all[i]);
        }
    }
    if any_stale(fetches, now, hours) {
        let i = choose|i: int|
            0 <= i < fetches.len() && stale(text::opt_view(#[trigger] fetches[i]), now, hours);
        assert(all[i] == fetches[i]);
    }
    assert(all[fetches.len() as int] == last);
}

/// Each provider is among all providers, and none twice.
pub proof fn law_every_provider(p: CloudProvider)
    ensures
        every_provider().contains(p),
        every_provider().no_duplicates(),
        every_provider().len() == 5,
{
    let all = every_provider();
    assert(all[0] == CloudProvider::AWS);
    assert(all[1] == CloudProvider::Azure);
    assert(all[2] == CloudProvider::GCP);
    assert(all[3] == CloudProvider::DigitalOcean);
    assert(all[4] == CloudProvider::Cloudflare);
}

/// Each word of a list adds the provider that it names, in any case and with white space around it;
/// other words add none.
pub proof fn law_words_name_providers(words: Seq<Seq<char>>, word: Seq<char>)
    ensures
        providers_named(Seq::empty()).len() == 0,
        match cloud::provider_named(text::lowered(text::trim(word))) {
            Some(p) => providers_named(words.push(word)) == providers_named(words).push(p),
            None => providers_named(words.push(word)) == providers_named(words),
        },
{
    assert(words.push(word).drop_last() =~= words);
}

/// The pauses are two seconds, four and eight.
pub proof fn law_pauses()
    ensures
        pause(1) == 2,
        pause(2) == 4,
        pause(3) == 8,
        forall|n: u32| n < u32::MAX ==> #[trigger] pause((n + 1) as u32) == 2 * pause(n),
{
    vstd::arithmetic::power2::lemma2_to64();
    assert forall|n: u32| n < u32::MAX implies #[trigger] pause((n + 1) as u32) == 2 * pause(n) by {
        vstd::arithmetic::power2::lemma_pow2_unfold((n + 1) as nat);
    }
}

/// What follows an answer of ipinfo at the first, second and third attempt.
pub proof fn law_what_follows_an_answer_of_ipinfo(reply: Reply, attempt: u32, step: NextStep)
    requires
        1 <= attempt <= 3,
        ipinfo_next(reply, attempt, step),
    ensures
        reply matches Reply::Status(status) ==> {
            &&& 200 <= status < 300 <==> step == NextStep::Accept
            &&& status == 429 && attempt == 1 ==> step == NextStep::RetryAfter(2)
            &&& status == 429 && attempt == 2 ==> step == NextStep::RetryAfter(4)
            &&& status == 429 && attempt == 3 ==> step == NextStep::GiveUpAfter(8)
            &&& 500 <= status < 600 && attempt == 1 ==> step == NextStep::RetryAfter(2)
            &&& 500 <= status < 600 && attempt == 2 ==> step == NextStep::RetryAfter(4)
            &&& 500 <= status < 600 && attempt == 3 ==> step == NextStep::GiveUpAfter(0)
            &&& !(200 <= status < 300) && status != 429 && !(500 <= status < 600) ==> step
                == NextStep::GiveUpAfter(0)
        },
        reply is Failure && attempt == 1 ==> step == NextStep::RetryAfter(2),
        reply is Failure && attempt == 2 ==> step == NextStep::RetryAfter(4),
        reply is Failure && attempt == 3 ==> step == NextStep::GiveUpAfter(0),
{
    law_pauses();
}

/// What follows a request for a provider's list: a page that is there is accepted, another status
/// means another attempt at once, and of failures the third is the last.
pub proof fn law_what_follows_a_request_for_a_list(reply: Reply, failures: u32, step: NextStep)
    requires
        failures < 3,
        list_next(reply, failures, step),
    ensures
        reply matches Reply::Status(status) ==> {
            &&& 200 <= status < 300 ==> step == NextStep::Accept
            &&& !(200 <= status < 300) ==> step == NextStep::RetryAfter(0)
        },
        reply is Failure && failures == 0 ==> step == NextStep::RetryAfter(2),
        reply is Failure && failures == 1 ==> step == NextStep::RetryAfter(4),
        reply is Failure && failures == 2 ==> step == NextStep::GiveUpAfter(0),
{
    law_pauses();
}

/// The summary counts what was stored and what failed; where nothing was stored it warns, and where
/// nothing was fetched it is silent.
pub proof fn law_summary(succeeded: nat, failed: nat)
    ensures
        succeeded > 0 ==> summary_text(succeeded, failed) == Some(
            "Cloud ranges updated: "@ + text::decimal(succeeded) + " succeeded, "@ + text::decimal(
                failed,
            ) + " failed"@,
        ),
        succeeded == 0 && failed > 0 ==> summary_text(succeeded, failed) == Some(
            "Warning: All cloud range fetches failed, will use cached data if available"@,
        ),
        succeeded == 0 && failed == 0 ==> summary_text(succeeded, failed) is None,
{
}

/// Only the page of Azure has to be searched for a link, and only Cloudflare has a list for IPv6
/// apart; what is noted as the place of a list is where it was fetched, but for Azure.
pub proof fn law_sources(p: CloudProvider)
    ensures
        p.source() == Source::Page <==> p == CloudProvider::Azure,
        p.source() == Source::TwoLists <==> p == CloudProvider::Cloudflare,
        p.ipv6_url() is Some <==> p.source() == Source::TwoLists,
        p != CloudProvider::Azure ==> p.noted_url() == p.source_url(),
{
}

/// Asking for it, in either way, always has ranges fetched; otherwise one list that is too old, or
/// was never fetched, is enough and necessary.
pub proof fn law_when_ranges_are_fetched(
    fetches: Seq<Option<String>>,
    now: Timestamp,
    hours: u64,
    asked: bool,
    forced: bool,
)
    ensures
        refresh_due(true, forced, fetches, now, hours),
        refresh_due(asked, true, fetches, now, hours),
        refresh_due(false, false, fetches, now, hours) <==> exists|i: int|
            0 <= i < fetches.len() && stale(text::opt_view(#[trigger] fetches[i]), now, hours),
        fetches.len() == 0 ==> !refresh_due(false, false, fetches, now, hours),
        fetches.contains(None) ==> refresh_due(asked, forced, fetches, now, hours),
{
    if fetches.contains(None) {
        let i = choose|i: int| 0 <= i < fetches.len() && fetches[i] == None::<String>;
        assert(stale(text::opt_view(fetches[i]), now, hours));
    }
}

/// Those that are named are wanted, in their order, and without a list every provider is.
pub proof fn law_who_is_wanted(list: Seq<CloudProvider>, p: CloudProvider)
    ensures
        wanted_of(Some(list)) == list,
        wanted_of(None).contains(p),
        wanted_of(None).len() == 5,
{
    law_every_provider(p);
}

/// Where the lists are.
pub proof fn law_places_of_the_lists()
    ensures
        CloudProvider::AWS.source_url() == "https://ip-ranges.amazonaws.com/ip-ranges.json"@,
        CloudProvider::Azure.source_url()
            == "https://www.microsoft.com/en-us/download/confirmation.aspx?id=56519"@,
        CloudProvider::Azure.noted_url()
            == "https://www.microsoft.com/en-us/download/details.aspx?id=56519"@,
        CloudProvider::GCP.source_url() == "https://www.gstatic.com/ipranges/cloud.json"@,
        CloudProvider::DigitalOcean.source_url() == "https://digitalocean.com/geo/google.csv"@,
        CloudProvider::Cloudflare.source_url() == "https://www.cloudflare.com/ips-v4"@,
        CloudProvider::Cloudflare.ipv6_url() == Some("https://www.cloudflare.com/ips-v6"@),
{
}

} // verus!
