use ip_report::cloud::CloudProvider;
use ip_report::ranges::{range_row, CloudRange, CloudRangeCache};
use ip_report::refresh::{
    after_ipinfo, after_list_request, is_older, needs_refresh, parse_provider_list,
    providers_wanted, refresh_summary, should_refresh_cloud_ranges, NextStep, Reply, Source,
    Timestamp,
};

fn now() -> Timestamp {
    let t = chrono::Utc::now();
    (t.timestamp(), t.timestamp_subsec_nanos())
}

#[test]
fn test_should_refresh_cloud_ranges_no_metadata() {
    let result = should_refresh_cloud_ranges(None, now(), 168);
    assert!(result);
}

#[test]
fn test_should_refresh_cloud_ranges_old_data() {
    // Metadata from 10 days ago
    let old_time = chrono::Utc::now() - chrono::Duration::days(10);
    let result = should_refresh_cloud_ranges(Some(&old_time.to_rfc3339()), now(), 168); // 7 days
    assert!(result);
}

#[test]
fn test_should_refresh_cloud_ranges_fresh_data() {
    // Metadata from 1 hour ago
    let recent_time = chrono::Utc::now() - chrono::Duration::hours(1);
    let result = should_refresh_cloud_ranges(Some(&recent_time.to_rfc3339()), now(), 168); // 7 days
    assert!(!result);
}

#[test]
fn test_should_refresh_cloud_ranges_invalid_timestamp() {
    let result = should_refresh_cloud_ranges(Some("invalid-timestamp"), now(), 168);
    assert!(result); // Should refresh on parse error
}

#[test]
fn test_load_or_fetch_cloud_cache_no_refresh_needed() {
    let recent_time = chrono::Utc::now().to_rfc3339();
    assert!(!needs_refresh(
        false, // refresh
        false, // force_refresh
        &vec![Some(recent_time)],
        now(),
        168 // max_age_hours
    ));

    let range = CloudRange {
        provider: CloudProvider::AWS,
        service: Some("EC2".to_string()),
        region: Some("us-east-1".to_string()),
        network: ip_report::address::Network::parse("52.93.153.0/24").unwrap(),
    };
    let cache = CloudRangeCache::load(&vec![range_row(&range).stored]);

    assert_eq!(cache.ipv4_ranges.len(), 1);
    assert_eq!(cache.ipv4_ranges[0].provider, CloudProvider::AWS);
}

#[test]
fn ages_at_the_limit() {
    // 1970-01-08T00:00:00Z is 168 hours after the start of 1970.
    let week: i64 = 168 * 3600;
    let start = Some("1970-01-01T00:00:00+00:00");
    assert!(!should_refresh_cloud_ranges(start, (week, 0), 168));
    assert!(should_refresh_cloud_ranges(start, (week, 1), 168));
    assert!(should_refresh_cloud_ranges(start, (week, 0), 167));
    // The offset counts.
    assert!(should_refresh_cloud_ranges(Some("1970-01-01T00:00:00+01:00"), (week, 0), 168));
    assert!(!should_refresh_cloud_ranges(Some("1970-01-01T00:00:00-01:00"), (week, 0), 168));
    // A time that has not come yet is not too long ago.
    assert!(!should_refresh_cloud_ranges(Some("2999-01-01T00:00:00Z"), (week, 0), 0));
    // A leap second is read.
    assert!(should_refresh_cloud_ranges(Some("1969-12-31T23:59:60.5Z"), (week, 0), 1));
}

#[test]
fn ages_in_hours() {
    assert!(!is_older((3600, 0), 1));
    assert!(is_older((3600, 1), 1));
    assert!(!is_older((3599, 999_999_999), 1));
    assert!(!is_older((-5, 0), 0));
    assert!(!is_older((i64::MAX, 999_999_999), u64::MAX));
    assert!(!is_older((i64::MAX, 0), i64::MAX as u64));
}

#[test]
fn any_number_of_hours_is_a_limit() {
    assert!(should_refresh_cloud_ranges(None, (0, 0), u64::MAX));
    assert!(should_refresh_cloud_ranges(Some("junk"), (0, 0), u64::MAX));
    assert!(!should_refresh_cloud_ranges(Some("1970-01-01T00:00:00Z"), (60, 0), u64::MAX));
}

#[test]
fn longer_limits_refresh_less() {
    let start = Some("1970-01-01T00:00:00Z");
    let at = (1_000_000, 0);
    let mut stale = true;
    for hours in 0..400 {
        let next = should_refresh_cloud_ranges(start, at, hours);
        assert!(stale || !next);
        stale = next;
    }
    assert!(!stale);
}

#[test]
fn when_ranges_are_fetched() {
    let fresh = Some("1970-01-01T00:00:00Z".to_string());
    let at = (60, 0);
    assert!(!needs_refresh(false, false, &vec![fresh.clone()], at, 1));
    assert!(!needs_refresh(false, false, &vec![], at, 1));
    assert!(needs_refresh(false, false, &vec![fresh.clone(), None], at, 1));
    assert!(needs_refresh(true, false, &vec![fresh.clone()], at, 1));
    assert!(needs_refresh(false, true, &vec![fresh.clone()], at, 1));
}

#[test]
fn which_providers_are_wanted() {
    assert_eq!(
        parse_provider_list("aws, GCP ,nimbus,,cloudflare"),
        vec![CloudProvider::AWS, CloudProvider::GCP, CloudProvider::Cloudflare]
    );
    assert_eq!(parse_provider_list(""), vec![]);
    assert_eq!(
        providers_wanted(&None),
        vec![
            CloudProvider::AWS,
            CloudProvider::Azure,
            CloudProvider::GCP,
            CloudProvider::DigitalOcean,
            CloudProvider::Cloudflare
        ]
    );
    assert_eq!(
        providers_wanted(&Some(vec![CloudProvider::GCP])),
        vec![CloudProvider::GCP]
    );
}

#[test]
fn where_the_lists_are() {
    assert_eq!(
        CloudProvider::AWS.list_source(),
        (Source::Document, "https://ip-ranges.amazonaws.com/ip-ranges.json")
    );
    assert_eq!(
        CloudProvider::Azure.list_source().0,
        Source::Page
    );
    assert_eq!(
        CloudProvider::Azure.metadata_url(),
        "https://www.microsoft.com/en-us/download/details.aspx?id=56519"
    );
    assert_eq!(
        CloudProvider::Cloudflare.list_source(),
        (Source::TwoLists, "https://www.cloudflare.com/ips-v4")
    );
    assert_eq!(
        CloudProvider::Cloudflare.ipv6_source(),
        Some("https://www.cloudflare.com/ips-v6")
    );
    assert_eq!(CloudProvider::AWS.ipv6_source(), None);
    for p in [CloudProvider::AWS, CloudProvider::GCP, CloudProvider::DigitalOcean, CloudProvider::Cloudflare] {
        assert_eq!(p.metadata_url(), p.list_source().1);
    }
}

#[test]
fn what_is_said_after_fetching() {
    assert_eq!(
        refresh_summary(3, 2).as_deref(),
        Some("Cloud ranges updated: 3 succeeded, 2 failed")
    );
    assert_eq!(
        refresh_summary(0, 1).as_deref(),
        Some("Warning: All cloud range fetches failed, will use cached data if available")
    );
    assert_eq!(refresh_summary(0, 0), None);
}

#[test]
fn requests_to_ipinfo() {
    for attempt in 1..=3u32 {
        assert_eq!(after_ipinfo(Reply::Status(200), attempt), NextStep::Accept);
        assert_eq!(after_ipinfo(Reply::Status(299), attempt), NextStep::Accept);
        assert_eq!(after_ipinfo(Reply::Status(404), attempt), NextStep::GiveUpAfter(0));
        assert_eq!(after_ipinfo(Reply::Status(300), attempt), NextStep::GiveUpAfter(0));
    }
    assert_eq!(after_ipinfo(Reply::Status(429), 1), NextStep::RetryAfter(2));
    assert_eq!(after_ipinfo(Reply::Status(429), 2), NextStep::RetryAfter(4));
    assert_eq!(after_ipinfo(Reply::Status(429), 3), NextStep::GiveUpAfter(8));
    assert_eq!(after_ipinfo(Reply::Status(503), 1), NextStep::RetryAfter(2));
    assert_eq!(after_ipinfo(Reply::Status(503), 2), NextStep::RetryAfter(4));
    assert_eq!(after_ipinfo(Reply::Status(503), 3), NextStep::GiveUpAfter(0));
    assert_eq!(after_ipinfo(Reply::Failure, 2), NextStep::RetryAfter(4));
    assert_eq!(after_ipinfo(Reply::Failure, 3), NextStep::GiveUpAfter(0));
}

#[test]
fn requests_for_lists() {
    assert_eq!(after_list_request(Reply::Status(200), 2), (NextStep::Accept, 2));
    assert_eq!(after_list_request(Reply::Status(500), 1), (NextStep::RetryAfter(0), 1));
    assert_eq!(after_list_request(Reply::Failure, 0), (NextStep::RetryAfter(2), 1));
    assert_eq!(after_list_request(Reply::Failure, 1), (NextStep::RetryAfter(4), 2));
    assert_eq!(after_list_request(Reply::Failure, 2), (NextStep::GiveUpAfter(0), 3));
}
