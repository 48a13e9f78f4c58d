use ip_report::address::{IpAddress, Network};
use ip_report::cloud::CloudProvider;
use ip_report::feeds::{
    azure_download_url, parse_aws_ranges, parse_azure_ranges, parse_cloudflare_text,
    parse_digitalocean_ranges, parse_gcp_ranges, AwsIpRanges, AwsPrefix, AzureServiceTags,
    AzureValue, GcpIpRanges, GcpPrefix,
};
use ip_report::ranges::{find_infra, range_row, CloudRange, CloudRangeCache, StoredRange};

const AWS_JSON: &str = r#"{
    "prefixes": [
        {"ip_prefix": "52.93.153.0/24", "region": "us-east-1", "service": "EC2"},
        {"ip_prefix": "13.34.0.0/16", "region": "eu-west-2", "service": "AMAZON"}
    ],
    "ipv6_prefixes": [
        {"ipv6_prefix": "2600:9000::/28", "region": "GLOBAL", "service": "CLOUDFRONT"}
    ]
}"#;

const AWS_JSON_EMPTY: &str = r#"{"prefixes": [], "ipv6_prefixes": []}"#;

const GCP_JSON: &str = r#"{
    "prefixes": [
        {"ipv4Prefix": "34.1.208.0/20", "scope": "africa-south1"},
        {"ipv6Prefix": "2600:1900::/28", "scope": "us-central1"}
    ]
}"#;

const GCP_JSON_NO_SCOPE: &str = r#"{
    "prefixes": [
        {"ipv4Prefix": "35.190.0.0/16"}
    ]
}"#;

const AZURE_JSON: &str = r#"{
    "values": [
        {
            "name": "AzureCloud",
            "properties": {
                "addressPrefixes": ["20.118.137.0/24", "2603:1030::/48"],
                "region": "westus2"
            }
        },
        {
            "name": "AzureVMs",
            "properties": {
                "addressPrefixes": ["40.121.0.0/16"]
            }
        }
    ]
}"#;

const CLOUDFLARE_V4: &str = "104.21.48.0/20\n172.67.0.0/17\n\n# Comment line\n188.114.96.0/20";
const CLOUDFLARE_V6: &str = "2606:4700::/32\n2803:f800::/32";

const DIGITALOCEAN_CSV: &str =
    "ip,region\n164.90.241.0/24,nyc3\n167.99.0.0/16,sfo2\n159.65.0.0/16,lon1";
const DIGITALOCEAN_CSV_EMPTY: &str = "ip,region";
const DIGITALOCEAN_CSV_NO_HEADER: &str = "164.90.241.0/24,nyc3";

fn json(s: &str) -> serde_json::Value {
    serde_json::from_str(s).unwrap()
}

fn text(v: &serde_json::Value, key: &str) -> String {
    v[key].as_str().unwrap().to_string()
}

fn opt_text(v: &serde_json::Value, key: &str) -> Option<String> {
    v[key].as_str().map(|s| s.to_string())
}

fn aws_prefixes(v: &serde_json::Value, key: &str) -> Vec<AwsPrefix> {
    v.as_array()
        .unwrap()
        .iter()
        .map(|p| AwsPrefix {
            prefix: text(p, key),
            region: text(p, "region"),
            service: text(p, "service"),
        })
        .collect()
}

fn aws(s: &str) -> Vec<CloudRange> {
    let v = json(s);
    parse_aws_ranges(&AwsIpRanges {
        prefixes: aws_prefixes(&v["prefixes"], "ip_prefix"),
        ipv6_prefixes: aws_prefixes(&v["ipv6_prefixes"], "ipv6_prefix"),
    })
}

fn azure(s: &str) -> Vec<CloudRange> {
    let v = json(s);
    parse_azure_ranges(&AzureServiceTags {
        values: v["values"]
            .as_array()
            .unwrap()
            .iter()
            .map(|x| AzureValue {
                name: text(x, "name"),
                region: opt_text(&x["properties"], "region"),
                address_prefixes: x["properties"]["addressPrefixes"]
                    .as_array()
                    .unwrap()
                    .iter()
                    .map(|p| p.as_str().unwrap().to_string())
                    .collect(),
            })
            .collect(),
    })
}

fn gcp(s: &str) -> Vec<CloudRange> {
    let v = json(s);
    parse_gcp_ranges(&GcpIpRanges {
        prefixes: v["prefixes"]
            .as_array()
            .unwrap()
            .iter()
            .map(|p| GcpPrefix {
                ipv4_prefix: opt_text(p, "ipv4Prefix"),
                ipv6_prefix: opt_text(p, "ipv6Prefix"),
                scope: opt_text(p, "scope"),
            })
            .collect(),
    })
}

fn net(s: &str) -> Network {
    Network::parse(s).unwrap()
}

fn ip(s: &str) -> IpAddress {
    IpAddress::parse(s).unwrap()
}

fn range(
    provider: CloudProvider,
    service: Option<&str>,
    region: Option<&str>,
    network: &str,
) -> CloudRange {
    CloudRange {
        provider,
        service: service.map(|s| s.to_string()),
        region: region.map(|s| s.to_string()),
        network: net(network),
    }
}

fn find<'a>(ranges: &'a [CloudRange], network: &str) -> &'a CloudRange {
    ranges
        .iter()
        .find(|r| r.network.to_text() == network)
        .unwrap()
}

/// Stores ranges and loads them, the longer prefixes first.
fn through_rows(ranges: &[CloudRange]) -> CloudRangeCache {
    let mut rows: Vec<_> = ranges.iter().map(range_row).collect();
    rows.sort_by(|a, b| b.prefix_length.cmp(&a.prefix_length));
    let stored: Vec<StoredRange> = rows.into_iter().map(|r| r.stored).collect();
    CloudRangeCache::load(&stored)
}

#[test]
fn test_parse_aws_ranges() {
    let result = aws(AWS_JSON);
    assert_eq!(result.len(), 3);

    // Check IPv4 prefix
    let ec2 = find(&result, "52.93.153.0/24");
    assert_eq!(ec2.provider, CloudProvider::AWS);
    assert_eq!(ec2.service.as_deref(), Some("EC2"));
    assert_eq!(ec2.region.as_deref(), Some("us-east-1"));

    // Check IPv6 prefix
    let cf = find(&result, "2600:9000::/28");
    assert_eq!(cf.service.as_deref(), Some("CLOUDFRONT"));
    assert_eq!(cf.region.as_deref(), Some("GLOBAL"));
}

#[test]
fn test_parse_aws_ranges_empty() {
    let result = aws(AWS_JSON_EMPTY);
    assert_eq!(result.len(), 0);
}

#[test]
fn test_parse_aws_ranges_invalid_cidr() {
    let result = aws(
        r#"{
        "prefixes": [
            {"ip_prefix": "invalid.cidr", "region": "us-east-1", "service": "EC2"},
            {"ip_prefix": "52.93.153.0/24", "region": "us-east-1", "service": "EC2"}
        ],
        "ipv6_prefixes": []
    }"#,
    );
    assert_eq!(result.len(), 1); // Should skip invalid CIDR
    assert_eq!(result[0].network.to_text(), "52.93.153.0/24");
}

#[test]
fn test_parse_azure_ranges() {
    let result = azure(AZURE_JSON);
    assert_eq!(result.len(), 3);

    let azure_cloud = find(&result, "20.118.137.0/24");
    assert_eq!(azure_cloud.provider, CloudProvider::Azure);
    assert_eq!(azure_cloud.service.as_deref(), Some("AzureCloud"));
    assert_eq!(azure_cloud.region.as_deref(), Some("westus2"));

    // Check IPv6
    let ipv6 = find(&result, "2603:1030::/48");
    assert_eq!(ipv6.service.as_deref(), Some("AzureCloud"));
}

#[test]
fn test_parse_azure_ranges_no_region() {
    let result = azure(
        r#"{"values": [{"name": "Service", "properties": {"addressPrefixes": ["10.0.0.0/8"]}}]}"#,
    );
    assert_eq!(result.len(), 1);
    assert_eq!(result[0].region, None);
}

#[test]
fn test_parse_azure_ranges_empty_prefixes() {
    let result = azure(
        r#"{
        "values": [
            {
                "name": "Service",
                "properties": {
                    "addressPrefixes": []
                }
            }
        ]
    }"#,
    );
    assert_eq!(result.len(), 0);
}

#[test]
fn test_parse_gcp_ranges() {
    let result = gcp(GCP_JSON);
    assert_eq!(result.len(), 2);

    let ipv4 = find(&result, "34.1.208.0/20");
    assert_eq!(ipv4.provider, CloudProvider::GCP);
    assert_eq!(ipv4.service, None);
    assert_eq!(ipv4.region.as_deref(), Some("africa-south1"));

    let ipv6 = find(&result, "2600:1900::/28");
    assert_eq!(ipv6.region.as_deref(), Some("us-central1"));
}

#[test]
fn test_parse_gcp_ranges_no_scope() {
    let result = gcp(GCP_JSON_NO_SCOPE);
    assert_eq!(result.len(), 1);
    assert_eq!(result[0].region, None);
}

#[test]
fn test_parse_gcp_ranges_mixed_ipv4_ipv6() {
    let result = gcp(
        r#"{
        "prefixes": [
            {"ipv4Prefix": "34.1.208.0/20"},
            {"ipv6Prefix": "2600:1900::/28"},
            {"ipv4Prefix": "35.190.0.0/16", "scope": "us-central1"}
        ]
    }"#,
    );
    assert_eq!(result.len(), 3);

    let ipv4_count = result
        .iter()
        .filter(|r| matches!(r.network, Network::V4 { .. }))
        .count();
    let ipv6_count = result
        .iter()
        .filter(|r| matches!(r.network, Network::V6 { .. }))
        .count();

    assert_eq!(ipv4_count, 2);
    assert_eq!(ipv6_count, 1);
}

#[test]
fn gcp_entry_with_both_families() {
    let result = gcp(
        r#"{"prefixes": [{"ipv6Prefix": "2600:1900::/28", "ipv4Prefix": "34.1.208.0/20", "scope": "x"}]}"#,
    );
    assert_eq!(result.len(), 2);
    assert_eq!(result[0].network.to_text(), "34.1.208.0/20");
    assert_eq!(result[1].network.to_text(), "2600:1900::/28");
    assert_eq!(result[1].region.as_deref(), Some("x"));
}

#[test]
fn test_parse_digitalocean_ranges() {
    let result = parse_digitalocean_ranges(DIGITALOCEAN_CSV);
    assert_eq!(result.len(), 3);

    let nyc3 = find(&result, "164.90.241.0/24");
    assert_eq!(nyc3.provider, CloudProvider::DigitalOcean);
    assert_eq!(nyc3.service, None);
    assert_eq!(nyc3.region.as_deref(), Some("nyc3"));
}

#[test]
fn test_parse_digitalocean_ranges_empty() {
    let result = parse_digitalocean_ranges(DIGITALOCEAN_CSV_EMPTY);
    assert_eq!(result.len(), 0);
    assert_eq!(parse_digitalocean_ranges("").len(), 0);
}

#[test]
fn test_parse_digitalocean_ranges_no_header() {
    let result = parse_digitalocean_ranges(DIGITALOCEAN_CSV_NO_HEADER);
    // Should skip first line (treated as header)
    assert_eq!(result.len(), 0);
}

#[test]
fn test_parse_digitalocean_csv_malformed() {
    let csv = "10.0.0.0/8\nincomplete line\n192.168.0.0/16,nyc1";
    let result = parse_digitalocean_ranges(csv);

    // Should skip header and malformed line, only get valid one
    assert_eq!(result.len(), 1);
    assert_eq!(result[0].network.to_text(), "192.168.0.0/16");
}

#[test]
fn csv_fields_are_trimmed() {
    let result = parse_digitalocean_ranges("h\r\n 10.0.0.0/8 , x y ,z\r\n");
    assert_eq!(result.len(), 1);
    assert_eq!(result[0].region.as_deref(), Some("x y"));
}

#[test]
fn test_parse_cloudflare_text() {
    let result = parse_cloudflare_text(CLOUDFLARE_V4, CloudProvider::Cloudflare);
    assert_eq!(result.len(), 3); // 3 valid CIDRs, skipping comment and empty line

    let range1 = find(&result, "104.21.48.0/20");
    assert_eq!(range1.provider, CloudProvider::Cloudflare);
    assert_eq!(range1.service, None);
    assert_eq!(range1.region, None);
}

#[test]
fn test_parse_cloudflare_text_ipv6() {
    let result = parse_cloudflare_text(CLOUDFLARE_V6, CloudProvider::Cloudflare);
    assert_eq!(result.len(), 2);

    assert!(result
        .iter()
        .any(|r| r.network.to_text() == "2606:4700::/32"));
}

#[test]
fn test_parse_cloudflare_text_empty() {
    let result = parse_cloudflare_text("", CloudProvider::Cloudflare);
    assert_eq!(result.len(), 0);
}

#[test]
fn test_parse_cloudflare_text_invalid_cidr() {
    let result = parse_cloudflare_text(
        "invalid.cidr.here\n104.21.48.0/20",
        CloudProvider::Cloudflare,
    );
    assert_eq!(result.len(), 1); // Should skip invalid CIDR
}

#[test]
fn azure_link_is_found() {
    let html = "<a href=\"https://www.microsoft.com\">x</a>\n<a href=\"https://download.microsoft.com/a/ServiceTags.json\">y</a>\n";
    assert_eq!(
        azure_download_url(html).as_deref(),
        Some("https://download.microsoft.com/a/ServiceTags.json")
    );
    assert_eq!(azure_download_url("nothing here"), None);
    // The first line that offers a download decides, though it holds no link.
    let html = "download.microsoft.com x.json\nhttps://download.microsoft.com/a.json\"";
    assert_eq!(azure_download_url(html), None);
    // A link that is not closed is none.
    assert_eq!(azure_download_url("https://download.microsoft.com/a.json"), None);
}

#[test]
fn test_cloud_match_ipv4_exact() {
    let mut cache = CloudRangeCache::new();
    cache.ipv4_ranges.push(range(
        CloudProvider::AWS,
        Some("EC2"),
        Some("us-east-1"),
        "52.93.153.170/32",
    ));

    let result = cache.match_ip(&ip("52.93.153.170"));

    assert!(result.is_some());
    let matched = result.unwrap();
    assert_eq!(matched.provider, CloudProvider::AWS);
    assert_eq!(matched.service.as_deref(), Some("EC2"));
    assert_eq!(matched.region.as_deref(), Some("us-east-1"));
}

#[test]
fn test_cloud_match_ipv4_subnet() {
    let mut cache = CloudRangeCache::new();
    cache.ipv4_ranges.push(range(
        CloudProvider::GCP,
        None,
        Some("europe-west1"),
        "34.1.208.0/20",
    ));

    let result = cache.match_ip(&ip("34.1.215.123"));

    assert!(result.is_some());
    let matched = result.unwrap();
    assert_eq!(matched.provider, CloudProvider::GCP);
    assert_eq!(matched.region.as_deref(), Some("europe-west1"));
}

#[test]
fn test_cloud_match_ipv4_no_match() {
    let mut cache = CloudRangeCache::new();
    cache.ipv4_ranges.push(range(
        CloudProvider::AWS,
        Some("EC2"),
        Some("us-east-1"),
        "52.93.153.0/24",
    ));

    let result = cache.match_ip(&ip("1.2.3.4"));

    assert!(result.is_none());
}

#[test]
fn test_cloud_match_most_specific() {
    let mut cache = CloudRangeCache::new();
    // Add /16 first (less specific)
    cache.ipv4_ranges.push(range(
        CloudProvider::AWS,
        Some("S3"),
        Some("us-west-2"),
        "52.93.0.0/16",
    ));
    // Add /24 second (more specific)
    cache.ipv4_ranges.push(range(
        CloudProvider::AWS,
        Some("EC2"),
        Some("us-east-1"),
        "52.93.153.0/24",
    ));

    let result = cache.match_ip(&ip("52.93.153.100")).unwrap();

    assert_eq!(result.provider, CloudProvider::AWS);
    // The first match wins.
    assert_eq!(result.service.as_deref(), Some("S3"));
}

#[test]
fn test_cloud_match_ipv6() {
    let mut cache = CloudRangeCache::new();
    cache
        .ipv6_ranges
        .push(range(CloudProvider::Cloudflare, None, None, "2606:4700::/32"));

    let result = cache.match_ip(&ip("2606:4700::1"));

    assert!(result.is_some());
    let matched = result.unwrap();
    assert_eq!(matched.provider, CloudProvider::Cloudflare);
    assert_eq!(matched.service, None);
    assert_eq!(matched.region, None);
}

#[test]
fn test_cloud_match_overlapping_ranges() {
    let mut cache = CloudRangeCache::new();

    // Add broader range first
    cache.ipv4_ranges.push(range(
        CloudProvider::AWS,
        Some("S3"),
        Some("us-west-2"),
        "52.0.0.0/8",
    ));

    // Add more specific range
    cache.ipv4_ranges.push(range(
        CloudProvider::AWS,
        Some("EC2"),
        Some("us-east-1"),
        "52.93.153.0/24",
    ));

    let result = cache.match_ip(&ip("52.93.153.100")).unwrap();

    // First match wins in a linear search
    assert_eq!(result.provider, CloudProvider::AWS);
}

#[test]
fn test_ipv6_full_address() {
    let mut cache = CloudRangeCache::new();
    cache.ipv6_ranges.push(range(
        CloudProvider::AWS,
        Some("CLOUDFRONT"),
        Some("GLOBAL"),
        "2600:9000:1000::/36",
    ));

    let result = cache.match_ip(&ip("2600:9000:1000:0:0:0:0:1"));

    assert!(result.is_some());
}

#[test]
fn test_ipv6_compressed() {
    let mut cache = CloudRangeCache::new();
    cache
        .ipv6_ranges
        .push(range(CloudProvider::Cloudflare, None, None, "::1/128"));

    let result = cache.match_ip(&ip("::1"));

    assert!(result.is_some());
}

#[test]
fn test_store_cloud_ranges() {
    let ranges = vec![
        range(
            CloudProvider::AWS,
            Some("EC2"),
            Some("us-east-1"),
            "52.93.153.0/24",
        ),
        range(
            CloudProvider::GCP,
            None,
            Some("europe-west1"),
            "2600:1900::/28",
        ),
    ];

    let rows: Vec<_> = ranges.iter().map(range_row).collect();
    assert_eq!(rows.len(), 2);

    // Verify IPv4 range
    let row = rows
        .iter()
        .find(|r| r.stored.ip_prefix == "52.93.153.0/24")
        .unwrap();
    assert_eq!(row.stored.provider, "AWS");
    assert_eq!(row.stored.service.as_deref(), Some("EC2"));
    assert_eq!(row.stored.is_v6, false);
    assert_eq!(row.prefix_length, 24);

    // Verify IPv6 range
    let row = rows
        .iter()
        .find(|r| r.stored.ip_prefix == "2600:1900::/28")
        .unwrap();
    assert_eq!(row.stored.provider, "GCP");
    assert_eq!(row.stored.is_v6, true);
    assert_eq!(row.prefix_length, 28);
}

#[test]
fn test_cloud_range_cache_load_from_db() {
    let cache = through_rows(&[
        range(
            CloudProvider::AWS,
            Some("EC2"),
            Some("us-east-1"),
            "52.93.153.0/24",
        ),
        range(CloudProvider::Cloudflare, None, None, "2606:4700::/32"),
    ]);

    assert_eq!(cache.ipv4_ranges.len(), 1);
    assert_eq!(cache.ipv6_ranges.len(), 1);

    // Verify IPv4
    assert_eq!(cache.ipv4_ranges[0].provider, CloudProvider::AWS);
    assert_eq!(cache.ipv4_ranges[0].network.to_text(), "52.93.153.0/24");

    // Verify IPv6
    assert_eq!(cache.ipv6_ranges[0].provider, CloudProvider::Cloudflare);
    assert_eq!(cache.ipv6_ranges[0].network.to_text(), "2606:4700::/32");
}

#[test]
fn test_cloud_range_cache_load_empty_db() {
    let cache = CloudRangeCache::load(&vec![]);

    assert_eq!(cache.ipv4_ranges.len(), 0);
    assert_eq!(cache.ipv6_ranges.len(), 0);
}

#[test]
fn test_cloud_range_cache_load_invalid_cidr() {
    let cache = CloudRangeCache::load(&vec![StoredRange {
        provider: "AWS".to_string(),
        service: Some("EC2".to_string()),
        region: Some("us-east-1".to_string()),
        ip_prefix: "invalid-cidr".to_string(),
        is_v6: false,
    }]);

    // Should skip invalid CIDR
    assert_eq!(cache.ipv4_ranges.len(), 0);
}

#[test]
fn rows_of_unknown_providers_count_as_aws() {
    let cache = CloudRangeCache::load(&vec![StoredRange {
        provider: "Nimbus".to_string(),
        service: None,
        region: None,
        ip_prefix: "10.0.0.0/8".to_string(),
        is_v6: true,
    }]);
    // The flag says in which list the range goes.
    assert_eq!(cache.ipv6_ranges.len(), 1);
    assert_eq!(cache.ipv6_ranges[0].provider, CloudProvider::AWS);
    // It covers no IPv6 address.
    assert!(cache.match_ip(&ip("::1")).is_none());
    assert!(cache.match_ip(&ip("10.0.0.1")).is_none());
}

#[test]
fn test_end_to_end_cloud_detection() {
    let cache = through_rows(&[
        range(
            CloudProvider::AWS,
            Some("EC2"),
            Some("us-east-1"),
            "52.93.153.0/24",
        ),
        range(
            CloudProvider::GCP,
            None,
            Some("europe-west1"),
            "34.1.208.0/20",
        ),
        range(CloudProvider::Cloudflare, None, None, "104.21.48.0/20"),
    ]);

    // Test AWS IP
    let aws_match = cache.match_ip(&ip("52.93.153.170")).unwrap();
    assert_eq!(aws_match.format_org(), "AWS / EC2 / us-east-1");

    // Test GCP IP
    let gcp_match = cache.match_ip(&ip("34.1.208.1")).unwrap();
    assert_eq!(gcp_match.format_org(), "GCP / europe-west1");

    // Test Cloudflare IP
    let cf_match = cache.match_ip(&ip("104.21.48.240")).unwrap();
    assert_eq!(cf_match.format_org(), "Cloudflare");

    // Test non-cloud IP
    let other_match = cache.match_ip(&ip("8.8.8.8"));
    assert!(other_match.is_none());

    assert_eq!(
        find_infra(Some(&cache), "52.93.153.170").as_deref(),
        Some("AWS / EC2 / us-east-1")
    );
    assert_eq!(find_infra(Some(&cache), "8.8.8.8"), None);
    assert_eq!(find_infra(Some(&cache), "not an address"), None);
    assert_eq!(find_infra(None, "52.93.153.170"), None);
}

#[test]
fn test_cloud_range_priority_most_specific() {
    let mut cache = CloudRangeCache::new();

    // Add /16 first
    cache.ipv4_ranges.push(range(
        CloudProvider::AWS,
        Some("S3"),
        Some("us-west-2"),
        "52.93.0.0/16",
    ));

    // Add /24 second (more specific)
    cache.ipv4_ranges.push(range(
        CloudProvider::AWS,
        Some("EC2"),
        Some("us-east-1"),
        "52.93.153.0/24",
    ));

    let address = ip("52.93.153.100");

    // First match wins, so depends on order
    let result = cache.match_ip(&address).unwrap();
    assert_eq!(result.provider, CloudProvider::AWS);

    let sorted_cache = through_rows(&[
        range(
            CloudProvider::AWS,
            Some("S3"),
            Some("us-west-2"),
            "52.93.0.0/16",
        ),
        range(
            CloudProvider::AWS,
            Some("EC2"),
            Some("us-east-1"),
            "52.93.153.0/24",
        ),
    ]);

    let result = sorted_cache.match_ip(&address).unwrap();
    assert_eq!(result.provider, CloudProvider::AWS);
    // Where the longer prefixes come first, the most specific range matches.
    assert_eq!(result.service.as_deref(), Some("EC2"));
}

#[test]
fn addresses_read_back() {
    for s in ["0.0.0.0", "255.255.255.255", "10.1.2.3", "::", "::1", "2001:db8::ff00:42:8329"] {
        let a = ip(s);
        assert_eq!(a.to_text(), s);
        assert_eq!(IpAddress::parse(&a.to_text()), Some(a));
    }
    assert_eq!(ip("1.2.3.4"), IpAddress::V4(0x01020304));
    assert_eq!(ip("::ffff"), IpAddress::V6(0xffff));
    assert_eq!(ip("2001:0DB8:0:0:0:0:0:1").to_text(), "2001:db8::1");
    assert!(ip("::1").is_ipv6());
    assert!(!ip("1.2.3.4").is_ipv6());
}

#[test]
fn what_is_no_address() {
    for s in ["", " 1.2.3.4", "1.2.3", "1.2.3.256", "01.2.3.4", "1.2.3.4/24", "::1/128", "x", "1.2.3.4 "] {
        assert_eq!(IpAddress::parse(s), None);
    }
}

#[test]
fn networks_read_back() {
    for s in ["10.0.0.0/8", "1.2.3.4/32", "0.0.0.0/0", "2600:9000::/28", "::/0", "::1/128"] {
        let n = net(s);
        assert_eq!(n.to_text(), s);
        assert_eq!(Network::parse(&n.to_text()), Some(n));
    }
    assert_eq!(net("10.0.0.0/8").prefix(), 8);
    assert_eq!(net("1.2.3.4").prefix(), 32);
    assert_eq!(net("::1").prefix(), 128);
    assert_eq!(net("10.0.0.0/255.255.0.0").prefix(), 16);
    assert!(net("::/0").is_ipv6());
    assert_eq!(Network::parse("10.0.0.0/33"), None);
    assert_eq!(Network::parse("10.0.0.0/8/8"), None);
}

#[test]
fn networks_cover_their_addresses() {
    assert!(net("0.0.0.0/0").contains(&ip("255.1.2.3")));
    assert!(!net("0.0.0.0/0").contains(&ip("::1")));
    assert!(net("::/0").contains(&ip("ffff::1")));
    assert!(net("10.1.2.3/24").contains(&ip("10.1.2.255")));
    assert!(!net("10.1.2.3/24").contains(&ip("10.1.3.0")));
    assert!(net("10.1.2.3/32").contains(&ip("10.1.2.3")));
    assert!(!net("10.1.2.3/32").contains(&ip("10.1.2.2")));
    assert!(net("2600:9000::/28").contains(&ip("2600:900f:ffff::")));
    assert!(!net("2600:9000::/28").contains(&ip("2600:9010::")));
}

#[test]
fn nested_networks() {
    let wide = net("52.93.0.0/16");
    let narrow = net("52.93.153.0/24");
    for s in ["52.93.153.0", "52.93.153.255"] {
        assert!(narrow.contains(&ip(s)));
        assert!(wide.contains(&ip(s)));
    }
    assert!(wide.contains(&ip("52.93.1.1")));
    assert!(!narrow.contains(&ip("52.93.1.1")));
}

#[test]
fn loaded_lists_have_the_longer_prefixes_first() {
    let all = [
        range(CloudProvider::AWS, Some("A"), None, "10.0.0.0/8"),
        range(CloudProvider::GCP, None, Some("r"), "2001:db8::/32"),
        range(CloudProvider::Azure, Some("B"), None, "10.1.2.0/24"),
        range(CloudProvider::AWS, None, None, "2001:db8:1::/48"),
        range(CloudProvider::AWS, Some("C"), Some("r"), "10.1.0.0/16"),
    ];
    let cache = through_rows(&all);
    let nets = |l: &Vec<CloudRange>| l.iter().map(|r| r.network.to_text()).collect::<Vec<_>>();
    assert_eq!(nets(&cache.ipv4_ranges), ["10.1.2.0/24", "10.1.0.0/16", "10.0.0.0/8"]);
    assert_eq!(nets(&cache.ipv6_ranges), ["2001:db8:1::/48", "2001:db8::/32"]);
    assert_eq!(cache.ipv4_ranges[0].service.as_deref(), Some("B"));
    assert_eq!(cache.match_ip(&ip("10.1.3.4")).unwrap().service.as_deref(), Some("C"));
    assert_eq!(cache.match_ip(&ip("2001:db8:2::1")).unwrap().provider, CloudProvider::GCP);
}
