use ip_report::classify::{classify_cloud_provider, label_by_keywords};
use ip_report::cloud::{
    cloud_provider_prefix, display_org_with_infra, effective_org, parse_ipinfo_org,
    provider_by_name, CloudMatch, CloudProvider,
};
use ip_report::records::IpRecord;

#[test]
fn test_cloud_match_format_org_full() {
    let cloud_match = CloudMatch {
        provider: CloudProvider::AWS,
        service: Some("EC2".to_string()),
        region: Some("us-east-1".to_string()),
    };

    assert_eq!(cloud_match.format_org(), "AWS / EC2 / us-east-1");
}

#[test]
fn test_cloud_match_format_org_no_region() {
    let cloud_match = CloudMatch {
        provider: CloudProvider::Azure,
        service: Some("AzureCloud".to_string()),
        region: None,
    };

    assert_eq!(cloud_match.format_org(), "Azure / AzureCloud");
}

#[test]
fn test_cloud_match_format_org_provider_only() {
    let cloud_match = CloudMatch {
        provider: CloudProvider::Cloudflare,
        service: None,
        region: None,
    };

    assert_eq!(cloud_match.format_org(), "Cloudflare");
}

#[test]
fn test_cloud_match_format_org_region_only() {
    let cloud_match = CloudMatch {
        provider: CloudProvider::GCP,
        service: None,
        region: Some("europe-west1".to_string()),
    };

    assert_eq!(cloud_match.format_org(), "GCP / europe-west1");
}

#[test]
fn test_cloud_provider_from_str() {
    assert_eq!(CloudProvider::from_str("aws"), Some(CloudProvider::AWS));
    assert_eq!(CloudProvider::from_str("AWS"), Some(CloudProvider::AWS));
    assert_eq!(CloudProvider::from_str("azure"), Some(CloudProvider::Azure));
    assert_eq!(CloudProvider::from_str("gcp"), Some(CloudProvider::GCP));
    assert_eq!(
        CloudProvider::from_str("digitalocean"),
        Some(CloudProvider::DigitalOcean)
    );
    assert_eq!(
        CloudProvider::from_str("cloudflare"),
        Some(CloudProvider::Cloudflare)
    );
    assert_eq!(CloudProvider::from_str("invalid"), None);
}

#[test]
fn test_cloud_provider_as_str() {
    assert_eq!(CloudProvider::AWS.as_str(), "AWS");
    assert_eq!(CloudProvider::Azure.as_str(), "Azure");
    assert_eq!(CloudProvider::GCP.as_str(), "GCP");
    assert_eq!(CloudProvider::DigitalOcean.as_str(), "DigitalOcean");
    assert_eq!(CloudProvider::Cloudflare.as_str(), "Cloudflare");
}

#[test]
fn provider_names_read_back() {
    for p in [
        CloudProvider::AWS,
        CloudProvider::Azure,
        CloudProvider::GCP,
        CloudProvider::DigitalOcean,
        CloudProvider::Cloudflare,
    ] {
        assert_eq!(CloudProvider::from_str(p.as_str()), Some(p));
        assert_eq!(CloudProvider::from_str(&p.as_str().to_uppercase()), Some(p));
    }
}

#[test]
fn names_in_lower_case_only() {
    assert_eq!(provider_by_name("aws"), Some(CloudProvider::AWS));
    assert_eq!(provider_by_name("AWS"), None);
    assert_eq!(provider_by_name(" aws"), None);
    assert_eq!(provider_by_name(""), None);
}

#[test]
fn lower_case_of_other_scripts_is_taken() {
    // The Kelvin sign is a capital k.
    assert_eq!(CloudProvider::from_str("\u{212a}"), None);
    let rec = make_rec(Some("\u{212a}AMATERA"), None, None, None);
    assert_eq!(classify_cloud_provider(&rec), "Kamatera");
}

#[test]
fn test_parse_ipinfo_org_standard() {
    let (asn, org) = parse_ipinfo_org("AS15169 Google LLC");
    assert_eq!(asn, Some("AS15169".to_string()));
    assert_eq!(org, Some("Google LLC".to_string()));
}

#[test]
fn test_parse_ipinfo_org_no_asn() {
    let (asn, org) = parse_ipinfo_org("Google LLC");
    assert_eq!(asn, None);
    assert_eq!(org, Some("Google LLC".to_string()));
}

#[test]
fn test_parse_ipinfo_org_asn_only() {
    let (asn, org) = parse_ipinfo_org("AS15169");
    assert_eq!(asn, Some("AS15169".to_string()));
    assert_eq!(org, None);
}

#[test]
fn test_parse_ipinfo_org_extra_spaces() {
    let (asn, org) = parse_ipinfo_org("  AS16509  Amazon.com, Inc.  ");
    assert_eq!(asn, Some("AS16509".to_string()));
    assert_eq!(org, Some("Amazon.com, Inc.".to_string()));
}

#[test]
fn ipinfo_org_edge_cases() {
    assert_eq!(parse_ipinfo_org(""), (None, None));
    assert_eq!(parse_ipinfo_org(" \t "), (None, None));
    assert_eq!(parse_ipinfo_org("AS"), (None, Some("AS".to_string())));
    assert_eq!(
        parse_ipinfo_org("AS12x Foo"),
        (None, Some("AS12x Foo".to_string()))
    );
    assert_eq!(
        parse_ipinfo_org("AS Foo"),
        (Some("AS".to_string()), Some("Foo".to_string()))
    );
    assert_eq!(
        parse_ipinfo_org("ASTRA Net"),
        (None, Some("ASTRA Net".to_string()))
    );
}

#[test]
fn test_display_org_with_infra_both() {
    assert_eq!(
        display_org_with_infra(Some("Google LLC"), Some("AWS / EC2 / us-east-1"), true),
        "Google LLC (AWS / EC2 / us-east-1)"
    );
}

#[test]
fn test_display_org_with_infra_org_only() {
    assert_eq!(
        display_org_with_infra(Some("Google LLC"), None, true),
        "Google LLC"
    );
}

#[test]
fn test_display_org_with_infra_infra_only() {
    assert_eq!(
        display_org_with_infra(None, Some("AWS / EC2 / us-east-1"), true),
        "(AWS / EC2 / us-east-1)"
    );
}

#[test]
fn test_display_org_with_infra_neither() {
    assert_eq!(display_org_with_infra(None, None, true), "-");
}

#[test]
fn test_display_org_with_infra_cloud_detail_off() {
    assert_eq!(
        display_org_with_infra(Some("Google LLC"), Some("AWS / EC2 / us-east-1"), false),
        "Google LLC (AWS)"
    );
}

#[test]
fn test_cloud_provider_prefix_aws() {
    assert_eq!(cloud_provider_prefix("AWS / EC2 / us-east-1"), Some("AWS"));
}

#[test]
fn test_cloud_provider_prefix_azure() {
    assert_eq!(
        cloud_provider_prefix("Azure / AzureCloud / westus2"),
        Some("Azure")
    );
}

#[test]
fn test_cloud_provider_prefix_bare() {
    assert_eq!(cloud_provider_prefix("AWS"), Some("AWS"));
}

#[test]
fn test_cloud_provider_prefix_non_cloud() {
    assert_eq!(cloud_provider_prefix("Amazon.com, Inc."), None);
}

#[test]
fn test_cloud_provider_prefix_dash() {
    assert_eq!(cloud_provider_prefix("-"), None);
}

#[test]
fn prefix_needs_the_slash() {
    assert_eq!(cloud_provider_prefix("AWS EC2"), None);
    assert_eq!(cloud_provider_prefix("AWS /EC2"), None);
    assert_eq!(cloud_provider_prefix("Cloudflare / x"), Some("Cloudflare"));
    assert_eq!(cloud_provider_prefix("DigitalOcean"), Some("DigitalOcean"));
    assert_eq!(cloud_provider_prefix("GCP / a / b"), Some("GCP"));
}

#[test]
fn test_effective_org_detail_on_cloud() {
    assert_eq!(
        effective_org("AWS / EC2 / us-east-1", true),
        "AWS / EC2 / us-east-1"
    );
}

#[test]
fn test_effective_org_detail_off_cloud() {
    assert_eq!(effective_org("AWS / EC2 / us-east-1", false), "AWS");
}

#[test]
fn test_effective_org_detail_on_non_cloud() {
    assert_eq!(effective_org("Amazon.com, Inc.", true), "Amazon.com, Inc.");
}

#[test]
fn test_effective_org_detail_off_non_cloud() {
    assert_eq!(effective_org("Amazon.com, Inc.", false), "Amazon.com, Inc.");
}

#[test]
fn matches_name_their_provider() {
    let m = CloudMatch {
        provider: CloudProvider::DigitalOcean,
        service: Some("Droplets".to_string()),
        region: Some("nyc3".to_string()),
    };
    let org = m.format_org();
    assert_eq!(cloud_provider_prefix(&org), Some("DigitalOcean"));
    assert_eq!(effective_org(&org, false), "DigitalOcean");
    assert_eq!(effective_org(&org, true), "DigitalOcean / Droplets / nyc3");
}

fn make_rec(
    org: Option<&str>,
    infra: Option<&str>,
    asn: Option<&str>,
    company_domain: Option<&str>,
) -> IpRecord {
    IpRecord {
        ip: "1.2.3.4".to_string(),
        count: 1,
        bytes: 0,
        looked_up: true,
        lookup_in_progress: false,
        in_display_set: true,
        org: org.map(|s| s.to_string()),
        infra: infra.map(|s| s.to_string()),
        asn: asn.map(|s| s.to_string()),
        company_domain: company_domain.map(|s| s.to_string()),
        reverse_dns: None,
        user_agent: None,
        country: None,
    }
}

fn by_org(org: &str) -> String {
    classify_cloud_provider(&make_rec(Some(org), None, None, None))
}

#[test]
fn test_classify_cloud_infra_takes_priority() {
    let rec = make_rec(
        Some("Hetzner Online GmbH"),
        Some("AWS / EC2 / us-east-1"),
        None,
        None,
    );
    assert_eq!(classify_cloud_provider(&rec), "AWS");
}

#[test]
fn test_classify_cloud_org_fallback() {
    assert_eq!(by_org("OVH SAS"), "OVH");
    assert_eq!(by_org("Hetzner Online GmbH"), "Hetzner");
    assert_eq!(by_org("AMAZON-02"), "AWS");
}

#[test]
fn test_classify_cloud_domain_match() {
    let rec = make_rec(None, None, None, Some("hetzner.com"));
    assert_eq!(classify_cloud_provider(&rec), "Hetzner");
}

#[test]
fn test_classify_cloud_asn_match() {
    let rec = make_rec(None, None, Some("AS16276 OVH SAS"), None);
    assert_eq!(classify_cloud_provider(&rec), "OVH");
}

#[test]
fn test_classify_cloud_unknown() {
    let rec = make_rec(Some("Comcast Cable"), None, None, None);
    assert_eq!(classify_cloud_provider(&rec), "Other/Unknown");
}

#[test]
fn test_classify_cloud_no_data() {
    let rec = make_rec(None, None, None, None);
    assert_eq!(classify_cloud_provider(&rec), "Other/Unknown");
}

#[test]
fn test_classify_cloud_extended_providers() {
    assert_eq!(by_org("Linode LLC"), "Linode/Akamai");
    assert_eq!(by_org("Choopa LLC"), "Vultr");
    assert_eq!(by_org("Alibaba Cloud"), "Alibaba Cloud");
    assert_eq!(by_org("Tencent Cloud"), "Tencent Cloud");
    assert_eq!(by_org("Scaleway S.A.S."), "Scaleway");
    assert_eq!(by_org("UpCloud Ltd"), "UpCloud");
    assert_eq!(by_org("Hostinger International"), "Hostinger");
    assert_eq!(by_org("Orange S.A."), "Orange");
    assert_eq!(by_org("Contabo GmbH"), "Contabo");
    assert_eq!(by_org("IONOS SE"), "IONOS");
    assert_eq!(by_org("1&1 Internet AG"), "IONOS");
    assert_eq!(by_org("LeaseWeb"), "LeaseWeb");
    assert_eq!(by_org("Rackspace Ltd"), "Rackspace");
    assert_eq!(by_org("SoftLayer Technologies"), "IBM Cloud");
    assert_eq!(by_org("Netcup GmbH"), "Netcup");
    assert_eq!(by_org("FranTech Solutions"), "BuyVM/FranTech");
    assert_eq!(by_org("Fastly Inc"), "Fastly");
}

#[test]
fn remaining_keywords() {
    for (word, label) in [
        ("amazon", "AWS"),
        ("aws", "AWS"),
        ("microsoft", "Azure"),
        ("azure", "Azure"),
        ("google", "GCP"),
        ("gcp", "GCP"),
        ("digitalocean", "DigitalOcean"),
        ("cloudflare", "Cloudflare"),
        ("akamai", "Linode/Akamai"),
        ("vultr", "Vultr"),
        ("oracle cloud", "Oracle Cloud"),
        ("oraclecloud", "Oracle Cloud"),
        ("aliyun", "Alibaba Cloud"),
        ("alicloud", "Alibaba Cloud"),
        ("online.net", "Scaleway"),
        ("iliad", "Scaleway"),
        ("1and1", "IONOS"),
        ("ibm cloud", "IBM Cloud"),
        ("kamatera", "Kamatera"),
        ("cherry servers", "Cherry Servers"),
        ("quadranet", "QuadraNet"),
        ("colocrossing", "ColoCrossing"),
        ("buyvm", "BuyVM/FranTech"),
        ("ponynet", "BuyVM/FranTech"),
        ("psychz", "Psychz"),
        ("zenlayer", "Zenlayer"),
        ("serverius", "Serverius"),
        ("heroku", "Heroku/Salesforce"),
        ("salesforce", "Heroku/Salesforce"),
    ] {
        assert_eq!(label_by_keywords(word), Some(label));
    }
    assert_eq!(label_by_keywords("oracle"), None);
    assert_eq!(label_by_keywords("cherry"), None);
    assert_eq!(label_by_keywords("AMAZON"), None);
}

#[test]
fn earlier_fields_and_words_win() {
    let rec = make_rec(Some("Hetzner"), None, Some("Amazon"), Some("google.com"));
    assert_eq!(classify_cloud_provider(&rec), "Hetzner");
    let rec = make_rec(Some("Acme"), None, Some("Amazon"), Some("google.com"));
    assert_eq!(classify_cloud_provider(&rec), "GCP");
    assert_eq!(by_org("Google on AWS"), "AWS");
    let rec = make_rec(Some("Hetzner"), Some("My Range"), None, None);
    assert_eq!(classify_cloud_provider(&rec), "My Range");
}

#[test]
fn case_does_not_change_the_cloud() {
    // With letters beyond ASCII as well, a capital sigma among them.
    for org in ["Amazon \u{d6}sterreich", "\u{391}\u{3a3} amazon"] {
        for text in [org.to_string(), org.to_ascii_uppercase(), org.to_ascii_lowercase()] {
            assert_eq!(by_org(&text), "AWS");
            assert_eq!(
                ip_report::text::to_lower(&text),
                org.to_lowercase()
            );
        }
    }
    assert_eq!(
        ip_report::text::to_lower("A\u{3a3} \u{3a3}A A\u{3a3}b \u{130}"),
        "A\u{3a3} \u{3a3}A A\u{3a3}b \u{130}".to_lowercase()
    );
}
