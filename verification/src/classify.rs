//! Which cloud an address belongs to.
use vstd::prelude::*;

use crate::cloud;
use crate::records::IpRecord;
use crate::text;

verus! {

broadcast use vstd::string::group_string_axioms;

/// The cloud that a text in lower case speaks of.
pub open spec fn keyword_label(s: Seq<char>) -> Option<Seq<char>> {
    if text::contains(s, "amazon"@) || text::contains(s, "aws"@) {
        Some("AWS"@)
    } else if text::contains(s, "microsoft"@) || text::contains(s, "azure"@) {
        Some("Azure"@)
    } else if text::contains(s, "google"@) || text::contains(s, "gcp"@) {
        Some("GCP"@)
    } else if text::contains(s, "digitalocean"@) {
        Some("DigitalOcean"@)
    } else if text::contains(s, "cloudflare"@) {
        Some("Cloudflare"@)
    } else if text::contains(s, "ovh"@) {
        Some("OVH"@)
    } else if text::contains(s, "hetzner"@) {
        Some("Hetzner"@)
    } else if text::contains(s, "linode"@) || text::contains(s, "akamai"@) {
        Some("Linode/Akamai"@)
    } else if text::contains(s, "vultr"@) || text::contains(s, "choopa"@) {
        Some("Vultr"@)
    } else if (text::contains(s, "oracle"@) && text::contains(s, "cloud"@)) || text::contains(s, "oraclecloud"@) {
        Some("Oracle Cloud"@)
    } else if text::contains(s, "alibaba"@) || text::contains(s, "aliyun"@) || text::contains(s, "alicloud"@) {
        Some("Alibaba Cloud"@)
    } else if text::contains(s, "tencent"@) {
        Some("Tencent Cloud"@)
    } else if text::contains(s, "scaleway"@) || text::contains(s, "online.net"@) || text::contains(s, "iliad"@) {
        Some("Scaleway"@)
    } else if text::contains(s, "upcloud"@) {
        Some("UpCloud"@)
    } else if text::contains(s, "hostinger"@) {
        Some("Hostinger"@)
    } else if text::contains(s, "orange"@) {
        Some("Orange"@)
    } else if text::contains(s, "contabo"@) {
        Some("Contabo"@)
    } else if text::contains(s, "ionos"@) || text::contains(s, "1&1"@) || text::contains(s, "1and1"@) {
        Some("IONOS"@)
    } else if text::contains(s, "leaseweb"@) {
        Some("LeaseWeb"@)
    } else if text::contains(s, "rackspace"@) {
        Some("Rackspace"@)
    } else if text::contains(s, "softlayer"@) || text::contains(s, "ibm cloud"@) {
        Some("IBM Cloud"@)
    } else if text::contains(s, "kamatera"@) {
        Some("Kamatera"@)
    } else if (text::contains(s, "cherry"@) && text::contains(s, "server"@)) {
        Some("Cherry Servers"@)
    } else if text::contains(s, "netcup"@) {
        Some("Netcup"@)
    } else if text::contains(s, "quadranet"@) {
        Some("QuadraNet"@)
    } else if text::contains(s, "colocrossing"@) {
        Some("ColoCrossing"@)
    } else if text::contains(s, "frantech"@) || text::contains(s, "buyvm"@) || text::contains(s, "ponynet"@) {
        Some("BuyVM/FranTech"@)
    } else if text::contains(s, "psychz"@) {
        Some("Psychz"@)
    } else if text::contains(s, "zenlayer"@) {
        Some("Zenlayer"@)
    } else if text::contains(s, "serverius"@) {
        Some("Serverius"@)
    } else if text::contains(s, "fastly"@) {
        Some("Fastly"@)
    } else if text::contains(s, "heroku"@) || text::contains(s, "salesforce"@) {
        Some("Heroku/Salesforce"@)
    } else {
        None
    }
}

fn mentions(s: &[char], word: &str) -> (r: bool)
    ensures
        r == text::contains(s@, word@),
{
    let chars = text::to_chars(word);
    text::has(s, &chars)
}

/// The cloud that a text in lower case speaks of.
pub fn label_by_keywords(lower: &str) -> (r: Option<&'static str>)
    ensures
        text::str_view(r) == keyword_label(lower@),
{
    let s = text::to_chars(lower);
    if mentions(&s, "amazon") || mentions(&s, "aws") {
        Some("AWS")
    } else if mentions(&s, "microsoft") || mentions(&s, "azure") {
        Some("Azure")
    } else if mentions(&s, "google") || mentions(&s, "gcp") {
        Some("GCP")
    } else if mentions(&s, "digitalocean") {
        Some("DigitalOcean")
    } else if mentions(&s, "cloudflare") {
        Some("Cloudflare")
    } else if mentions(&s, "ovh") {
        Some("OVH")
    } else if mentions(&s, "hetzner") {
        Some("Hetzner")
    } else if mentions(&s, "linode") || mentions(&s, "akamai") {
        Some("Linode/Akamai")
    } else if mentions(&s, "vultr") || mentions(&s, "choopa") {
        Some("Vultr")
    } else if (mentions(&s, "oracle") && mentions(&s, "cloud")) || mentions(&s, "oraclecloud") {
        Some("Oracle Cloud")
    } else if mentions(&s, "alibaba") || mentions(&s, "aliyun") || mentions(&s, "alicloud") {
        Some("Alibaba Cloud")
    } else if mentions(&s, "tencent") {
        Some("Tencent Cloud")
    } else if mentions(&s, "scaleway") || mentions(&s, "online.net") || mentions(&s, "iliad") {
        Some("Scaleway")
    } else if mentions(&s, "upcloud") {
        Some("UpCloud")
    } else if mentions(&s, "hostinger") {
        Some("Hostinger")
    } else if mentions(&s, "orange") {
        Some("Orange")
    } else if mentions(&s, "contabo") {
        Some("Contabo")
    } else if mentions(&s, "ionos") || mentions(&s, "1&1") || mentions(&s, "1and1") {
        Some("IONOS")
    } else if mentions(&s, "leaseweb") {
        Some("LeaseWeb")
    } else if mentions(&s, "rackspace") {
        Some("Rackspace")
    } else if mentions(&s, "softlayer") || mentions(&s, "ibm cloud") {
        Some("IBM Cloud")
    } else if mentions(&s, "kamatera") {
        Some("Kamatera")
    } else if (mentions(&s, "cherry") && mentions(&s, "server")) {
        Some("Cherry Servers")
    } else if mentions(&s, "netcup") {
        Some("Netcup")
    } else if mentions(&s, "quadranet") {
        Some("QuadraNet")
    } else if mentions(&s, "colocrossing") {
        Some("ColoCrossing")
    } else if mentions(&s, "frantech") || mentions(&s, "buyvm") || mentions(&s, "ponynet") {
        Some("BuyVM/FranTech")
    } else if mentions(&s, "psychz") {
        Some("Psychz")
    } else if mentions(&s, "zenlayer") {
        Some("Zenlayer")
    } else if mentions(&s, "serverius") {
        Some("Serverius")
    } else if mentions(&s, "fastly") {
        Some("Fastly")
    } else if mentions(&s, "heroku") || mentions(&s, "salesforce") {
        Some("Heroku/Salesforce")
    } else {
        None
    }
}

/// The first of three optional texts that speaks of a cloud decides; without one the cloud is
/// unknown. The texts are in lower case.
pub open spec fn label_of(
    org: Option<Seq<char>>,
    domain: Option<Seq<char>>,
    asn: Option<Seq<char>>,
) -> Seq<char> {
    match opt_label(org) {
        Some(l) => l,
        None => match opt_label(domain) {
            Some(l) => l,
            None => match opt_label(asn) {
                Some(l) => l,
                None => "Other/Unknown"@,
            },
        },
    }
}

/// The label that an optional text stands for.
pub open spec fn opt_label(t: Option<Seq<char>>) -> Option<Seq<char>> {
    match t {
        Some(s) => keyword_label(s),
        None => None,
    }
}

/// An optional text in lower case.
pub open spec fn opt_lower(t: Option<Seq<char>>) -> Option<Seq<char>> {
    match t {
        Some(s) => Some(text::lowered(s)),
        None => None,
    }
}

/// The cloud that a record belongs to: what the address ranges say, by the provider's name where
/// it has one, and otherwise what the organisation, its domain or its autonomous system speak of.
pub open spec fn cloud_label(rec: IpRecord) -> Seq<char> {
    match rec.infra {
        Some(infra) => cloud::org_shown(infra@, false),
        None => label_of(
            opt_lower(text::opt_view(rec.org)),
            opt_lower(text::opt_view(rec.company_domain)),
            opt_lower(text::opt_view(rec.asn)),
        ),
    }
}

fn lowered_label(t: &Option<String>) -> (r: Option<&'static str>)
    ensures
        text::str_view(r) == opt_label(opt_lower(text::opt_view(*t))),
{
    match t {
        Some(s) => {
            let lower = text::to_lower(s.as_str());
            label_by_keywords(lower.as_str())
        },
        None => None,
    }
}

/// The cloud that a record belongs to.
pub fn classify_cloud_provider(rec: &IpRecord) -> (r: String)
    ensures
        r@ == cloud_label(*rec),
{
    match &rec.infra {
        Some(infra) => {
            return cloud::effective_org(infra.as_str(), false);
        },
        None => {},
    }
    match lowered_label(&rec.org) {
        Some(l) => {
            return l.to_owned();
        },
        None => {},
    }
    match lowered_label(&rec.company_domain) {
        Some(l) => {
            return l.to_owned();
        },
        None => {},
    }
    match lowered_label(&rec.asn) {
        Some(l) => l.to_owned(),
        None => "Other/Unknown".to_owned(),
    }
}

/// Two optional texts are both missing, or differ at most in the case of ASCII letters.
pub open spec fn same_but_case(a: Option<String>, b: Option<String>) -> bool {
    match (a, b) {
        (Some(s), Some(t)) => text::ascii_lowered(s@) == text::ascii_lowered(t@),
        (None, None) => true,
        _ => false,
    }
}

/// The cloud of a record depends on what the address ranges say and on the organisation, its domain
/// and its autonomous system, and not on the case of the ASCII letters in these three.
pub proof fn law_case_does_not_change_the_cloud(a: IpRecord, b: IpRecord)
    requires
        text::opt_view(a.infra) == text::opt_view(b.infra),
        same_but_case(a.org, b.org),
        same_but_case(a.company_domain, b.company_domain),
        same_but_case(a.asn, b.asn),
    ensures
        cloud_label(a) == cloud_label(b),
{
    lemma_same_lower_case(a.org, b.org);
    lemma_same_lower_case(a.company_domain, b.company_domain);
    lemma_same_lower_case(a.asn, b.asn);
}

proof fn lemma_same_lower_case(a: Option<String>, b: Option<String>)
    requires
        same_but_case(a, b),
    ensures
        opt_lower(text::opt_view(a)) == opt_lower(text::opt_view(b)),
{
    match (a, b) {
        (Some(s), Some(t)) => {
            text::law_lower_case_ignores_ascii_case(s@, t@);
        },
        _ => {},
    }
}

// ---------------------------------------------------------------------------
// Laws
// ---------------------------------------------------------------------------

/// A text is a part of itself with more text around it.
proof fn lemma_stands_between(a: Seq<char>, w: Seq<char>, b: Seq<char>)
    ensures
        text::contains(a + w + b, w),
{
    assert((a + w + b).subrange(a.len() as int, (a.len() + w.len()) as int) =~= w);
    assert(text::occurs_at(a + w + b, w, a.len() as int));
}

/// A text that speaks of a cloud still does with more text around it.
pub proof fn law_more_text_does_not_hide_a_cloud(a: Seq<char>, s: Seq<char>, b: Seq<char>)
    requires
        keyword_label(s) is Some,
    ensures
        keyword_label(a + s + b) is Some,
{
    lemma_stands_between(a, s, b);
    assert forall|w: Seq<char>| #[trigger] text::contains(s, w) implies text::contains(
        a + s + b,
        w,
    ) by {
        text::lemma_contains_part(a + s + b, s, w);
    }
}

/// A text has a label wherever in it a keyword stands, whatever is around the keyword; of two
/// words that only count together, each must stand in it.
#[verifier::rlimit(50)]
pub proof fn law_a_keyword_in_any_text_has_a_label(a: Seq<char>, m: Seq<char>, b: Seq<char>)
    ensures
        keyword_label(a + "amazon"@ + b) is Some,
        keyword_label(a + "aws"@ + b) is Some,
        keyword_label(a + "microsoft"@ + b) is Some,
        keyword_label(a + "azure"@ + b) is Some,
        keyword_label(a + "google"@ + b) is Some,
        keyword_label(a + "gcp"@ + b) is Some,
        keyword_label(a + "digitalocean"@ + b) is Some,
        keyword_label(a + "cloudflare"@ + b) is Some,
        keyword_label(a + "ovh"@ + b) is Some,
        keyword_label(a + "hetzner"@ + b) is Some,
        keyword_label(a + "linode"@ + b) is Some,
        keyword_label(a + "akamai"@ + b) is Some,
        keyword_label(a + "vultr"@ + b) is Some,
        keyword_label(a + "choopa"@ + b) is Some,
        keyword_label(a + "oraclecloud"@ + b) is Some,
        keyword_label(a + "alibaba"@ + b) is Some,
        keyword_label(a + "aliyun"@ + b) is Some,
        keyword_label(a + "alicloud"@ + b) is Some,
        keyword_label(a + "tencent"@ + b) is Some,
        keyword_label(a + "scaleway"@ + b) is Some,
        keyword_label(a + "online.net"@ + b) is Some,
        keyword_label(a + "iliad"@ + b) is Some,
        keyword_label(a + "upcloud"@ + b) is Some,
        keyword_label(a + "hostinger"@ + b) is Some,
        keyword_label(a + "orange"@ + b) is Some,
        keyword_label(a + "contabo"@ + b) is Some,
        keyword_label(a + "ionos"@ + b) is Some,
        keyword_label(a + "1&1"@ + b) is Some,
        keyword_label(a + "1and1"@ + b) is Some,
        keyword_label(a + "leaseweb"@ + b) is Some,
        keyword_label(a + "rackspace"@ + b) is Some,
        keyword_label(a + "softlayer"@ + b) is Some,
        keyword_label(a + "ibm cloud"@ + b) is Some,
        keyword_label(a + "kamatera"@ + b) is Some,
        keyword_label(a + "netcup"@ + b) is Some,
        keyword_label(a + "quadranet"@ + b) is Some,
        keyword_label(a + "colocrossing"@ + b) is Some,
        keyword_label(a + "frantech"@ + b) is Some,
        keyword_label(a + "buyvm"@ + b) is Some,
        keyword_label(a + "ponynet"@ + b) is Some,
        keyword_label(a + "psychz"@ + b) is Some,
        keyword_label(a + "zenlayer"@ + b) is Some,
        keyword_label(a + "serverius"@ + b) is Some,
        keyword_label(a + "fastly"@ + b) is Some,
        keyword_label(a + "heroku"@ + b) is Some,
        keyword_label(a + "salesforce"@ + b) is Some,
        text::contains(m, "cloud"@) ==> keyword_label(a + "oracle"@ + m) is Some,
        text::contains(m, "oracle"@) ==> keyword_label(a + "cloud"@ + m) is Some,
        text::contains(m, "server"@) ==> keyword_label(a + "cherry"@ + m) is Some,
        text::contains(m, "cherry"@) ==> keyword_label(a + "server"@ + m) is Some,
{
    lemma_stands_between(a, "amazon"@, b);
    lemma_stands_between(a, "aws"@, b);
    lemma_stands_between(a, "microsoft"@, b);
    lemma_stands_between(a, "azure"@, b);
    lemma_stands_between(a, "google"@, b);
    lemma_stands_between(a, "gcp"@, b);
    lemma_stands_between(a, "digitalocean"@, b);
    lemma_stands_between(a, "cloudflare"@, b);
    lemma_stands_between(a, "ovh"@, b);
    lemma_stands_between(a, "hetzner"@, b);
    lemma_stands_between(a, "linode"@, b);
    lemma_stands_between(a, "akamai"@, b);
    lemma_stands_between(a, "vultr"@, b);
    lemma_stands_between(a, "choopa"@, b);
    lemma_stands_between(a, "oraclecloud"@, b);
    lemma_stands_between(a, "alibaba"@, b);
    lemma_stands_between(a, "aliyun"@, b);
    lemma_stands_between(a, "alicloud"@, b);
    lemma_stands_between(a, "tencent"@, b);
    lemma_stands_between(a, "scaleway"@, b);
    lemma_stands_between(a, "online.net"@, b);
    lemma_stands_between(a, "iliad"@, b);
    lemma_stands_between(a, "upcloud"@, b);
    lemma_stands_between(a, "hostinger"@, b);
    lemma_stands_between(a, "orange"@, b);
    lemma_stands_between(a, "contabo"@, b);
    lemma_stands_between(a, "ionos"@, b);
    lemma_stands_between(a, "1&1"@, b);
    lemma_stands_between(a, "1and1"@, b);
    lemma_stands_between(a, "leaseweb"@, b);
    lemma_stands_between(a, "rackspace"@, b);
    lemma_stands_between(a, "softlayer"@, b);
    lemma_stands_between(a, "ibm cloud"@, b);
    lemma_stands_between(a, "kamatera"@, b);
    lemma_stands_between(a, "netcup"@, b);
    lemma_stands_between(a, "quadranet"@, b);
    lemma_stands_between(a, "colocrossing"@, b);
    lemma_stands_between(a, "frantech"@, b);
    lemma_stands_between(a, "buyvm"@, b);
    lemma_stands_between(a, "ponynet"@, b);
    lemma_stands_between(a, "psychz"@, b);
    lemma_stands_between(a, "zenlayer"@, b);
    lemma_stands_between(a, "serverius"@, b);
    lemma_stands_between(a, "fastly"@, b);
    lemma_stands_between(a, "heroku"@, b);
    lemma_stands_between(a, "salesforce"@, b);
    lemma_two_words(a, "oracle"@, m, "cloud"@);
    lemma_two_words(a, "cloud"@, m, "oracle"@);
    lemma_two_words(a, "cherry"@, m, "server"@);
    lemma_two_words(a, "server"@, m, "cherry"@);
}

/// A word and what stands in the text behind it both stand in the whole text.
proof fn lemma_two_words(a: Seq<char>, w: Seq<char>, m: Seq<char>, v: Seq<char>)
    ensures
        text::contains(a + w + m, w),
        text::contains(m, v) ==> text::contains(a + w + m, v),
{
    lemma_stands_between(a, w, m);
    if text::contains(m, v) {
        lemma_stands_between(a + w, m, Seq::empty());
        assert(a + w + m + Seq::empty() =~= a + w + m);
        text::lemma_contains_part(a + w + m, m, v);
    }
}

/// The label is that of the first cloud, in the order below, that the text holds a keyword of; a
/// text without any keyword has none.
pub proof fn law_the_first_cloud_named_is_meant(s: Seq<char>)
    ensures
        ({
            let label = keyword_label(s);
            let aws = text::contains(s, "amazon"@) || text::contains(s, "aws"@);
            let azure = text::contains(s, "microsoft"@) || text::contains(s, "azure"@);
            let before_azure = aws;
            let gcp = text::contains(s, "google"@) || text::contains(s, "gcp"@);
            let before_gcp = before_azure || azure;
            let digitalocean = text::contains(s, "digitalocean"@);
            let before_digitalocean = before_gcp || gcp;
            let cloudflare = text::contains(s, "cloudflare"@);
            let before_cloudflare = before_digitalocean || digitalocean;
            let ovh = text::contains(s, "ovh"@);
            let before_ovh = before_cloudflare || cloudflare;
            let hetzner = text::contains(s, "hetzner"@);
            let before_hetzner = before_ovh || ovh;
            let linode_akamai = text::contains(s, "linode"@) || text::contains(s, "akamai"@);
            let before_linode_akamai = before_hetzner || hetzner;
            let vultr = text::contains(s, "vultr"@) || text::contains(s, "choopa"@);
            let before_vultr = before_linode_akamai || linode_akamai;
            let oracle_cloud = (text::contains(s, "oracle"@) && text::contains(s, "cloud"@))
                || text::contains(s, "oraclecloud"@);
            let before_oracle_cloud = before_vultr || vultr;
            let alibaba_cloud = text::contains(s, "alibaba"@) || text::contains(s, "aliyun"@)
                || text::contains(s, "alicloud"@);
            let before_alibaba_cloud = before_oracle_cloud || oracle_cloud;
            let tencent_cloud = text::contains(s, "tencent"@);
            let before_tencent_cloud = before_alibaba_cloud || alibaba_cloud;
            let scaleway = text::contains(s, "scaleway"@) || text::contains(s, "online.net"@)
                || text::contains(s, "iliad"@);
            let before_scaleway = before_tencent_cloud || tencent_cloud;
            let upcloud = text::contains(s, "upcloud"@);
            let before_upcloud = before_scaleway || scaleway;
            let hostinger = text::contains(s, "hostinger"@);
            let before_hostinger = before_upcloud || upcloud;
            let orange = text::contains(s, "orange"@);
            let before_orange = before_hostinger || hostinger;
            let contabo = text::contains(s, "contabo"@);
            let before_contabo = before_orange || orange;
            let ionos = text::contains(s, "ionos"@) || text::contains(s, "1&1"@)
                || text::contains(s, "1and1"@);
            let before_ionos = before_contabo || contabo;
            let leaseweb = text::contains(s, "leaseweb"@);
            let before_leaseweb = before_ionos || ionos;
            let rackspace = text::contains(s, "rackspace"@);
            let before_rackspace = before_leaseweb || leaseweb;
            let ibm_cloud = text::contains(s, "softlayer"@) || text::contains(s, "ibm cloud"@);
            let before_ibm_cloud = before_rackspace || rackspace;
            let kamatera = text::contains(s, "kamatera"@);
            let before_kamatera = before_ibm_cloud || ibm_cloud;
            let cherry_servers = (text::contains(s, "cherry"@) && text::contains(s, "server"@));
            let before_cherry_servers = before_kamatera || kamatera;
            let netcup = text::contains(s, "netcup"@);
            let before_netcup = before_cherry_servers || cherry_servers;
            let quadranet = text::contains(s, "quadranet"@);
            let before_quadranet = before_netcup || netcup;
            let colocrossing = text::contains(s, "colocrossing"@);
            let before_colocrossing = before_quadranet || quadranet;
            let buyvm_frantech = text::contains(s, "frantech"@) || text::contains(s, "buyvm"@)
                || text::contains(s, "ponynet"@);
            let before_buyvm_frantech = before_colocrossing || colocrossing;
            let psychz = text::contains(s, "psychz"@);
            let before_psychz = before_buyvm_frantech || buyvm_frantech;
            let zenlayer = text::contains(s, "zenlayer"@);
            let before_zenlayer = before_psychz || psychz;
            let serverius = text::contains(s, "serverius"@);
            let before_serverius = before_zenlayer || zenlayer;
            let fastly = text::contains(s, "fastly"@);
            let before_fastly = before_serverius || serverius;
            let heroku_salesforce = text::contains(s, "heroku"@) || text::contains(s, "salesforce"@);
            let before_heroku_salesforce = before_fastly || fastly;
            &&& aws ==> label == Some("AWS"@)
            &&& !before_azure && azure ==> label == Some("Azure"@)
            &&& !before_gcp && gcp ==> label == Some("GCP"@)
            &&& !before_digitalocean && digitalocean ==> label == Some("DigitalOcean"@)
            &&& !before_cloudflare && cloudflare ==> label == Some("Cloudflare"@)
            &&& !before_ovh && ovh ==> label == Some("OVH"@)
            &&& !before_hetzner && hetzner ==> label == Some("Hetzner"@)
            &&& !before_linode_akamai && linode_akamai ==> label == Some("Linode/Akamai"@)
            &&& !before_vultr && vultr ==> label == Some("Vultr"@)
            &&& !before_oracle_cloud && oracle_cloud ==> label == Some("Oracle Cloud"@)
            &&& !before_alibaba_cloud && alibaba_cloud ==> label == Some("Alibaba Cloud"@)
            &&& !before_tencent_cloud && tencent_cloud ==> label == Some("Tencent Cloud"@)
            &&& !before_scaleway && scaleway ==> label == Some("Scaleway"@)
            &&& !before_upcloud && upcloud ==> label == Some("UpCloud"@)
            &&& !before_hostinger && hostinger ==> label == Some("Hostinger"@)
            &&& !before_orange && orange ==> label == Some("Orange"@)
            &&& !before_contabo && contabo ==> label == Some("Contabo"@)
            &&& !before_ionos && ionos ==> label == Some("IONOS"@)
            &&& !before_leaseweb && leaseweb ==> label == Some("LeaseWeb"@)
            &&& !before_rackspace && rackspace ==> label == Some("Rackspace"@)
            &&& !before_ibm_cloud && ibm_cloud ==> label == Some("IBM Cloud"@)
            &&& !before_kamatera && kamatera ==> label == Some("Kamatera"@)
            &&& !before_cherry_servers && cherry_servers ==> label == Some("Cherry Servers"@)
            &&& !before_netcup && netcup ==> label == Some("Netcup"@)
            &&& !before_quadranet && quadranet ==> label == Some("QuadraNet"@)
            &&& !before_colocrossing && colocrossing ==> label == Some("ColoCrossing"@)
            &&& !before_buyvm_frantech && buyvm_frantech ==> label == Some("BuyVM/FranTech"@)
            &&& !before_psychz && psychz ==> label == Some("Psychz"@)
            &&& !before_zenlayer && zenlayer ==> label == Some("Zenlayer"@)
            &&& !before_serverius && serverius ==> label == Some("Serverius"@)
            &&& !before_fastly && fastly ==> label == Some("Fastly"@)
            &&& !before_heroku_salesforce && heroku_salesforce ==> label == Some("Heroku/Salesforce"@)
            &&& !before_heroku_salesforce && !heroku_salesforce ==> label is None
        }),
{
}

/// A record is labelled by what the ranges say of its address where they say anything, and
/// otherwise by its organisation, or else by its domain, or else by its autonomous system.
pub proof fn law_the_more_telling_text_labels_a_record(rec: IpRecord)
    ensures
        rec.infra matches Some(infra) ==> cloud_label(rec) == cloud::org_shown(infra@, false),
        rec.infra is None ==> {
            let label = cloud_label(rec);
            let by_org = rec.org is Some && keyword_label(text::lowered(rec.org->0@)) is Some;
            let by_domain = rec.company_domain is Some && keyword_label(
                text::lowered(rec.company_domain->0@),
            ) is Some;
            let by_asn = rec.asn is Some && keyword_label(text::lowered(rec.asn->0@)) is Some;
            &&& by_org ==> Some(label) == keyword_label(text::lowered(rec.org->0@))
            &&& !by_org && by_domain ==> Some(label) == keyword_label(
                text::lowered(rec.company_domain->0@),
            )
            &&& !by_org && !by_domain && by_asn ==> Some(label) == keyword_label(
                text::lowered(rec.asn->0@),
            )
            &&& !by_org && !by_domain && !by_asn ==> label == "Other/Unknown"@
        },
{
}

} // verus!
