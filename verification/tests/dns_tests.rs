use meridian::dns::{mask_credentials, mask_value, is_secret_key, DnsCredentialMasked};
use meridian::dns::{
    cloudflare_record_id, dnspod_record_id, find_domain_rr, hosted_zone_id, route53_record_id,
    split_cloudflare_record_id, split_dnspod_record_id, split_route53_record_id,
    trim_trailing_dots, validate_credentials, zone_candidates,
};

#[test]
fn credential_checks() {
    assert!(validate_credentials("alidns", r#"{"access_key_id":"a","access_key_secret":"b"}"#, None).is_ok());
    let e = validate_credentials("alidns", r#"{"access_key_id":"a"}"#, None).unwrap_err();
    assert_eq!(e.message(), "Alidns credentials require 'access_key_secret'");
    let e = validate_credentials("dnspod", r#"{"secret_id":1}"#, None).unwrap_err();
    assert_eq!(e.message(), "DNSPod credentials require 'secret_id'");
    let e = validate_credentials("route53", "not json", None).unwrap_err();
    assert!(e.message().starts_with("Invalid JSON: "));
    assert!(validate_credentials("route53", r#"{"access_key_id":"a","secret_access_key":"b"}"#, None).is_ok());
    let e = validate_credentials("godaddy", "{}", None).unwrap_err();
    assert_eq!(e.message(), "Unknown DNS provider: 'godaddy'. Supported: cloudflare, alidns, dnspod, route53");
    assert_eq!(e.error_code(), "VALIDATION_ERROR");
    assert!(validate_credentials("cloudflare", "{}", Some(Ok(()))).is_ok());
    let e = validate_credentials("cloudflare", "{}", Some(Err("missing field `api_token`".to_string()))).unwrap_err();
    assert_eq!(e.message(), "Invalid Cloudflare credentials: missing field `api_token`");
}

#[test]
fn registered_domain_lookup() {
    let domains = vec!["eu.org".to_string(), "xhua.eu.org".to_string(), "other.com".to_string()];
    assert_eq!(
        find_domain_rr("_acme-challenge.xhua.eu.org.", &domains),
        Some(("xhua.eu.org".to_string(), "_acme-challenge".to_string()))
    );
    assert_eq!(find_domain_rr("xhua.eu.org", &domains), Some(("xhua.eu.org".to_string(), "@".to_string())));
    assert_eq!(find_domain_rr("a.b.eu.org", &domains), Some(("eu.org".to_string(), "a.b".to_string())));
    assert_eq!(find_domain_rr("notexample.com", &["example.com".to_string()]), None);
    assert_eq!(trim_trailing_dots("a.b..."), "a.b");
}

#[test]
fn zone_candidate_names() {
    assert_eq!(
        zone_candidates("_acme-challenge.a.b.example.com", false),
        vec!["a.b.example.com", "b.example.com", "example.com"]
    );
    assert_eq!(zone_candidates("example.com.", true), vec!["example.com."]);
    assert!(zone_candidates("localhost", false).is_empty());
}

#[test]
fn record_ids_roundtrip() {
    let id = cloudflare_record_id("zone1", "rec/2");
    assert_eq!(id, "zone1/rec/2");
    assert_eq!(split_cloudflare_record_id(&id).unwrap(), ("zone1".to_string(), "rec/2".to_string()));
    assert_eq!(
        split_cloudflare_record_id("nozone").unwrap_err().message(),
        "Invalid record_id format, expected 'zone_id/record_id'"
    );
    let id = dnspod_record_id("example.com", 12345);
    assert_eq!(id, "example.com:12345");
    assert_eq!(split_dnspod_record_id(&id).unwrap(), ("example.com".to_string(), 12345));
    assert_eq!(split_dnspod_record_id("a:b").unwrap_err().message(), "Invalid record ID number");
    assert_eq!(split_dnspod_record_id("ab").unwrap_err().message(), "Invalid record_id format for DNSPod");
    let id = route53_record_id("Z1", "_acme-challenge.x.com.", "v:al");
    assert_eq!(
        split_route53_record_id(&id).unwrap(),
        ("Z1".to_string(), "_acme-challenge.x.com.".to_string(), "v:al".to_string())
    );
    assert_eq!(split_route53_record_id("a:b").unwrap_err().message(), "Invalid Route53 record_id format");
    assert_eq!(split_route53_record_id("a:b").unwrap_err().error_code(), "DNS_ERROR");
}

#[test]
fn route53_zone_answer() {
    let body = "<HostedZone><Id>/hostedzone/Z123</Id><Name>example.com.</Name></HostedZone>";
    assert_eq!(hosted_zone_id(body, "example.com."), Some("Z123".to_string()));
    assert_eq!(hosted_zone_id(body, "other.com."), None);
    assert_eq!(hosted_zone_id("<Empty/>", "example.com."), None);
}

#[test]
fn credentials_masked_for_lists() {
    assert_eq!(mask_value("abcdefgh"), "****efgh");
    assert_eq!(mask_value("abcd"), "****");
    assert_eq!(mask_value("ab€cdef"), "****cdef");
    assert!(is_secret_key("API_TOKEN"));
    assert!(is_secret_key("AccessKeyId"));
    assert!(!is_secret_key("region"));
    assert_eq!(
        mask_credentials(r#"{"api_token":"abcdefghij","region":"us-east-1","n":5}"#),
        r#"{"api_token":"****ghij","n":5,"region":"us-east-1"}"#
    );
    assert_eq!(mask_credentials("not json"), "{}");
    assert_eq!(mask_credentials("[1, 2]"), "[1,2]");
    assert_eq!(mask_credentials(r#"{"secret":"aé"}"#), r#"{"secret":"****"}"#);
    assert_eq!(mask_credentials(r#"{"secret":"abcd€"}"#), r#"{"secret":"****bcd€"}"#);
    assert_eq!(mask_credentials(r#"{"secret":"€€€€€"}"#), r#"{"secret":"****€€€€"}"#);
    assert_eq!(mask_value("xxxx€"), "****xxx€");
    let cred = meridian::models::DnsCredential {
        id: "1".to_string(),
        name: "cf".to_string(),
        provider: "cloudflare".to_string(),
        credentials_json: r#"{"api_token":"tok-123456"}"#.to_string(),
        created_at: "c".to_string(),
        updated_at: "u".to_string(),
    };
    let m = DnsCredentialMasked::from(cred);
    assert_eq!(m.credentials_json, r#"{"api_token":"****3456"}"#);
    assert_eq!(m.provider, "cloudflare");
}
