use meridian::dns::{AlidnsCredential, DnspodCredential, Route53Credential};
use meridian::dns_replies::{
    alidns_create_reply, alidns_delete_reply, alidns_test_reply, cloudflare_create_reply,
    cloudflare_delete_reply, cloudflare_test_reply, dnspod_create_reply, dnspod_delete_reply,
    dnspod_test_reply, has_value, join_texts, route53_change_body, route53_create_reply,
    route53_delete_reply, route53_propagated, route53_record_name, route53_test_reply, TestResult,
};
use meridian::error::AppError;
use meridian::signing::{
    encoded_query_string, percent_encode, sort_params, AlidnsSigner, DnspodSigner, Route53Signer,
};

fn pairs(v: &[(&str, &str)]) -> Vec<(String, String)> {
    v.iter().map(|(a, b)| (a.to_string(), b.to_string())).collect()
}

#[test]
fn percent_encoding_follows_rfc3986() {
    assert_eq!(percent_encode("a b*c~d/é+"), "a%20b%2Ac~d%2F%C3%A9%2B");
    assert_eq!(percent_encode("AZaz09-_.~"), "AZaz09-_.~");
    assert_eq!(percent_encode(""), "");
    assert_eq!(percent_encode("2016-02-23T12:46:24Z"), "2016-02-23T12%3A46%3A24Z");
}

#[test]
fn params_sort_stably_by_name() {
    let mut ps = pairs(&[("b", "1"), ("a", "2"), ("b", "0"), ("A", "3")]);
    sort_params(&mut ps);
    assert_eq!(ps, pairs(&[("A", "3"), ("a", "2"), ("b", "1"), ("b", "0")]));
}

#[test]
fn query_string_joins_encoded_pairs() {
    let ps = pairs(&[("k y", "v/1"), ("x", "")]);
    assert_eq!(encoded_query_string(&ps), "k%20y=v%2F1&x=");
    assert_eq!(encoded_query_string(&Vec::new()), "");
}

#[test]
fn alidns_signature_v1() {
    let signer = AlidnsSigner::new(AlidnsCredential {
        access_key_id: "testid".to_string(),
        access_key_secret: "testsecret".to_string(),
    });
    let mut params = signer.common_params(
        "DescribeDomains",
        "2016-02-23T12:46:24Z",
        "3ee8c1b8-83d3-44af-a94f-4e0ad82fd6cf",
    );
    assert_eq!(params.len(), 8);
    assert_eq!(params[0], ("Format".to_string(), "JSON".to_string()));
    params.push(("PageSize".to_string(), "100".to_string()));
    let query = signer.sign_params(&mut params);
    assert_eq!(
        query,
        "AccessKeyId=testid&Action=DescribeDomains&Format=JSON&PageSize=100&SignatureMethod=HMAC-SHA1&SignatureNonce=3ee8c1b8-83d3-44af-a94f-4e0ad82fd6cf&SignatureVersion=1.0&Timestamp=2016-02-23T12%3A46%3A24Z&Version=2015-01-09&Signature=hEe9t6n8qaY04rbVRcoNLLc9bus%3D"
    );
    assert_eq!(params.last().unwrap().0, "Signature");
    assert_eq!(params.last().unwrap().1, "hEe9t6n8qaY04rbVRcoNLLc9bus=");
}

#[test]
fn dnspod_tc3_authorization() {
    let signer = DnspodSigner::new(DnspodCredential {
        secret_id: "AKID".to_string(),
        secret_key: "SECRET".to_string(),
    });
    assert_eq!(
        signer.authorization("1551113065", "2019-02-25", "{\"Limit\":1}"),
        "TC3-HMAC-SHA256 Credential=AKID/2019-02-25/dnspod/tc3_request, SignedHeaders=content-type;host, Signature=259d9be2bc8c7f2a57fe4e37c5f252b5f77f913700c7764ae6e83cb05d0a0298"
    );
}

#[test]
fn route53_sigv4_request() {
    let signer = Route53Signer::new(Route53Credential {
        access_key_id: "AKIDEXAMPLE".to_string(),
        secret_access_key: "SECRETKEY".to_string(),
        region: None,
    });
    assert_eq!(signer.region, "us-east-1");
    let req = signer.sign(
        "GET",
        "/2013-04-01/hostedzone?maxitems=1",
        "",
        "route53",
        "20240101T000000Z",
        "20240101",
    );
    assert_eq!(req.host, "route53.amazonaws.com");
    assert_eq!(req.url, "https://route53.amazonaws.com/2013-04-01/hostedzone?maxitems=1");
    assert_eq!(req.amz_date, "20240101T000000Z");
    assert_eq!(
        req.authorization,
        "AWS4-HMAC-SHA256 Credential=AKIDEXAMPLE/20240101/route53/aws4_request, SignedHeaders=host;x-amz-date, Signature=1d5955ab907221a6bfaf53eb4b58937cf3a4639512b5b19721f2380a160f6564"
    );
    let eu = Route53Signer::new(Route53Credential {
        access_key_id: "a".to_string(),
        secret_access_key: "b".to_string(),
        region: Some("eu-west-1".to_string()),
    });
    assert_eq!(eu.region, "eu-west-1");
}

#[test]
fn provider_replies() {
    assert_eq!(alidns_create_reply(Some("42".into()), None, "{}"), Ok("42".to_string()));
    assert_eq!(
        alidns_create_reply(None, Some("denied".into()), "{}"),
        Err(AppError::Dns("Alidns error: denied".into()))
    );
    assert_eq!(
        alidns_create_reply(None, None, "{}"),
        Err(AppError::Dns("Unexpected Alidns response: {}".into()))
    );
    assert_eq!(alidns_delete_reply(false, None), Ok(()));
    assert_eq!(
        alidns_delete_reply(false, Some("x".into())),
        Err(AppError::Dns("Alidns delete error: x".into()))
    );
    assert_eq!(alidns_test_reply(Some(3), None), Ok("Connected to Alidns. 3 domain(s) found.".to_string()));
    assert_eq!(
        alidns_test_reply(None, None),
        Err(AppError::Dns("Unexpected Alidns response".into()))
    );
    assert_eq!(dnspod_create_reply("a.com", Some(7), None, "{}"), Ok("a.com:7".to_string()));
    assert_eq!(
        dnspod_delete_reply(true, None),
        Err(AppError::Dns("DNSPod delete error: Unknown error".into()))
    );
    assert_eq!(
        dnspod_test_reply(None, Some("bad key".into())),
        Err(AppError::Dns("DNSPod authentication failed: bad key".into()))
    );
    let errs = vec!["e1".to_string(), "e2".to_string()];
    assert_eq!(
        cloudflare_create_reply("z", false, "400 Bad Request", &errs, ""),
        Err(AppError::Dns("Cloudflare API error (400 Bad Request): e1, e2".into()))
    );
    assert_eq!(cloudflare_create_reply("z", true, "200 OK", &[], "r"), Ok("z/r".to_string()));
    assert_eq!(
        cloudflare_delete_reply(false, "gone"),
        Err(AppError::Dns("Failed to delete Cloudflare record: gone".into()))
    );
    assert_eq!(
        cloudflare_test_reply(true, &[], None),
        Ok("Connected to Cloudflare. 0 zone(s) accessible.".to_string())
    );
    assert_eq!(
        cloudflare_test_reply(true, &[], Some(5)),
        Ok("Connected to Cloudflare. 5 zone(s) accessible.".to_string())
    );
    assert_eq!(
        route53_create_reply(true, "200 OK", "", "Z1", "a.com.", "v"),
        Ok("Z1:a.com.:v".to_string())
    );
    assert_eq!(
        route53_delete_reply(false, "no"),
        Err(AppError::Dns("Route53 delete record failed: no".into()))
    );
    assert_eq!(
        route53_test_reply(false, "403 Forbidden", "denied"),
        Err(AppError::Dns("Route53 authentication failed (403 Forbidden): denied".into()))
    );
    assert_eq!(join_texts(&errs, "; "), "e1; e2");
}

#[test]
fn propagation_checks() {
    let values = vec!["a".to_string(), "tok".to_string()];
    assert!(has_value(&values, "tok"));
    assert!(!has_value(&values, "to"));
    assert!(route53_propagated("<Value>\"tok\"</Value>", "tok"));
    assert!(!route53_propagated("<Value>tok</Value>", "tok"));
}

#[test]
fn route53_change_batch() {
    assert_eq!(route53_record_name("_acme-challenge.a.com"), "_acme-challenge.a.com.");
    assert_eq!(route53_record_name("a.com."), "a.com.");
    let body = route53_change_body("UPSERT", "a.com.", "tok");
    assert!(body.starts_with("<?xml version=\"1.0\" encoding=\"UTF-8\"?>\n<ChangeResourceRecordSetsRequest"));
    assert!(body.contains("<Action>UPSERT</Action>"));
    assert!(body.contains("<Name>a.com.</Name>"));
    assert!(body.contains("<Value>\"tok\"</Value>"));
    assert!(body.ends_with("</ChangeResourceRecordSetsRequest>"));
}

#[test]
fn connection_test_results() {
    let ok = TestResult::from_outcome(Ok("fine".to_string()));
    assert!(ok.success);
    assert_eq!(ok.message, "fine");
    let bad = TestResult::from_outcome(Err(AppError::Dns("boom".to_string())));
    assert!(!bad.success);
    assert_eq!(bad.message, "DNS provider error: boom");
}
