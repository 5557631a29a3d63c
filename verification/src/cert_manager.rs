//! Certificate files: where they are kept, how uploaded PEM text is checked,
//! self-signed certificates, and the record a new certificate gets.
use vstd::prelude::*;

use crate::error::{error_view, message_of, outcome_is, AppError, ErrorKind};
use crate::models::CreateCertificate;
use crate::nginx_manager::{join, join_path};
use crate::text::{contains, has_match, matches_at, starts_with_spec};

verus! {

/// The directory that holds the certificate files.
pub fn certs_dir(data_dir: &str) -> (r: String)
    ensures
        r@ == join_path(join_path(data_dir@, "nginx"@), "certs"@),
{
    let n = join(data_dir, "nginx");
    join(n.as_str(), "certs")
}

/// The names of a certificate's two files, from its id.
pub fn cert_file_names(id: &str) -> (r: (String, String))
    ensures
        r.0@ == id@ + ".cert.pem"@,
        r.1@ == id@ + ".key.pem"@,
{
    let mut c = String::from_str(id);
    c.append(".cert.pem");
    let mut k = String::from_str(id);
    k.append(".key.pem");
    (c, k)
}

/// The first problem of uploaded PEM text, if any.
pub open spec fn pem_error(cert_pem: Seq<char>, key_pem: Seq<char>) -> Option<Seq<char>> {
    if !has_match(cert_pem, "-----BEGIN CERTIFICATE-----"@) {
        Some("Invalid certificate PEM: missing BEGIN CERTIFICATE marker"@)
    } else if !has_match(cert_pem, "-----END CERTIFICATE-----"@) {
        Some("Invalid certificate PEM: missing END CERTIFICATE marker"@)
    } else if !has_match(key_pem, "-----BEGIN"@) || !has_match(key_pem, "PRIVATE KEY-----"@) {
        Some("Invalid key PEM: missing PRIVATE KEY markers"@)
    } else {
        None
    }
}

/// Checks uploaded certificate and key PEM text for their markers.
pub fn check_pem(cert_pem: &str, key_pem: &str) -> (r: Result<(), AppError>)
    ensures
        outcome_is(
            r,
            match pem_error(cert_pem@, key_pem@) {
                Some(m) => Err((ErrorKind::Certificate, m)),
                None => Ok(()),
            },
        ),
{
    if !contains(cert_pem, "-----BEGIN CERTIFICATE-----") {
        return Err(
            AppError::Certificate(
                String::from_str("Invalid certificate PEM: missing BEGIN CERTIFICATE marker"),
            ),
        );
    }
    if !contains(cert_pem, "-----END CERTIFICATE-----") {
        return Err(
            AppError::Certificate(
                String::from_str("Invalid certificate PEM: missing END CERTIFICATE marker"),
            ),
        );
    }
    if !contains(key_pem, "-----BEGIN") || !contains(key_pem, "PRIVATE KEY-----") {
        return Err(
            AppError::Certificate(String::from_str("Invalid key PEM: missing PRIVATE KEY markers")),
        );
    }
    Ok(())
}

/// A year is a leap year.
pub open spec fn is_leap(y: i32) -> bool {
    (y % 4 == 0 && y % 100 != 0) || y % 400 == 0
}

/// The days of a month.
pub open spec fn days_in_month(y: i32, m: u8) -> u8 {
    if m == 2 {
        if is_leap(y) {
            29
        } else {
            28
        }
    } else if m == 4 || m == 6 || m == 9 || m == 11 {
        30
    } else {
        31
    }
}

/// A calendar date a certificate's validity can hold: one the `time` crate
/// accepts, in a year from 0 to 9999 (dates outside 1950..2049 are written as
/// GeneralizedTime, which has no other years).
pub open spec fn valid_ymd(d: (i32, u8, u8)) -> bool {
    &&& 0 <= d.0 <= 9999
    &&& 1 <= d.1 <= 12
    &&& 1 <= d.2 <= days_in_month(d.0, d.1)
}

/// Whether a calendar date is one a certificate's validity can hold.
pub fn is_valid_ymd(d: (i32, u8, u8)) -> (r: bool)
    ensures
        r == valid_ymd(d),
{
    if d.0 < 0 || d.0 > 9999 || d.1 < 1 || d.1 > 12 || d.2 < 1 {
        return false;
    }
    let leap = (d.0 % 4 == 0 && d.0 % 100 != 0) || d.0 % 400 == 0;
    let days: u8 = if d.1 == 2 {
        if leap {
            29
        } else {
            28
        }
    } else if d.1 == 4 || d.1 == 6 || d.1 == 9 || d.1 == 11 {
        30
    } else {
        31
    };
    d.2 <= days
}

/// Why `rcgen` failed to make a self-signed certificate.
pub enum RcgenFailure {
    Generate(String),
    Serialize(String),
}

/// Makes a certificate with `rcgen` (`CertificateParams::new` on the subject
/// alternative names, the common name and organization pushed onto its
/// distinguished name, valid between the two dates, set with `date_time_ymd`)
/// and writes it and its fresh private key as PEM. Both texts
/// come from `pem::encode_config`, which frames the base64 body with
/// `-----BEGIN <tag>-----` and `-----END <tag>-----` lines, the tags being
/// `CERTIFICATE` and `PRIVATE KEY`; that framing is all that is claimed of
/// them, since the key is random. Nothing is claimed of when `rcgen` fails or
/// of its error texts. The dates are valid ones, since `date_time_ymd` panics
/// on other calendar dates and yasna's GeneralizedTime on years outside 0 to
/// 9999.
#[verifier::external_body]
fn rcgen_self_signed(
    subject_alt_names: Vec<String>,
    common_name: &str,
    organization: &str,
    not_before: (i32, u8, u8),
    not_after: (i32, u8, u8),
) -> (r: Result<(String, String), RcgenFailure>)
    requires
        valid_ymd(not_before),
        valid_ymd(not_after),
    ensures
        r matches Ok(p) ==> pem_framed(p.0@, "CERTIFICATE"@) && pem_framed(p.1@, "PRIVATE KEY"@),
{
    let mut params = rcgen::CertificateParams::new(subject_alt_names);
    params.distinguished_name.push(rcgen::DnType::CommonName, common_name);
    params.distinguished_name.push(rcgen::DnType::OrganizationName, organization);
    params.not_before = rcgen::date_time_ymd(not_before.0, not_before.1, not_before.2);
    params.not_after = rcgen::date_time_ymd(not_after.0, not_after.1, not_after.2);
    let cert = rcgen::Certificate::from_params(params).map_err(|e| RcgenFailure::Generate(e.to_string()))?;
    let pem = cert.serialize_pem().map_err(|e| RcgenFailure::Serialize(e.to_string()))?;
    Ok((pem, cert.serialize_private_key_pem()))
}

/// PEM text framed by the BEGIN and END lines of `tag`.
pub open spec fn pem_framed(text: Seq<char>, tag: Seq<char>) -> bool {
    &&& starts_with_spec(text, "-----BEGIN "@ + tag + "-----"@)
    &&& has_match(text, "-----END "@ + tag + "-----"@)
}

/// A certificate PEM and a private-key PEM carry the markers that uploaded
/// PEM text is checked for.
proof fn lemma_framed_pems_pass_check(cert: Seq<char>, key: Seq<char>)
    requires
        pem_framed(cert, "CERTIFICATE"@),
        pem_framed(key, "PRIVATE KEY"@),
    ensures
        pem_error(cert, key) is None,
{
    reveal_strlit("-----BEGIN ");
    reveal_strlit("-----END ");
    reveal_strlit("-----");
    reveal_strlit("CERTIFICATE");
    reveal_strlit("PRIVATE KEY");
    reveal_strlit("-----BEGIN CERTIFICATE-----");
    reveal_strlit("-----END CERTIFICATE-----");
    reveal_strlit("-----BEGIN");
    reveal_strlit("PRIVATE KEY-----");
    assert("-----BEGIN "@ + "CERTIFICATE"@ + "-----"@ =~= "-----BEGIN CERTIFICATE-----"@);
    assert("-----END "@ + "CERTIFICATE"@ + "-----"@ =~= "-----END CERTIFICATE-----"@);
    assert(matches_at(cert, "-----BEGIN CERTIFICATE-----"@, 0));
    let i = choose|i: int| matches_at(cert, "-----END CERTIFICATE-----"@, i);
    assert(matches_at(cert, "-----END CERTIFICATE-----"@, i));
    let kb = "-----BEGIN "@ + "PRIVATE KEY"@ + "-----"@;
    assert(matches_at(key, kb, 0));
    assert(matches_at(key, "-----BEGIN"@, 0)) by {
        assert forall|j: int| 0 <= j < "-----BEGIN"@.len() implies #[trigger] key[0 + j] == "-----BEGIN"@[j] by {
            assert(key[0 + j] == kb[j]);
        }
    }
    let ke = "-----END "@ + "PRIVATE KEY"@ + "-----"@;
    let m = choose|m: int| matches_at(key, ke, m);
    assert(matches_at(key, ke, m));
    assert(matches_at(key, "PRIVATE KEY-----"@, m + 9)) by {
        assert forall|j: int| 0 <= j < "PRIVATE KEY-----"@.len() implies #[trigger] key[(m + 9) + j] == "PRIVATE KEY-----"@[j] by {
            assert(key[m + (9 + j)] == ke[9 + j]);
        }
    }
}

/// The PEM texts of a new self-signed certificate for `domain` and its key
/// (the domain its only subject alternative name and its common name, the
/// organization "Meridian Self-Signed"): a certificate PEM and a private-key PEM, which pass the same marker check
/// as uploaded PEM text. The errors of `rcgen` are reported as certificate
/// errors, whose message tells generation from serialization.
pub fn self_signed_pem(domain: &str, not_before: (i32, u8, u8), not_after: (i32, u8, u8)) -> (r: Result<(String, String), AppError>)
    requires
        valid_ymd(not_before),
        valid_ymd(not_after),
    ensures
        r matches Ok(p) ==> {
            &&& pem_framed(p.0@, "CERTIFICATE"@)
            &&& pem_framed(p.1@, "PRIVATE KEY"@)
            &&& pem_error(p.0@, p.1@) is None
        },
        r matches Err(e) ==> {
            &&& e is Certificate
            &&& (starts_with_spec(message_of(e), "Failed to generate certificate: "@)
                || starts_with_spec(message_of(e), "Failed to serialize certificate: "@))
        },
{
    let mut names: Vec<String> = Vec::new();
    names.push(String::from_str(domain));
    match rcgen_self_signed(names, domain, "Meridian Self-Signed", not_before, not_after) {
        Ok(p) => {
            proof {
                lemma_framed_pems_pass_check(p.0@, p.1@);
            }
            Ok(p)
        },
        Err(RcgenFailure::Generate(m)) => {
            let mut s = String::from_str("Failed to generate certificate: ");
            s.append(m.as_str());
            Err(AppError::Certificate(s))
        },
        Err(RcgenFailure::Serialize(m)) => {
            let mut s = String::from_str("Failed to serialize certificate: ");
            s.append(m.as_str());
            Err(AppError::Certificate(s))
        },
    }
}

/// The record of a certificate whose files were written: self-signed and
/// uploaded certificates are not renewed automatically.
pub fn certificate_record(
    name: &str,
    domain: &str,
    cert_path: String,
    key_path: String,
    source: &str,
    expires_at: &str,
) -> (r: CreateCertificate)
    ensures
        r.name@ == name@,
        r.domain@ == domain@,
        r.cert_path == cert_path,
        r.key_path == key_path,
        r.source@ == source@,
        r.expires_at@ == expires_at@,
        r.auto_renew == Some(false),
        r.dns_credential_id is None,
        r.acme_account_id is None,
        r.acme_domains is None,
{
    CreateCertificate {
        name: String::from_str(name),
        domain: String::from_str(domain),
        cert_path,
        key_path,
        source: String::from_str(source),
        expires_at: String::from_str(expires_at),
        auto_renew: Some(false),
        dns_credential_id: None,
        acme_account_id: None,
        acme_domains: None,
    }
}

} // verus!

verus! {

/// A domain as it appears in exported file names: `*` becomes `_wildcard`.
pub open spec fn safe_domain(d: Seq<char>) -> Seq<char>
    decreases d.len(),
{
    if d.len() == 0 {
        d
    } else {
        safe_domain(d.drop_last()) + if d.last() == '*' {
            "_wildcard"@
        } else {
            seq![d.last()]
        }
    }
}

/// The names of the two files of an exported certificate archive.
pub fn export_entry_names(domain: &str) -> (r: (String, String))
    ensures
        r.0@ == safe_domain(domain@) + ".cert.pem"@,
        r.1@ == safe_domain(domain@) + ".key.pem"@,
{
    let n = domain.unicode_len();
    let mut base = String::new();
    let mut i: usize = 0;
    while i < n
        invariant
            n == domain@.len(),
            i <= n,
            base@ == safe_domain(domain@.subrange(0, i as int)),
        decreases n - i,
    {
        let c = domain.get_char(i);
        proof {
            let y = domain@.subrange(0, i + 1);
            assert(y.drop_last() =~= domain@.subrange(0, i as int));
            assert(y.last() == c);
        }
        if c == '*' {
            base.append("_wildcard");
        } else {
            base.append(domain.substring_char(i, i + 1));
            proof {
                assert(domain@.subrange(i as int, i + 1) =~= seq![c]);
            }
        }
        i = i + 1;
    }
    proof {
        assert(domain@.subrange(0, n as int) =~= domain@);
    }
    let mut c = base.clone();
    c.append(".cert.pem");
    let mut k = base;
    k.append(".key.pem");
    (c, k)
}

/// Only ready certificates can be exported.
pub fn check_exportable(status: &str) -> (r: Result<(), AppError>)
    ensures
        outcome_is(
            r,
            if status@ == "ready"@ {
                Ok(())
            } else {
                Err((ErrorKind::Validation, "Only ready certificates can be exported"@))
            },
        ),
{
    if crate::text::str_eq(status, "ready") {
        Ok(())
    } else {
        Err(AppError::Validation(String::from_str("Only ready certificates can be exported")))
    }
}

} // verus!
