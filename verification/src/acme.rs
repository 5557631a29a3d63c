//! The decisions of ACME certificate requests and renewals: request
//! validation and naming, challenge names, which certificates are due and
//! how each is renewed.
use vstd::prelude::*;

use crate::error::{error_view, outcome_is, AppError, ErrorKind};
use crate::logs::{instant_before, parse_rfc3339, rfc3339_instant};
use crate::models::{Certificate, RenewalStatus};
use crate::text::{decimal, decimal_string, starts_with, starts_with_spec, trim, trim_spec};

verus! {

/// A certificate that an ACME order issued: the paths of its PEM files and
/// its expiry time (RFC 3339).
#[derive(Debug, Clone)]
pub struct AcmeCertResult {
    pub cert_pem: String,
    pub key_pem: String,
    pub expires_at: String,
}

/// The list of strings `serde_json` reads from `s` (as `Vec<String>`), or
/// `None` where `s` is not a JSON array of strings.
pub uninterp spec fn json_string_list(s: Seq<char>) -> Option<Seq<Seq<char>>>;

/// Reads a JSON array of strings with `serde_json::from_str`: the named list.
#[verifier::external_body]
fn parse_string_list(s: &str) -> (r: Option<Vec<String>>)
    ensures
        match (r, json_string_list(s@)) {
            (Some(v), Some(w)) => v@.map_values(|x: String| x@) == w,
            (None, None) => true,
            _ => false,
        },
{
    serde_json::from_str::<Vec<String>>(s).ok()
}

/// The RFC 3339 text `chrono` writes for the instant `days` days before the
/// timestamp `s` (in `s`'s own offset), or `None` where `s` does not parse.
pub uninterp spec fn rfc3339_days_before(s: Seq<char>, days: i64) -> Option<Seq<char>>;

/// Parses `s` with `DateTime::parse_from_rfc3339`, subtracts
/// `Duration::days(days)` and writes the result with `to_rfc3339`: the named
/// text. Days are bounded so that `Duration::days` does not panic.
#[verifier::external_body]
fn rfc3339_minus_days(s: &str, days: i64) -> (r: Option<String>)
    requires
        0 <= days <= 36500,
    ensures
        match (r, rfc3339_days_before(s@, days)) {
            (Some(v), Some(w)) => v@ == w,
            (None, None) => true,
            _ => false,
        },
{
    chrono::DateTime::parse_from_rfc3339(s).ok().map(|dt| (dt - chrono::Duration::days(days)).to_rfc3339())
}

/// The texts of a list of strings.
pub open spec fn texts(v: Seq<String>) -> Seq<Seq<char>> {
    v.map_values(|x: String| x@)
}

/// The domain named first for a request: the first that is not a wildcard,
/// else the first.
pub open spec fn primary_index(domains: Seq<String>) -> int {
    if exists|i: int| 0 <= i < domains.len() && !starts_with_spec(domains[i]@, "*."@) {
        choose|i: int|
            0 <= i < domains.len() && !starts_with_spec(domains[i]@, "*."@) && forall|j: int|
                0 <= j < i ==> starts_with_spec(#[trigger] domains[j]@, "*."@)
    } else {
        0
    }
}

/// The name of a requested certificate: its only domain, or the primary
/// domain followed by ` (+n)` for the `n` others.
pub open spec fn cert_name_spec(domains: Seq<String>) -> Seq<char> {
    if domains.len() == 1 {
        domains[0]@
    } else {
        domains[primary_index(domains)]@ + " (+"@ + decimal((domains.len() - 1) as nat) + ")"@
    }
}

/// Checks a certificate request and names it: the primary domain and the
/// certificate's name.
pub fn acme_request_names(domains: &[String], email: &str) -> (r: Result<(String, String), AppError>)
    ensures
        domains@.len() == 0 ==> (r matches Err(e) && error_view(e) == (
            ErrorKind::Validation,
            "At least one domain is required"@,
        )),
        domains@.len() > 0 && trim_spec(email@).len() == 0 ==> (r matches Err(e) && error_view(e)
            == (ErrorKind::Validation, "Email is required"@)),
        domains@.len() > 0 && trim_spec(email@).len() > 0 ==> (r matches Ok((p, n)) && p@
            == domains@[primary_index(domains@)]@ && n@ == cert_name_spec(domains@)),
{
    if domains.len() == 0 {
        return Err(AppError::Validation(String::from_str("At least one domain is required")));
    }
    if trim(email).unicode_len() == 0 {
        return Err(AppError::Validation(String::from_str("Email is required")));
    }
    let mut i: usize = 0;
    while i < domains.len() && starts_with(domains[i].as_str(), "*.")
        invariant
            i <= domains@.len(),
            forall|j: int| 0 <= j < i ==> starts_with_spec(#[trigger] domains@[j]@, "*."@),
        decreases domains@.len() - i,
    {
        i = i + 1;
    }
    let p: usize = if i < domains.len() {
        i
    } else {
        0
    };
    proof {
        if i < domains@.len() {
            let c = choose|c: int|
                0 <= c < domains@.len() && !starts_with_spec(domains@[c]@, "*."@) && forall|j: int|
                    0 <= j < c ==> starts_with_spec(#[trigger] domains@[j]@, "*."@);
            if c < i {
                assert(starts_with_spec(domains@[c]@, "*."@));
            }
            if c > i {
                assert(starts_with_spec(domains@[i as int]@, "*."@));
            }
            assert(primary_index(domains@) == i);
        } else {
            assert(!exists|c: int| 0 <= c < domains@.len() && !starts_with_spec(domains@[c]@, "*."@));
        }
    }
    let primary = domains[p].clone();
    let name = if domains.len() == 1 {
        domains[0].clone()
    } else {
        let mut s = domains[p].clone();
        s.append(" (+");
        let d = decimal_string((domains.len() - 1) as u64);
        s.append(d.as_str());
        s.append(")");
        s
    };
    Ok((primary, name))
}

/// The challenge record name for a domain: `_acme-challenge.` before the
/// domain, a wildcard's `*.` dropped.
pub open spec fn challenge_fqdn_spec(domain: Seq<char>) -> Seq<char> {
    "_acme-challenge."@ + if starts_with_spec(domain, "*."@) {
        domain.skip(2)
    } else {
        domain
    }
}

/// The TXT record name of the DNS-01 challenge for a domain.
pub fn challenge_fqdn(domain: &str) -> (r: String)
    ensures
        r@ == challenge_fqdn_spec(domain@),
{
    let mut s = String::from_str("_acme-challenge.");
    if starts_with(domain, "*.") {
        proof {
            reveal_strlit("*.");
        }
        s.append(domain.substring_char(2, domain.unicode_len()));
        proof {
            assert(domain@.subrange(2, domain@.len() as int) =~= domain@.skip(2));
        }
    } else {
        s.append(domain);
    }
    s
}

/// The kinds of ACME challenge.
#[derive(Debug, Clone, Copy, PartialEq, Eq, Structural)]
pub enum ChallengeKind {
    Http01,
    Dns01,
    TlsAlpn01,
    Other,
}

/// The first DNS-01 challenge among an authorization's challenges.
pub fn find_dns01(kinds: &[ChallengeKind]) -> (r: Option<usize>)
    ensures
        match r {
            Some(i) => i < kinds@.len() && kinds@[i as int] == ChallengeKind::Dns01 && forall|j: int|
                0 <= j < i ==> kinds@[j] != ChallengeKind::Dns01,
            None => forall|j: int| 0 <= j < kinds@.len() ==> kinds@[j] != ChallengeKind::Dns01,
        },
{
    let mut i: usize = 0;
    while i < kinds.len()
        invariant
            i <= kinds@.len(),
            forall|j: int| 0 <= j < i ==> kinds@[j] != ChallengeKind::Dns01,
        decreases kinds@.len() - i,
    {
        if kinds[i] == ChallengeKind::Dns01 {
            return Some(i);
        }
        i = i + 1;
    }
    None
}

/// How long challenges and orders are waited for, in seconds.
pub const PROPAGATION_TIMEOUT_SECS: u64 = 120;

/// What waiting for a TXT record does next.
#[derive(Debug, Clone, Copy, PartialEq, Eq)]
pub enum PropagationStep {
    /// The record is visible: mark the challenge ready.
    Confirmed,
    /// Check again after five seconds.
    Retry,
    /// Give up: the record did not show up in time.
    TimedOut,
}

/// The next step of waiting for a TXT record, after `elapsed` seconds; the
/// check's outcome is looked at only before the timeout (a failed check is
/// retried).
pub fn propagation_step(elapsed: u64, check: Option<Result<bool, AppError>>) -> (r: PropagationStep)
    requires
        elapsed <= PROPAGATION_TIMEOUT_SECS ==> check is Some,
    ensures
        elapsed > PROPAGATION_TIMEOUT_SECS ==> r == PropagationStep::TimedOut,
        elapsed <= PROPAGATION_TIMEOUT_SECS ==> (r == PropagationStep::Confirmed <==> check == Some(
            Ok::<bool, AppError>(true),
        )),
        elapsed <= PROPAGATION_TIMEOUT_SECS ==> r != PropagationStep::TimedOut,
{
    if elapsed > PROPAGATION_TIMEOUT_SECS {
        return PropagationStep::TimedOut;
    }
    match check {
        Some(Ok(true)) => PropagationStep::Confirmed,
        _ => PropagationStep::Retry,
    }
}

/// The error of a record that did not show up in time.
pub fn propagation_timeout_error(fqdn: &str) -> (r: AppError)
    ensures
        error_view(r) == (ErrorKind::Dns, "DNS propagation timeout for "@ + fqdn@ + " after 120s"@),
{
    let mut s = String::from_str("DNS propagation timeout for ");
    s.append(fqdn);
    s.append(" after 120s");
    AppError::Dns(s)
}

/// The states of an ACME order.
#[derive(Debug, Clone, Copy, PartialEq, Eq)]
pub enum OrderState {
    Pending,
    Ready,
    Processing,
    Valid,
    Invalid,
}

/// What waiting for an order to become ready does next.
#[derive(Debug, Clone, Copy, PartialEq, Eq)]
pub enum OrderStep {
    /// The order can be finalized.
    Proceed,
    /// Refresh again after five seconds.
    Wait,
    /// The order failed.
    Invalid,
    /// The order did not become ready in time.
    TimedOut,
}

/// The next step of waiting for an order, from its state and the seconds
/// waited so far.
pub fn order_step(state: OrderState, elapsed: u64) -> (r: OrderStep)
    ensures
        r == match state {
            OrderState::Ready | OrderState::Valid => OrderStep::Proceed,
            OrderState::Invalid => OrderStep::Invalid,
            _ => if elapsed > PROPAGATION_TIMEOUT_SECS {
                OrderStep::TimedOut
            } else {
                OrderStep::Wait
            },
        },
{
    match state {
        OrderState::Ready | OrderState::Valid => OrderStep::Proceed,
        OrderState::Invalid => OrderStep::Invalid,
        _ => if elapsed > PROPAGATION_TIMEOUT_SECS {
            OrderStep::TimedOut
        } else {
            OrderStep::Wait
        },
    }
}

/// The domains a certificate covers: its stored JSON list, or its domain.
pub open spec fn cert_domains_spec(c: Certificate) -> Seq<Seq<char>> {
    match c.acme_domains {
        Some(d) => match json_string_list(d@) {
            Some(v) => v,
            None => seq![c.domain@],
        },
        None => seq![c.domain@],
    }
}

/// The domains a certificate covers.
pub fn cert_domains(c: &Certificate) -> (r: Vec<String>)
    ensures
        texts(r@) == cert_domains_spec(*c),
{
    let parsed = match &c.acme_domains {
        Some(d) => parse_string_list(d.as_str()),
        None => None,
    };
    match parsed {
        Some(v) => v,
        None => {
            let mut v: Vec<String> = Vec::new();
            v.push(c.domain.clone());
            proof {
                assert(texts(v@) =~= seq![c.domain@]);
            }
            v
        },
    }
}

/// A certificate is due when it expires before the threshold, or when its
/// expiry cannot be read.
pub open spec fn is_due_spec(expires_at: Seq<char>, threshold: (i64, u32)) -> bool {
    match rfc3339_instant(expires_at) {
        Some(t) => instant_before(t, threshold),
        None => true,
    }
}

/// Whether a certificate expiring at `expires_at` is due for renewal.
pub fn is_due(expires_at: &str, threshold: (i64, u32)) -> (r: bool)
    ensures
        r == is_due_spec(expires_at@, threshold),
{
    match parse_rfc3339(expires_at) {
        Some(t) => t.0 < threshold.0 || (t.0 == threshold.0 && t.1 < threshold.1),
        None => true,
    }
}

/// What the renewal check does with one due certificate.
#[derive(Debug, Clone)]
pub enum RenewalStep {
    /// The certificate has no DNS credential; it is skipped.
    NoDnsCredential(String),
    /// The certificate has no ACME account; it is skipped.
    NoAcmeAccount(String),
    /// Renew the certificate with these domains, credential and account.
    Renew {
        cert_id: String,
        name: String,
        expires_at: String,
        domains: Vec<String>,
        dns_credential_id: String,
        acme_account_id: String,
    },
}

/// The step for a due certificate.
pub open spec fn renewal_step_matches(s: RenewalStep, c: Certificate) -> bool {
    match (c.dns_credential_id, c.acme_account_id) {
        (None, _) => s matches RenewalStep::NoDnsCredential(n) && n@ == c.name@,
        (Some(_), None) => s matches RenewalStep::NoAcmeAccount(n) && n@ == c.name@,
        (Some(d), Some(a)) => s matches RenewalStep::Renew {
            cert_id,
            name,
            expires_at,
            domains,
            dns_credential_id,
            acme_account_id,
        } && cert_id@ == c.id@ && name@ == c.name@ && expires_at@ == c.expires_at@ && texts(domains@)
            == cert_domains_spec(c) && dns_credential_id@ == d@ && acme_account_id@ == a@,
    }
}

/// The due certificates, in order.
pub open spec fn due_certs(certs: Seq<Certificate>, threshold: (i64, u32)) -> Seq<Certificate> {
    certs.filter(|c: Certificate| is_due_spec(c.expires_at@, threshold))
}

/// The renewal steps of a check: one per due certificate, in order.
pub fn plan_renewals(certs: &[Certificate], threshold: (i64, u32)) -> (r: Vec<RenewalStep>)
    ensures
        r@.len() == due_certs(certs@, threshold).len(),
        forall|i: int|
            0 <= i < r@.len() ==> renewal_step_matches(#[trigger] r@[i], due_certs(certs@, threshold)[i]),
{
    let mut out: Vec<RenewalStep> = Vec::new();
    let mut i: usize = 0;
    let ghost due = |c: Certificate| is_due_spec(c.expires_at@, threshold);
    proof {
        assert(certs@.subrange(0, 0).filter(due) =~= Seq::<Certificate>::empty());
    }
    while i < certs.len()
        invariant
            i <= certs@.len(),
            due == (|c: Certificate| is_due_spec(c.expires_at@, threshold)),
            out@.len() == certs@.subrange(0, i as int).filter(due).len(),
            forall|k: int|
                0 <= k < out@.len() ==> renewal_step_matches(
                    #[trigger] out@[k],
                    certs@.subrange(0, i as int).filter(due)[k],
                ),
        decreases certs@.len() - i,
    {
        let c = &certs[i];
        let ghost pre = certs@.subrange(0, i as int);
        let ghost next = certs@.subrange(0, i + 1);
        proof {
            reveal(Seq::filter);
            assert(next.drop_last() =~= pre);
            assert(next.last() == certs@[i as int]);
        }
        if is_due(c.expires_at.as_str(), threshold) {
            let step = match (&c.dns_credential_id, &c.acme_account_id) {
                (None, _) => RenewalStep::NoDnsCredential(c.name.clone()),
                (Some(_), None) => RenewalStep::NoAcmeAccount(c.name.clone()),
                (Some(d), Some(a)) => RenewalStep::Renew {
                    cert_id: c.id.clone(),
                    name: c.name.clone(),
                    expires_at: c.expires_at.clone(),
                    domains: cert_domains(c),
                    dns_credential_id: d.clone(),
                    acme_account_id: a.clone(),
                },
            };
            let ghost old_out = out@;
            out.push(step);
            proof {
                assert(next.filter(due) == pre.filter(due).push(certs@[i as int]));
                assert forall|k: int| 0 <= k < out@.len() implies renewal_step_matches(
                    #[trigger] out@[k],
                    next.filter(due)[k],
                ) by {
                    if k < old_out.len() {
                        assert(out@[k] == old_out[k]);
                    }
                }
            }
        } else {
            proof {
                assert(next.filter(due) == pre.filter(due));
            }
        }
        i = i + 1;
    }
    proof {
        assert(certs@.subrange(0, certs@.len() as int) =~= certs@);
    }
    out
}

/// The log line of a failed renewal.
pub fn renewal_failure_message(name: &str, error: &str) -> (r: String)
    ensures
        r@ == "ACME renewal failed for '"@ + name@ + "': "@ + error@,
{
    let mut s = String::from_str("ACME renewal failed for '");
    s.append(name);
    s.append("': ");
    s.append(error);
    s
}

/// How long the issued certificate is waited for, in seconds.
pub const CERTIFICATE_TIMEOUT_SECS: u64 = 60;

/// What waiting for an issued certificate does next.
#[derive(Debug, Clone, Copy, PartialEq, Eq)]
pub enum CertificatePoll {
    /// The certificate is there.
    Done,
    /// Ask again after three seconds.
    Wait,
    /// Give up: "Timeout waiting for certificate".
    TimedOut,
}

/// The next step of waiting for the issued certificate, given whether it is
/// there and the seconds waited so far.
pub fn certificate_poll_step(issued: bool, elapsed: u64) -> (r: CertificatePoll)
    ensures
        r == if issued {
            CertificatePoll::Done
        } else if elapsed > CERTIFICATE_TIMEOUT_SECS {
            CertificatePoll::TimedOut
        } else {
            CertificatePoll::Wait
        },
{
    if issued {
        CertificatePoll::Done
    } else if elapsed > CERTIFICATE_TIMEOUT_SECS {
        CertificatePoll::TimedOut
    } else {
        CertificatePoll::Wait
    }
}

/// The renewal status shown for a certificate: its domains, and its next
/// renewal thirty days before expiry (its expiry itself when that cannot be
/// read).
pub fn renewal_status(c: Certificate) -> (r: RenewalStatus)
    ensures
        r.cert_id == c.id,
        r.cert_name == c.name,
        texts(r.domains@) == cert_domains_spec(c),
        r.expires_at == c.expires_at,
        r.auto_renew == c.auto_renew,
        r.last_renew_at == c.last_renew_at,
        r.last_renew_error == c.last_renew_error,
        r.next_renew_at@ == match rfc3339_days_before(c.expires_at@, 30) {
            Some(t) => t,
            None => c.expires_at@,
        },
{
    let domains = cert_domains(&c);
    let next_renew_at = match rfc3339_minus_days(c.expires_at.as_str(), 30) {
        Some(t) => t,
        None => c.expires_at.clone(),
    };
    RenewalStatus {
        cert_id: c.id,
        cert_name: c.name,
        domains,
        expires_at: c.expires_at,
        auto_renew: c.auto_renew,
        last_renew_at: c.last_renew_at,
        last_renew_error: c.last_renew_error,
        next_renew_at,
    }
}

} // verus!
