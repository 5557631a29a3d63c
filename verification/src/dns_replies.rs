//! What the DNS providers' answers come to: the record id to remember, the
//! message shown for a connection test, or the error to report. The caller
//! reads the fields out of each answer and hands them in as plain values.
use vstd::prelude::*;

use crate::dns::{cloudflare_record_id, cloudflare_record_id_spec, dnspod_record_id, dnspod_record_id_spec, route53_record_id, route53_record_id_spec};
use crate::error::{error_view, AppError, ErrorKind};
use crate::validators::opt_view;
use crate::text::{contains, decimal, decimal_string, ends_with, ends_with_spec, has_match, join2, join3};

verus! {

/// A text outcome as a mathematical value.
pub open spec fn text_result(r: Result<String, AppError>) -> Result<Seq<char>, (ErrorKind, Seq<char>)> {
    match r {
        Ok(s) => Ok(s@),
        Err(e) => Err(error_view(e)),
    }
}

/// An outcome without a value as a mathematical value.
pub open spec fn unit_result(r: Result<(), AppError>) -> Result<(), (ErrorKind, Seq<char>)> {
    match r {
        Ok(()) => Ok(()),
        Err(e) => Err(error_view(e)),
    }
}

/// The usual reading of an answer: the value where there is one, else the
/// provider's message after `prefix`, else the `fallback` message.
pub open spec fn pick_reply(
    found: Option<Seq<char>>,
    message: Option<Seq<char>>,
    prefix: Seq<char>,
    fallback: Seq<char>,
) -> Result<Seq<char>, (ErrorKind, Seq<char>)> {
    match found {
        Some(v) => Ok(v),
        None => match message {
            Some(m) => Err((ErrorKind::Dns, prefix + m)),
            None => Err((ErrorKind::Dns, fallback)),
        },
    }
}

fn pick_reply_exec(found: Option<String>, message: Option<String>, prefix: &str, fallback: String) -> (r: Result<
    String,
    AppError,
>)
    ensures
        text_result(r) == pick_reply(opt_view(found), opt_view(message), prefix@, fallback@),
{
    match found {
        Some(v) => Ok(v),
        None => match message {
            Some(m) => Err(AppError::Dns(join2(prefix, m.as_str()))),
            None => Err(AppError::Dns(fallback)),
        },
    }
}

/// The parts joined by `sep`.
pub open spec fn join_with(parts: Seq<Seq<char>>, sep: Seq<char>) -> Seq<char>
    decreases parts.len(),
{
    if parts.len() == 0 {
        Seq::empty()
    } else if parts.len() == 1 {
        parts[0]
    } else {
        join_with(parts.drop_last(), sep) + sep + parts.last()
    }
}

/// The views of a list of texts.
pub open spec fn texts(v: Seq<String>) -> Seq<Seq<char>> {
    v.map_values(|s: String| s@)
}

/// Joins the texts with `sep`.
pub fn join_texts(parts: &[String], sep: &str) -> (r: String)
    ensures
        r@ == join_with(texts(parts@), sep@),
{
    let ghost ps = texts(parts@);
    let mut out = String::new();
    let mut i: usize = 0;
    proof {
        assert(ps.take(0) =~= Seq::<Seq<char>>::empty());
    }
    while i < parts.len()
        invariant
            i <= parts@.len(),
            ps == texts(parts@),
            out@ == join_with(ps.take(i as int), sep@),
        decreases parts@.len() - i,
    {
        if i > 0 {
            out.append(sep);
        }
        out.append(parts[i].as_str());
        proof {
            let t = ps.take(i + 1);
            assert(t.drop_last() =~= ps.take(i as int));
            assert(t.last() == parts@[i as int]@);
            if i == 0 {
                assert(t.len() == 1);
            }
        }
        i = i + 1;
    }
    proof {
        assert(ps.take(parts@.len() as int) =~= ps);
    }
    out
}

/// Whether one of the record values is `value`.
pub open spec fn has_value_spec(values: Seq<String>, value: Seq<char>) -> bool {
    exists|i: int| 0 <= i < values.len() && #[trigger] values[i]@ == value
}

/// Whether the TXT value is among the values a provider lists: the
/// propagation check of Cloudflare, Alibaba Cloud and DNSPod.
pub fn has_value(values: &[String], value: &str) -> (r: bool)
    ensures
        r == has_value_spec(values@, value@),
{
    let mut i: usize = 0;
    while i < values.len()
        invariant
            i <= values@.len(),
            forall|j: int| 0 <= j < i ==> #[trigger] values@[j]@ != value@,
        decreases values@.len() - i,
    {
        if crate::text::str_eq(values[i].as_str(), value) {
            return true;
        }
        i = i + 1;
    }
    false
}

/// Alibaba Cloud's answer to adding a record: its `RecordId`, else its
/// `Message`; `body` is the whole answer.
pub fn alidns_create_reply(record_id: Option<String>, message: Option<String>, body: &str) -> (r: Result<
    String,
    AppError,
>)
    ensures
        text_result(r) == pick_reply(
            opt_view(record_id),
            opt_view(message),
            "Alidns error: "@,
            "Unexpected Alidns response: "@ + body@,
        ),
{
    pick_reply_exec(record_id, message, "Alidns error: ", join2("Unexpected Alidns response: ", body))
}

/// Alibaba Cloud's answer to deleting a record: a `RecordId` or no
/// `Message` is success.
pub fn alidns_delete_reply(has_record_id: bool, message: Option<String>) -> (r: Result<(), AppError>)
    ensures
        unit_result(r) == (if has_record_id {
            Ok(())
        } else {
            match opt_view(message) {
                Some(m) => Err((ErrorKind::Dns, "Alidns delete error: "@ + m)),
                None => Ok(()),
            }
        }),
{
    if has_record_id {
        Ok(())
    } else {
        match message {
            Some(m) => Err(AppError::Dns(join2("Alidns delete error: ", m.as_str()))),
            None => Ok(()),
        }
    }
}

/// Alibaba Cloud's answer to the connection test: its `TotalCount`, else its
/// `Message`.
pub fn alidns_test_reply(total: Option<u64>, message: Option<String>) -> (r: Result<String, AppError>)
    ensures
        text_result(r) == pick_reply(
            match total {
                Some(n) => Some("Connected to Alidns. "@ + decimal(n as nat) + " domain(s) found."@),
                None => None,
            },
            opt_view(message),
            "Alidns authentication failed: "@,
            "Unexpected Alidns response"@,
        ),
{
    let found = match total {
        Some(n) => Some(join3("Connected to Alidns. ", decimal_string(n).as_str(), " domain(s) found.")),
        None => None,
    };
    pick_reply_exec(found, message, "Alidns authentication failed: ", String::from_str("Unexpected Alidns response"))
}

/// DNSPod's answer to creating a record in `domain`: its `RecordId` (kept
/// with the domain), else its error `Message`; `body` is the whole answer.
pub fn dnspod_create_reply(domain: &str, record_id: Option<u64>, message: Option<String>, body: &str) -> (r: Result<
    String,
    AppError,
>)
    ensures
        text_result(r) == pick_reply(
            match record_id {
                Some(n) => Some(dnspod_record_id_spec(domain@, n)),
                None => None,
            },
            opt_view(message),
            "DNSPod error: "@,
            "Unexpected DNSPod response: "@ + body@,
        ),
{
    let found = match record_id {
        Some(n) => Some(dnspod_record_id(domain, n)),
        None => None,
    };
    pick_reply_exec(found, message, "DNSPod error: ", join2("Unexpected DNSPod response: ", body))
}

/// DNSPod's answer to deleting a record: an `Error` in it fails, with its
/// message or `Unknown error`.
pub fn dnspod_delete_reply(has_error: bool, message: Option<String>) -> (r: Result<(), AppError>)
    ensures
        unit_result(r) == (if has_error {
            Err(
                (
                    ErrorKind::Dns,
                    "DNSPod delete error: "@ + match opt_view(message) {
                        Some(m) => m,
                        None => "Unknown error"@,
                    },
                ),
            )
        } else {
            Ok(())
        }),
{
    if has_error {
        let m = match message {
            Some(m) => m,
            None => String::from_str("Unknown error"),
        };
        Err(AppError::Dns(join2("DNSPod delete error: ", m.as_str())))
    } else {
        Ok(())
    }
}

/// DNSPod's answer to the connection test: its domain count, else its error
/// `Message`.
pub fn dnspod_test_reply(total: Option<u64>, message: Option<String>) -> (r: Result<String, AppError>)
    ensures
        text_result(r) == pick_reply(
            match total {
                Some(n) => Some("Connected to DNSPod. "@ + decimal(n as nat) + " domain(s) found."@),
                None => None,
            },
            opt_view(message),
            "DNSPod authentication failed: "@,
            "Unexpected DNSPod response"@,
        ),
{
    let found = match total {
        Some(n) => Some(join3("Connected to DNSPod. ", decimal_string(n).as_str(), " domain(s) found.")),
        None => None,
    };
    pick_reply_exec(found, message, "DNSPod authentication failed: ", String::from_str("Unexpected DNSPod response"))
}

/// Cloudflare's answer to creating a record in `zone_id`: the zone and
/// record ids where it succeeded, else its error messages with the HTTP
/// `status`.
pub fn cloudflare_create_reply(
    zone_id: &str,
    success: bool,
    status: &str,
    errors: &[String],
    record_id: &str,
) -> (r: Result<String, AppError>)
    ensures
        text_result(r) == (if success {
            Ok(cloudflare_record_id_spec(zone_id@, record_id@))
        } else {
            Err(
                (
                    ErrorKind::Dns,
                    "Cloudflare API error ("@ + status@ + "): "@ + join_with(texts(errors@), ", "@),
                ),
            )
        }),
{
    if success {
        Ok(cloudflare_record_id(zone_id, record_id))
    } else {
        let mut m = String::from_str("Cloudflare API error (");
        m.append(status);
        m.append("): ");
        let joined = join_texts(errors, ", ");
        m.append(joined.as_str());
        Err(AppError::Dns(m))
    }
}

/// Cloudflare's answer to deleting a record: an HTTP failure reports the
/// answer's text.
pub fn cloudflare_delete_reply(success: bool, text: &str) -> (r: Result<(), AppError>)
    ensures
        unit_result(r) == (if success {
            Ok(())
        } else {
            Err((ErrorKind::Dns, "Failed to delete Cloudflare record: "@ + text@))
        }),
{
    if success {
        Ok(())
    } else {
        Err(AppError::Dns(join2("Failed to delete Cloudflare record: ", text)))
    }
}

/// Cloudflare's answer to the connection test: the number of zones (none
/// where the answer does not say), else its error messages.
pub fn cloudflare_test_reply(success: bool, errors: &[String], total: Option<u32>) -> (r: Result<String, AppError>)
    ensures
        text_result(r) == (if success {
            Ok(
                "Connected to Cloudflare. "@ + decimal(
                    match total {
                        Some(n) => n as nat,
                        None => 0,
                    },
                ) + " zone(s) accessible."@,
            )
        } else {
            Err((ErrorKind::Dns, "Cloudflare authentication failed: "@ + join_with(texts(errors@), ", "@)))
        }),
{
    if success {
        let n: u64 = match total {
            Some(n) => n as u64,
            None => 0,
        };
        Ok(join3("Connected to Cloudflare. ", decimal_string(n).as_str(), " zone(s) accessible."))
    } else {
        let joined = join_texts(errors, ", ");
        Err(AppError::Dns(join2("Cloudflare authentication failed: ", joined.as_str())))
    }
}

/// The absolute name of a Route53 record: `fqdn` with a trailing dot.
pub open spec fn route53_record_name_spec(fqdn: Seq<char>) -> Seq<char> {
    if ends_with_spec(fqdn, "."@) {
        fqdn
    } else {
        fqdn + "."@
    }
}

/// The absolute name of a Route53 record.
pub fn route53_record_name(fqdn: &str) -> (r: String)
    ensures
        r@ == route53_record_name_spec(fqdn@),
{
    if ends_with(fqdn, ".") {
        String::from_str(fqdn)
    } else {
        join2(fqdn, ".")
    }
}

/// The change batch that applies `action` (`UPSERT` or `DELETE`) to the TXT
/// record `name` with `value`, with a TTL of 120 seconds.
pub open spec fn route53_change_body_spec(action: Seq<char>, name: Seq<char>, value: Seq<char>) -> Seq<char> {
    "<?xml version=\"1.0\" encoding=\"UTF-8\"?>\n<ChangeResourceRecordSetsRequest xmlns=\"https://route53.amazonaws.com/doc/2013-04-01/\">\n  <ChangeBatch>\n    <Changes>\n      <Change>\n        <Action>"@
        + action
        + "</Action>\n        <ResourceRecordSet>\n          <Name>"@
        + name
        + "</Name>\n          <Type>TXT</Type>\n          <TTL>120</TTL>\n          <ResourceRecords>\n            <ResourceRecord>\n              <Value>\""@
        + value
        + "\"</Value>\n            </ResourceRecord>\n          </ResourceRecords>\n        </ResourceRecordSet>\n      </Change>\n    </Changes>\n  </ChangeBatch>\n</ChangeResourceRecordSetsRequest>"@
}

/// The XML body of a Route53 record change.
pub fn route53_change_body(action: &str, name: &str, value: &str) -> (r: String)
    ensures
        r@ == route53_change_body_spec(action@, name@, value@),
{
    let mut s = String::from_str(
        "<?xml version=\"1.0\" encoding=\"UTF-8\"?>\n<ChangeResourceRecordSetsRequest xmlns=\"https://route53.amazonaws.com/doc/2013-04-01/\">\n  <ChangeBatch>\n    <Changes>\n      <Change>\n        <Action>",
    );
    s.append(action);
    s.append("</Action>\n        <ResourceRecordSet>\n          <Name>");
    s.append(name);
    s.append(
        "</Name>\n          <Type>TXT</Type>\n          <TTL>120</TTL>\n          <ResourceRecords>\n            <ResourceRecord>\n              <Value>\"",
    );
    s.append(value);
    s.append(
        "\"</Value>\n            </ResourceRecord>\n          </ResourceRecords>\n        </ResourceRecordSet>\n      </Change>\n    </Changes>\n  </ChangeBatch>\n</ChangeResourceRecordSetsRequest>",
    );
    s
}

/// Whether Route53's record listing shows the value, in quotes.
pub fn route53_propagated(body: &str, value: &str) -> (r: bool)
    ensures
        r == has_match(body@, "\""@ + value@ + "\""@),
{
    let quoted = join3("\"", value, "\"");
    contains(body, quoted.as_str())
}

/// Route53's answer to creating a record: its id where the HTTP status was a
/// success, else the status and the answer's text.
pub fn route53_create_reply(
    success: bool,
    status: &str,
    body: &str,
    zone_id: &str,
    name: &str,
    value: &str,
) -> (r: Result<String, AppError>)
    ensures
        text_result(r) == (if success {
            Ok(route53_record_id_spec(zone_id@, name@, value@))
        } else {
            Err((ErrorKind::Dns, "Route53 create record failed ("@ + status@ + "): "@ + body@))
        }),
{
    if success {
        Ok(route53_record_id(zone_id, name, value))
    } else {
        let mut m = String::from_str("Route53 create record failed (");
        m.append(status);
        m.append("): ");
        m.append(body);
        Err(AppError::Dns(m))
    }
}

/// Route53's answer to deleting a record: an HTTP failure reports the
/// answer's text.
pub fn route53_delete_reply(success: bool, text: &str) -> (r: Result<(), AppError>)
    ensures
        unit_result(r) == (if success {
            Ok(())
        } else {
            Err((ErrorKind::Dns, "Route53 delete record failed: "@ + text@))
        }),
{
    if success {
        Ok(())
    } else {
        Err(AppError::Dns(join2("Route53 delete record failed: ", text)))
    }
}

/// Route53's answer to the connection test.
pub fn route53_test_reply(success: bool, status: &str, body: &str) -> (r: Result<String, AppError>)
    ensures
        text_result(r) == (if success {
            Ok("Connected to Route53. Found hosted zone(s)."@)
        } else {
            Err((ErrorKind::Dns, "Route53 authentication failed ("@ + status@ + "): "@ + body@))
        }),
{
    if success {
        Ok(String::from_str("Connected to Route53. Found hosted zone(s)."))
    } else {
        let mut m = String::from_str("Route53 authentication failed (");
        m.append(status);
        m.append("): ");
        m.append(body);
        Err(AppError::Dns(m))
    }
}

/// How a connection test went, as shown to the user.
#[derive(Debug, Clone)]
pub struct TestResult {
    pub success: bool,
    pub message: String,
}

impl TestResult {
    /// The test result of a provider's connection test: its message where it
    /// succeeded, the error's displayed text where it failed.
    pub fn from_outcome(outcome: Result<String, AppError>) -> (r: TestResult)
        ensures
            r.success == outcome is Ok,
            r.message@ == match outcome {
                Ok(m) => m@,
                Err(e) => crate::error::display_prefix(e) + crate::error::message_of(e),
            },
    {
        match outcome {
            Ok(message) => TestResult { success: true, message },
            Err(e) => TestResult { success: false, message: e.to_display_string() },
        }
    }
}

} // verus!
