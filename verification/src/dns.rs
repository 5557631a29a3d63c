//! The provider-independent logic of DNS-01 challenges: credential checks,
//! which registered domain or zone a challenge name belongs to, record ids,
//! and reading Route53's hosted-zone answer.
use vstd::prelude::*;

use crate::error::{error_view, outcome_is, AppError, ErrorKind};
use crate::text::{
    find, first_match, has_match, is_first_match, lemma_first_match_exists, matches_at,
    matches_at_exec, parse_u64, parse_u64_spec, split, split_spec, starts_with, starts_with_spec,
    str_eq, views,
};

verus! {

/// Cloudflare credentials: an API token.
#[derive(Debug, Clone)]
pub struct CloudflareCredential {
    pub api_token: String,
}

/// Alibaba Cloud credentials: an access key.
#[derive(Debug, Clone)]
pub struct AlidnsCredential {
    pub access_key_id: String,
    pub access_key_secret: String,
}

/// Tencent Cloud (DNSPod) credentials: a secret id and key.
#[derive(Debug, Clone)]
pub struct DnspodCredential {
    pub secret_id: String,
    pub secret_key: String,
}

/// AWS credentials for Route53, with an optional region.
#[derive(Debug, Clone)]
pub struct Route53Credential {
    pub access_key_id: String,
    pub secret_access_key: String,
    pub region: Option<String>,
}

/// The string value of `key` in the JSON object `json`, as `serde_json`
/// reads it: `Err` with the parse error's text where `json` is not JSON,
/// `Ok(None)` where the value is missing or not a string.
pub uninterp spec fn json_str_field(json: Seq<char>, key: Seq<char>) -> Result<Option<Seq<char>>, Seq<char>>;

/// Parses `json` with `serde_json::from_str` into a `Value`, then reads
/// `key` with `Value::get` and `Value::as_str`: the named result.
#[verifier::external_body]
fn json_field(json: &str, key: &str) -> (r: Result<Option<String>, String>)
    ensures
        match (r, json_str_field(json@, key@)) {
            (Ok(Some(v)), Ok(Some(w))) => v@ == w,
            (Ok(None), Ok(None)) => true,
            (Err(m), Err(w)) => m@ == w,
            _ => false,
        },
{
    match serde_json::from_str::<serde_json::Value>(json) {
        Ok(v) => Ok(v.get(key).and_then(|x| x.as_str()).map(|x| x.to_string())),
        Err(e) => Err(e.to_string()),
    }
}

/// The first missing string field among `keys` for provider `label`, or the
/// JSON error.
pub open spec fn fields_error(json: Seq<char>, label: Seq<char>, k1: Seq<char>, k2: Seq<char>) -> Option<Seq<char>> {
    match json_str_field(json, k1) {
        Err(m) => Some("Invalid JSON: "@ + m),
        Ok(None) => Some(label + " credentials require '"@ + k1 + "'"@),
        Ok(Some(_)) => match json_str_field(json, k2) {
            Err(m) => Some("Invalid JSON: "@ + m),
            Ok(None) => Some(label + " credentials require '"@ + k2 + "'"@),
            Ok(Some(_)) => None,
        },
    }
}

/// The message for an unknown provider.
pub open spec fn unknown_provider_message(provider: Seq<char>) -> Seq<char> {
    "Unknown DNS provider: '"@ + provider + "'. Supported: cloudflare, alidns, dnspod, route53"@
}

/// Why credentials are refused, if they are. Cloudflare credentials are
/// checked by deserializing them into their record type, whose outcome (the
/// error text on failure) is `cloudflare_parse`.
pub open spec fn credentials_error(
    provider: Seq<char>,
    json: Seq<char>,
    cloudflare_parse: Option<Result<(), String>>,
) -> Option<Seq<char>> {
    if provider == "cloudflare"@ {
        match cloudflare_parse {
            Some(Err(m)) => Some("Invalid Cloudflare credentials: "@ + m@),
            _ => None,
        }
    } else if provider == "alidns"@ {
        fields_error(json, "Alidns"@, "access_key_id"@, "access_key_secret"@)
    } else if provider == "dnspod"@ {
        fields_error(json, "DNSPod"@, "secret_id"@, "secret_key"@)
    } else if provider == "route53"@ {
        fields_error(json, "Route53"@, "access_key_id"@, "secret_access_key"@)
    } else {
        Some(unknown_provider_message(provider))
    }
}

/// The fields each provider's credentials must carry as strings:
/// `access_key_id` and `access_key_secret` for Alidns, `secret_id` and
/// `secret_key` for DNSPod, `access_key_id` and `secret_access_key` for
/// Route53. Credentials of these providers are accepted exactly when both of
/// their fields are strings, and when the first missing one is not, its name
/// is in the refusal.
pub proof fn law_required_credential_fields(json: Seq<char>, cloudflare_parse: Option<Result<(), String>>)
    ensures
        credentials_error("alidns"@, json, cloudflare_parse) is None <==> (json_str_field(json, "access_key_id"@) matches Ok(Some(_))
            && json_str_field(json, "access_key_secret"@) matches Ok(Some(_))),
        credentials_error("dnspod"@, json, cloudflare_parse) is None <==> (json_str_field(json, "secret_id"@) matches Ok(Some(_))
            && json_str_field(json, "secret_key"@) matches Ok(Some(_))),
        credentials_error("route53"@, json, cloudflare_parse) is None <==> (json_str_field(json, "access_key_id"@) matches Ok(Some(_))
            && json_str_field(json, "secret_access_key"@) matches Ok(Some(_))),
        json_str_field(json, "secret_id"@) matches Ok(Some(_)) && json_str_field(json, "secret_key"@) == Ok::<Option<Seq<char>>, Seq<char>>(None)
            ==> credentials_error("dnspod"@, json, cloudflare_parse) == Some("DNSPod credentials require 'secret_key'"@),
{
    reveal_strlit("alidns");
    reveal_strlit("dnspod");
    reveal_strlit("route53");
    reveal_strlit("cloudflare");
    reveal_strlit("DNSPod");
    reveal_strlit(" credentials require '");
    reveal_strlit("secret_key");
    reveal_strlit("'");
    reveal_strlit("DNSPod credentials require 'secret_key'");
    assert("DNSPod"@ + " credentials require '"@ + "secret_key"@ + "'"@ =~= "DNSPod credentials require 'secret_key'"@);
    assert("alidns"@[0] == 'a' && "dnspod"@[0] == 'd' && "route53"@[0] == 'r' && "cloudflare"@[0] == 'c');
    assert("alidns"@ != "cloudflare"@);
    assert("dnspod"@ != "cloudflare"@ && "dnspod"@ != "alidns"@);
    assert("route53"@ != "cloudflare"@ && "route53"@ != "alidns"@ && "route53"@ != "dnspod"@);
    assert(credentials_error("alidns"@, json, cloudflare_parse) == fields_error(json, "Alidns"@, "access_key_id"@, "access_key_secret"@));
    assert(credentials_error("dnspod"@, json, cloudflare_parse) == fields_error(json, "DNSPod"@, "secret_id"@, "secret_key"@));
    assert(credentials_error("route53"@, json, cloudflare_parse) == fields_error(json, "Route53"@, "access_key_id"@, "secret_access_key"@));
}

fn concat3(a: &str, b: &str, c: &str) -> (r: String)
    ensures
        r@ == a@ + b@ + c@,
{
    let mut s = String::from_str(a);
    s.append(b);
    s.append(c);
    s
}

fn check_fields(json: &str, label: &str, k1: &str, k2: &str) -> (r: Result<(), AppError>)
    ensures
        outcome_is(
            r,
            match fields_error(json@, label@, k1@, k2@) {
                Some(m) => Err((ErrorKind::Validation, m)),
                None => Ok(()),
            },
        ),
{
    proof {
        reveal_strlit("");
    }
    match json_field(json, k1) {
        Err(m) => return Err(AppError::Validation(concat3("Invalid JSON: ", m.as_str(), ""))),
        Ok(None) => {
            let mut s = String::from_str(label);
            s.append(" credentials require '");
            s.append(k1);
            s.append("'");
            return Err(AppError::Validation(s));
        },
        Ok(Some(_)) => {},
    }
    match json_field(json, k2) {
        Err(m) => Err(AppError::Validation(concat3("Invalid JSON: ", m.as_str(), ""))),
        Ok(None) => {
            let mut s = String::from_str(label);
            s.append(" credentials require '");
            s.append(k2);
            s.append("'");
            Err(AppError::Validation(s))
        },
        Ok(Some(_)) => Ok(()),
    }
}

/// Checks that the credentials JSON fits the provider. `cloudflare_parse` is
/// the outcome of deserializing Cloudflare credentials into their record
/// type (needed only for `cloudflare`).
pub fn validate_credentials(
    provider: &str,
    credentials_json: &str,
    cloudflare_parse: Option<Result<(), String>>,
) -> (r: Result<(), AppError>)
    requires
        provider@ == "cloudflare"@ ==> cloudflare_parse is Some,
    ensures
        outcome_is(
            r,
            match credentials_error(provider@, credentials_json@, cloudflare_parse) {
                Some(m) => Err((ErrorKind::Validation, m)),
                None => Ok(()),
            },
        ),
{
    proof {
        reveal_strlit("");
    }
    if str_eq(provider, "cloudflare") {
        match cloudflare_parse {
            Some(Err(m)) => Err(
                AppError::Validation(concat3("Invalid Cloudflare credentials: ", m.as_str(), "")),
            ),
            _ => Ok(()),
        }
    } else if str_eq(provider, "alidns") {
        check_fields(credentials_json, "Alidns", "access_key_id", "access_key_secret")
    } else if str_eq(provider, "dnspod") {
        check_fields(credentials_json, "DNSPod", "secret_id", "secret_key")
    } else if str_eq(provider, "route53") {
        check_fields(credentials_json, "Route53", "access_key_id", "secret_access_key")
    } else {
        Err(
            AppError::Validation(
                concat3(
                    "Unknown DNS provider: '",
                    provider,
                    "'. Supported: cloudflare, alidns, dnspod, route53",
                ),
            ),
        )
    }
}

/// `s` without its trailing dots.
pub open spec fn trim_dots(s: Seq<char>) -> Seq<char>
    decreases s.len(),
{
    if s.len() > 0 && s.last() == '.' {
        trim_dots(s.drop_last())
    } else {
        s
    }
}

/// `s` without its trailing dots (as `trim_end_matches('.')`).
pub fn trim_trailing_dots(s: &str) -> (r: &str)
    ensures
        r@ == trim_dots(s@),
{
    let mut j = s.unicode_len();
    proof {
        assert(s@.subrange(0, j as int) =~= s@);
    }
    while j > 0 && s.get_char(j - 1) == '.'
        invariant
            j <= s@.len(),
            trim_dots(s@) == trim_dots(s@.subrange(0, j as int)),
        decreases j,
    {
        proof {
            assert(s@.subrange(0, j as int).drop_last() =~= s@.subrange(0, j - 1));
        }
        j = j - 1;
    }
    s.substring_char(0, j)
}

/// `d` is `name` itself or a parent domain of it.
pub open spec fn domain_covers(name: Seq<char>, d: Seq<char>) -> bool {
    name == d || (name.len() >= d.len() + 1 && name.subrange(name.len() - d.len() - 1, name.len() as int)
        == seq!['.'] + d)
}

/// The record name of `name` within the domain `d`: what precedes `.d`, or
/// `@` for the domain itself.
pub open spec fn record_name(name: Seq<char>, d: Seq<char>) -> Seq<char> {
    if name.len() > d.len() + 1 {
        name.take(name.len() - d.len() - 1)
    } else {
        "@"@
    }
}

/// `j` is the first of the longest domains of `domains` that cover `name`.
pub open spec fn best_domain(name: Seq<char>, domains: Seq<String>, j: int) -> bool {
    &&& 0 <= j < domains.len()
    &&& domain_covers(name, domains[j]@)
    &&& forall|k: int|
        0 <= k < domains.len() && domain_covers(name, (#[trigger] domains[k])@) ==> domains[k]@.len()
            <= domains[j]@.len()
    &&& forall|k: int|
        0 <= k < j && domain_covers(name, (#[trigger] domains[k])@) ==> domains[k]@.len()
            < domains[j]@.len()
}

fn covers_exec(name: &str, d: &str) -> (r: bool)
    ensures
        r == domain_covers(name@, d@),
{
    let n = name.unicode_len();
    let m = d.unicode_len();
    if str_eq(name, d) {
        return true;
    }
    if n <= m {
        return false;
    }
    if name.get_char(n - m - 1) != '.' {
        proof {
            assert(name@.subrange(n - m - 1, n as int)[0] != (seq!['.'] + d@)[0]);
        }
        return false;
    }
    let tail = name.substring_char(n - m, n);
    let r = str_eq(tail, d);
    proof {
        let s = name@.subrange(n - m - 1, n as int);
        if r {
            assert(s =~= seq!['.'] + d@);
        } else {
            if s == seq!['.'] + d@ {
                assert(tail@ =~= s.skip(1));
                assert((seq!['.'] + d@).skip(1) =~= d@);
            }
        }
    }
    r
}

/// The registered domain of `fqdn` among `domains` (the longest that is the
/// name itself or a parent of it, trailing dots ignored), with the record
/// name within it; `None` where no domain covers it.
pub fn find_domain_rr(fqdn: &str, domains: &[String]) -> (r: Option<(String, String)>)
    ensures
        match r {
            Some((d, rr)) => exists|j: int|
                best_domain(trim_dots(fqdn@), domains@, j) && d@ == domains@[j]@ && rr@ == record_name(
                    trim_dots(fqdn@),
                    domains@[j]@,
                ),
            None => forall|k: int|
                0 <= k < domains@.len() ==> !domain_covers(trim_dots(fqdn@), (#[trigger] domains@[k])@),
        },
{
    let name = trim_trailing_dots(fqdn);
    let mut best: Option<usize> = None;
    let mut i: usize = 0;
    while i < domains.len()
        invariant
            name@ == trim_dots(fqdn@),
            i <= domains@.len(),
            match best {
                Some(j) => j < i && domain_covers(name@, domains@[j as int]@) && (forall|k: int|
                    0 <= k < i && domain_covers(name@, (#[trigger] domains@[k])@)
                        ==> domains@[k]@.len() <= domains@[j as int]@.len()) && (forall|k: int|
                    0 <= k < j && domain_covers(name@, (#[trigger] domains@[k])@)
                        ==> domains@[k]@.len() < domains@[j as int]@.len()),
                None => forall|k: int|
                    0 <= k < i ==> !domain_covers(name@, (#[trigger] domains@[k])@),
            },
        decreases domains@.len() - i,
    {
        let d = domains[i].as_str();
        if covers_exec(name, d) {
            match best {
                None => {
                    best = Some(i);
                },
                Some(j) => {
                    if d.unicode_len() > domains[j].unicode_len() {
                        best = Some(i);
                    }
                },
            }
        }
        i = i + 1;
    }
    match best {
        None => None,
        Some(j) => {
            let d = domains[j].as_str();
            let n = name.unicode_len();
            let m = d.unicode_len();
            let rr = if n > m && n - m > 1 {
                String::from_str(name.substring_char(0, n - m - 1))
            } else {
                String::from_str("@")
            };
            proof {
                assert(best_domain(name@, domains@, j as int));
            }
            Some((String::from_str(d), rr))
        },
    }
}

/// The challenge name without the `_acme-challenge.` label and trailing
/// dots.
pub open spec fn challenge_domain(fqdn: Seq<char>) -> Seq<char> {
    trim_dots(
        if starts_with_spec(fqdn, "_acme-challenge."@) {
            fqdn.skip(16)
        } else {
            fqdn
        },
    )
}

/// The labels of `ps` joined by dots.
pub open spec fn join_dots(ps: Seq<Seq<char>>) -> Seq<char>
    decreases ps.len(),
{
    if ps.len() == 0 {
        Seq::empty()
    } else if ps.len() == 1 {
        ps[0]
    } else {
        join_dots(ps.drop_last()) + seq!['.'] + ps.last()
    }
}

fn join_dots_exec(ps: &[&str], from: usize) -> (r: String)
    requires
        from <= ps@.len(),
    ensures
        r@ == join_dots(views(ps@).skip(from as int)),
{
    let mut out = String::new();
    let mut i = from;
    proof {
        assert(views(ps@).skip(from as int).subrange(0, 0) =~= Seq::<Seq<char>>::empty());
        reveal_strlit(".");
    }
    while i < ps.len()
        invariant
            from <= i <= ps@.len(),
            out@ == join_dots(views(ps@).skip(from as int).subrange(0, i - from)),
            "."@ == seq!['.'],
        decreases ps@.len() - i,
    {
        proof {
            let q = views(ps@).skip(from as int).subrange(0, i - from + 1);
            assert(q.drop_last() =~= views(ps@).skip(from as int).subrange(0, i - from));
            assert(q.last() == ps@[i as int]@);
        }
        if i > from {
            out.append(".");
        }
        out.append(ps[i]);
        i = i + 1;
    }
    proof {
        assert(views(ps@).skip(from as int).subrange(0, ps@.len() - from) =~= views(ps@).skip(
            from as int,
        ));
    }
    out
}

/// The zone names to try for a challenge name, most specific first: the
/// domain from each label on, down to (not including) the last label; with
/// a trailing dot when `absolute`.
pub open spec fn zone_candidates_spec(fqdn: Seq<char>, absolute: bool) -> Seq<Seq<char>> {
    let parts = split_spec(challenge_domain(fqdn), '.');
    let n = if parts.len() >= 1 {
        parts.len() - 1
    } else {
        0
    };
    Seq::new(
        n as nat,
        |i: int|
            join_dots(parts.skip(i)) + if absolute {
                seq!['.']
            } else {
                Seq::empty()
            },
    )
}

/// The zone names to try for a challenge name.
pub fn zone_candidates(fqdn: &str, absolute: bool) -> (r: Vec<String>)
    ensures
        views_of(r@) == zone_candidates_spec(fqdn@, absolute),
{
    let stripped = if starts_with(fqdn, "_acme-challenge.") {
        proof {
            reveal_strlit("_acme-challenge.");
        }
        fqdn.substring_char(16, fqdn.unicode_len())
    } else {
        fqdn
    };
    let domain = trim_trailing_dots(stripped);
    let parts = split(domain, '.');
    let mut out: Vec<String> = Vec::new();
    let n: usize = if parts.len() >= 1 {
        parts.len() - 1
    } else {
        0
    };
    let ghost want = zone_candidates_spec(fqdn@, absolute);
    proof {
        reveal_strlit(".");
        assert(domain@ == challenge_domain(fqdn@));
    }
    let mut i: usize = 0;
    while i < n
        invariant
            n == want.len(),
            n <= parts@.len(),
            views(parts@) == split_spec(challenge_domain(fqdn@), '.'),
            want == zone_candidates_spec(fqdn@, absolute),
            i <= n,
            views_of(out@) == want.subrange(0, i as int),
            "."@ == seq!['.'],
        decreases n - i,
    {
        let mut c = join_dots_exec(parts.as_slice(), i);
        if absolute {
            c.append(".");
        }
        let ghost old_out = out@;
        out.push(c);
        proof {
            assert(views_of(out@) =~= views_of(old_out).push(c@));
            assert(want.subrange(0, i + 1) =~= want.subrange(0, i as int).push(want[i as int]));
        }
        i = i + 1;
    }
    proof {
        assert(want.subrange(0, n as int) =~= want);
    }
    out
}

/// The texts of a list of strings.
pub open spec fn views_of(v: Seq<String>) -> Seq<Seq<char>> {
    v.map_values(|s: String| s@)
}

} // verus!

verus! {

/// The error of a DNS step, with its message.
pub open spec fn dns_error(msg: Seq<char>) -> (ErrorKind, Seq<char>) {
    (ErrorKind::Dns, msg)
}

/// Splits `s` at the first `c`: the text before and after it.
pub open spec fn split_first(s: Seq<char>, c: char) -> Option<(Seq<char>, Seq<char>)> {
    if has_match(s, seq![c]) {
        let k = first_match(s, seq![c]);
        Some((s.take(k), s.skip(k + 1)))
    } else {
        None
    }
}

pub(crate) fn split_first_exec(s: &str, c: &str) -> (r: Option<(String, String)>)
    requires
        c@.len() == 1,
    ensures
        match (r, split_first(s@, c@[0])) {
            (Some((a, b)), Some((x, y))) => a@ == x && b@ == y,
            (None, None) => true,
            _ => false,
        },
{
    assert(c@ =~= seq![c@[0]]);
    match find(s, c) {
        Some(k) => {
            let n = s.unicode_len();
            let a = String::from_str(s.substring_char(0, k));
            let b = String::from_str(s.substring_char(k + 1, n));
            proof {
                assert(a@ =~= s@.take(k as int));
                assert(b@ =~= s@.skip(k + 1));
            }
            Some((a, b))
        },
        None => None,
    }
}

/// The id of a Cloudflare record: zone id and record id joined by `/`.
pub open spec fn cloudflare_record_id_spec(zone: Seq<char>, record: Seq<char>) -> Seq<char> {
    zone + "/"@ + record
}

/// The id under which a Cloudflare TXT record is remembered.
pub fn cloudflare_record_id(zone: &str, record: &str) -> (r: String)
    ensures
        r@ == cloudflare_record_id_spec(zone@, record@),
{
    concat3(zone, "/", record)
}

/// The zone id and record id of a Cloudflare record id: the parts around the
/// first `/`.
pub fn split_cloudflare_record_id(id: &str) -> (r: Result<(String, String), AppError>)
    ensures
        match (r, split_first(id@, '/')) {
            (Ok((a, b)), Some((x, y))) => a@ == x && b@ == y,
            (Err(e), None) => error_view(e) == dns_error(
                "Invalid record_id format, expected 'zone_id/record_id'"@,
            ),
            _ => false,
        },
{
    proof {
        reveal_strlit("/");
    }
    match split_first_exec(id, "/") {
        Some(p) => Ok(p),
        None => Err(
            AppError::Dns(String::from_str("Invalid record_id format, expected 'zone_id/record_id'")),
        ),
    }
}

/// The id of a DNSPod record: domain and record number joined by `:`.
pub open spec fn dnspod_record_id_spec(domain: Seq<char>, record: u64) -> Seq<char> {
    domain + ":"@ + crate::text::decimal(record as nat)
}

/// The id under which a DNSPod TXT record is remembered.
pub fn dnspod_record_id(domain: &str, record: u64) -> (r: String)
    ensures
        r@ == dnspod_record_id_spec(domain@, record),
{
    let d = crate::text::decimal_string(record);
    concat3(domain, ":", d.as_str())
}

/// What a DNSPod record id holds: the domain before the first `:` and the
/// record number after it.
pub open spec fn dnspod_split_spec(id: Seq<char>) -> Result<(Seq<char>, u64), (ErrorKind, Seq<char>)> {
    match split_first(id, ':') {
        None => Err(dns_error("Invalid record_id format for DNSPod"@)),
        Some((d, rest)) => match parse_u64_spec(rest) {
            None => Err(dns_error("Invalid record ID number"@)),
            Some(n) => Ok((d, n)),
        },
    }
}

/// The domain and record number of a DNSPod record id.
pub fn split_dnspod_record_id(id: &str) -> (r: Result<(String, u64), AppError>)
    ensures
        match (r, dnspod_split_spec(id@)) {
            (Ok((a, n)), Ok((x, m))) => a@ == x && n == m,
            (Err(e), Err(x)) => error_view(e) == x,
            _ => false,
        },
{
    proof {
        reveal_strlit(":");
    }
    match split_first_exec(id, ":") {
        None => Err(AppError::Dns(String::from_str("Invalid record_id format for DNSPod"))),
        Some((d, rest)) => match parse_u64(rest.as_str()) {
            None => Err(AppError::Dns(String::from_str("Invalid record ID number"))),
            Some(n) => Ok((d, n)),
        },
    }
}

/// The id of a Route53 record: zone id, record name and value joined by `:`.
pub open spec fn route53_record_id_spec(zone: Seq<char>, name: Seq<char>, value: Seq<char>) -> Seq<char> {
    zone + ":"@ + name + ":"@ + value
}

/// The id under which a Route53 TXT record is remembered.
pub fn route53_record_id(zone: &str, name: &str, value: &str) -> (r: String)
    ensures
        r@ == route53_record_id_spec(zone@, name@, value@),
{
    let mut s = concat3(zone, ":", name);
    s.append(":");
    s.append(value);
    s
}

/// What a Route53 record id holds: the parts around its first two `:`.
pub open spec fn route53_split_spec(id: Seq<char>) -> Option<(Seq<char>, Seq<char>, Seq<char>)> {
    match split_first(id, ':') {
        None => None,
        Some((z, rest)) => match split_first(rest, ':') {
            None => None,
            Some((n, v)) => Some((z, n, v)),
        },
    }
}

/// The zone id, record name and value of a Route53 record id.
pub fn split_route53_record_id(id: &str) -> (r: Result<(String, String, String), AppError>)
    ensures
        match (r, route53_split_spec(id@)) {
            (Ok((a, b, c)), Some((x, y, z))) => a@ == x && b@ == y && c@ == z,
            (Err(e), None) => error_view(e) == dns_error("Invalid Route53 record_id format"@),
            _ => false,
        },
{
    proof {
        reveal_strlit(":");
    }
    match split_first_exec(id, ":") {
        None => Err(AppError::Dns(String::from_str("Invalid Route53 record_id format"))),
        Some((z, rest)) => match split_first_exec(rest.as_str(), ":") {
            None => Err(AppError::Dns(String::from_str("Invalid Route53 record_id format"))),
            Some((n, v)) => Ok((z, n, v)),
        },
    }
}

proof fn lemma_split_first_join(a: Seq<char>, b: Seq<char>, c: char)
    requires
        !has_match(a, seq![c]),
    ensures
        split_first(a + seq![c] + b, c) == Some((a, b)),
{
    let s = a + seq![c] + b;
    assert(matches_at(s, seq![c], a.len() as int)) by {
        assert(s[a.len() as int + 0] == c);
    }
    assert forall|j: int| 0 <= j < a.len() implies !matches_at(s, seq![c], j) by {
        if matches_at(s, seq![c], j) {
            assert(s[j + 0] == c);
            assert(matches_at(a, seq![c], j)) by {
                assert(a[j + 0] == c);
            }
        }
    }
    crate::text::lemma_first_match_unique(s, seq![c], a.len() as int);
    assert(s.take(a.len() as int) =~= a);
    assert(s.skip(a.len() as int + 1) =~= b);
}

/// Reading a Cloudflare record id gives back the zone and record it was made
/// from, when the zone id holds no `/`.
pub proof fn law_cloudflare_record_id_roundtrip(zone: Seq<char>, record: Seq<char>)
    requires
        !has_match(zone, seq!['/']),
    ensures
        split_first(cloudflare_record_id_spec(zone, record), '/') == Some((zone, record)),
{
    reveal_strlit("/");
    assert(cloudflare_record_id_spec(zone, record) =~= zone + seq!['/'] + record);
    lemma_split_first_join(zone, record, '/');
}

/// Reading a Route53 record id gives back the zone, name and value it was
/// made from, when the zone id and the name hold no `:`.
pub proof fn law_route53_record_id_roundtrip(zone: Seq<char>, name: Seq<char>, value: Seq<char>)
    requires
        !has_match(zone, seq![':']),
        !has_match(name, seq![':']),
    ensures
        route53_split_spec(route53_record_id_spec(zone, name, value)) == Some((zone, name, value)),
{
    reveal_strlit(":");
    let rest = name + seq![':'] + value;
    assert(route53_record_id_spec(zone, name, value) =~= zone + seq![':'] + rest);
    lemma_split_first_join(zone, rest, ':');
    lemma_split_first_join(name, value, ':');
}

/// Reading a DNSPod record id gives back the domain and record number it was
/// made from, when the domain holds no `:`.
pub proof fn law_dnspod_record_id_roundtrip(domain: Seq<char>, record: u64)
    requires
        !has_match(domain, seq![':']),
    ensures
        dnspod_split_spec(dnspod_record_id_spec(domain, record)) == Ok::<(Seq<char>, u64), (ErrorKind, Seq<char>)>((domain, record)),
{
    reveal_strlit(":");
    let d = crate::text::decimal(record as nat);
    assert(dnspod_record_id_spec(domain, record) =~= domain + seq![':'] + d);
    lemma_split_first_join(domain, d, ':');
    crate::text::lemma_parse_decimal(record);
}

/// The hosted zone id in Route53's answer for `candidate`: the text after the
/// first `<Id>/hostedzone/` up to the next `</Id>`, provided the answer
/// names the candidate zone.
pub open spec fn hosted_zone_spec(body: Seq<char>, candidate: Seq<char>) -> Option<Seq<char>> {
    let open = "<Id>/hostedzone/"@;
    if has_match(body, open) {
        let rest = body.skip(first_match(body, open) + 16);
        if has_match(rest, "</Id>"@) && has_match(body, "<Name>"@ + candidate + "</Name>"@) {
            Some(rest.take(first_match(rest, "</Id>"@)))
        } else {
            None
        }
    } else {
        None
    }
}

/// Reads the hosted zone id from Route53's answer for `candidate`.
pub fn hosted_zone_id(body: &str, candidate: &str) -> (r: Option<String>)
    ensures
        match (r, hosted_zone_spec(body@, candidate@)) {
            (Some(z), Some(w)) => z@ == w,
            (None, None) => true,
            _ => false,
        },
{
    proof {
        reveal_strlit("<Id>/hostedzone/");
    }
    let i = match find(body, "<Id>/hostedzone/") {
        Some(i) => i,
        None => return None,
    };
    let n = body.unicode_len();
    let rest = body.substring_char(i + 16, n);
    proof {
        assert(rest@ =~= body@.skip(i + 16));
    }
    let j = match find(rest, "</Id>") {
        Some(j) => j,
        None => return None,
    };
    let mut wanted = String::from_str("<Name>");
    wanted.append(candidate);
    wanted.append("</Name>");
    if !crate::text::contains(body, wanted.as_str()) {
        return None;
    }
    let z = String::from_str(rest.substring_char(0, j));
    proof {
        assert(z@ =~= rest@.take(j as int));
    }
    Some(z)
}

} // verus!

verus! {

/// `s` in lower case, as `str::to_lowercase` writes it.
pub uninterp spec fn lowercase(s: Seq<char>) -> Seq<char>;

/// Calls `str::to_lowercase`: the named lower-case text.
#[verifier::external_body]
pub(crate) fn to_lowercase(s: &str) -> (r: String)
    ensures
        r@ == lowercase(s@),
{
    s.to_lowercase()
}

/// What `serde_json` reads from credentials text: `None` where it is not
/// JSON; otherwise whether it is an object, its compact text (as
/// `serde_json::to_string` writes it), and for an object its members in
/// the map's order, each as key, compact value text, and string value.
pub uninterp spec fn json_shape(json: Seq<char>) -> Option<(bool, Seq<char>, Seq<(Seq<char>, Seq<char>, Option<Seq<char>>)>)>;

/// What `serde_json::to_string` writes for the value read from `json` after
/// each key of `keys` is set (with `Map::insert`) to the string at the same
/// position of `values`, when that value is an object.
pub uninterp spec fn json_with_strings(json: Seq<char>, keys: Seq<Seq<char>>, values: Seq<Seq<char>>) -> Seq<char>;

/// A member of a JSON object: key, compact value text, string value.
pub type JsonMember = (String, String, Option<String>);

/// Parses credentials text with `serde_json::from_str` into a `Value` and
/// hands it out as plain values: the named shape.
#[verifier::external_body]
fn read_json_shape(json: &str) -> (r: Option<(bool, String, Vec<JsonMember>)>)
    ensures
        match (r, json_shape(json@)) {
            (None, None) => true,
            (Some((o, t, ms)), Some((o2, t2, ms2))) => o == o2 && t@ == t2 && ms@.len() == ms2.len()
                && forall|i: int|
                0 <= i < ms@.len() ==> (#[trigger] ms@[i]).0@ == ms2[i].0 && ms@[i].1@ == ms2[i].1
                    && opt_str_view(ms@[i].2) == ms2[i].2,
            _ => false,
        },
{
    let v: serde_json::Value = serde_json::from_str(json).ok()?;
    let text = v.to_string();
    match v.as_object() {
        Some(m) => Some((true, text, m.iter().map(|(k, x)| (k.clone(), x.to_string(), x.as_str().map(|s| s.to_string()))).collect())),
        None => Some((false, text, Vec::new())),
    }
}

/// Reads `json` with `serde_json::from_str` into a `Value`, sets each key of
/// `keys` to the string at the same position of `values` where the value is
/// an object, and writes it back with `serde_json::to_string`: the named
/// text.
#[verifier::external_body]
fn set_string_members(json: &str, keys: Vec<String>, values: Vec<String>) -> (r: String)
    ensures
        r@ == json_with_strings(json@, keys.deep_view(), values.deep_view()),
{
    let mut v: serde_json::Value = serde_json::from_str(json).unwrap_or_default();
    if let Some(obj) = v.as_object_mut() {
        for (k, s) in keys.into_iter().zip(values) {
            obj.insert(k, serde_json::Value::String(s));
        }
    }
    serde_json::to_string(&v).unwrap_or_default()
}

/// The text of an optional string.
pub open spec fn opt_str_view(o: Option<String>) -> Option<Seq<char>> {
    match o {
        Some(s) => Some(s@),
        None => None,
    }
}

/// A member whose key names a secret: its lower-cased key holds `secret`,
/// `token` or `key`.
pub open spec fn is_secret_key_spec(key: Seq<char>) -> bool {
    let k = lowercase(key);
    has_match(k, "secret"@) || has_match(k, "token"@) || has_match(k, "key"@)
}

/// Whether a member's key names a secret.
pub fn is_secret_key(key: &str) -> (r: bool)
    ensures
        r == is_secret_key_spec(key@),
{
    let k = to_lowercase(key);
    crate::text::contains(k.as_str(), "secret") || crate::text::contains(k.as_str(), "token")
        || crate::text::contains(k.as_str(), "key")
}

/// A masked secret: `****` and its last four characters, or `****` alone for
/// a value of at most four characters.
pub open spec fn masked_spec(s: Seq<char>) -> Seq<char> {
    if s.len() > 4 {
        "****"@ + s.skip(s.len() - 4)
    } else {
        "****"@
    }
}

/// A secret value as the credential list shows it.
pub fn mask_value(s: &str) -> (r: String)
    ensures
        r@ == masked_spec(s@),
{
    let n = s.unicode_len();
    let mut out = String::from_str("****");
    if n > 4 {
        out.append(s.substring_char(n - 4, n));
        proof {
            assert(s@.subrange(n - 4, n as int) =~= s@.skip(n - 4));
        }
    }
    out
}

} // verus!

verus! {

/// The secret string members of an object, in order: their keys, and their
/// masked values.
pub open spec fn masked_pairs(ms: Seq<(Seq<char>, Seq<char>, Option<Seq<char>>)>) -> (Seq<Seq<char>>, Seq<Seq<char>>)
    decreases ms.len(),
{
    if ms.len() == 0 {
        (Seq::empty(), Seq::empty())
    } else {
        let rest = masked_pairs(ms.drop_last());
        let m = ms.last();
        if m.2 is Some && is_secret_key_spec(m.0) {
            (rest.0.push(m.0), rest.1.push(masked_spec(m.2->0)))
        } else {
            rest
        }
    }
}

/// Credentials text with its secrets masked: in an object, each string
/// member whose key names a secret is set to its masked form and `serde_json`
/// writes the object; other JSON is written compactly as it is; text that is
/// not JSON becomes `{}`.
pub open spec fn masked_credentials_spec(json: Seq<char>) -> Seq<char> {
    match json_shape(json) {
        None => "{}"@,
        Some((false, t, _)) => t,
        Some((true, _, ms)) => json_with_strings(json, masked_pairs(ms).0, masked_pairs(ms).1),
    }
}

/// Masks the secrets of credentials text for display.
pub fn mask_credentials(credentials_json: &str) -> (r: String)
    ensures
        r@ == masked_credentials_spec(credentials_json@),
{
    match read_json_shape(credentials_json) {
        None => String::from_str("{}"),
        Some((is_object, text, members)) => {
            if !is_object {
                return text;
            }
            let ghost ms2 = (json_shape(credentials_json@)->0).2;
            let mut keys: Vec<String> = Vec::new();
            let mut values: Vec<String> = Vec::new();
            let mut i: usize = 0;
            proof {
                assert(ms2.subrange(0, 0) =~= Seq::<(Seq<char>, Seq<char>, Option<Seq<char>>)>::empty());
                assert(keys.deep_view() =~= Seq::<Seq<char>>::empty());
                assert(values.deep_view() =~= Seq::<Seq<char>>::empty());
            }
            while i < members.len()
                invariant
                    i <= members@.len(),
                    members@.len() == ms2.len(),
                    json_shape(credentials_json@) matches Some((true, _, m)) && m == ms2,
                    forall|j: int|
                        0 <= j < members@.len() ==> (#[trigger] members@[j]).0@ == ms2[j].0
                            && members@[j].1@ == ms2[j].1 && opt_str_view(members@[j].2) == ms2[j].2,
                    keys.deep_view() == masked_pairs(ms2.subrange(0, i as int)).0,
                    values.deep_view() == masked_pairs(ms2.subrange(0, i as int)).1,
                decreases members@.len() - i,
            {
                let (k, _, sv) = &members[i];
                let ghost y = ms2.subrange(0, i + 1);
                proof {
                    assert(y.drop_last() =~= ms2.subrange(0, i as int));
                    assert(y.last() == ms2[i as int]);
                }
                match sv {
                    Some(v) => if is_secret_key(k.as_str()) {
                        proof {
                            assert(ms2[i as int].2 == Some(v@));
                        }
                        let ghost kd = keys.deep_view();
                        let ghost vd = values.deep_view();
                        keys.push(k.clone());
                        values.push(mask_value(v.as_str()));
                        proof {
                            assert(keys.deep_view() =~= kd.push(ms2[i as int].0));
                            assert(values.deep_view() =~= vd.push(masked_spec(v@)));
                        }
                    },
                    None => {},
                }
                i = i + 1;
            }
            proof {
                assert(ms2.subrange(0, members@.len() as int) =~= ms2);
            }
            set_string_members(credentials_json, keys, values)
        },
    }
}

} // verus!

verus! {

/// A DNS credential with its secrets masked, for lists.
#[derive(Debug, Clone)]
pub struct DnsCredentialMasked {
    pub id: String,
    pub name: String,
    pub provider: String,
    pub credentials_json: String,
    pub created_at: String,
    pub updated_at: String,
}

impl DnsCredentialMasked {
    /// The credential with its credentials text masked.
    pub fn from(cred: crate::models::DnsCredential) -> (r: DnsCredentialMasked)
        ensures
            r.id == cred.id,
            r.name == cred.name,
            r.provider == cred.provider,
            r.credentials_json@ == masked_credentials_spec(cred.credentials_json@),
            r.created_at == cred.created_at,
            r.updated_at == cred.updated_at,
    {
        let masked = mask_credentials(cred.credentials_json.as_str());
        DnsCredentialMasked {
            id: cred.id,
            name: cred.name,
            provider: cred.provider,
            credentials_json: masked,
            created_at: cred.created_at,
            updated_at: cred.updated_at,
        }
    }
}

} // verus!
