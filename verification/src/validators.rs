//! Validation of user input: proxy rules, access lists, IP/CIDR text,
//! hostnames and certificate domains.
use vstd::prelude::*;

use crate::error::{message_of, AppError};
use crate::ip::{is_ip_text, is_ip_text_exec};
use crate::models::{CreateProxyRule, ProxyRule, UpdateProxyRule};
use crate::text::{
    byte_len, decimal_string, decimal, find, first_match, has_match, is_ascii_alnum,
    is_ascii_alnum_char, join3, parse_u64, parse_u64_spec, split, split_spec, str_eq, trim,
    trim_spec, utf8_len, views,
};

verus! {

/// The result `r` is `Ok` when `expected` is `None`, and otherwise a validation
/// error carrying the expected message.
pub open spec fn validation_outcome(r: Result<(), AppError>, expected: Option<Seq<char>>) -> bool {
    match r {
        Ok(_) => expected is None,
        Err(e) => e is Validation && expected == Some(message_of(e)),
    }
}

/// A name is acceptable when, trimmed, it has 1 to 100 characters.
pub open spec fn name_acceptable(name: Seq<char>) -> bool {
    let t = trim_spec(name);
    t.len() > 0 && t.len() <= 100
}

pub open spec fn is_valid_proxy_type(t: Seq<char>) -> bool {
    t == "http"@ || t == "stream_tcp"@ || t == "stream_udp"@
}

pub open spec fn is_valid_tls_mode(t: Seq<char>) -> bool {
    t == "none"@ || t == "terminate"@ || t == "passthrough"@
}

/// A non-empty path prefix that does not start with `/`.
pub open spec fn bad_path_prefix(pp: Seq<char>) -> bool {
    pp.len() > 0 && pp[0] != '/'
}

pub open spec fn opt_view(o: Option<String>) -> Option<Seq<char>> {
    match o {
        Some(s) => Some(s@),
        None => None,
    }
}

/// The first rule that a new proxy rule breaks, as its message.
pub open spec fn create_proxy_error(input: CreateProxyRule) -> Option<Seq<char>> {
    let pt = input.proxy_type@;
    let tls = match input.tls_mode {
        Some(t) => t@,
        None => "none"@,
    };
    if !name_acceptable(input.name@) {
        Some("Name must be between 1 and 100 characters"@)
    } else if !is_valid_proxy_type(pt) {
        Some("Invalid proxy_type '"@ + pt + "'. Must be one of: http, stream_tcp, stream_udp"@)
    } else if input.listen_port == 0 {
        Some("listen_port must be between 1 and 65535"@)
    } else if input.upstream_port == 0 {
        Some("upstream_port must be between 1 and 65535"@)
    } else if pt == "http"@ && input.domain is None {
        Some("domain is required for HTTP proxy type"@)
    } else if pt == "http"@ && (input.domain matches Some(d) && trim_spec(d@).len() == 0) {
        Some("domain must not be empty for HTTP proxy type"@)
    } else if input.path_prefix matches Some(pp) && bad_path_prefix(pp@) {
        Some("path_prefix must start with '/'"@)
    } else if !is_valid_tls_mode(tls) {
        Some("Invalid tls_mode '"@ + tls + "'. Must be one of: none, terminate, passthrough"@)
    } else if tls == "terminate"@ && input.certificate_id is None {
        Some("certificate_id is required when tls_mode is 'terminate'"@)
    } else if tls == "passthrough"@ && input.certificate_id is Some {
        Some("certificate_id must not be set when tls_mode is 'passthrough'"@)
    } else if input.websocket == Some(true) && pt != "http"@ {
        Some("websocket is only valid for HTTP proxy type"@)
    } else {
        None
    }
}

fn invalid(msg: String) -> (r: Result<(), AppError>)
    ensures
        validation_outcome(r, Some(msg@)),
{
    Err(AppError::Validation(msg))
}

fn invalid_lit(msg: &str) -> (r: Result<(), AppError>)
    ensures
        validation_outcome(r, Some(msg@)),
{
    Err(AppError::Validation(String::from_str(msg)))
}

fn name_acceptable_exec(name: &str) -> (r: bool)
    ensures
        r == name_acceptable(name@),
{
    let t = trim(name);
    t.unicode_len() > 0 && t.unicode_len() <= 100
}

fn is_valid_proxy_type_exec(t: &str) -> (r: bool)
    ensures
        r == is_valid_proxy_type(t@),
{
    str_eq(t, "http") || str_eq(t, "stream_tcp") || str_eq(t, "stream_udp")
}

fn is_valid_tls_mode_exec(t: &str) -> (r: bool)
    ensures
        r == is_valid_tls_mode(t@),
{
    str_eq(t, "none") || str_eq(t, "terminate") || str_eq(t, "passthrough")
}

fn bad_path_prefix_exec(pp: &str) -> (r: bool)
    ensures
        r == bad_path_prefix(pp@),
{
    pp.unicode_len() > 0 && pp.get_char(0) != '/'
}

/// Checks a rule to be created; the error names the first rule it breaks.
pub fn validate_create_proxy(input: &CreateProxyRule) -> (r: Result<(), AppError>)
    ensures
        validation_outcome(r, create_proxy_error(*input)),
{
    let pt = input.proxy_type.as_str();
    if !name_acceptable_exec(input.name.as_str()) {
        return invalid_lit("Name must be between 1 and 100 characters");
    }
    if !is_valid_proxy_type_exec(pt) {
        return invalid(
            join3("Invalid proxy_type '", pt, "'. Must be one of: http, stream_tcp, stream_udp"),
        );
    }
    if input.listen_port == 0 {
        return invalid_lit("listen_port must be between 1 and 65535");
    }
    if input.upstream_port == 0 {
        return invalid_lit("upstream_port must be between 1 and 65535");
    }
    let is_http = str_eq(pt, "http");
    if is_http {
        match &input.domain {
            None => {
                return invalid_lit("domain is required for HTTP proxy type");
            },
            Some(d) => {
                if trim(d.as_str()).unicode_len() == 0 {
                    return invalid_lit("domain must not be empty for HTTP proxy type");
                }
            },
        }
    }
    if let Some(pp) = &input.path_prefix {
        if bad_path_prefix_exec(pp.as_str()) {
            return invalid_lit("path_prefix must start with '/'");
        }
    }
    let tls: &str = match &input.tls_mode {
        Some(t) => t.as_str(),
        None => "none",
    };
    if !is_valid_tls_mode_exec(tls) {
        return invalid(
            join3("Invalid tls_mode '", tls, "'. Must be one of: none, terminate, passthrough"),
        );
    }
    if str_eq(tls, "terminate") && input.certificate_id.is_none() {
        return invalid_lit("certificate_id is required when tls_mode is 'terminate'");
    }
    if str_eq(tls, "passthrough") && input.certificate_id.is_some() {
        return invalid_lit("certificate_id must not be set when tls_mode is 'passthrough'");
    }
    let ws = match input.websocket {
        Some(w) => w,
        None => false,
    };
    if ws && !is_http {
        return invalid_lit("websocket is only valid for HTTP proxy type");
    }
    Ok(())
}

/// The first rule that a partial update breaks, judged on the fields it sets.
pub open spec fn update_proxy_error(input: UpdateProxyRule) -> Option<Seq<char>> {
    if input.name matches Some(n) && !name_acceptable(n@) {
        Some("Name must be between 1 and 100 characters"@)
    } else if input.proxy_type matches Some(pt) && !is_valid_proxy_type(pt@) {
        Some(
            "Invalid proxy_type '"@ + input.proxy_type->0@
                + "'. Must be one of: http, stream_tcp, stream_udp"@,
        )
    } else if input.listen_port == Some(0u16) {
        Some("listen_port must be between 1 and 65535"@)
    } else if input.upstream_port == Some(0u16) {
        Some("upstream_port must be between 1 and 65535"@)
    } else if input.path_prefix matches Some(pp) && bad_path_prefix(pp@) {
        Some("path_prefix must start with '/'"@)
    } else if input.tls_mode matches Some(tm) && !is_valid_tls_mode(tm@) {
        Some(
            "Invalid tls_mode '"@ + input.tls_mode->0@
                + "'. Must be one of: none, terminate, passthrough"@,
        )
    } else if input.tls_mode matches Some(tm) && tm@ == "terminate"@ && input.certificate_id is None {
        Some("certificate_id is required when tls_mode is 'terminate'"@)
    } else if input.tls_mode matches Some(tm) && tm@ == "passthrough"@
        && input.certificate_id is Some {
        Some("certificate_id must not be set when tls_mode is 'passthrough'"@)
    } else if input.websocket == Some(true) && (input.proxy_type matches Some(pt) && pt@
        != "http"@) {
        Some("websocket is only valid for HTTP proxy type"@)
    } else {
        None
    }
}

/// Checks the fields that a partial update sets.
pub fn validate_update_proxy(input: &UpdateProxyRule) -> (r: Result<(), AppError>)
    ensures
        validation_outcome(r, update_proxy_error(*input)),
{
    if let Some(n) = &input.name {
        if !name_acceptable_exec(n.as_str()) {
            return invalid_lit("Name must be between 1 and 100 characters");
        }
    }
    if let Some(pt) = &input.proxy_type {
        if !is_valid_proxy_type_exec(pt.as_str()) {
            return invalid(
                join3(
                    "Invalid proxy_type '",
                    pt.as_str(),
                    "'. Must be one of: http, stream_tcp, stream_udp",
                ),
            );
        }
    }
    if let Some(port) = input.listen_port {
        if port == 0 {
            return invalid_lit("listen_port must be between 1 and 65535");
        }
    }
    if let Some(port) = input.upstream_port {
        if port == 0 {
            return invalid_lit("upstream_port must be between 1 and 65535");
        }
    }
    if let Some(pp) = &input.path_prefix {
        if bad_path_prefix_exec(pp.as_str()) {
            return invalid_lit("path_prefix must start with '/'");
        }
    }
    if let Some(tm) = &input.tls_mode {
        if !is_valid_tls_mode_exec(tm.as_str()) {
            return invalid(
                join3(
                    "Invalid tls_mode '",
                    tm.as_str(),
                    "'. Must be one of: none, terminate, passthrough",
                ),
            );
        }
    }
    if let Some(tm) = &input.tls_mode {
        if str_eq(tm.as_str(), "terminate") && input.certificate_id.is_none() {
            return invalid_lit("certificate_id is required when tls_mode is 'terminate'");
        }
        if str_eq(tm.as_str(), "passthrough") && input.certificate_id.is_some() {
            return invalid_lit("certificate_id must not be set when tls_mode is 'passthrough'");
        }
    }
    if let Some(true) = input.websocket {
        if let Some(pt) = &input.proxy_type {
            if !str_eq(pt.as_str(), "http") {
                return invalid_lit("websocket is only valid for HTTP proxy type");
            }
        }
    }
    Ok(())
}

/// The value an update gives a field: the new one when set, else the old one.
pub open spec fn merged(new: Option<String>, old: String) -> Seq<char> {
    match new {
        Some(s) => s@,
        None => old@,
    }
}

/// The first rule that the rule resulting from an update breaks. Fields the
/// update leaves out keep their value, except the domain, path prefix and
/// certificate, which the update stores as it gives them (leaving them out
/// clears them).
pub open spec fn merged_proxy_error(input: UpdateProxyRule, existing: ProxyRule) -> Option<
    Seq<char>,
> {
    let name = merged(input.name, existing.name);
    let pt = merged(input.proxy_type, existing.proxy_type);
    let listen_port = match input.listen_port {
        Some(p) => p,
        None => existing.listen_port,
    };
    let upstream_port = match input.upstream_port {
        Some(p) => p,
        None => existing.upstream_port,
    };
    let tls = merged(input.tls_mode, existing.tls_mode);
    let websocket = match input.websocket {
        Some(w) => w,
        None => existing.websocket,
    };
    let domain = opt_view(input.domain);
    let path_prefix = opt_view(input.path_prefix);
    if !name_acceptable(name) {
        Some("Name must be between 1 and 100 characters"@)
    } else if !is_valid_proxy_type(pt) {
        Some("Invalid proxy_type '"@ + pt + "'"@)
    } else if listen_port == 0 {
        Some("listen_port must be between 1 and 65535"@)
    } else if upstream_port == 0 {
        Some("upstream_port must be between 1 and 65535"@)
    } else if pt == "http"@ && (domain is None || domain == Some(Seq::<char>::empty())) {
        Some("domain is required for HTTP proxy type"@)
    } else if path_prefix matches Some(pp) && bad_path_prefix(pp) {
        Some("path_prefix must start with '/'"@)
    } else if !is_valid_tls_mode(tls) {
        Some("Invalid tls_mode '"@ + tls + "'"@)
    } else if tls == "terminate"@ && input.certificate_id is None {
        Some("certificate_id is required when tls_mode is 'terminate'"@)
    } else if tls == "passthrough"@ && input.certificate_id is Some {
        Some("certificate_id must not be set when tls_mode is 'passthrough'"@)
    } else if websocket && pt != "http"@ {
        Some("websocket is only valid for HTTP proxy type"@)
    } else {
        None
    }
}

/// The first rule that a stored proxy rule breaks, in the order the update
/// check tests them.
pub open spec fn stored_rule_error(r: ProxyRule) -> Option<Seq<char>> {
    let pt = r.proxy_type@;
    let tls = r.tls_mode@;
    let domain = opt_view(r.domain);
    if !name_acceptable(r.name@) {
        Some("Name must be between 1 and 100 characters"@)
    } else if !is_valid_proxy_type(pt) {
        Some("Invalid proxy_type '"@ + pt + "'"@)
    } else if r.listen_port == 0 {
        Some("listen_port must be between 1 and 65535"@)
    } else if r.upstream_port == 0 {
        Some("upstream_port must be between 1 and 65535"@)
    } else if pt == "http"@ && (domain is None || domain == Some(Seq::<char>::empty())) {
        Some("domain is required for HTTP proxy type"@)
    } else if opt_view(r.path_prefix) matches Some(pp) && bad_path_prefix(pp) {
        Some("path_prefix must start with '/'"@)
    } else if !is_valid_tls_mode(tls) {
        Some("Invalid tls_mode '"@ + tls + "'"@)
    } else if tls == "terminate"@ && r.certificate_id is None {
        Some("certificate_id is required when tls_mode is 'terminate'"@)
    } else if tls == "passthrough"@ && r.certificate_id is Some {
        Some("certificate_id must not be set when tls_mode is 'passthrough'"@)
    } else if r.websocket && pt != "http"@ {
        Some("websocket is only valid for HTTP proxy type"@)
    } else {
        None
    }
}

/// The update check judges exactly the rule that the update stores: for any
/// rule with the fields `ProxyRule::updated` gives it (fields left out keep
/// their value, the domain, path prefix and certificate are the update's
/// own), the check finds the same first problem in the update as in that
/// rule, and none when the rule breaks none.
pub proof fn law_update_check_judges_stored_rule(
    input: UpdateProxyRule,
    existing: ProxyRule,
    stored: ProxyRule,
)
    requires
        stored.name == match input.name { Some(s) => s, None => existing.name },
        stored.proxy_type == match input.proxy_type { Some(s) => s, None => existing.proxy_type },
        stored.listen_port == match input.listen_port { Some(p) => p, None => existing.listen_port },
        stored.upstream_port == match input.upstream_port {
            Some(p) => p,
            None => existing.upstream_port,
        },
        stored.tls_mode == match input.tls_mode { Some(s) => s, None => existing.tls_mode },
        stored.websocket == match input.websocket { Some(b) => b, None => existing.websocket },
        stored.domain == input.domain,
        stored.path_prefix == input.path_prefix,
        stored.certificate_id == input.certificate_id,
    ensures
        merged_proxy_error(input, existing) == stored_rule_error(stored),
{
}

fn pick<'a>(new: &'a Option<String>, old: &'a String) -> (r: &'a str)
    ensures
        r@ == merged(*new, *old),
{
    match new {
        Some(s) => s.as_str(),
        None => old.as_str(),
    }
}

/// Checks the rule that an update of `existing` would produce. A domain, path
/// prefix or certificate that the update leaves unset counts as cleared, as
/// the stored rule then has none.
pub fn validate_update_proxy_merged(input: &UpdateProxyRule, existing: &ProxyRule) -> (r: Result<
    (),
    AppError,
>)
    ensures
        validation_outcome(r, merged_proxy_error(*input, *existing)),
{
    let name = pick(&input.name, &existing.name);
    let pt = pick(&input.proxy_type, &existing.proxy_type);
    let listen_port = match input.listen_port {
        Some(p) => p,
        None => existing.listen_port,
    };
    let upstream_port = match input.upstream_port {
        Some(p) => p,
        None => existing.upstream_port,
    };
    let tls = pick(&input.tls_mode, &existing.tls_mode);
    let websocket = match input.websocket {
        Some(w) => w,
        None => existing.websocket,
    };
    if !name_acceptable_exec(name) {
        return invalid_lit("Name must be between 1 and 100 characters");
    }
    if !is_valid_proxy_type_exec(pt) {
        return invalid(join3("Invalid proxy_type '", pt, "'"));
    }
    if listen_port == 0 {
        return invalid_lit("listen_port must be between 1 and 65535");
    }
    if upstream_port == 0 {
        return invalid_lit("upstream_port must be between 1 and 65535");
    }
    let is_http = str_eq(pt, "http");
    if is_http {
        match &input.domain {
            None => {
                return invalid_lit("domain is required for HTTP proxy type");
            },
            Some(d) => {
                if d.unicode_len() == 0 {
                    assert(d@ =~= Seq::<char>::empty());
                    return invalid_lit("domain is required for HTTP proxy type");
                }
            },
        }
    }
    if let Some(pp) = &input.path_prefix {
        if bad_path_prefix_exec(pp.as_str()) {
            return invalid_lit("path_prefix must start with '/'");
        }
    }
    if !is_valid_tls_mode_exec(tls) {
        return invalid(join3("Invalid tls_mode '", tls, "'"));
    }
    if str_eq(tls, "terminate") && input.certificate_id.is_none() {
        return invalid_lit("certificate_id is required when tls_mode is 'terminate'");
    }
    if str_eq(tls, "passthrough") && input.certificate_id.is_some() {
        return invalid_lit("certificate_id must not be set when tls_mode is 'passthrough'");
    }
    if websocket && !is_http {
        return invalid_lit("websocket is only valid for HTTP proxy type");
    }
    Ok(())
}

/// An access list name is acceptable when, trimmed, it has 1 to 100 characters.
pub fn validate_create_access_list(name: &str) -> (r: Result<(), AppError>)
    ensures
        validation_outcome(
            r,
            if name_acceptable(name@) {
                None
            } else {
                Some("Access list name must be between 1 and 100 characters"@)
            },
        ),
{
    if !name_acceptable_exec(name) {
        return invalid_lit("Access list name must be between 1 and 100 characters");
    }
    Ok(())
}

/// What `u32::from_str` accepts and returns.
pub open spec fn parse_u32_spec(s: Seq<char>) -> Option<u32> {
    match parse_u64_spec(s) {
        Some(v) => if v <= u32::MAX {
            Some(v as u32)
        } else {
            None
        },
        None => None,
    }
}

/// The first problem with an IP address or CIDR block, as its message.
pub open spec fn ip_cidr_error(ip_cidr: Seq<char>) -> Option<Seq<char>> {
    let t = trim_spec(ip_cidr);
    let slash = seq!['/'];
    if t.len() == 0 {
        Some("IP/CIDR must not be empty"@)
    } else if t == "all"@ {
        None
    } else if has_match(t, slash) {
        let k = first_match(t, slash);
        let ip = t.take(k);
        let prefix = t.skip(k + 1);
        match parse_u32_spec(prefix) {
            None => Some("Invalid CIDR prefix length in '"@ + t + "'"@),
            Some(p) => if has_match(ip, seq![':']) && p > 128 {
                Some("IPv6 CIDR prefix must be 0-128, got "@ + decimal(p as nat))
            } else if !has_match(ip, seq![':']) && p > 32 {
                Some("IPv4 CIDR prefix must be 0-32, got "@ + decimal(p as nat))
            } else if !is_ip_text(ip) {
                Some("Invalid IP address in '"@ + t + "'"@)
            } else {
                None
            },
        }
    } else if !is_ip_text(t) {
        Some("Invalid IP address in '"@ + t + "'"@)
    } else {
        None
    }
}

pub(crate) fn parse_u32(s: &str) -> (r: Option<u32>)
    ensures
        r == parse_u32_spec(s@),
{
    match parse_u64(s) {
        Some(v) => if v <= 4294967295u64 {
            Some(v as u32)
        } else {
            None
        },
        None => None,
    }
}

/// Checks an access rule's address: `all`, an IPv4/IPv6 address, or a CIDR
/// block with a prefix length in range for its family.
pub fn validate_ip_cidr(ip_cidr: &str) -> (r: Result<(), AppError>)
    ensures
        validation_outcome(r, ip_cidr_error(ip_cidr@)),
{
    let t = trim(ip_cidr);
    if t.unicode_len() == 0 {
        return invalid_lit("IP/CIDR must not be empty");
    }
    if str_eq(t, "all") {
        return Ok(());
    }
    proof {
        reveal_strlit("/");
        reveal_strlit(":");
    }
    assert("/"@ =~= seq!['/']);
    assert(":"@ =~= seq![':']);
    match find(t, "/") {
        Some(k) => {
            let n = t.unicode_len();
            let ip = t.substring_char(0, k);
            let prefix_text = t.substring_char(k + 1, n);
            assert(ip@ =~= t@.take(k as int));
            assert(prefix_text@ =~= t@.skip(k + 1));
            match parse_u32(prefix_text) {
                None => {
                    return invalid(join3("Invalid CIDR prefix length in '", t, "'"));
                },
                Some(p) => {
                    let v6 = crate::text::contains(ip, ":");
                    if v6 && p > 128 {
                        let mut m = String::from_str("IPv6 CIDR prefix must be 0-128, got ");
                        let d = decimal_string(p as u64);
                        m.append(d.as_str());
                        return invalid(m);
                    }
                    if !v6 && p > 32 {
                        let mut m = String::from_str("IPv4 CIDR prefix must be 0-32, got ");
                        let d = decimal_string(p as u64);
                        m.append(d.as_str());
                        return invalid(m);
                    }
                    if !is_ip_text_exec(ip) {
                        return invalid(join3("Invalid IP address in '", t, "'"));
                    }
                    Ok(())
                },
            }
        },
        None => {
            if !is_ip_text_exec(t) {
                return invalid(join3("Invalid IP address in '", t, "'"));
            }
            Ok(())
        },
    }
}

/// The first problem with the address of a hosts-file entry.
pub open spec fn host_ip_error(ip: Seq<char>) -> Option<Seq<char>> {
    let t = trim_spec(ip);
    if t.len() == 0 {
        Some("IP address must not be empty"@)
    } else if !is_ip_text(t) {
        Some("Invalid IP address '"@ + t + "'"@)
    } else {
        None
    }
}

/// Checks the address of a hosts-file entry.
pub fn validate_host_ip(ip: &str) -> (r: Result<(), AppError>)
    ensures
        validation_outcome(r, host_ip_error(ip@)),
{
    let t = trim(ip);
    if t.unicode_len() == 0 {
        return invalid_lit("IP address must not be empty");
    }
    if !is_ip_text_exec(t) {
        return invalid(join3("Invalid IP address '", t, "'"));
    }
    Ok(())
}

/// A DNS label: 1 to 63 bytes of ASCII letters, digits and hyphens, not
/// starting or ending with a hyphen.
pub open spec fn label_ok(l: Seq<char>) -> bool {
    &&& l.len() > 0
    &&& utf8_len(l) <= 63
    &&& forall|i: int| 0 <= i < l.len() ==> (is_ascii_alnum(#[trigger] l[i]) || l[i] == '-')
    &&& l[0] != '-'
    &&& l.last() != '-'
}

/// Every dot-separated label of `h` is a valid DNS label.
pub open spec fn labels_ok(h: Seq<char>) -> bool {
    let p = split_spec(h, '.');
    forall|i: int| 0 <= i < p.len() ==> label_ok(#[trigger] p[i])
}

/// The first problem with a hostname.
pub open spec fn hostname_error(hostname: Seq<char>) -> Option<Seq<char>> {
    let t = trim_spec(hostname);
    if t.len() == 0 {
        Some("Hostname must not be empty"@)
    } else if t.len() > 253 {
        Some("Hostname must not exceed 253 characters"@)
    } else if !labels_ok(t) {
        Some("Invalid hostname format '"@ + t + "'"@)
    } else {
        None
    }
}

fn label_ok_exec(l: &str) -> (r: bool)
    ensures
        r == label_ok(l@),
{
    let n = l.unicode_len();
    if n == 0 || byte_len(l) > 63 {
        return false;
    }
    let mut i: usize = 0;
    while i < n
        invariant
            n == l@.len(),
            i <= n,
            forall|k: int| 0 <= k < i ==> (is_ascii_alnum(#[trigger] l@[k]) || l@[k] == '-'),
        decreases n - i,
    {
        let c = l.get_char(i);
        if !(is_ascii_alnum_char(c) || c == '-') {
            return false;
        }
        i = i + 1;
    }
    l.get_char(0) != '-' && l.get_char(n - 1) != '-'
}

/// Checks a hostname: at most 253 characters of valid dot-separated labels.
pub fn validate_hostname(hostname: &str) -> (r: Result<(), AppError>)
    ensures
        validation_outcome(r, hostname_error(hostname@)),
{
    let t = trim(hostname);
    if t.unicode_len() == 0 {
        return invalid_lit("Hostname must not be empty");
    }
    if t.unicode_len() > 253 {
        return invalid_lit("Hostname must not exceed 253 characters");
    }
    let labels = split(t, '.');
    let mut i: usize = 0;
    while i < labels.len()
        invariant
            views(labels@) == split_spec(t@, '.'),
            t@ == trim_spec(hostname@),
            t@.len() > 0,
            t@.len() <= 253,
            i <= labels.len(),
            forall|k: int| 0 <= k < i ==> label_ok(#[trigger] split_spec(t@, '.')[k]),
        decreases labels.len() - i,
    {
        assert(views(labels@)[i as int] == labels@[i as int]@);
        if !label_ok_exec(labels[i]) {
            assert(!label_ok(split_spec(t@, '.')[i as int]));
            return invalid(join3("Invalid hostname format '", t, "'"));
        }
        i = i + 1;
    }
    Ok(())
}

/// Checks a hosts-file entry: its address, then its hostname.
pub fn validate_host_entry(ip: &str, hostname: &str) -> (r: Result<(), AppError>)
    ensures
        validation_outcome(
            r,
            if host_ip_error(ip@) is Some {
                host_ip_error(ip@)
            } else {
                hostname_error(hostname@)
            },
        ),
{
    validate_host_ip(ip)?;
    validate_hostname(hostname)?;
    Ok(())
}

/// The first problem with a certificate's domain.
pub open spec fn cert_domain_error(domain: Seq<char>) -> Option<Seq<char>> {
    let t = trim_spec(domain);
    if t.len() == 0 {
        Some("Certificate domain must not be empty"@)
    } else if t.len() > 253 {
        Some("Certificate domain must not exceed 253 characters"@)
    } else {
        None
    }
}

/// Checks a certificate's domain: 1 to 253 characters once trimmed.
pub fn validate_create_cert(domain: &str) -> (r: Result<(), AppError>)
    ensures
        validation_outcome(r, cert_domain_error(domain@)),
{
    let t = trim(domain);
    if t.unicode_len() == 0 {
        return invalid_lit("Certificate domain must not be empty");
    }
    if t.unicode_len() > 253 {
        return invalid_lit("Certificate domain must not exceed 253 characters");
    }
    Ok(())
}

} // verus!

verus! {

/// A worker count is `auto` or a `u8` (as `u8::from_str` reads it) from 1 to 64.
pub open spec fn worker_processes_ok(value: Seq<char>) -> bool {
    value == "auto"@ || (parse_u64_spec(value) matches Some(n) && 1 <= n <= 64)
}

/// Checks the `worker_processes` setting.
pub fn validate_worker_processes(value: &str) -> (r: Result<(), AppError>)
    ensures
        validation_outcome(
            r,
            if worker_processes_ok(value@) {
                None
            } else {
                Some("Worker processes must be auto or 1-64"@)
            },
        ),
{
    if str_eq(value, "auto") {
        return Ok(());
    }
    match parse_u64(value) {
        Some(n) => if 1 <= n && n <= 64 {
            Ok(())
        } else {
            invalid_lit("Worker processes must be auto or 1-64")
        },
        None => invalid_lit("Worker processes must be auto or 1-64"),
    }
}

} // verus!

verus! {

/// What a rule can refer to.
#[derive(Debug, Clone, Copy, PartialEq, Eq)]
pub enum Referenced {
    Certificate,
    AccessList,
}

/// The error of deleting something that the first of `referencing` uses.
pub open spec fn in_use_error(what: Referenced, referencing: Seq<ProxyRule>) -> Option<Seq<char>> {
    if referencing.len() == 0 {
        None
    } else {
        Some(
            match what {
                Referenced::Certificate => "Certificate is in use by rule: "@,
                Referenced::AccessList => "Access list is in use by rule: "@,
            } + referencing[0].name@,
        )
    }
}

/// Checks that no rule refers to a certificate or access list about to be
/// deleted; the first referring rule is named.
pub fn check_not_in_use(what: Referenced, referencing: &[ProxyRule]) -> (r: Result<(), AppError>)
    ensures
        validation_outcome(r, in_use_error(what, referencing@)),
{
    if referencing.len() == 0 {
        return Ok(());
    }
    let mut s = match what {
        Referenced::Certificate => String::from_str("Certificate is in use by rule: "),
        Referenced::AccessList => String::from_str("Access list is in use by rule: "),
    };
    s.append(referencing[0].name.as_str());
    invalid(s)
}

/// Checks that no other access list has the name (compared without case):
/// `existing` is the list found with it, `own_id` the list being renamed.
pub fn check_access_list_name_free(existing: Option<&crate::models::AccessList>, own_id: Option<&str>) -> (r: Result<(), AppError>)
    ensures
        validation_outcome(
            r,
            match existing {
                Some(e) => if own_id matches Some(id) && id@ == e.id@ {
                    None
                } else {
                    Some("Access list with name '"@ + e.name@ + "' already exists (id: "@ + e.id@ + ")"@)
                },
                None => None,
            },
        ),
{
    match existing {
        None => Ok(()),
        Some(e) => {
            let own = match own_id {
                Some(id) => str_eq(id, e.id.as_str()),
                None => false,
            };
            if own {
                Ok(())
            } else {
                let mut s = String::from_str("Access list with name '");
                s.append(e.name.as_str());
                s.append("' already exists (id: ");
                s.append(e.id.as_str());
                s.append(")");
                invalid(s)
            }
        },
    }
}

/// Checks that a DNS credential's new name (if any) is not blank.
pub fn check_credential_name(name: Option<&str>) -> (r: Result<(), AppError>)
    ensures
        crate::error::outcome_is(
            r,
            match name {
                Some(n) => if trim_spec(n@).len() == 0 {
                    Err((crate::error::ErrorKind::Validation, "Name cannot be empty"@))
                } else {
                    Ok(())
                },
                None => Ok(()),
            },
        ),
{
    match name {
        Some(n) => if trim(n).unicode_len() == 0 {
            Err(AppError::Validation(String::from_str("Name cannot be empty")))
        } else {
            Ok(())
        },
        None => Ok(()),
    }
}

/// Checks that no certificate uses a DNS credential about to be deleted;
/// `cert_names` are the names of those that do.
pub fn check_credential_unused(cert_names: &[String]) -> (r: Result<(), AppError>)
    ensures
        crate::error::outcome_is(
            r,
            if cert_names@.len() == 0 {
                Ok(())
            } else {
                Err(
                    (
                        crate::error::ErrorKind::Conflict,
                        "DNS credential is in use by "@ + crate::text::decimal(cert_names@.len())
                            + " certificate(s): "@ + crate::dns_replies::join_with(
                            crate::dns_replies::texts(cert_names@),
                            ", "@,
                        ),
                    ),
                )
            },
        ),
{
    if cert_names.len() == 0 {
        return Ok(());
    }
    let mut m = String::from_str("DNS credential is in use by ");
    m.append(crate::text::decimal_string(cert_names.len() as u64).as_str());
    m.append(" certificate(s): ");
    let joined = crate::dns_replies::join_texts(cert_names, ", ");
    m.append(joined.as_str());
    Err(AppError::Conflict(m))
}

/// Checks that a list has no rule with the same action and address yet.
pub fn check_rule_not_duplicate(duplicate_found: bool, action: &str, ip_cidr: &str) -> (r: Result<(), AppError>)
    ensures
        validation_outcome(
            r,
            if duplicate_found {
                Some("A rule with action '"@ + action@ + "' and IP '"@ + ip_cidr@ + "' already exists in this list"@)
            } else {
                None
            },
        ),
{
    if !duplicate_found {
        return Ok(());
    }
    let mut s = String::from_str("A rule with action '");
    s.append(action);
    s.append("' and IP '");
    s.append(ip_cidr);
    s.append("' already exists in this list");
    invalid(s)
}

} // verus!
