//! The records the proxy manager stores and exchanges.
use vstd::prelude::*;

verus! {

/// A reverse proxy (HTTP) or a stream forwarding (TCP/UDP) rule.
#[derive(Debug, Clone)]
pub struct ProxyRule {
    pub id: String,
    pub name: String,
    pub proxy_type: String,
    pub enabled: bool,
    pub listen_port: u16,
    pub listen_host: String,
    pub domain: Option<String>,
    pub path_prefix: Option<String>,
    pub upstream_host: String,
    pub upstream_port: u16,
    pub upstream_scheme: String,
    pub tls_mode: String,
    pub certificate_id: Option<String>,
    pub access_list_id: Option<String>,
    pub websocket: bool,
    pub keep_alive: bool,
    pub custom_headers: Option<String>,
    pub upstream_targets: Option<String>,
    pub sort_order: i32,
    pub created_at: String,
    pub updated_at: String,
}

/// The fields of a rule to be created; absent optional fields take defaults.
#[derive(Debug, Clone)]
pub struct CreateProxyRule {
    pub name: String,
    pub proxy_type: String,
    pub listen_port: u16,
    pub listen_host: Option<String>,
    pub domain: Option<String>,
    pub path_prefix: Option<String>,
    pub upstream_host: String,
    pub upstream_port: u16,
    pub upstream_scheme: Option<String>,
    pub tls_mode: Option<String>,
    pub certificate_id: Option<String>,
    pub access_list_id: Option<String>,
    pub websocket: Option<bool>,
    pub keep_alive: Option<bool>,
    pub custom_headers: Option<String>,
    pub upstream_targets: Option<String>,
    pub sort_order: Option<i32>,
}

/// The fields of a rule to be changed.
#[derive(Debug, Clone)]
pub struct UpdateProxyRule {
    pub name: Option<String>,
    pub proxy_type: Option<String>,
    pub enabled: Option<bool>,
    pub listen_port: Option<u16>,
    pub listen_host: Option<String>,
    pub domain: Option<String>,
    pub path_prefix: Option<String>,
    pub upstream_host: Option<String>,
    pub upstream_port: Option<u16>,
    pub upstream_scheme: Option<String>,
    pub tls_mode: Option<String>,
    pub certificate_id: Option<String>,
    pub access_list_id: Option<String>,
    pub websocket: Option<bool>,
    pub keep_alive: Option<bool>,
    pub custom_headers: Option<String>,
    pub upstream_targets: Option<String>,
    pub sort_order: Option<i32>,
}

/// A TLS certificate known to the manager.
#[derive(Debug, Clone)]
pub struct Certificate {
    pub id: String,
    pub name: String,
    pub domain: String,
    pub cert_path: String,
    pub key_path: String,
    pub source: String,
    pub expires_at: String,
    pub auto_renew: bool,
    pub created_at: String,
    pub dns_credential_id: Option<String>,
    pub acme_account_id: Option<String>,
    pub acme_domains: Option<String>,
    pub last_renew_error: Option<String>,
    pub last_renew_at: Option<String>,
    pub status: String,
}

#[derive(Debug, Clone)]
pub struct CreateCertificate {
    pub name: String,
    pub domain: String,
    pub cert_path: String,
    pub key_path: String,
    pub source: String,
    pub expires_at: String,
    pub auto_renew: Option<bool>,
    pub dns_credential_id: Option<String>,
    pub acme_account_id: Option<String>,
    pub acme_domains: Option<String>,
}

/// Credentials for a DNS provider, as JSON text.
#[derive(Debug, Clone)]
pub struct DnsCredential {
    pub id: String,
    pub name: String,
    pub provider: String,
    pub credentials_json: String,
    pub created_at: String,
    pub updated_at: String,
}

#[derive(Debug, Clone)]
pub struct CreateDnsCredential {
    pub name: String,
    pub provider: String,
    pub credentials_json: String,
}

#[derive(Debug, Clone)]
pub struct AcmeAccount {
    pub id: String,
    pub email: String,
    pub account_key_pem: String,
    pub ca_url: String,
    pub created_at: String,
}

#[derive(Debug, Clone)]
pub struct RenewalStatus {
    pub cert_id: String,
    pub cert_name: String,
    pub domains: Vec<String>,
    pub expires_at: String,
    pub auto_renew: bool,
    pub last_renew_at: Option<String>,
    pub last_renew_error: Option<String>,
    pub next_renew_at: String,
}

/// An IP access list with a default policy.
#[derive(Debug, Clone)]
pub struct AccessList {
    pub id: String,
    pub name: String,
    pub default_policy: String,
    pub created_at: String,
}

#[derive(Debug, Clone)]
pub struct CreateAccessList {
    pub name: String,
    pub default_policy: String,
}

#[derive(Debug, Clone)]
pub struct AccessRule {
    pub id: String,
    pub access_list_id: String,
    pub action: String,
    pub ip_cidr: String,
    pub sort_order: i32,
    pub created_at: String,
}

#[derive(Debug, Clone)]
pub struct CreateAccessRule {
    pub access_list_id: String,
    pub action: String,
    pub ip_cidr: String,
    pub sort_order: Option<i32>,
}

#[derive(Debug, Clone)]
pub struct AccessListWithRules {
    pub list: AccessList,
    pub rules: Vec<AccessRule>,
}

#[derive(Debug, Clone)]
pub struct AppSetting {
    pub key: String,
    pub value: String,
}

/// The proxy rules of a listing, with the number of rules of each proxy
/// type (over all rules).
#[derive(Debug, Clone)]
pub struct ProxyListResponse {
    pub rules: Vec<ProxyRule>,
    pub stats: Vec<(String, i64)>,
}

/// A conflict between a rule and an earlier rule on the same port.
#[derive(Debug, Clone)]
pub struct PortConflict {
    pub rule_id: String,
    pub rule_name: String,
    pub conflict_type: String,
    pub message: String,
}

/// The state of the Nginx process: "running", "stopped" or "error".
#[derive(Debug, Clone)]
pub struct NginxStatus {
    pub status: String,
    pub pid: Option<u32>,
    pub uptime_seconds: Option<u64>,
    pub error_message: Option<String>,
}

/// An access list with its rules and the names of the proxy rules bound to it.
#[derive(Debug, Clone)]
pub struct AccessListDetail {
    pub list: AccessList,
    pub rules: Vec<AccessRule>,
    pub bound_proxies: Vec<String>,
}

#[derive(Debug, Clone)]
pub struct ExportData {
    pub version: String,
    pub exported_at: String,
    pub proxy_rules: Vec<ProxyRule>,
    pub certificates: Vec<Certificate>,
    pub access_lists: Vec<AccessList>,
    pub access_rules: Vec<AccessRule>,
    pub settings: Vec<AppSetting>,
}

/// A line of the system hosts file managed by the application.
#[derive(Debug, Clone)]
pub struct HostEntry {
    pub id: String,
    pub ip: String,
    pub hostname: String,
    pub comment: Option<String>,
    pub enabled: bool,
    pub created_at: String,
    pub updated_at: String,
}

#[derive(Debug, Clone)]
pub struct CreateHostEntry {
    pub ip: String,
    pub hostname: String,
    pub comment: Option<String>,
}

fn copy_opt(o: &Option<String>) -> (r: Option<String>)
    ensures
        r == *o,
{
    match o {
        Some(s) => Some(s.clone()),
        None => None,
    }
}

impl ProxyRule {
    /// A copy of this rule, equal to it.
    pub fn duplicate(&self) -> (r: ProxyRule)
        ensures
            r == *self,
    {
        ProxyRule {
            id: self.id.clone(),
            name: self.name.clone(),
            proxy_type: self.proxy_type.clone(),
            enabled: self.enabled,
            listen_port: self.listen_port,
            listen_host: self.listen_host.clone(),
            domain: copy_opt(&self.domain),
            path_prefix: copy_opt(&self.path_prefix),
            upstream_host: self.upstream_host.clone(),
            upstream_port: self.upstream_port,
            upstream_scheme: self.upstream_scheme.clone(),
            tls_mode: self.tls_mode.clone(),
            certificate_id: copy_opt(&self.certificate_id),
            access_list_id: copy_opt(&self.access_list_id),
            websocket: self.websocket,
            keep_alive: self.keep_alive,
            custom_headers: copy_opt(&self.custom_headers),
            upstream_targets: copy_opt(&self.upstream_targets),
            sort_order: self.sort_order,
            created_at: self.created_at.clone(),
            updated_at: self.updated_at.clone(),
        }
    }
}

} // verus!

verus! {

/// The given text, or the default.
pub open spec fn text_or(o: Option<String>, d: Seq<char>) -> Seq<char> {
    match o {
        Some(s) => s@,
        None => d,
    }
}

fn text_or_exec(o: &Option<String>, d: &str) -> (r: String)
    ensures
        r@ == text_or(*o, d@),
{
    match o {
        Some(s) => s.clone(),
        None => String::from_str(d),
    }
}

fn pick_string(o: &Option<String>, d: &String) -> (r: String)
    ensures
        r == match *o {
            Some(s) => s,
            None => *d,
        },
{
    match o {
        Some(s) => s.clone(),
        None => d.clone(),
    }
}

impl ProxyRule {
    /// The rule stored for a creation request, with id `id` and both times
    /// `now`: enabled; listening on 0.0.0.0, with an `http` upstream, no TLS,
    /// no websocket, no keep-alive and sort order 0 where not given.
    pub fn from_create(input: &CreateProxyRule, id: String, now: String) -> (r: ProxyRule)
        ensures
            r.id == id,
            r.name == input.name,
            r.proxy_type == input.proxy_type,
            r.enabled,
            r.listen_port == input.listen_port,
            r.listen_host@ == text_or(input.listen_host, "0.0.0.0"@),
            r.domain == input.domain,
            r.path_prefix == input.path_prefix,
            r.upstream_host == input.upstream_host,
            r.upstream_port == input.upstream_port,
            r.upstream_scheme@ == text_or(input.upstream_scheme, "http"@),
            r.tls_mode@ == text_or(input.tls_mode, "none"@),
            r.certificate_id == input.certificate_id,
            r.access_list_id == input.access_list_id,
            r.websocket == (input.websocket == Some(true)),
            r.keep_alive == (input.keep_alive == Some(true)),
            r.custom_headers == input.custom_headers,
            r.upstream_targets == input.upstream_targets,
            r.sort_order == match input.sort_order {
                Some(s) => s,
                None => 0,
            },
            r.created_at == now,
            r.updated_at == now,
    {
        ProxyRule {
            id,
            name: input.name.clone(),
            proxy_type: input.proxy_type.clone(),
            enabled: true,
            listen_port: input.listen_port,
            listen_host: text_or_exec(&input.listen_host, "0.0.0.0"),
            domain: copy_opt(&input.domain),
            path_prefix: copy_opt(&input.path_prefix),
            upstream_host: input.upstream_host.clone(),
            upstream_port: input.upstream_port,
            upstream_scheme: text_or_exec(&input.upstream_scheme, "http"),
            tls_mode: text_or_exec(&input.tls_mode, "none"),
            certificate_id: copy_opt(&input.certificate_id),
            access_list_id: copy_opt(&input.access_list_id),
            websocket: match input.websocket {
                Some(w) => w,
                None => false,
            },
            keep_alive: match input.keep_alive {
                Some(k) => k,
                None => false,
            },
            custom_headers: copy_opt(&input.custom_headers),
            upstream_targets: copy_opt(&input.upstream_targets),
            sort_order: match input.sort_order {
                Some(s) => s,
                None => 0,
            },
            created_at: now.clone(),
            updated_at: now,
        }
    }

    /// This rule after an update at time `now`: fields the update leaves out
    /// keep their value, except the optional ones (domain, path prefix,
    /// certificate, access list, headers, targets), which take the update's
    /// value, so that leaving them out clears them.
    pub fn updated(&self, input: &UpdateProxyRule, now: String) -> (r: ProxyRule)
        ensures
            r.id == self.id,
            r.name == match input.name { Some(s) => s, None => self.name },
            r.proxy_type == match input.proxy_type { Some(s) => s, None => self.proxy_type },
            r.enabled == match input.enabled { Some(b) => b, None => self.enabled },
            r.listen_port == match input.listen_port { Some(p) => p, None => self.listen_port },
            r.listen_host == match input.listen_host { Some(s) => s, None => self.listen_host },
            r.domain == input.domain,
            r.path_prefix == input.path_prefix,
            r.upstream_host == match input.upstream_host { Some(s) => s, None => self.upstream_host },
            r.upstream_port == match input.upstream_port { Some(p) => p, None => self.upstream_port },
            r.upstream_scheme == match input.upstream_scheme {
                Some(s) => s,
                None => self.upstream_scheme,
            },
            r.tls_mode == match input.tls_mode { Some(s) => s, None => self.tls_mode },
            r.certificate_id == input.certificate_id,
            r.access_list_id == input.access_list_id,
            r.websocket == match input.websocket { Some(b) => b, None => self.websocket },
            r.keep_alive == match input.keep_alive { Some(b) => b, None => self.keep_alive },
            r.custom_headers == input.custom_headers,
            r.upstream_targets == input.upstream_targets,
            r.sort_order == match input.sort_order { Some(s) => s, None => self.sort_order },
            r.created_at == self.created_at,
            r.updated_at == now,
    {
        ProxyRule {
            id: self.id.clone(),
            name: pick_string(&input.name, &self.name),
            proxy_type: pick_string(&input.proxy_type, &self.proxy_type),
            enabled: match input.enabled {
                Some(b) => b,
                None => self.enabled,
            },
            listen_port: match input.listen_port {
                Some(p) => p,
                None => self.listen_port,
            },
            listen_host: pick_string(&input.listen_host, &self.listen_host),
            domain: copy_opt(&input.domain),
            path_prefix: copy_opt(&input.path_prefix),
            upstream_host: pick_string(&input.upstream_host, &self.upstream_host),
            upstream_port: match input.upstream_port {
                Some(p) => p,
                None => self.upstream_port,
            },
            upstream_scheme: pick_string(&input.upstream_scheme, &self.upstream_scheme),
            tls_mode: pick_string(&input.tls_mode, &self.tls_mode),
            certificate_id: copy_opt(&input.certificate_id),
            access_list_id: copy_opt(&input.access_list_id),
            websocket: match input.websocket {
                Some(b) => b,
                None => self.websocket,
            },
            keep_alive: match input.keep_alive {
                Some(b) => b,
                None => self.keep_alive,
            },
            custom_headers: copy_opt(&input.custom_headers),
            upstream_targets: copy_opt(&input.upstream_targets),
            sort_order: match input.sort_order {
                Some(s) => s,
                None => self.sort_order,
            },
            created_at: self.created_at.clone(),
            updated_at: now,
        }
    }
}

fn copy_string(s: &String) -> (r: String)
    ensures
        r == *s,
{
    s.clone()
}

impl HostEntry {
    /// The entry stored for a creation request: enabled, with id `id` and
    /// both times `now`.
    pub fn from_create(input: &CreateHostEntry, id: String, now: String) -> (r: HostEntry)
        ensures
            r.id == id,
            r.ip == input.ip,
            r.hostname == input.hostname,
            r.comment == input.comment,
            r.enabled,
            r.created_at == now,
            r.updated_at == now,
    {
        HostEntry {
            id,
            ip: copy_string(&input.ip),
            hostname: copy_string(&input.hostname),
            comment: copy_opt(&input.comment),
            enabled: true,
            created_at: copy_string(&now),
            updated_at: now,
        }
    }

    /// The entry with the given fields changed at `now`; a field not given
    /// keeps its value (the comment too).
    pub fn updated(&self, ip: Option<String>, hostname: Option<String>, comment: Option<String>, now: String) -> (r: HostEntry)
        ensures
            r.id == self.id,
            r.ip == (match ip {
                Some(v) => v,
                None => self.ip,
            }),
            r.hostname == (match hostname {
                Some(v) => v,
                None => self.hostname,
            }),
            r.comment == (match comment {
                Some(v) => Some(v),
                None => self.comment,
            }),
            r.enabled == self.enabled,
            r.created_at == self.created_at,
            r.updated_at == now,
    {
        HostEntry {
            id: copy_string(&self.id),
            ip: match ip {
                Some(v) => v,
                None => copy_string(&self.ip),
            },
            hostname: match hostname {
                Some(v) => v,
                None => copy_string(&self.hostname),
            },
            comment: match comment {
                Some(v) => Some(v),
                None => copy_opt(&self.comment),
            },
            enabled: self.enabled,
            created_at: copy_string(&self.created_at),
            updated_at: now,
        }
    }

    /// The entry switched on or off at `now`.
    pub fn toggled(&self, enabled: bool, now: String) -> (r: HostEntry)
        ensures
            r == (HostEntry { enabled, updated_at: now, ..*self }),
    {
        HostEntry {
            id: copy_string(&self.id),
            ip: copy_string(&self.ip),
            hostname: copy_string(&self.hostname),
            comment: copy_opt(&self.comment),
            enabled,
            created_at: copy_string(&self.created_at),
            updated_at: now,
        }
    }
}

impl AccessList {
    /// The list stored for a creation request, with id `id`, made at `now`.
    pub fn from_create(input: &CreateAccessList, id: String, now: String) -> (r: AccessList)
        ensures
            r == (AccessList {
                id,
                name: input.name,
                default_policy: input.default_policy,
                created_at: now,
            }),
    {
        AccessList {
            id,
            name: copy_string(&input.name),
            default_policy: copy_string(&input.default_policy),
            created_at: now,
        }
    }

    /// The list with a new name and policy where given.
    pub fn updated(&self, name: Option<String>, default_policy: Option<String>) -> (r: AccessList)
        ensures
            r.id == self.id,
            r.name == (match name {
                Some(v) => v,
                None => self.name,
            }),
            r.default_policy == (match default_policy {
                Some(v) => v,
                None => self.default_policy,
            }),
            r.created_at == self.created_at,
    {
        AccessList {
            id: copy_string(&self.id),
            name: match name {
                Some(v) => v,
                None => copy_string(&self.name),
            },
            default_policy: match default_policy {
                Some(v) => v,
                None => copy_string(&self.default_policy),
            },
            created_at: copy_string(&self.created_at),
        }
    }
}

impl AccessRule {
    /// The rule stored for a creation request, with id `id`, made at `now`;
    /// its sort order is 0 where not given.
    pub fn from_create(input: &CreateAccessRule, id: String, now: String) -> (r: AccessRule)
        ensures
            r == (AccessRule {
                id,
                access_list_id: input.access_list_id,
                action: input.action,
                ip_cidr: input.ip_cidr,
                sort_order: match input.sort_order {
                    Some(o) => o,
                    None => 0,
                },
                created_at: now,
            }),
    {
        AccessRule {
            id,
            access_list_id: copy_string(&input.access_list_id),
            action: copy_string(&input.action),
            ip_cidr: copy_string(&input.ip_cidr),
            sort_order: match input.sort_order {
                Some(o) => o,
                None => 0,
            },
            created_at: now,
        }
    }
}

impl DnsCredential {
    /// The credential stored for a creation request, with id `id` and both
    /// times `now`.
    pub fn from_create(input: CreateDnsCredential, id: String, now: String) -> (r: DnsCredential)
        ensures
            r == (DnsCredential {
                id,
                name: input.name,
                provider: input.provider,
                credentials_json: input.credentials_json,
                created_at: now,
                updated_at: now,
            }),
    {
        DnsCredential {
            id,
            name: input.name,
            provider: input.provider,
            credentials_json: input.credentials_json,
            created_at: copy_string(&now),
            updated_at: now,
        }
    }

    /// The credential with a new name and credentials where given; its
    /// change time moves to `now` only when something is given.
    pub fn updated(&self, name: Option<String>, credentials_json: Option<String>, now: String) -> (r: DnsCredential)
        ensures
            r.id == self.id,
            r.provider == self.provider,
            r.created_at == self.created_at,
            r.name == (match name {
                Some(v) => v,
                None => self.name,
            }),
            r.credentials_json == (match credentials_json {
                Some(v) => v,
                None => self.credentials_json,
            }),
            r.updated_at == (if name is Some || credentials_json is Some {
                now
            } else {
                self.updated_at
            }),
    {
        let touched = name.is_some() || credentials_json.is_some();
        DnsCredential {
            id: copy_string(&self.id),
            name: match name {
                Some(v) => v,
                None => copy_string(&self.name),
            },
            provider: copy_string(&self.provider),
            credentials_json: match credentials_json {
                Some(v) => v,
                None => copy_string(&self.credentials_json),
            },
            created_at: copy_string(&self.created_at),
            updated_at: if touched {
                now
            } else {
                copy_string(&self.updated_at)
            },
        }
    }
}

} // verus!
