//! Detection of port, domain and path conflicts between proxy rules.
//!
//! Two rules on the same port conflict when one is HTTP and the other a
//! stream, when both are streams of the same protocol, or when both are
//! HTTP with the same domain and the same path. Different domains share a
//! port as virtual hosts, and different paths share a domain as locations.
use vstd::prelude::*;

use crate::models::{PortConflict, ProxyRule};
use crate::text::{contains, decimal, decimal_string, has_match, str_eq};
use crate::validators::opt_view;

verus! {

/// What conflict detection reads of a rule.
pub struct RuleKey {
    pub id: Seq<char>,
    pub name: Seq<char>,
    pub proxy_type: Seq<char>,
    pub port: u16,
    pub domain: Option<Seq<char>>,
    pub path: Option<Seq<char>>,
}

pub open spec fn rule_key(r: ProxyRule) -> RuleKey {
    RuleKey {
        id: r.id@,
        name: r.name@,
        proxy_type: r.proxy_type@,
        port: r.listen_port,
        domain: opt_view(r.domain),
        path: opt_view(r.path_prefix),
    }
}

pub open spec fn rule_keys(rules: Seq<ProxyRule>) -> Seq<RuleKey> {
    rules.map_values(|r: ProxyRule| rule_key(r))
}

/// What a conflict report says: (rule id, rule name, conflict type, message).
pub type ConflictView = (Seq<char>, Seq<char>, Seq<char>, Seq<char>);

pub open spec fn conflict_view(c: PortConflict) -> ConflictView {
    (c.rule_id@, c.rule_name@, c.conflict_type@, c.message@)
}

pub open spec fn conflict_views(v: Seq<PortConflict>) -> Seq<ConflictView> {
    v.map_values(|c: PortConflict| conflict_view(c))
}

pub open spec fn is_stream(t: Seq<char>) -> bool {
    t == "stream_tcp"@ || t == "stream_udp"@
}

pub open spec fn domain_or_empty(d: Option<Seq<char>>) -> Seq<char> {
    match d {
        Some(s) => s,
        None => Seq::empty(),
    }
}

pub open spec fn path_or_root(p: Option<Seq<char>>) -> Seq<char> {
    match p {
        Some(s) => s,
        None => "/"@,
    }
}

pub open spec fn http_stream_message(a: RuleKey, b: RuleKey) -> Seq<char> {
    "Port "@ + decimal(a.port as nat) + " is used by both HTTP rule '"@ + a.name
        + "' and stream rule '"@ + b.name + "'"@
}

pub open spec fn stream_message(a: RuleKey, b: RuleKey) -> Seq<char> {
    "Port "@ + decimal(a.port as nat) + " is exclusively used by stream rule '"@ + a.name
        + "', conflicts with '"@ + b.name + "'"@
}

pub open spec fn shown_domain(d: Seq<char>) -> Seq<char> {
    if d.len() == 0 {
        "_"@
    } else {
        d
    }
}

pub open spec fn exact_message(a: RuleKey, b: RuleKey) -> Seq<char> {
    "Port "@ + decimal(a.port as nat) + ", domain '"@ + shown_domain(domain_or_empty(a.domain))
        + "', path '"@ + path_or_root(a.path) + "' conflicts between '"@ + a.name + "' and '"@
        + b.name + "'"@
}

/// The conflict between rule `a` and a later rule `b`, reported against `b`.
pub open spec fn pair_conflict(a: RuleKey, b: RuleKey) -> Option<ConflictView> {
    if a.port != b.port {
        None
    } else if is_stream(a.proxy_type) != is_stream(b.proxy_type) {
        Some((b.id, b.name, "http_stream_conflict"@, http_stream_message(a, b)))
    } else if is_stream(a.proxy_type) {
        if a.proxy_type == b.proxy_type {
            Some((b.id, b.name, "stream_port_conflict"@, stream_message(a, b)))
        } else {
            None
        }
    } else if domain_or_empty(a.domain) != domain_or_empty(b.domain) {
        None
    } else if path_or_root(a.path) != path_or_root(b.path) {
        None
    } else {
        Some((b.id, b.name, "exact_conflict"@, exact_message(a, b)))
    }
}

pub open spec fn opt_seq<T>(o: Option<T>) -> Seq<T> {
    match o {
        Some(x) => seq![x],
        None => Seq::empty(),
    }
}

/// Conflicts of rule `i` with the rules after it and before `j`, in order.
pub open spec fn row_conflicts(k: Seq<RuleKey>, i: int, j: int) -> Seq<ConflictView>
    decreases j - i,
{
    if j <= i + 1 {
        Seq::empty()
    } else {
        row_conflicts(k, i, j - 1) + opt_seq(pair_conflict(k[i], k[j - 1]))
    }
}

/// Conflicts of the pairs whose first rule comes before `i`, in order.
pub open spec fn conflicts_before(k: Seq<RuleKey>, i: int) -> Seq<ConflictView>
    decreases i,
{
    if i <= 0 {
        Seq::empty()
    } else {
        conflicts_before(k, i - 1) + row_conflicts(k, i - 1, k.len() as int)
    }
}

/// All conflicts among the rules, pair by pair in order.
pub open spec fn all_conflicts(k: Seq<RuleKey>) -> Seq<ConflictView> {
    conflicts_before(k, k.len() as int)
}

pub(crate) fn is_stream_exec(t: &str) -> (r: bool)
    ensures
        r == is_stream(t@),
{
    str_eq(t, "stream_tcp") || str_eq(t, "stream_udp")
}

fn port_text(p: u16) -> (r: String)
    ensures
        r@ == "Port "@ + decimal(p as nat),
{
    let mut m = String::from_str("Port ");
    let d = decimal_string(p as u64);
    m.append(d.as_str());
    m
}

fn http_stream_message_exec(a: &ProxyRule, b: &ProxyRule) -> (r: String)
    ensures
        r@ == http_stream_message(rule_key(*a), rule_key(*b)),
{
    let mut m = port_text(a.listen_port);
    m.append(" is used by both HTTP rule '");
    m.append(a.name.as_str());
    m.append("' and stream rule '");
    m.append(b.name.as_str());
    m.append("'");
    m
}

fn stream_message_exec(a: &ProxyRule, b: &ProxyRule) -> (r: String)
    ensures
        r@ == stream_message(rule_key(*a), rule_key(*b)),
{
    let mut m = port_text(a.listen_port);
    m.append(" is exclusively used by stream rule '");
    m.append(a.name.as_str());
    m.append("', conflicts with '");
    m.append(b.name.as_str());
    m.append("'");
    m
}

pub(crate) fn domain_or_empty_exec(d: &Option<String>) -> (r: &str)
    ensures
        r@ == domain_or_empty(opt_view(*d)),
{
    match d {
        Some(s) => s.as_str(),
        None => {
            proof {
                reveal_strlit("");
            }
            ""
        },
    }
}

fn path_or_root_exec(p: &Option<String>) -> (r: &str)
    ensures
        r@ == path_or_root(opt_view(*p)),
{
    match p {
        Some(s) => s.as_str(),
        None => "/",
    }
}

fn exact_message_exec(a: &ProxyRule, b: &ProxyRule) -> (r: String)
    ensures
        r@ == exact_message(rule_key(*a), rule_key(*b)),
{
    let d = domain_or_empty_exec(&a.domain);
    let mut m = port_text(a.listen_port);
    m.append(", domain '");
    if d.unicode_len() == 0 {
        m.append("_");
    } else {
        m.append(d);
    }
    m.append("', path '");
    m.append(path_or_root_exec(&a.path_prefix));
    m.append("' conflicts between '");
    m.append(a.name.as_str());
    m.append("' and '");
    m.append(b.name.as_str());
    m.append("'");
    m
}

fn pair_conflict_exec(a: &ProxyRule, b: &ProxyRule) -> (r: Option<PortConflict>)
    ensures
        match r {
            Some(c) => pair_conflict(rule_key(*a), rule_key(*b)) == Some(conflict_view(c)),
            None => pair_conflict(rule_key(*a), rule_key(*b)) is None,
        },
{
    if a.listen_port != b.listen_port {
        return None;
    }
    let a_stream = is_stream_exec(a.proxy_type.as_str());
    let b_stream = is_stream_exec(b.proxy_type.as_str());
    if a_stream != b_stream {
        return Some(
            PortConflict {
                rule_id: b.id.clone(),
                rule_name: b.name.clone(),
                conflict_type: String::from_str("http_stream_conflict"),
                message: http_stream_message_exec(a, b),
            },
        );
    }
    if a_stream {
        if str_eq(a.proxy_type.as_str(), b.proxy_type.as_str()) {
            return Some(
                PortConflict {
                    rule_id: b.id.clone(),
                    rule_name: b.name.clone(),
                    conflict_type: String::from_str("stream_port_conflict"),
                    message: stream_message_exec(a, b),
                },
            );
        }
        return None;
    }
    if !str_eq(domain_or_empty_exec(&a.domain), domain_or_empty_exec(&b.domain)) {
        return None;
    }
    if !str_eq(path_or_root_exec(&a.path_prefix), path_or_root_exec(&b.path_prefix)) {
        return None;
    }
    Some(
        PortConflict {
            rule_id: b.id.clone(),
            rule_name: b.name.clone(),
            conflict_type: String::from_str("exact_conflict"),
            message: exact_message_exec(a, b),
        },
    )
}

/// Detects the conflicts among `rules`: for each pair of rules, in order, the
/// conflict between them, reported against the later rule.
pub fn detect_conflicts(rules: &[ProxyRule]) -> (r: Vec<PortConflict>)
    ensures
        conflict_views(r@) == all_conflicts(rule_keys(rules@)),
{
    let ghost k = rule_keys(rules@);
    let n = rules.len();
    let mut out: Vec<PortConflict> = Vec::new();
    let mut i: usize = 0;
    assert(conflict_views(out@) =~= conflicts_before(k, 0));
    while i < n
        invariant
            n == rules@.len(),
            k == rule_keys(rules@),
            i <= n,
            conflict_views(out@) == conflicts_before(k, i as int),
        decreases n - i,
    {
        let ghost base = conflict_views(out@);
        let mut j: usize = i + 1;
        assert(base + row_conflicts(k, i as int, j as int) =~= base);
        while j < n
            invariant
                n == rules@.len(),
                k == rule_keys(rules@),
                i < j <= n,
                conflict_views(out@) == base + row_conflicts(k, i as int, j as int),
            decreases n - j,
        {
            assert(k[i as int] == rule_key(rules@[i as int]));
            assert(k[j as int] == rule_key(rules@[j as int]));
            let ghost before = conflict_views(out@);
            match pair_conflict_exec(&rules[i], &rules[j]) {
                Some(c) => {
                    out.push(c);
                    assert(conflict_views(out@) =~= before.push(conflict_view(c)));
                },
                None => {},
            }
            assert(conflict_views(out@) =~= base + row_conflicts(k, i as int, j + 1));
            j = j + 1;
        }
        i = i + 1;
    }
    out
}

proof fn lemma_concat_contains<T>(a: Seq<T>, b: Seq<T>, x: T)
    ensures
        (a + b).contains(x) <==> (a.contains(x) || b.contains(x)),
{
    if (a + b).contains(x) {
        let idx = choose|t: int| 0 <= t < (a + b).len() && (a + b)[t] == x;
        if idx < a.len() {
            assert(a[idx] == x);
        } else {
            assert(b[idx - a.len()] == x);
        }
    }
    if a.contains(x) {
        let idx = choose|t: int| 0 <= t < a.len() && a[t] == x;
        assert((a + b)[idx] == x);
    }
    if b.contains(x) {
        let idx = choose|t: int| 0 <= t < b.len() && b[t] == x;
        assert((a + b)[a.len() + idx] == x);
    }
}

proof fn lemma_row_contains(k: Seq<RuleKey>, i: int, j: int, c: ConflictView)
    requires
        0 <= i,
        j <= k.len(),
    ensures
        row_conflicts(k, i, j).contains(c) <==> exists|t: int|
            i < t < j && pair_conflict(k[i], #[trigger] k[t]) == Some(c),
    decreases j - i,
{
    if j > i + 1 {
        lemma_row_contains(k, i, j - 1, c);
        lemma_concat_contains(row_conflicts(k, i, j - 1), opt_seq(pair_conflict(k[i], k[j - 1])), c);
        if pair_conflict(k[i], k[j - 1]) == Some(c) {
            assert(opt_seq(pair_conflict(k[i], k[j - 1]))[0] == c);
        }
        if exists|t: int| i < t < j && pair_conflict(k[i], #[trigger] k[t]) == Some(c) {
            let t = choose|t: int| i < t < j && pair_conflict(k[i], #[trigger] k[t]) == Some(c);
            if t < j - 1 {
            } else {
                assert(opt_seq(pair_conflict(k[i], k[j - 1]))[0] == c);
            }
        }
    }
}

proof fn lemma_before_contains(k: Seq<RuleKey>, i: int, c: ConflictView)
    requires
        0 <= i <= k.len(),
    ensures
        conflicts_before(k, i).contains(c) <==> exists|a: int, b: int|
            0 <= a < i && a < b < k.len() && pair_conflict(#[trigger] k[a], #[trigger] k[b]) == Some(
                c,
            ),
    decreases i,
{
    if i > 0 {
        lemma_before_contains(k, i - 1, c);
        lemma_row_contains(k, i - 1, k.len() as int, c);
        lemma_concat_contains(conflicts_before(k, i - 1), row_conflicts(k, i - 1, k.len() as int), c);
        if exists|a: int, b: int|
            0 <= a < i && a < b < k.len() && pair_conflict(#[trigger] k[a], #[trigger] k[b]) == Some(
                c,
            ) {
            let (a, b) = choose|a: int, b: int|
                0 <= a < i && a < b < k.len() && pair_conflict(#[trigger] k[a], #[trigger] k[b])
                    == Some(c);
            if a == i - 1 {
                assert(pair_conflict(k[i - 1], k[b]) == Some(c));
            }
        }
    }
}

/// A conflict is reported exactly when some rule conflicts with a later rule.
pub proof fn law_conflict_iff_conflicting_pair(k: Seq<RuleKey>, c: ConflictView)
    ensures
        all_conflicts(k).contains(c) <==> exists|a: int, b: int|
            0 <= a < b < k.len() && pair_conflict(#[trigger] k[a], #[trigger] k[b]) == Some(c),
{
    lemma_before_contains(k, k.len() as int, c);
}

/// Every conflict is reported against a rule that shares its port with an
/// earlier rule.
pub proof fn law_conflict_shares_port(k: Seq<RuleKey>, c: ConflictView)
    requires
        all_conflicts(k).contains(c),
    ensures
        exists|a: int, b: int|
            0 <= a < b < k.len() && #[trigger] k[a].port == #[trigger] k[b].port && k[b].id == c.0
                && k[b].name == c.1,
{
    law_conflict_iff_conflicting_pair(k, c);
    let (a, b) = choose|a: int, b: int|
        0 <= a < b < k.len() && pair_conflict(#[trigger] k[a], #[trigger] k[b]) == Some(c);
    assert(k[a].port == k[b].port);
}

/// Rules on pairwise distinct ports never conflict.
pub proof fn law_distinct_ports_no_conflicts(k: Seq<RuleKey>)
    requires
        forall|a: int, b: int| 0 <= a < b < k.len() ==> #[trigger] k[a].port != #[trigger] k[b].port,
    ensures
        all_conflicts(k).len() == 0,
{
    if all_conflicts(k).len() > 0 {
        let c = all_conflicts(k)[0];
        assert(all_conflicts(k).contains(c));
        law_conflict_shares_port(k, c);
    }
}

/// The conflict rules for two rules on one port: HTTP against stream
/// conflicts; streams of one protocol conflict and of two protocols do not;
/// HTTP rules conflict only with the same domain and the same path.
pub proof fn law_pair_rules(a: RuleKey, b: RuleKey)
    requires
        a.port == b.port,
    ensures
        is_stream(a.proxy_type) != is_stream(b.proxy_type) ==> pair_conflict(a, b) is Some,
        is_stream(a.proxy_type) && a.proxy_type == b.proxy_type ==> pair_conflict(a, b) is Some,
        is_stream(a.proxy_type) && is_stream(b.proxy_type) && a.proxy_type != b.proxy_type
            ==> pair_conflict(a, b) is None,
        !is_stream(a.proxy_type) && !is_stream(b.proxy_type) ==> (pair_conflict(a, b) is Some
            <==> (domain_or_empty(a.domain) == domain_or_empty(b.domain) && path_or_root(a.path)
            == path_or_root(b.path))),
        pair_conflict(a, b) matches Some(c) ==> c.0 == b.id && c.1 == b.name,
{
}

/// With two rules, the report is the conflict between them, if any.
pub proof fn law_two_rules(a: RuleKey, b: RuleKey)
    ensures
        all_conflicts(seq![a, b]) == opt_seq(pair_conflict(a, b)),
{
    let k = seq![a, b];
    assert(row_conflicts(k, 1, 2) =~= Seq::<ConflictView>::empty());
    assert(row_conflicts(k, 0, 1) =~= Seq::<ConflictView>::empty());
    assert(row_conflicts(k, 0, 2) =~= opt_seq(pair_conflict(a, b)));
    assert(conflicts_before(k, 0) =~= Seq::<ConflictView>::empty());
    assert(conflicts_before(k, 1) =~= opt_seq(pair_conflict(a, b)));
    assert(conflicts_before(k, 2) =~= opt_seq(pair_conflict(a, b)));
}

/// The probe rule that a port check adds to the enabled rules.
pub open spec fn probe_key(
    port: u16,
    proxy_type: Seq<char>,
    domain: Option<Seq<char>>,
    path: Option<Seq<char>>,
) -> RuleKey {
    RuleKey {
        id: "__virtual__"@,
        name: "__check__"@,
        proxy_type: proxy_type,
        port: port,
        domain: domain,
        path: path,
    }
}

/// The rules a port check compares the probe with: all but the excluded one.
pub open spec fn kept_keys(rules: Seq<ProxyRule>, exclude: Option<Seq<char>>) -> Seq<RuleKey> {
    rule_keys(rules).filter(|k: RuleKey| !(exclude matches Some(e) && k.id == e))
}

/// A conflict that concerns the probe.
pub open spec fn concerns_probe(c: ConflictView) -> bool {
    c.0 == "__virtual__"@ || has_match(c.3, "__check__"@)
}

/// The conflicts that a rule with the given port, type, domain and path would
/// cause among `rules` (less the one with id `exclude_id`).
pub fn check_port_conflict(
    rules: &[ProxyRule],
    listen_port: u16,
    proxy_type: String,
    domain: Option<String>,
    path_prefix: Option<String>,
    exclude_id: Option<String>,
) -> (r: Vec<PortConflict>)
    ensures
        conflict_views(r@) == all_conflicts(
            kept_keys(rules@, opt_view(exclude_id)).push(
                probe_key(listen_port, proxy_type@, opt_view(domain), opt_view(path_prefix)),
            ),
        ).filter(|c: ConflictView| concerns_probe(c)),
{
    let ghost ex = opt_view(exclude_id);
    let ghost keep = |k: RuleKey| !(ex matches Some(e) && k.id == e);
    let mut kept: Vec<ProxyRule> = Vec::new();
    let mut i: usize = 0;
    assert(rule_keys(rules@).take(0).filter(keep) =~= Seq::<RuleKey>::empty());
    while i < rules.len()
        invariant
            i <= rules@.len(),
            keep == (|k: RuleKey| !(ex matches Some(e) && k.id == e)),
            ex == opt_view(exclude_id),
            rule_keys(kept@) == rule_keys(rules@).take(i as int).filter(keep),
        decreases rules.len() - i,
    {
        let r = &rules[i];
        proof {
            let ks = rule_keys(rules@);
            assert(ks.take(i + 1) =~= ks.take(i as int).push(rule_key(*r)));
            ks.take(i as int).lemma_filter_push(rule_key(*r), keep);
        }
        let excluded = match &exclude_id {
            Some(e) => str_eq(r.id.as_str(), e.as_str()),
            None => false,
        };
        if !excluded {
            let ghost before = kept@;
            kept.push(r.duplicate());
            assert(rule_keys(kept@) =~= rule_keys(before).push(rule_key(*r)));
        }
        i = i + 1;
    }
    assert(rule_keys(rules@).take(rules@.len() as int) =~= rule_keys(rules@));
    let probe = ProxyRule {
        id: String::from_str("__virtual__"),
        name: String::from_str("__check__"),
        proxy_type: proxy_type,
        enabled: true,
        listen_port: listen_port,
        listen_host: String::from_str("0.0.0.0"),
        domain: domain,
        path_prefix: path_prefix,
        upstream_host: String::from_str("127.0.0.1"),
        upstream_port: 80,
        upstream_scheme: String::from_str("http"),
        tls_mode: String::from_str("none"),
        certificate_id: None,
        access_list_id: None,
        websocket: false,
        keep_alive: false,
        custom_headers: None,
        upstream_targets: None,
        sort_order: 0,
        created_at: String::new(),
        updated_at: String::new(),
    };
    let ghost probe_k = rule_key(probe);
    let ghost before = kept@;
    kept.push(probe);
    assert(rule_keys(kept@) =~= rule_keys(before).push(probe_k));
    let all = detect_conflicts(kept.as_slice());
    let ghost cv = conflict_views(all@);
    let mut out: Vec<PortConflict> = Vec::new();
    let mut j: usize = 0;
    assert(cv.take(0).filter(|c: ConflictView| concerns_probe(c)) =~= Seq::<ConflictView>::empty());
    while j < all.len()
        invariant
            j <= all@.len(),
            cv == conflict_views(all@),
            conflict_views(out@) == cv.take(j as int).filter(|c: ConflictView| concerns_probe(c)),
        decreases all.len() - j,
    {
        let c = &all[j];
        proof {
            assert(cv.take(j + 1) =~= cv.take(j as int).push(conflict_view(*c)));
            cv.take(j as int).lemma_filter_push(conflict_view(*c), |c: ConflictView| concerns_probe(c));
        }
        let hit = str_eq(c.rule_id.as_str(), "__virtual__") || contains(c.message.as_str(), "__check__");
        if hit {
            let ghost before_out = out@;
            out.push(
                PortConflict {
                    rule_id: c.rule_id.clone(),
                    rule_name: c.rule_name.clone(),
                    conflict_type: c.conflict_type.clone(),
                    message: c.message.clone(),
                },
            );
            assert(conflict_views(out@) =~= conflict_views(before_out).push(conflict_view(*c)));
        }
        j = j + 1;
    }
    assert(cv.take(cv.len() as int) =~= cv);
    out
}

} // verus!
