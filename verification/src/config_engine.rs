//! Planning of the generated Nginx configuration: path normalisation, the
//! file each rule group is written to, the difference between a staged and a
//! live configuration, and the apply sequence (backup, generate, test,
//! reload, restore) as a state machine.
use vstd::prelude::*;

use crate::error::AppError;
use crate::models::{PortConflict, ProxyRule};
use crate::conflict::{domain_or_empty, domain_or_empty_exec, is_stream, is_stream_exec};
use crate::text::{decimal, decimal_string, matches_at, matches_at_exec};
use crate::validators::opt_view;

verus! {

/// `s` with every backslash turned into a forward slash.
pub open spec fn forward_slashes(s: Seq<char>) -> Seq<char> {
    s.map_values(|c: char| if c == '\\' { '/' } else { c })
}

/// A path string with forward slashes, which Nginx accepts on every platform.
pub fn nginx_path_str(s: &str) -> (r: String)
    ensures
        r@ == forward_slashes(s@),
{
    let n = s.unicode_len();
    let mut out = String::new();
    let mut run: usize = 0;
    let mut i: usize = 0;
    while i < n
        invariant
            n == s@.len(),
            run <= i <= n,
            out@ + s@.subrange(run as int, i as int) == forward_slashes(s@.subrange(0, i as int)),
        decreases n - i,
    {
        proof {
            reveal_strlit("/");
            assert(s@.subrange(0, i + 1) == s@.subrange(0, i as int).push(s@[i as int]));
        }
        if s.get_char(i) == '\\' {
            out.append(s.substring_char(run, i));
            out.append("/");
            proof {
                assert(forward_slashes(s@.subrange(0, i + 1)) =~= forward_slashes(
                    s@.subrange(0, i as int),
                ).push('/'));
            }
            i = i + 1;
            run = i;
        } else {
            proof {
                assert(forward_slashes(s@.subrange(0, i + 1)) =~= forward_slashes(
                    s@.subrange(0, i as int),
                ).push(s@[i as int]));
                assert(s@.subrange(run as int, i + 1) =~= s@.subrange(run as int, i as int).push(
                    s@[i as int],
                ));
            }
            i = i + 1;
        }
    }
    out.append(s.substring_char(run, n));
    proof {
        assert(s@.subrange(0, n as int) =~= s@);
    }
    out
}

/// A path (given as text) with forward slashes.
pub fn nginx_path(p: &str) -> (r: String)
    ensures
        r@ == forward_slashes(p@),
{
    nginx_path_str(p)
}

/// Normalised paths hold no backslash.
pub proof fn law_nginx_path_has_no_backslash(s: Seq<char>)
    ensures
        forall|k: int| 0 <= k < forward_slashes(s).len() ==> #[trigger] forward_slashes(s)[k]
            != '\\',
{
}

/// Normalising twice gives what normalising once gave, and a path without
/// backslashes is left as it is.
pub proof fn law_nginx_path_idempotent(s: Seq<char>)
    ensures
        forward_slashes(forward_slashes(s)) == forward_slashes(s),
        (forall|k: int| 0 <= k < s.len() ==> s[k] != '\\') ==> forward_slashes(s) == s,
{
    assert(forward_slashes(forward_slashes(s)) =~= forward_slashes(s));
    if forall|k: int| 0 <= k < s.len() ==> s[k] != '\\' {
        assert(forward_slashes(s) =~= s);
    }
}

/// `s` with every non-overlapping occurrence of `p`, from the left, replaced
/// by `t` (an empty `p` puts `t` before, between and after the characters).
pub open spec fn replace_all(s: Seq<char>, p: Seq<char>, t: Seq<char>) -> Seq<char>
    decreases s.len(),
{
    if p.len() == 0 {
        if s.len() == 0 {
            t
        } else {
            t + seq![s[0]] + replace_all(s.skip(1), p, t)
        }
    } else if s.len() == 0 {
        s
    } else if matches_at(s, p, 0) {
        t + replace_all(s.skip(p.len() as int), p, t)
    } else {
        seq![s[0]] + replace_all(s.skip(1), p, t)
    }
}

/// `s` with every occurrence of `p` replaced by `t`, as `str::replace` does.
pub fn replace_str(s: &str, p: &str, t: &str) -> (r: String)
    ensures
        r@ == replace_all(s@, p@, t@),
{
    let n = s.unicode_len();
    let m = p.unicode_len();
    let mut out = String::new();
    let mut run: usize = 0;
    let mut i: usize = 0;
    proof {
        assert(s@.subrange(0, n as int) =~= s@);
    }
    if m == 0 {
        while i < n
            invariant
                n == s@.len(),
                m == p@.len(),
                m == 0,
                i <= n,
                out@ + replace_all(s@.subrange(i as int, n as int), p@, t@) == replace_all(
                    s@,
                    p@,
                    t@,
                ),
            decreases n - i,
        {
            proof {
                let x = s@.subrange(i as int, n as int);
                assert(x.skip(1) =~= s@.subrange(i + 1, n as int));
                assert(seq![x[0]] =~= s@.subrange(i as int, i + 1));
            }
            out.append(t);
            out.append(s.substring_char(i, i + 1));
            i = i + 1;
        }
        out.append(t);
        return out;
    }
    while i < n
        invariant
            n == s@.len(),
            m == p@.len(),
            m > 0,
            run <= i <= n,
            out@ + s@.subrange(run as int, i as int) + replace_all(
                s@.subrange(i as int, n as int),
                p@,
                t@,
            ) == replace_all(s@, p@, t@),
        decreases n - i,
    {
        let x = Ghost(s@.subrange(i as int, n as int));
        if matches_at_exec(s, p, i) {
            proof {
                assert(matches_at(x@, p@, 0)) by {
                    assert forall|k: int| 0 <= k < p@.len() implies #[trigger] x@[0 + k]
                        == p@[k] by {
                        assert(s@[i + k] == p@[k]);
                    }
                }
                assert(x@.skip(m as int) =~= s@.subrange(i + m, n as int));
            }
            out.append(s.substring_char(run, i));
            out.append(t);
            i = i + m;
            run = i;
            proof {
                assert(s@.subrange(run as int, i as int) =~= Seq::<char>::empty());
            }
        } else {
            proof {
                assert(!matches_at(x@, p@, 0)) by {
                    if matches_at(x@, p@, 0) {
                        assert forall|k: int| 0 <= k < p@.len() implies #[trigger] s@[i + k]
                            == p@[k] by {
                            assert(x@[0 + k] == p@[k]);
                        }
                    }
                }
                assert(x@.skip(1) =~= s@.subrange(i + 1, n as int));
                assert(s@.subrange(run as int, i + 1) =~= s@.subrange(run as int, i as int) + seq![
                    x@[0],
                ]);
            }
            i = i + 1;
        }
    }
    out.append(s.substring_char(run, n));
    proof {
        assert(s@.subrange(n as int, n as int) =~= Seq::<char>::empty());
    }
    out
}

/// A domain as it appears in a file name: `.` becomes `_` and `*` becomes
/// `wildcard`.
pub open spec fn sanitize_domain(d: Seq<char>) -> Seq<char>
    decreases d.len(),
{
    if d.len() == 0 {
        d
    } else {
        sanitize_domain(d.drop_last()) + (if d.last() == '.' {
            "_"@
        } else if d.last() == '*' {
            "wildcard"@
        } else {
            seq![d.last()]
        })
    }
}

fn sanitize_domain_exec(d: &str) -> (r: String)
    ensures
        r@ == sanitize_domain(d@),
{
    let n = d.unicode_len();
    let mut out = String::new();
    let mut i: usize = 0;
    while i < n
        invariant
            n == d@.len(),
            i <= n,
            out@ == sanitize_domain(d@.subrange(0, i as int)),
        decreases n - i,
    {
        let c = d.get_char(i);
        proof {
            let y = d@.subrange(0, i + 1);
            assert(y.drop_last() =~= d@.subrange(0, i as int));
            assert(y.last() == c);
        }
        if c == '.' {
            out.append("_");
        } else if c == '*' {
            out.append("wildcard");
        } else {
            out.append(d.substring_char(i, i + 1));
            proof {
                assert(d@.subrange(i as int, i + 1) =~= seq![c]);
            }
        }
        i = i + 1;
    }
    proof {
        assert(d@.subrange(0, n as int) =~= d@);
    }
    out
}

/// The file that holds the server block of the HTTP rules listening on
/// `port` for `domain` (the empty domain is the default server).
pub open spec fn http_file_name(port: u16, domain: Seq<char>) -> Seq<char> {
    decimal(port as nat) + "_"@ + (if domain.len() == 0 {
        "default"@
    } else {
        sanitize_domain(domain)
    }) + ".conf"@
}

/// The file name of the server block for `port` and `domain`.
pub fn http_config_file_name(port: u16, domain: &str) -> (r: String)
    ensures
        r@ == http_file_name(port, domain@),
{
    let mut s = decimal_string(port as u64);
    s.append("_");
    if domain.unicode_len() == 0 {
        s.append("default");
    } else {
        let d = sanitize_domain_exec(domain);
        s.append(d.as_str());
    }
    s.append(".conf");
    s
}

/// The file that holds the stream block of a TCP or UDP rule.
pub open spec fn stream_file_name(port: u16, proxy_type: Seq<char>) -> Seq<char> {
    "stream_"@ + decimal(port as nat) + "_"@ + proxy_type + ".conf"@
}

/// The file name of the stream block of `rule`.
pub fn stream_config_file_name(rule: &ProxyRule) -> (r: String)
    ensures
        r@ == stream_file_name(rule.listen_port, rule.proxy_type@),
{
    let mut s = String::from_str("stream_");
    let p = decimal_string(rule.listen_port as u64);
    s.append(p.as_str());
    s.append("_");
    s.append(rule.proxy_type.as_str());
    s.append(".conf");
    s
}

/// The messages of `cs`, joined by `; `.
pub open spec fn joined_messages(cs: Seq<PortConflict>) -> Seq<char>
    decreases cs.len(),
{
    if cs.len() == 0 {
        Seq::empty()
    } else if cs.len() == 1 {
        cs[0].message@
    } else {
        joined_messages(cs.drop_last()) + "; "@ + cs.last().message@
    }
}

/// The messages of the conflicts, joined by `; `.
pub fn conflicts_message(conflicts: &[PortConflict]) -> (r: String)
    ensures
        r@ == joined_messages(conflicts@),
{
    let mut out = String::new();
    let mut i: usize = 0;
    while i < conflicts.len()
        invariant
            i <= conflicts@.len(),
            out@ == joined_messages(conflicts@.subrange(0, i as int)),
        decreases conflicts@.len() - i,
    {
        proof {
            let y = conflicts@.subrange(0, i + 1);
            assert(y.drop_last() =~= conflicts@.subrange(0, i as int));
        }
        if i > 0 {
            out.append("; ");
        }
        out.append(conflicts[i].message.as_str());
        i = i + 1;
    }
    proof {
        assert(conflicts@.subrange(0, conflicts@.len() as int) =~= conflicts@);
    }
    out
}

} // verus!

verus! {

/// The rule is an HTTP reverse proxy.
pub open spec fn is_http(r: ProxyRule) -> bool {
    r.proxy_type@ == "http"@
}

/// The virtual host an HTTP rule belongs to: its port and its domain (empty
/// when it has none).
pub open spec fn host_key(r: ProxyRule) -> (u16, Seq<char>) {
    (r.listen_port, domain_or_empty(opt_view(r.domain)))
}

/// The HTTP rules among the first `n` that share the virtual host `key`, as
/// indices in increasing order.
pub open spec fn members_of(rules: Seq<ProxyRule>, key: (u16, Seq<char>), n: int) -> Seq<usize>
    decreases n,
{
    if n <= 0 {
        Seq::empty()
    } else if is_http(rules[n - 1]) && host_key(rules[n - 1]) == key {
        members_of(rules, key, n - 1).push((n - 1) as usize)
    } else {
        members_of(rules, key, n - 1)
    }
}

/// The HTTP rules of one virtual host, written to one server block.
#[derive(Debug, Clone)]
pub struct HttpGroup {
    pub listen_port: u16,
    pub domain: String,
    /// Indices of the group's rules, in the order the rules were given.
    pub members: Vec<usize>,
}

/// The virtual host of a group.
pub open spec fn group_key(g: HttpGroup) -> (u16, Seq<char>) {
    (g.listen_port, g.domain@)
}

/// `gs` is the grouping of the first `n` rules by virtual host: one group
/// per virtual host of an HTTP rule, each with exactly that host's rules.
pub open spec fn grouped(rules: Seq<ProxyRule>, gs: Seq<HttpGroup>, n: int) -> bool {
    &&& forall|a: int| 0 <= a < gs.len() ==> #[trigger] gs[a].members@ == members_of(
        rules,
        group_key(gs[a]),
        n,
    ) && gs[a].members@.len() > 0
    &&& forall|a: int, b: int|
        0 <= a < b < gs.len() ==> group_key(#[trigger] gs[a]) != group_key(#[trigger] gs[b])
    &&& forall|i: int|
        0 <= i < n && is_http(#[trigger] rules[i]) ==> exists|a: int|
            0 <= a < gs.len() && group_key(#[trigger] gs[a]) == host_key(rules[i])
}

proof fn lemma_members_other_key(rules: Seq<ProxyRule>, key: (u16, Seq<char>), n: int)
    requires
        0 <= n < rules.len(),
        !(is_http(rules[n]) && host_key(rules[n]) == key),
    ensures
        members_of(rules, key, n + 1) == members_of(rules, key, n),
{
}

proof fn lemma_members_empty(rules: Seq<ProxyRule>, key: (u16, Seq<char>), n: int)
    requires
        0 <= n <= rules.len(),
        forall|i: int| 0 <= i < n ==> !(is_http(#[trigger] rules[i]) && host_key(rules[i]) == key),
    ensures
        members_of(rules, key, n) == Seq::<usize>::empty(),
    decreases n,
{
    if n > 0 {
        lemma_members_empty(rules, key, n - 1);
    }
}

fn find_group(groups: &Vec<HttpGroup>, port: u16, domain: &str) -> (r: Option<usize>)
    ensures
        match r {
            Some(a) => a < groups@.len() && group_key(groups@[a as int]) == (port, domain@),
            None => forall|a: int|
                0 <= a < groups@.len() ==> group_key(#[trigger] groups@[a]) != (port, domain@),
        },
{
    let mut a: usize = 0;
    while a < groups.len()
        invariant
            a <= groups@.len(),
            forall|b: int| 0 <= b < a ==> group_key(#[trigger] groups@[b]) != (port, domain@),
        decreases groups@.len() - a,
    {
        if groups[a].listen_port == port && crate::text::str_eq(groups[a].domain.as_str(), domain) {
            return Some(a);
        }
        a = a + 1;
    }
    None
}

/// The HTTP rules grouped by virtual host (port and domain); each group
/// becomes one server block.
pub fn group_http_rules(rules: &[ProxyRule]) -> (r: Vec<HttpGroup>)
    ensures
        grouped(rules@, r@, rules@.len() as int),
{
    let mut groups: Vec<HttpGroup> = Vec::new();
    let mut i: usize = 0;
    while i < rules.len()
        invariant
            i <= rules@.len(),
            grouped(rules@, groups@, i as int),
        decreases rules@.len() - i,
    {
        let r = &rules[i];
        if crate::text::str_eq(r.proxy_type.as_str(), "http") {
            let d = domain_or_empty_exec(&r.domain);
            let key = Ghost(host_key(rules@[i as int]));
            match find_group(&groups, r.listen_port, d) {
                Some(a) => {
                    let ghost old_groups = groups@;
                    let mut g = groups.remove(a);
                    g.members.push(i);
                    groups.insert(a, g);
                    proof {
                        assert(groups@ =~= old_groups.update(a as int, g));
                        assert forall|b: int| 0 <= b < groups@.len() implies #[trigger] groups@[
                            b
                        ].members@ == members_of(rules@, group_key(groups@[b]), i + 1)
                            && groups@[b].members@.len() > 0 by {
                            if b != a {
                                assert(group_key(old_groups[b]) != key@);
                                lemma_members_other_key(rules@, group_key(groups@[b]), i as int);
                            }
                        }
                        assert forall|j: int|
                            0 <= j < i + 1 && is_http(#[trigger] rules@[j]) implies exists|b: int|
                            0 <= b < groups@.len() && group_key(#[trigger] groups@[b])
                                == host_key(rules@[j]) by {
                            if j < i {
                                let b = choose|b: int|
                                    0 <= b < old_groups.len() && group_key(#[trigger] old_groups[b])
                                        == host_key(rules@[j]);
                                assert(group_key(groups@[b]) == host_key(rules@[j]));
                            } else {
                                assert(group_key(groups@[a as int]) == host_key(rules@[j]));
                            }
                        }
                    }
                },
                None => {
                    let ghost old_groups = groups@;
                    let mut members: Vec<usize> = Vec::new();
                    members.push(i);
                    let g = HttpGroup { listen_port: r.listen_port, domain: String::from_str(d), members };
                    groups.push(g);
                    proof {
                        assert(groups@ =~= old_groups.push(g));
                        assert forall|j: int| 0 <= j < i implies !(is_http(#[trigger] rules@[j])
                            && host_key(rules@[j]) == key@) by {
                            if is_http(rules@[j]) && host_key(rules@[j]) == key@ {
                                let b = choose|b: int|
                                    0 <= b < old_groups.len() && group_key(#[trigger] old_groups[b])
                                        == host_key(rules@[j]);
                                assert(group_key(old_groups[b]) != key@);
                            }
                        }
                        lemma_members_empty(rules@, key@, i as int);
                        assert(members@ =~= members_of(rules@, key@, i + 1));
                        assert forall|b: int| 0 <= b < groups@.len() implies #[trigger] groups@[
                            b
                        ].members@ == members_of(rules@, group_key(groups@[b]), i + 1)
                            && groups@[b].members@.len() > 0 by {
                            if b < old_groups.len() {
                                assert(group_key(old_groups[b]) != key@);
                                lemma_members_other_key(rules@, group_key(groups@[b]), i as int);
                            }
                        }
                        assert forall|j: int|
                            0 <= j < i + 1 && is_http(#[trigger] rules@[j]) implies exists|b: int|
                            0 <= b < groups@.len() && group_key(#[trigger] groups@[b])
                                == host_key(rules@[j]) by {
                            if j < i {
                                let b = choose|b: int|
                                    0 <= b < old_groups.len() && group_key(#[trigger] old_groups[b])
                                        == host_key(rules@[j]);
                                assert(group_key(groups@[b]) == host_key(rules@[j]));
                            } else {
                                let last = groups@.len() - 1;
                                assert(group_key(groups@[last]) == host_key(rules@[j]));
                            }
                        }
                    }
                },
            }
        } else {
            proof {
                assert forall|b: int| 0 <= b < groups@.len() implies #[trigger] groups@[
                    b
                ].members@ == members_of(rules@, group_key(groups@[b]), i + 1)
                    && groups@[b].members@.len() > 0 by {
                    lemma_members_other_key(rules@, group_key(groups@[b]), i as int);
                }
            }
        }
        i = i + 1;
    }
    groups
}

/// The TCP and UDP rules, as indices in the order given; each is written to
/// a stream block of its own.
pub open spec fn stream_members(rules: Seq<ProxyRule>, n: int) -> Seq<usize>
    decreases n,
{
    if n <= 0 {
        Seq::empty()
    } else if is_stream(rules[n - 1].proxy_type@) {
        stream_members(rules, n - 1).push((n - 1) as usize)
    } else {
        stream_members(rules, n - 1)
    }
}

proof fn lemma_stream_members(rules: Seq<ProxyRule>, n: int)
    requires
        0 <= n <= rules.len(),
        rules.len() <= usize::MAX,
    ensures
        forall|i: int|
            0 <= i < n ==> (stream_members(rules, n).contains(i as usize) <==> (rules[i].proxy_type@
                == "stream_tcp"@ || rules[i].proxy_type@ == "stream_udp"@)),
        forall|j: int| 0 <= j < stream_members(rules, n).len() ==> #[trigger] stream_members(rules, n)[j] < n,
        forall|a: int, b: int|
            0 <= a < b < stream_members(rules, n).len() ==> stream_members(rules, n)[a] < stream_members(
                rules,
                n,
            )[b],
    decreases n,
{
    if n > 0 {
        lemma_stream_members(rules, n - 1);
        let s = stream_members(rules, n - 1);
        if is_stream(rules[n - 1].proxy_type@) {
            let t = s.push((n - 1) as usize);
            assert forall|i: int| 0 <= i < n implies (t.contains(i as usize) <==> (rules[i].proxy_type@
                == "stream_tcp"@ || rules[i].proxy_type@ == "stream_udp"@)) by {
                if i == n - 1 {
                    assert(t[s.len() as int] == (n - 1) as usize);
                } else {
                    if t.contains(i as usize) {
                        let j = choose|j: int| 0 <= j < t.len() && t[j] == i as usize;
                        if j < s.len() {
                            assert(s[j] == i as usize);
                        }
                    }
                    if s.contains(i as usize) {
                        let j = choose|j: int| 0 <= j < s.len() && s[j] == i as usize;
                        assert(t[j] == i as usize);
                    }
                }
            }
        } else {
            assert forall|i: int| 0 <= i < n implies (s.contains(i as usize) <==> (rules[i].proxy_type@
                == "stream_tcp"@ || rules[i].proxy_type@ == "stream_udp"@)) by {
                if i == n - 1 {
                    if s.contains(i as usize) {
                        let j = choose|j: int| 0 <= j < s.len() && s[j] == i as usize;
                        assert(s[j] < n - 1);
                    }
                }
            }
        }
    }
}

/// The stream rules are exactly the TCP and UDP rules: a rule's index is
/// among them if and only if its type is `stream_tcp` or `stream_udp`, and
/// they come in the order of the rules, each once.
pub proof fn law_stream_rules_are_tcp_and_udp(rules: Seq<ProxyRule>)
    requires
        rules.len() <= usize::MAX,
    ensures
        forall|i: int|
            0 <= i < rules.len() ==> (stream_members(rules, rules.len() as int).contains(i as usize) <==> (
            rules[i].proxy_type@ == "stream_tcp"@ || rules[i].proxy_type@ == "stream_udp"@)),
        forall|a: int, b: int|
            0 <= a < b < stream_members(rules, rules.len() as int).len() ==> stream_members(
                rules,
                rules.len() as int,
            )[a] < stream_members(rules, rules.len() as int)[b],
{
    lemma_stream_members(rules, rules.len() as int);
}

/// The indices of the stream (TCP or UDP) rules, in order.
pub fn stream_rule_indices(rules: &[ProxyRule]) -> (r: Vec<usize>)
    ensures
        r@ == stream_members(rules@, rules@.len() as int),
{
    let mut out: Vec<usize> = Vec::new();
    let mut i: usize = 0;
    while i < rules.len()
        invariant
            i <= rules@.len(),
            out@ == stream_members(rules@, i as int),
        decreases rules@.len() - i,
    {
        if is_stream_exec(rules[i].proxy_type.as_str()) {
            out.push(i);
        }
        i = i + 1;
    }
    out
}

} // verus!

verus! {

/// `a` comes before `b` in the order of `String` (code point by code point,
/// a proper prefix first).
pub open spec fn lex_lt(a: Seq<char>, b: Seq<char>) -> bool
    decreases a.len(),
{
    if a.len() == 0 {
        b.len() > 0
    } else if b.len() == 0 {
        false
    } else if (a[0] as int) < (b[0] as int) {
        true
    } else if a[0] == b[0] {
        lex_lt(a.skip(1), b.skip(1))
    } else {
        false
    }
}

pub(crate) proof fn lemma_lex_irreflexive(a: Seq<char>)
    ensures
        !lex_lt(a, a),
    decreases a.len(),
{
    if a.len() > 0 {
        lemma_lex_irreflexive(a.skip(1));
    }
}

pub(crate) proof fn lemma_lex_transitive(a: Seq<char>, b: Seq<char>, c: Seq<char>)
    requires
        lex_lt(a, b),
        lex_lt(b, c),
    ensures
        lex_lt(a, c),
    decreases a.len(),
{
    if a.len() > 0 && b.len() > 0 && c.len() > 0 && a[0] == b[0] && b[0] == c[0] {
        lemma_lex_transitive(a.skip(1), b.skip(1), c.skip(1));
    }
}

pub(crate) proof fn lemma_lex_total(a: Seq<char>, b: Seq<char>)
    requires
        a != b,
    ensures
        lex_lt(a, b) || lex_lt(b, a),
    decreases a.len(),
{
    if a.len() > 0 && b.len() > 0 && a[0] == b[0] {
        if a.skip(1) == b.skip(1) {
            assert(a =~= seq![a[0]] + a.skip(1));
            assert(b =~= seq![b[0]] + b.skip(1));
        }
        lemma_lex_total(a.skip(1), b.skip(1));
    } else if a.len() > 0 && b.len() > 0 {
        assert((a[0] as int) != (b[0] as int));
    } else if a.len() == 0 && b.len() == 0 {
        assert(a =~= b);
    }
}

/// `a` comes before `b` in the order of `String`.
pub fn lex_less(a: &str, b: &str) -> (r: bool)
    ensures
        r == lex_lt(a@, b@),
{
    let n = a.unicode_len();
    let m = b.unicode_len();
    let mut k: usize = 0;
    assert(a@.skip(0) =~= a@);
    assert(b@.skip(0) =~= b@);
    while k < n && k < m
        invariant
            n == a@.len(),
            m == b@.len(),
            k <= n,
            k <= m,
            lex_lt(a@, b@) == lex_lt(a@.skip(k as int), b@.skip(k as int)),
        decreases n - k,
    {
        let x = a.get_char(k);
        let y = b.get_char(k);
        assert(a@.skip(k as int)[0] == x);
        assert(b@.skip(k as int)[0] == y);
        if (x as u32) < (y as u32) {
            assert((x as int) < (y as int));
            return true;
        }
        if x != y {
            return false;
        }
        assert(a@.skip(k as int).skip(1) =~= a@.skip(k + 1));
        assert(b@.skip(k as int).skip(1) =~= b@.skip(k + 1));
        k = k + 1;
    }
    k == n && k < m
}

/// The text of the file with key `name` in a list of (path, text) pairs: the
/// first pair with that path.
pub open spec fn lookup(files: Seq<(String, String)>, name: Seq<char>) -> Option<Seq<char>>
    decreases files.len(),
{
    if files.len() == 0 {
        None
    } else {
        match lookup(files.drop_last(), name) {
            Some(t) => Some(t),
            None => if files.last().0@ == name {
                Some(files.last().1@)
            } else {
                None
            },
        }
    }
}

fn lookup_exec<'a>(files: &'a [(String, String)], name: &str) -> (r: Option<&'a String>)
    ensures
        match r {
            Some(t) => lookup(files@, name@) == Some(t@),
            None => lookup(files@, name@) is None,
        },
{
    let mut i: usize = 0;
    while i < files.len()
        invariant
            i <= files@.len(),
            lookup(files@.subrange(0, i as int), name@) is None,
        decreases files@.len() - i,
    {
        proof {
            assert(files@.subrange(0, i + 1).drop_last() =~= files@.subrange(0, i as int));
        }
        if crate::text::str_eq(files[i].0.as_str(), name) {
            proof {
                lemma_lookup_prefix(files@, name@, i + 1);
            }
            return Some(&files[i].1);
        }
        i = i + 1;
    }
    proof {
        assert(files@.subrange(0, files@.len() as int) =~= files@);
    }
    None
}

proof fn lemma_lookup_prefix(files: Seq<(String, String)>, name: Seq<char>, n: int)
    requires
        0 <= n <= files.len(),
        lookup(files.subrange(0, n), name) is Some,
    ensures
        lookup(files, name) == lookup(files.subrange(0, n), name),
    decreases files.len(),
{
    if files.len() > n {
        assert(files.drop_last().subrange(0, n) =~= files.subrange(0, n));
        lemma_lookup_prefix(files.drop_last(), name, n);
    } else {
        assert(files.subrange(0, n) =~= files);
    }
}

/// A file whose text differs between the live and the staged configuration.
#[derive(Debug, Clone)]
pub struct ConfigChange {
    pub path: String,
    pub before: Option<String>,
    pub after: Option<String>,
}

/// What the configuration is generated from.
#[derive(Debug, Clone)]
pub struct ConfigData {
    /// The enabled rules.
    pub rules: Vec<ProxyRule>,
    pub certs: Vec<crate::models::Certificate>,
    /// Each access list with its rules.
    pub access_lists: Vec<(crate::models::AccessList, Vec<crate::models::AccessRule>)>,
    /// `auto` or a number.
    pub worker_processes: String,
}

impl ConfigData {
    /// The configuration data of the stored state; the worker setting
    /// defaults to `2` where none is stored.
    pub fn new(
        rules: Vec<ProxyRule>,
        certs: Vec<crate::models::Certificate>,
        access_lists: Vec<(crate::models::AccessList, Vec<crate::models::AccessRule>)>,
        worker_processes: Option<String>,
    ) -> (r: ConfigData)
        ensures
            r.rules@ == rules@,
            r.certs@ == certs@,
            r.access_lists@ == access_lists@,
            r.worker_processes@ == match worker_processes {
                Some(w) => w@,
                None => "2"@,
            },
    {
        let worker_processes = match worker_processes {
            Some(w) => w,
            None => String::from_str("2"),
        };
        ConfigData { rules, certs, access_lists, worker_processes }
    }
}

/// A configuration preview: whether the staged configuration would be
/// accepted, the message shown with that, the port conflicts and the files
/// that would change.
#[derive(Debug, Clone)]
pub struct ConfigPreview {
    pub valid: bool,
    pub test_message: String,
    pub conflicts: Vec<PortConflict>,
    pub changes: Vec<ConfigChange>,
}

/// The text of an optional string.
pub open spec fn opt_text(o: Option<String>) -> Option<Seq<char>> {
    match o {
        Some(s) => Some(s@),
        None => None,
    }
}

/// The path occurs among the staged or the live files.
pub open spec fn listed(staged: Seq<(String, String)>, live: Seq<(String, String)>, name: Seq<char>) -> bool {
    key_in(staged, name, staged.len() as int) || key_in(live, name, live.len() as int)
}

/// The staged text of a file, with the staged directory's path replaced by
/// the live one.
pub open spec fn staged_as_live(
    staged: Seq<(String, String)>,
    name: Seq<char>,
    staged_prefix: Seq<char>,
    live_prefix: Seq<char>,
) -> Option<Seq<char>> {
    match lookup(staged, name) {
        Some(t) => Some(replace_all(t, staged_prefix, live_prefix)),
        None => None,
    }
}

/// The change that `c` reports is the one for its path.
pub open spec fn change_matches(
    c: ConfigChange,
    staged: Seq<(String, String)>,
    live: Seq<(String, String)>,
    staged_prefix: Seq<char>,
    live_prefix: Seq<char>,
) -> bool {
    &&& listed(staged, live, c.path@)
    &&& opt_text(c.before) == lookup(live, c.path@)
    &&& opt_text(c.after) == staged_as_live(staged, c.path@, staged_prefix, live_prefix)
    &&& opt_text(c.before) != opt_text(c.after)
}

/// The list `r` reports, in path order and once each, every file whose live
/// text differs from its staged text.
pub open spec fn changes_spec(
    r: Seq<ConfigChange>,
    staged: Seq<(String, String)>,
    live: Seq<(String, String)>,
    staged_prefix: Seq<char>,
    live_prefix: Seq<char>,
) -> bool {
    &&& forall|a: int, b: int| 0 <= a < b < r.len() ==> lex_lt(#[trigger] r[a].path@, #[trigger] r[b].path@)
    &&& forall|a: int|
        0 <= a < r.len() ==> change_matches(#[trigger] r[a], staged, live, staged_prefix, live_prefix)
    &&& forall|name: Seq<char>|
        listed(staged, live, name) && lookup(live, name) != staged_as_live(
            staged,
            name,
            staged_prefix,
            live_prefix,
        ) ==> exists|a: int| 0 <= a < r.len() && (#[trigger] r[a]).path@ == name
}

/// Some element of `v` has the text `s`.
pub open spec fn has_name(v: Seq<String>, s: Seq<char>) -> bool {
    exists|a: int| 0 <= a < v.len() && (#[trigger] v[a])@ == s
}

/// One of the first `n` files has the path `s`.
pub open spec fn key_in(files: Seq<(String, String)>, s: Seq<char>, n: int) -> bool {
    exists|k: int| 0 <= k < n && (#[trigger] files[k]).0@ == s
}

/// The strictly increasing list of names, given as views.
pub open spec fn strictly_sorted(v: Seq<String>) -> bool {
    forall|a: int, b: int| 0 <= a < b < v.len() ==> lex_lt(#[trigger] v[a]@, #[trigger] v[b]@)
}

fn insert_sorted(names: &mut Vec<String>, x: &str)
    requires
        strictly_sorted(old(names)@),
    ensures
        strictly_sorted(final(names)@),
        forall|s: Seq<char>| #[trigger] has_name(final(names)@, s) <==> (s == x@ || has_name(old(names)@, s)),
{
    let ghost old_names = names@;
    let mut p: usize = 0;
    while p < names.len() && lex_less(names[p].as_str(), x)
        invariant
            names@ == old_names,
            p <= names@.len(),
            forall|a: int| 0 <= a < p ==> lex_lt(#[trigger] names@[a]@, x@),
        decreases names@.len() - p,
    {
        p = p + 1;
    }
    if p < names.len() && crate::text::str_eq(names[p].as_str(), x) {
        return;
    }
    proof {
        if p < names@.len() {
            lemma_lex_total(names@[p as int]@, x@);
        }
        assert forall|b: int| p <= b < names@.len() implies lex_lt(x@, #[trigger] names@[b]@) by {
            if b > p {
                lemma_lex_transitive(x@, names@[p as int]@, names@[b]@);
            }
        }
    }
    let v = String::from_str(x);
    names.insert(p, v);
    proof {
        old_names.insert_ensures(p as int, v);
        assert(names@ == old_names.insert(p as int, v));
        assert forall|j: int| p < j < names@.len() implies names@[j] == old_names[j - 1] by {
            assert(names@[j] == old_names.insert(p as int, v)[(j - 1) + 1]);
        }
        assert forall|a: int, b: int| 0 <= a < b < names@.len() implies lex_lt(
            #[trigger] names@[a]@,
            #[trigger] names@[b]@,
        ) by {
            if b < p {
                assert(names@[a] == old_names[a]);
                assert(names@[b] == old_names[b]);
            } else if b == p {
            } else if a < p {
                assert(names@[b] == old_names[b - 1]);
            } else if a == p {
                assert(names@[b] == old_names[b - 1]);
            } else {
                assert(names@[a] == old_names[a - 1]);
                assert(names@[b] == old_names[b - 1]);
            }
        }
        assert forall|s: Seq<char>| #[trigger] has_name(names@, s) <==> (s == x@ || has_name(old_names, s)) by {
            if has_name(names@, s) {
                let a = choose|a: int| 0 <= a < names@.len() && (#[trigger] names@[a])@ == s;
                if a < p {
                    assert(old_names[a]@ == s);
                } else if a > p {
                    assert(old_names[a - 1]@ == s);
                }
            }
            if s == x@ {
                assert(names@[p as int]@ == s);
            } else if has_name(old_names, s) {
                let a = choose|a: int| 0 <= a < old_names.len() && (#[trigger] old_names[a])@ == s;
                if a < p {
                    assert(names@[a]@ == s);
                } else {
                    assert(names@[a + 1]@ == s);
                }
            }
        }
    }
}

fn opt_same(a: Option<&String>, b: &Option<String>) -> (r: bool)
    ensures
        r == (match a {
            Some(s) => Some(s@),
            None => None,
        } == opt_text(*b)),
{
    match (a, b) {
        (None, None) => true,
        (Some(x), Some(y)) => crate::text::str_eq(x.as_str(), y.as_str()),
        _ => false,
    }
}

#[verifier::rlimit(60)]
/// The files whose text the staged configuration would change, with their
/// live and staged texts, in path order; the staged texts have the staged
/// directory's path replaced by the live one before they are compared.
pub fn config_changes(
    staged: &[(String, String)],
    live: &[(String, String)],
    staged_prefix: &str,
    live_prefix: &str,
) -> (r: Vec<ConfigChange>)
    ensures
        changes_spec(r@, staged@, live@, staged_prefix@, live_prefix@),
{
    let mut names: Vec<String> = Vec::new();
    let mut i: usize = 0;
    while i < staged.len()
        invariant
            i <= staged@.len(),
            strictly_sorted(names@),
            forall|s: Seq<char>| #[trigger] has_name(names@, s) <==> key_in(staged@, s, i as int),
        decreases staged@.len() - i,
    {
        insert_sorted(&mut names, staged[i].0.as_str());
        proof {
            assert forall|s: Seq<char>| #[trigger] has_name(names@, s) <==> key_in(staged@, s, i + 1) by {
                if s == staged@[i as int].0@ {
                    assert(staged@[i as int].0@ == s);
                }
            }
        }
        i = i + 1;
    }
    let mut j: usize = 0;
    while j < live.len()
        invariant
            j <= live@.len(),
            strictly_sorted(names@),
            forall|s: Seq<char>| #[trigger] has_name(names@, s) <==> (key_in(staged@, s, staged@.len() as int)
                || key_in(live@, s, j as int)),
        decreases live@.len() - j,
    {
        insert_sorted(&mut names, live[j].0.as_str());
        proof {
            assert forall|s: Seq<char>| #[trigger] has_name(names@, s) <==> (key_in(staged@, s, staged@.len() as int)
                || key_in(live@, s, j + 1)) by {
                if s == live@[j as int].0@ {
                    assert(live@[j as int].0@ == s);
                }
            }
        }
        j = j + 1;
    }
    let mut out: Vec<ConfigChange> = Vec::new();
    let mut a: usize = 0;
    while a < names.len()
        invariant
            a <= names@.len(),
            strictly_sorted(names@),
            forall|s: Seq<char>| #[trigger] has_name(names@, s) <==> listed(staged@, live@, s),
            forall|c: int|
                0 <= c < out@.len() ==> change_matches(
                    #[trigger] out@[c],
                    staged@,
                    live@,
                    staged_prefix@,
                    live_prefix@,
                ),
            forall|c: int|
                0 <= c < out@.len() ==> exists|b: int|
                    0 <= b < a && (#[trigger] out@[c]).path@ == (#[trigger] names@[b])@,
            forall|c: int, d: int|
                0 <= c < d < out@.len() ==> lex_lt(#[trigger] out@[c].path@, #[trigger] out@[d].path@),
            forall|b: int|
                0 <= b < a && lookup(live@, (#[trigger] names@[b])@) != staged_as_live(
                    staged@,
                    names@[b]@,
                    staged_prefix@,
                    live_prefix@,
                ) ==> exists|c: int| 0 <= c < out@.len() && (#[trigger] out@[c]).path@ == names@[b]@,
        decreases names@.len() - a,
    {
        let name = names[a].as_str();
        let before = lookup_exec(live, name);
        let after = match lookup_exec(staged, name) {
            Some(t) => Some(replace_str(t.as_str(), staged_prefix, live_prefix)),
            None => None,
        };
        proof {
            assert(names@[a as int]@ == name@);
            assert(has_name(names@, name@));
            assert(listed(staged@, live@, name@));
        }
        if !opt_same(before, &after) {
            let c = ConfigChange {
                path: String::from_str(name),
                before: match before {
                    Some(t) => Some(t.clone()),
                    None => None,
                },
                after,
            };
            let ghost old_out = out@;
            out.push(c);
            proof {
                assert(out@ =~= old_out.push(c));
                assert forall|x: int, y: int| 0 <= x < y < out@.len() implies lex_lt(
                    #[trigger] out@[x].path@,
                    #[trigger] out@[y].path@,
                ) by {
                    if y == out@.len() - 1 {
                        let b = choose|b: int| 0 <= b < a && out@[x].path@ == (#[trigger] names@[b])@;
                        assert(lex_lt(names@[b]@, names@[a as int]@));
                    }
                }
                assert forall|c2: int| 0 <= c2 < out@.len() implies exists|b: int|
                    0 <= b < a + 1 && (#[trigger] out@[c2]).path@ == (#[trigger] names@[b])@ by {
                    if c2 == out@.len() - 1 {
                        assert(out@[c2].path@ == names@[a as int]@);
                    } else {
                        let b = choose|b: int| 0 <= b < a && old_out[c2].path@ == (#[trigger] names@[b])@;
                        assert(out@[c2].path@ == names@[b]@);
                    }
                }
                assert forall|b: int|
                    0 <= b < a + 1 && lookup(live@, (#[trigger] names@[b])@) != staged_as_live(
                        staged@,
                        names@[b]@,
                        staged_prefix@,
                        live_prefix@,
                    ) implies exists|c2: int| 0 <= c2 < out@.len() && (#[trigger] out@[c2]).path@
                    == names@[b]@ by {
                    if b == a {
                        assert(out@[out@.len() - 1].path@ == names@[b]@);
                    } else {
                        let c2 = choose|c2: int|
                            0 <= c2 < old_out.len() && (#[trigger] old_out[c2]).path@ == names@[b]@;
                        assert(out@[c2].path@ == names@[b]@);
                    }
                }
            }
        } else {
            proof {
                assert forall|c2: int| 0 <= c2 < out@.len() implies exists|b: int|
                    0 <= b < a + 1 && (#[trigger] out@[c2]).path@ == (#[trigger] names@[b])@ by {
                    let b = choose|b: int| 0 <= b < a && out@[c2].path@ == (#[trigger] names@[b])@;
                    assert(out@[c2].path@ == names@[b]@);
                }
            }
        }
        a = a + 1;
    }
    proof {
        assert forall|name: Seq<char>|
            listed(staged@, live@, name) && lookup(live@, name) != staged_as_live(
                staged@,
                name,
                staged_prefix@,
                live_prefix@,
            ) implies exists|c: int| 0 <= c < out@.len() && (#[trigger] out@[c]).path@ == name by {
            assert(has_name(names@, name));
            let b = choose|b: int| 0 <= b < names@.len() && (#[trigger] names@[b])@ == name;
            assert(lookup(live@, names@[b]@) != staged_as_live(
                staged@,
                names@[b]@,
                staged_prefix@,
                live_prefix@,
            ));
        }
    }
    out
}

} // verus!

verus! {

/// Whether the staged configuration is valid and the message shown with it:
/// conflicts make it invalid with their messages joined by `; `; otherwise
/// the result of `nginx -t` decides, and a test that could not run makes it
/// invalid with the error's displayed text.
pub open spec fn preview_verdict_spec(
    conflicts: Seq<PortConflict>,
    test: Option<Result<(bool, String), AppError>>,
) -> (bool, Seq<char>) {
    if conflicts.len() > 0 {
        (false, joined_messages(conflicts))
    } else {
        match test {
            Some(Ok((valid, message))) => (valid, message@),
            Some(Err(e)) => (false, crate::error::display_prefix(e) + crate::error::message_of(e)),
            None => (false, Seq::empty()),
        }
    }
}

/// The verdict of a configuration preview. The test result is needed (and
/// only looked at) when there are no conflicts.
pub fn preview_verdict(conflicts: &[PortConflict], test: Option<Result<(bool, String), AppError>>) -> (r: (
    bool,
    String,
))
    requires
        conflicts@.len() == 0 ==> test is Some,
    ensures
        (r.0, r.1@) == preview_verdict_spec(conflicts@, test),
{
    if conflicts.len() > 0 {
        (false, conflicts_message(conflicts))
    } else {
        match test {
            Some(Ok((valid, message))) => (valid, message),
            Some(Err(e)) => (false, e.to_display_string()),
            None => (false, String::new()),
        }
    }
}

impl ConfigPreview {
    /// The preview of a staged configuration with these conflicts and
    /// changes, judged by `preview_verdict`.
    pub fn new(
        conflicts: Vec<PortConflict>,
        test: Option<Result<(bool, String), AppError>>,
        changes: Vec<ConfigChange>,
    ) -> (r: ConfigPreview)
        requires
            conflicts@.len() == 0 ==> test is Some,
        ensures
            (r.valid, r.test_message@) == preview_verdict_spec(conflicts@, test),
            r.conflicts@ == conflicts@,
            r.changes@ == changes@,
    {
        let (valid, test_message) = preview_verdict(conflicts.as_slice(), test);
        ConfigPreview { valid, test_message, conflicts, changes }
    }
}

/// Why applying a configuration failed after the backup was made.
#[derive(Debug, Clone)]
pub enum ApplyFailure {
    /// Writing the configuration failed.
    Generation(AppError),
    /// The rules conflict.
    Conflicts(Vec<PortConflict>),
    /// `nginx -t` rejected the configuration, with its output.
    TestFailed(String),
    /// `nginx -t` could not be run.
    TestError(AppError),
    /// The running Nginx did not reload.
    Reload(AppError),
}

/// What applying a configuration came to.
#[derive(Debug, Clone)]
pub enum ApplyOutcome {
    /// The configuration is live; the (empty) conflicts are returned.
    Applied(Vec<PortConflict>),
    /// The backup could not be made; nothing was changed.
    BackupFailed(AppError),
    /// A later step failed; the backup was restored.
    Failed(ApplyFailure),
}

/// Where an apply stands.
#[derive(Debug, Clone)]
pub enum ApplyState {
    Idle,
    BackingUp,
    Generating,
    Testing(Vec<PortConflict>),
    CheckingStatus(Vec<PortConflict>),
    Reloading(Vec<PortConflict>),
    Restoring(ApplyFailure),
    CleaningUp(Vec<PortConflict>),
    Done,
}

/// What the caller reports back after performing an action.
#[derive(Debug)]
pub enum ApplyEvent {
    Start,
    BackupMade(Result<(), AppError>),
    Generated(Result<Vec<PortConflict>, AppError>),
    Tested(Result<(bool, String), AppError>),
    StatusRead(bool),
    Reloaded(Result<(), AppError>),
    Restored,
    CleanedUp,
}

/// What the caller is to do next.
#[derive(Debug, Clone)]
pub enum ApplyAction {
    MakeBackup,
    Generate,
    Test,
    ReadStatus,
    Reload,
    Restore,
    Cleanup,
    Finish(ApplyOutcome),
}

/// The next state and action of an apply, for an event that fits the state.
/// Every failure after the backup was made goes through a restore; success
/// needs a conflict-free configuration that passes the test, and a reload
/// when Nginx is running.
pub open spec fn apply_next(s: ApplyState, e: ApplyEvent) -> Option<(ApplyState, ApplyAction)> {
    match (s, e) {
        (ApplyState::Idle, ApplyEvent::Start) => Some((ApplyState::BackingUp, ApplyAction::MakeBackup)),
        (ApplyState::BackingUp, ApplyEvent::BackupMade(r)) => match r {
            Ok(()) => Some((ApplyState::Generating, ApplyAction::Generate)),
            Err(err) => Some(
                (ApplyState::Done, ApplyAction::Finish(ApplyOutcome::BackupFailed(err))),
            ),
        },
        (ApplyState::Generating, ApplyEvent::Generated(r)) => match r {
            Ok(c) => if c@.len() > 0 {
                Some(
                    (ApplyState::Restoring(ApplyFailure::Conflicts(c)), ApplyAction::Restore),
                )
            } else {
                Some((ApplyState::Testing(c), ApplyAction::Test))
            },
            Err(err) => Some(
                (ApplyState::Restoring(ApplyFailure::Generation(err)), ApplyAction::Restore),
            ),
        },
        (ApplyState::Testing(c), ApplyEvent::Tested(r)) => match r {
            Ok((true, _)) => Some((ApplyState::CheckingStatus(c), ApplyAction::ReadStatus)),
            Ok((false, m)) => Some(
                (ApplyState::Restoring(ApplyFailure::TestFailed(m)), ApplyAction::Restore),
            ),
            Err(err) => Some(
                (ApplyState::Restoring(ApplyFailure::TestError(err)), ApplyAction::Restore),
            ),
        },
        (ApplyState::CheckingStatus(c), ApplyEvent::StatusRead(running)) => if running {
            Some((ApplyState::Reloading(c), ApplyAction::Reload))
        } else {
            Some((ApplyState::CleaningUp(c), ApplyAction::Cleanup))
        },
        (ApplyState::Reloading(c), ApplyEvent::Reloaded(r)) => match r {
            Ok(()) => Some((ApplyState::CleaningUp(c), ApplyAction::Cleanup)),
            Err(err) => Some(
                (ApplyState::Restoring(ApplyFailure::Reload(err)), ApplyAction::Restore),
            ),
        },
        (ApplyState::Restoring(f), ApplyEvent::Restored) => Some(
            (ApplyState::Done, ApplyAction::Finish(ApplyOutcome::Failed(f))),
        ),
        (ApplyState::CleaningUp(c), ApplyEvent::CleanedUp) => Some(
            (ApplyState::Done, ApplyAction::Finish(ApplyOutcome::Applied(c))),
        ),
        _ => None,
    }
}

/// One step of applying a configuration (backup, generate, test, reload,
/// restore on failure): from the state and the outcome of
/// the last action to the next state and action.
pub fn apply_and_reload(state: ApplyState, event: ApplyEvent) -> (r: Option<(ApplyState, ApplyAction)>)
    ensures
        r == apply_next(state, event),
{
    let step = match (state, event) {
        (ApplyState::Idle, ApplyEvent::Start) => (ApplyState::BackingUp, ApplyAction::MakeBackup),
        (ApplyState::BackingUp, ApplyEvent::BackupMade(r)) => match r {
            Ok(()) => (ApplyState::Generating, ApplyAction::Generate),
            Err(err) => (ApplyState::Done, ApplyAction::Finish(ApplyOutcome::BackupFailed(err))),
        },
        (ApplyState::Generating, ApplyEvent::Generated(r)) => match r {
            Ok(c) => if c.len() > 0 {
                (ApplyState::Restoring(ApplyFailure::Conflicts(c)), ApplyAction::Restore)
            } else {
                (ApplyState::Testing(c), ApplyAction::Test)
            },
            Err(err) => (ApplyState::Restoring(ApplyFailure::Generation(err)), ApplyAction::Restore),
        },
        (ApplyState::Testing(c), ApplyEvent::Tested(r)) => match r {
            Ok((passed, m)) => if passed {
                (ApplyState::CheckingStatus(c), ApplyAction::ReadStatus)
            } else {
                (ApplyState::Restoring(ApplyFailure::TestFailed(m)), ApplyAction::Restore)
            },
            Err(err) => (ApplyState::Restoring(ApplyFailure::TestError(err)), ApplyAction::Restore),
        },
        (ApplyState::CheckingStatus(c), ApplyEvent::StatusRead(running)) => if running {
            (ApplyState::Reloading(c), ApplyAction::Reload)
        } else {
            (ApplyState::CleaningUp(c), ApplyAction::Cleanup)
        },
        (ApplyState::Reloading(c), ApplyEvent::Reloaded(r)) => match r {
            Ok(()) => (ApplyState::CleaningUp(c), ApplyAction::Cleanup),
            Err(err) => (ApplyState::Restoring(ApplyFailure::Reload(err)), ApplyAction::Restore),
        },
        (ApplyState::Restoring(f), ApplyEvent::Restored) => (
            ApplyState::Done,
            ApplyAction::Finish(ApplyOutcome::Failed(f)),
        ),
        (ApplyState::CleaningUp(c), ApplyEvent::CleanedUp) => (
            ApplyState::Done,
            ApplyAction::Finish(ApplyOutcome::Applied(c)),
        ),
        _ => {
            return None;
        },
    };
    Some(step)
}


} // verus!

verus! {

/// The result an apply reports for its outcome.
pub open spec fn outcome_result(o: ApplyOutcome) -> Result<Vec<PortConflict>, (crate::error::ErrorKind, Seq<char>)> {
    match o {
        ApplyOutcome::Applied(c) => Ok(c),
        ApplyOutcome::BackupFailed(e) => Err(crate::error::error_view(e)),
        ApplyOutcome::Failed(f) => match f {
            ApplyFailure::Generation(e) => Err(crate::error::error_view(e)),
            ApplyFailure::Conflicts(c) => Err((crate::error::ErrorKind::Conflict, joined_messages(c@))),
            ApplyFailure::TestFailed(m) => Err(
                (crate::error::ErrorKind::Config, "nginx config test failed: "@ + m@),
            ),
            ApplyFailure::TestError(e) => Err(crate::error::error_view(e)),
            ApplyFailure::Reload(e) => Err(crate::error::error_view(e)),
        },
    }
}

impl ApplyOutcome {
    /// The result reported to the caller of an apply: the conflicts on
    /// success, or the error of the step that failed (conflicts as a
    /// `Conflict` error with their messages joined, a failed test as a
    /// `Config` error with the test's output).
    pub fn into_result(self) -> (r: Result<Vec<PortConflict>, AppError>)
        ensures
            crate::error::outcome_is(r, outcome_result(self)),
    {
        match self {
            ApplyOutcome::Applied(c) => Ok(c),
            ApplyOutcome::BackupFailed(e) => Err(e),
            ApplyOutcome::Failed(f) => match f {
                ApplyFailure::Generation(e) => Err(e),
                ApplyFailure::Conflicts(c) => Err(AppError::Conflict(conflicts_message(c.as_slice()))),
                ApplyFailure::TestFailed(m) => {
                    let mut s = String::from_str("nginx config test failed: ");
                    s.append(m.as_str());
                    Err(AppError::Config(s))
                },
                ApplyFailure::TestError(e) => Err(e),
                ApplyFailure::Reload(e) => Err(e),
            },
        }
    }
}

/// The event with which the world answers an action, given the outcome of
/// each step.
pub open spec fn respond(
    a: ApplyAction,
    backup: Result<(), AppError>,
    generated: Result<Vec<PortConflict>, AppError>,
    tested: Result<(bool, String), AppError>,
    running: bool,
    reloaded: Result<(), AppError>,
) -> ApplyEvent {
    match a {
        ApplyAction::MakeBackup => ApplyEvent::BackupMade(backup),
        ApplyAction::Generate => ApplyEvent::Generated(generated),
        ApplyAction::Test => ApplyEvent::Tested(tested),
        ApplyAction::ReadStatus => ApplyEvent::StatusRead(running),
        ApplyAction::Reload => ApplyEvent::Reloaded(reloaded),
        ApplyAction::Restore => ApplyEvent::Restored,
        ApplyAction::Cleanup => ApplyEvent::CleanedUp,
        ApplyAction::Finish(_) => ApplyEvent::Start,
    }
}

/// The actions of an apply run from state `s` and event `e`, each answered
/// by the world, until it finishes (or `fuel` runs out).
pub open spec fn apply_trace(
    s: ApplyState,
    e: ApplyEvent,
    backup: Result<(), AppError>,
    generated: Result<Vec<PortConflict>, AppError>,
    tested: Result<(bool, String), AppError>,
    running: bool,
    reloaded: Result<(), AppError>,
    fuel: nat,
) -> Seq<ApplyAction>
    decreases fuel,
{
    match apply_next(s, e) {
        None => Seq::empty(),
        Some((s2, a)) => if fuel == 0 || a is Finish {
            seq![a]
        } else {
            seq![a] + apply_trace(
                s2,
                respond(a, backup, generated, tested, running, reloaded),
                backup,
                generated,
                tested,
                running,
                reloaded,
                (fuel - 1) as nat,
            )
        },
    }
}

/// What an apply comes to, given the outcome of each step.
pub open spec fn expected_outcome(
    backup: Result<(), AppError>,
    generated: Result<Vec<PortConflict>, AppError>,
    tested: Result<(bool, String), AppError>,
    running: bool,
    reloaded: Result<(), AppError>,
) -> ApplyOutcome {
    match backup {
        Err(e) => ApplyOutcome::BackupFailed(e),
        Ok(()) => match generated {
            Err(e) => ApplyOutcome::Failed(ApplyFailure::Generation(e)),
            Ok(c) => if c@.len() > 0 {
                ApplyOutcome::Failed(ApplyFailure::Conflicts(c))
            } else {
                match tested {
                    Err(e) => ApplyOutcome::Failed(ApplyFailure::TestError(e)),
                    Ok((false, m)) => ApplyOutcome::Failed(ApplyFailure::TestFailed(m)),
                    Ok((true, _)) => if running {
                        match reloaded {
                            Err(e) => ApplyOutcome::Failed(ApplyFailure::Reload(e)),
                            Ok(()) => ApplyOutcome::Applied(c),
                        }
                    } else {
                        ApplyOutcome::Applied(c)
                    },
                }
            },
        },
    }
}

/// An apply, driven from the start with each step's outcome, finishes with
/// the expected outcome: success exactly when the configuration has no
/// conflicts, passes the test, and (where Nginx runs) reloads. It restores
/// the backup exactly when a step after the backup failed, and reloads only
/// a running Nginx with a configuration that passed the test.
#[verifier::spinoff_prover]
#[verifier::rlimit(50)]
pub proof fn law_apply_outcome(
    backup: Result<(), AppError>,
    generated: Result<Vec<PortConflict>, AppError>,
    tested: Result<(bool, String), AppError>,
    running: bool,
    reloaded: Result<(), AppError>,
)
    ensures
        ({
            let t = apply_trace(
                ApplyState::Idle,
                ApplyEvent::Start,
                backup,
                generated,
                tested,
                running,
                reloaded,
                10,
            );
            let o = expected_outcome(backup, generated, tested, running, reloaded);
            &&& t.len() > 0
            &&& t.last() == ApplyAction::Finish(o)
            &&& t.contains(ApplyAction::Restore) <==> (backup is Ok && o is Failed)
            &&& t.contains(ApplyAction::Reload) ==> (running && tested matches Ok((true, _)))
        }),
{
    reveal_with_fuel(apply_trace, 11);
    let t = apply_trace(
        ApplyState::Idle,
        ApplyEvent::Start,
        backup,
        generated,
        tested,
        running,
        reloaded,
        10,
    );
    let o = expected_outcome(backup, generated, tested, running, reloaded);
    if t.contains(ApplyAction::Restore) {
        let k = choose|k: int| 0 <= k < t.len() && t[k] == ApplyAction::Restore;
    }
    if t.contains(ApplyAction::Reload) {
        let k = choose|k: int| 0 <= k < t.len() && t[k] == ApplyAction::Reload;
    }
    if backup is Ok && o is Failed {
        assert(t[t.len() - 2] == ApplyAction::Restore);
    }
}

} // verus!
