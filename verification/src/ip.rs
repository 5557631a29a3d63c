//! The textual forms of IPv4 and IPv6 addresses that the standard library's
//! `Ipv4Addr` and `Ipv6Addr` parsers accept.
use vstd::prelude::*;

use crate::text::{
    all_digits, digits_value, find, first_match, has_match, is_ascii_digit, parse_u64, split,
    split_spec, views,
};

verus! {

/// One to three decimal digits, at most 255, without a leading zero.
pub open spec fn is_dec_octet(t: Seq<char>) -> bool {
    &&& 1 <= t.len() <= 3
    &&& all_digits(t)
    &&& digits_value(t) <= 255
    &&& (t.len() == 1 || t[0] != '0')
}

/// Dotted-decimal IPv4: four octets separated by dots.
pub open spec fn is_ipv4_text(t: Seq<char>) -> bool {
    let p = split_spec(t, '.');
    &&& p.len() == 4
    &&& forall|i: int| 0 <= i < 4 ==> is_dec_octet(#[trigger] p[i])
}

pub open spec fn is_hex_digit(c: char) -> bool {
    ('0' <= c && c <= '9') || ('a' <= c && c <= 'f') || ('A' <= c && c <= 'F')
}

/// One to four hexadecimal digits.
pub open spec fn is_h16(t: Seq<char>) -> bool {
    &&& 1 <= t.len() <= 4
    &&& forall|i: int| 0 <= i < t.len() ==> is_hex_digit(#[trigger] t[i])
}

pub open spec fn all_h16(p: Seq<Seq<char>>) -> bool {
    forall|i: int| 0 <= i < p.len() ==> is_h16(#[trigger] p[i])
}

/// The number of 16-bit groups that a list of pieces stands for: every piece a
/// hexadecimal group, except that the last may be an IPv4 address, which
/// stands for two groups.
pub open spec fn group_count(p: Seq<Seq<char>>) -> Option<nat> {
    if all_h16(p) {
        Some(p.len())
    } else if p.len() >= 1 && all_h16(p.drop_last()) && is_ipv4_text(p.last()) {
        Some(p.len() + 1)
    } else {
        None
    }
}

/// The colon-separated pieces of a part of an IPv6 address; no pieces when
/// the part is empty.
pub open spec fn colon_pieces(t: Seq<char>) -> Seq<Seq<char>> {
    if t.len() == 0 {
        Seq::empty()
    } else {
        split_spec(t, ':')
    }
}

/// IPv6 text: eight groups, or a `::` that stands for at least one zero group
/// between a head of plain groups and a tail that may end in IPv4.
pub open spec fn is_ipv6_text(t: Seq<char>) -> bool {
    let dc = seq![':', ':'];
    if has_match(t, dc) {
        let i = first_match(t, dc);
        let head = colon_pieces(t.take(i));
        let tail = colon_pieces(t.skip(i + 2));
        &&& all_h16(head)
        &&& group_count(tail) is Some
        &&& head.len() + group_count(tail)->0 <= 7
    } else {
        group_count(split_spec(t, ':')) == Some(8nat)
    }
}

/// Text without `::` whose colon-separated pieces are eight groups of one to
/// four hexadecimal digits is IPv6 text (the full form, as `Ipv6Addr`
/// parses it), and so is an IP address.
pub proof fn law_full_form_ipv6(t: Seq<char>)
    requires
        !has_match(t, seq![':', ':']),
        split_spec(t, ':').len() == 8,
        forall|i: int| 0 <= i < 8 ==> is_h16(#[trigger] split_spec(t, ':')[i]),
    ensures
        is_ipv6_text(t),
        is_ip_text(t),
{
    assert(all_h16(split_spec(t, ':')));
}

fn is_dec_octet_exec(t: &str) -> (r: bool)
    ensures
        r == is_dec_octet(t@),
{
    let n = t.unicode_len();
    if n < 1 || n > 3 {
        return false;
    }
    if n > 1 && t.get_char(0) == '0' {
        return false;
    }
    match parse_u64(t) {
        Some(v) => {
            if t.get_char(0) == '+' {
                assert(!is_ascii_digit(t@[0]));
                return false;
            }
            assert(t@ =~= (if t@.len() > 0 && t@[0] == '+' { t@.drop_first() } else { t@ }));
            v <= 255
        },
        None => {
            if t.get_char(0) != '+' {
                assert(t@ =~= (if t@.len() > 0 && t@[0] == '+' { t@.drop_first() } else { t@ }));
            } else {
                assert(!is_ascii_digit(t@[0]));
            }
            false
        },
    }
}

/// The text is an IPv4 address in dotted-decimal form.
pub fn is_ipv4_text_exec(t: &str) -> (r: bool)
    ensures
        r == is_ipv4_text(t@),
{
    let p = split(t, '.');
    if p.len() != 4 {
        return false;
    }
    let mut i: usize = 0;
    while i < 4
        invariant
            p.len() == 4,
            views(p@) == split_spec(t@, '.'),
            i <= 4,
            forall|k: int| 0 <= k < i ==> is_dec_octet(#[trigger] split_spec(t@, '.')[k]),
        decreases 4 - i,
    {
        assert(views(p@)[i as int] == p@[i as int]@);
        if !is_dec_octet_exec(p[i]) {
            return false;
        }
        i = i + 1;
    }
    true
}

fn is_hex_digit_char(c: char) -> (r: bool)
    ensures
        r == is_hex_digit(c),
{
    ('0' <= c && c <= '9') || ('a' <= c && c <= 'f') || ('A' <= c && c <= 'F')
}

fn is_h16_exec(t: &str) -> (r: bool)
    ensures
        r == is_h16(t@),
{
    let n = t.unicode_len();
    if n < 1 || n > 4 {
        return false;
    }
    let mut i: usize = 0;
    while i < n
        invariant
            n == t@.len(),
            i <= n,
            forall|k: int| 0 <= k < i ==> is_hex_digit(#[trigger] t@[k]),
        decreases n - i,
    {
        if !is_hex_digit_char(t.get_char(i)) {
            return false;
        }
        i = i + 1;
    }
    true
}

/// Whether every piece from `start` on is a hexadecimal group.
fn all_h16_from(p: &Vec<&str>, start: usize, end: usize) -> (r: bool)
    requires
        start <= end <= p.len(),
    ensures
        r == (forall|k: int| start <= k < end ==> is_h16(#[trigger] views(p@)[k])),
{
    let mut i = start;
    while i < end
        invariant
            start <= i <= end <= p.len(),
            forall|k: int| start <= k < i ==> is_h16(#[trigger] views(p@)[k]),
        decreases end - i,
    {
        assert(views(p@)[i as int] == p@[i as int]@);
        if !is_h16_exec(p[i]) {
            return false;
        }
        i = i + 1;
    }
    true
}

/// The pieces' group count, as the number of pieces and whether the last
/// one is an IPv4 address.
fn group_count_exec(p: &Vec<&str>) -> (r: Option<(usize, bool)>)
    ensures
        match group_count(views(p@)) {
            Some(c) => match r {
                Some((n, v4)) => c == n + (if v4 {
                    1nat
                } else {
                    0nat
                }) && n == p.len(),
                None => false,
            },
            None => r is None,
        },
{
    let n = p.len();
    let ghost v = views(p@);
    if all_h16_from(p, 0, n) {
        assert(all_h16(v));
        return Some((n, false));
    }
    assert(!all_h16(v));
    if n >= 1 {
        let front = all_h16_from(p, 0, n - 1);
        assert(v.drop_last().len() == n - 1);
        assert(front == all_h16(v.drop_last())) by {
            assert forall|k: int| 0 <= k < n - 1 implies v.drop_last()[k] == v[k] by {}
        }
        assert(v.last() == p@[n - 1]@);
        if front && is_ipv4_text_exec(p[n - 1]) {
            return Some((n, true));
        }
    }
    None
}

fn colon_pieces_exec(t: &str) -> (r: Vec<&str>)
    ensures
        views(r@) == colon_pieces(t@),
{
    if t.unicode_len() == 0 {
        let v: Vec<&str> = Vec::new();
        assert(views(v@) =~= Seq::<Seq<char>>::empty());
        v
    } else {
        split(t, ':')
    }
}

/// The text is an IPv6 address.
pub fn is_ipv6_text_exec(t: &str) -> (r: bool)
    ensures
        r == is_ipv6_text(t@),
{
    proof {
        reveal_strlit("::");
    }
    assert("::"@ =~= seq![':', ':']);
    match find(t, "::") {
        Some(i) => {
            let n = t.unicode_len();
            let head_text = t.substring_char(0, i);
            let tail_text = t.substring_char(i + 2, n);
            assert(head_text@ =~= t@.take(i as int));
            assert(tail_text@ =~= t@.skip(i + 2));
            let head = colon_pieces_exec(head_text);
            let tail = colon_pieces_exec(tail_text);
            if !all_h16_from(&head, 0, head.len()) {
                return false;
            }
            assert(all_h16(views(head@)));
            match group_count_exec(&tail) {
                Some((c, v4)) => {
                    let extra: usize = if v4 {
                        1
                    } else {
                        0
                    };
                    head.len() <= 7 && c <= 7 - head.len() && extra <= 7 - head.len() - c
                },
                None => false,
            }
        },
        None => {
            let p = split(t, ':');
            match group_count_exec(&p) {
                Some((c, v4)) => (c == 8 && !v4) || (c == 7 && v4),
                None => false,
            }
        },
    }
}

/// The text is an IPv4 or an IPv6 address.
pub open spec fn is_ip_text(t: Seq<char>) -> bool {
    is_ipv4_text(t) || is_ipv6_text(t)
}

pub fn is_ip_text_exec(t: &str) -> (r: bool)
    ensures
        r == is_ip_text(t@),
{
    is_ipv4_text_exec(t) || is_ipv6_text_exec(t)
}

} // verus!
