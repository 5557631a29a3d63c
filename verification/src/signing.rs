//! Request signing for the DNS providers' HTTP APIs: Alibaba Cloud's
//! signature version 1 (HMAC-SHA1 over a sorted, percent-encoded query),
//! Tencent Cloud's TC3-HMAC-SHA256 and AWS signature version 4.
//!
//! The clock and the random nonce are read by the caller and handed in, so
//! every function here is a function of its arguments.
use vstd::prelude::*;
use vstd::utf8::encode_utf8;
use hmac::Mac;
use sha2::Digest;
use crate::config_engine::{lex_less, lex_lt, replace_all, replace_str};
use crate::recovery::{b64_encode, base64_encode};
use crate::text::{join2, join3, matches_at};

verus! {

/// The SHA-256 digest of `data`, as the `sha2` crate computes it.
pub uninterp spec fn sha256_digest(data: Seq<u8>) -> Seq<u8>;

/// The HMAC-SHA256 tag of `data` under `key`, as the `hmac` crate computes it.
pub uninterp spec fn hmac_sha256_tag(key: Seq<u8>, data: Seq<u8>) -> Seq<u8>;

/// The HMAC-SHA1 tag of `data` under `key`, as the `hmac` crate computes it.
pub uninterp spec fn hmac_sha1_tag(key: Seq<u8>, data: Seq<u8>) -> Seq<u8>;

/// Calls `sha2::Sha256::digest`: the named digest, 32 bytes long.
#[verifier::external_body]
fn sha256(data: &[u8]) -> (r: Vec<u8>)
    ensures
        r@ == sha256_digest(data@),
        r@.len() == 32,
{
    sha2::Sha256::digest(data).to_vec()
}

/// Calls `hmac::Hmac::<Sha256>` (`new_from_slice`, `update`, `finalize`):
/// the named tag, 32 bytes long. `new_from_slice` accepts keys of every
/// length (longer ones are hashed first), so it never fails here.
#[verifier::external_body]
fn hmac_sha256(key: &[u8], data: &[u8]) -> (r: Vec<u8>)
    ensures
        r@ == hmac_sha256_tag(key@, data@),
        r@.len() == 32,
{
    let mut mac = hmac::Hmac::<sha2::Sha256>::new_from_slice(key).expect("HMAC takes keys of any length");
    mac.update(data);
    mac.finalize().into_bytes().to_vec()
}

/// Calls `hmac::Hmac::<Sha1>` (`new_from_slice`, `update`, `finalize`): the
/// named tag, 20 bytes long. `new_from_slice` accepts keys of every length.
#[verifier::external_body]
fn hmac_sha1(key: &[u8], data: &[u8]) -> (r: Vec<u8>)
    ensures
        r@ == hmac_sha1_tag(key@, data@),
        r@.len() == 20,
{
    let mut mac = hmac::Hmac::<sha1::Sha1>::new_from_slice(key).expect("HMAC takes keys of any length");
    mac.update(data);
    mac.finalize().into_bytes().to_vec()
}

/// The lower-case hexadecimal digit of `n` (below 16).
pub open spec fn lower_hex_digit(n: int) -> char {
    if n < 10 {
        (48 + n) as char
    } else {
        (87 + n) as char
    }
}

/// The upper-case hexadecimal digit of `n` (below 16).
pub open spec fn upper_hex_digit(n: int) -> char {
    if n < 10 {
        (48 + n) as char
    } else {
        (55 + n) as char
    }
}

/// Each byte as two lower-case hexadecimal digits, high nibble first.
pub open spec fn hex_lower(bytes: Seq<u8>) -> Seq<char>
    decreases bytes.len(),
{
    if bytes.len() == 0 {
        Seq::empty()
    } else {
        seq![lower_hex_digit(bytes[0] as int / 16), lower_hex_digit(bytes[0] as int % 16)]
            + hex_lower(bytes.drop_first())
    }
}

/// Calls `hex::encode`, which writes each byte as two lower-case hexadecimal
/// digits, high nibble first.
#[verifier::external_body]
fn hex_encode(data: &[u8]) -> (r: String)
    ensures
        r@ == hex_lower(data@),
{
    hex::encode(data)
}

/// The bytes that the form serializer writes as they are: ASCII letters and
/// digits and `*`, `-`, `.`, `_`.
pub open spec fn form_unchanged(b: u8) -> bool {
    b == 42 || b == 45 || b == 46 || (48 <= b <= 57) || (65 <= b <= 90) || b == 95 || (97 <= b <= 122)
}

/// How the `application/x-www-form-urlencoded` serializer writes one byte:
/// as it is, a space as `+`, any other byte as `%` and two upper-case
/// hexadecimal digits.
pub open spec fn form_byte(b: u8) -> Seq<char> {
    if form_unchanged(b) {
        seq![b as char]
    } else if b == 32 {
        seq!['+']
    } else {
        seq!['%', upper_hex_digit(b as int / 16), upper_hex_digit(b as int % 16)]
    }
}

/// The form serialization of a byte string, byte by byte.
pub open spec fn form_serialize(bytes: Seq<u8>) -> Seq<char>
    decreases bytes.len(),
{
    if bytes.len() == 0 {
        Seq::empty()
    } else {
        form_byte(bytes[0]) + form_serialize(bytes.drop_first())
    }
}

/// Calls `url::form_urlencoded::byte_serialize` on the UTF-8 bytes of `s` and
/// joins the pieces: the form serialization of those bytes.
#[verifier::external_body]
fn form_urlencode(s: &str) -> (r: String)
    ensures
        r@ == form_serialize(encode_utf8(s@)),
{
    url::form_urlencoded::byte_serialize(s.as_bytes()).collect::<String>()
}

/// RFC 3986 percent-encoding as Alibaba Cloud wants it: the form
/// serialization with `+` written `%20`, `*` written `%2A` and `%7E` written
/// back as `~`.
pub open spec fn percent_encode_spec(s: Seq<char>) -> Seq<char> {
    replace_all(
        replace_all(replace_all(form_serialize(encode_utf8(s)), "+"@, "%20"@), "*"@, "%2A"@),
        "%7E"@,
        "~"@,
    )
}

/// Percent-encodes `s` for an Alibaba Cloud query.
pub fn percent_encode(s: &str) -> (r: String)
    ensures
        r@ == percent_encode_spec(s@),
{
    let form = form_urlencode(s);
    let spaces = replace_str(form.as_str(), "+", "%20");
    let stars = replace_str(spaces.as_str(), "*", "%2A");
    replace_str(stars.as_str(), "%7E", "~")
}

/// The bytes RFC 3986 leaves unreserved: ASCII letters and digits, `-`,
/// `.`, `_` and `~`.
pub open spec fn rfc3986_unreserved(b: u8) -> bool {
    (48 <= b <= 57) || (65 <= b <= 90) || (97 <= b <= 122) || b == 45 || b == 46 || b == 95 || b == 126
}

/// RFC 3986 percent-encoding of one byte: unreserved bytes as they are,
/// every other byte as `%` and two upper-case hexadecimal digits.
pub open spec fn rfc3986_byte(b: u8) -> Seq<char> {
    if rfc3986_unreserved(b) {
        seq![b as char]
    } else {
        seq!['%', upper_hex_digit(b as int / 16), upper_hex_digit(b as int % 16)]
    }
}

/// RFC 3986 percent-encoding of a byte string.
pub open spec fn rfc3986_encode(bytes: Seq<u8>) -> Seq<char>
    decreases bytes.len(),
{
    if bytes.len() == 0 {
        Seq::empty()
    } else {
        rfc3986_byte(bytes[0]) + rfc3986_encode(bytes.drop_first())
    }
}

/// Replacing in a concatenation replaces in each part, when no occurrence of
/// the pattern can start in the first part and end in the second.
proof fn lemma_replace_concat(a: Seq<char>, x: Seq<char>, p: Seq<char>, t: Seq<char>)
    requires
        p.len() > 0,
        forall|i: int| 0 <= i < a.len() && i + p.len() > a.len() ==> a[i] != p[0],
    ensures
        replace_all(a + x, p, t) == replace_all(a, p, t) + replace_all(x, p, t),
    decreases a.len(),
{
    let s = a + x;
    if a.len() == 0 {
        assert(s =~= x);
    } else if matches_at(s, p, 0) {
        let z: int = 0;
        assert(s[0 + z] == p[z]);
        assert(p.len() <= a.len());
        assert forall|k: int| 0 <= k < p.len() implies #[trigger] a[0 + k] == p[k] by {
            assert(s[0 + k] == p[k]);
        }
        assert(matches_at(a, p, 0));
        let a2 = a.skip(p.len() as int);
        assert(s.skip(p.len() as int) =~= a2 + x);
        assert forall|i: int| 0 <= i < a2.len() && i + p.len() > a2.len() implies a2[i] != p[0] by {
            assert(a2[i] == a[i + p.len()]);
        }
        lemma_replace_concat(a2, x, p, t);
        assert(t + (replace_all(a2, p, t) + replace_all(x, p, t)) =~= (t + replace_all(a2, p, t)) + replace_all(
            x,
            p,
            t,
        ));
    } else {
        if matches_at(a, p, 0) {
            assert forall|k: int| 0 <= k < p.len() implies #[trigger] s[0 + k] == p[k] by {
                assert(a[0 + k] == p[k]);
            }
        }
        let a2 = a.skip(1);
        assert(s.skip(1) =~= a2 + x);
        assert forall|i: int| 0 <= i < a2.len() && i + p.len() > a2.len() implies a2[i] != p[0] by {
            assert(a2[i] == a[i + 1]);
        }
        lemma_replace_concat(a2, x, p, t);
        assert(s[0] == a[0]);
        assert(seq![a[0]] + (replace_all(a2, p, t) + replace_all(x, p, t)) =~= (seq![a[0]] + replace_all(a2, p, t))
            + replace_all(x, p, t));
    }
}

/// A byte after spaces are written `%20`.
spec fn space_byte(b: u8) -> Seq<char> {
    if b == 32 {
        "%20"@
    } else {
        form_byte(b)
    }
}

/// A byte after `*` is written `%2A` too.
spec fn star_byte(b: u8) -> Seq<char> {
    if b == 42 {
        "%2A"@
    } else {
        space_byte(b)
    }
}

/// A byte after `%7E` is written back as `~`.
spec fn tilde_byte(b: u8) -> Seq<char> {
    if b == 126 {
        "~"@
    } else {
        star_byte(b)
    }
}

spec fn spaces_encoded(bytes: Seq<u8>) -> Seq<char>
    decreases bytes.len(),
{
    if bytes.len() == 0 {
        Seq::empty()
    } else {
        space_byte(bytes[0]) + spaces_encoded(bytes.drop_first())
    }
}

spec fn stars_encoded(bytes: Seq<u8>) -> Seq<char>
    decreases bytes.len(),
{
    if bytes.len() == 0 {
        Seq::empty()
    } else {
        star_byte(bytes[0]) + stars_encoded(bytes.drop_first())
    }
}

spec fn tildes_encoded(bytes: Seq<u8>) -> Seq<char>
    decreases bytes.len(),
{
    if bytes.len() == 0 {
        Seq::empty()
    } else {
        tilde_byte(bytes[0]) + tildes_encoded(bytes.drop_first())
    }
}

proof fn lemma_literals()
    ensures
        "+"@ == seq!['+'],
        "%20"@ == seq!['%', '2', '0'],
        "*"@ == seq!['*'],
        "%2A"@ == seq!['%', '2', 'A'],
        "%7E"@ == seq!['%', '7', 'E'],
        "~"@ == seq!['~'],
{
    reveal_strlit("+");
    reveal_strlit("%20");
    reveal_strlit("*");
    reveal_strlit("%2A");
    reveal_strlit("%7E");
    reveal_strlit("~");
}

proof fn lemma_hex_digits()
    ensures
        forall|n: int|
            0 <= n < 16 ==> {
                let d = #[trigger] upper_hex_digit(n);
                &&& d != '%' && d != '+' && d != '*'
                &&& (d == '7' <==> n == 7)
                &&& (d == 'E' <==> n == 14)
            },
        upper_hex_digit(2) == '2',
        upper_hex_digit(0) == '0',
        upper_hex_digit(10) == 'A',
{
}

/// Replacing in a one- or three-character chunk that does not hold the
/// pattern's one character leaves it as it is.
proof fn lemma_replace_untouched(a: Seq<char>, c: char, t: Seq<char>)
    requires
        a.len() == 1 || a.len() == 3,
        forall|i: int| 0 <= i < a.len() ==> a[i] != c,
    ensures
        replace_all(a, seq![c], t) == a,
{
    reveal_with_fuel(replace_all, 4);
    let z: int = 0;
    assert(seq![c][z] == c);
    if a.len() == 1 {
        assert(a[0 + z] != seq![c][z]);
        assert(!matches_at(a, seq![c], 0));
        assert(a.skip(1) =~= Seq::<char>::empty());
        assert(seq![a[0]] =~= a);
    } else {
        assert(a[0 + z] != seq![c][z]);
        assert(!matches_at(a, seq![c], 0));
        assert(a.skip(1)[0 + z] == a[1]);
        assert(!matches_at(a.skip(1), seq![c], 0));
        assert(a.skip(1).skip(1)[0 + z] == a[2]);
        assert(!matches_at(a.skip(1).skip(1), seq![c], 0));
        assert(a.skip(1).skip(1).skip(1) =~= Seq::<char>::empty());
        assert(seq![a[0]] + (seq![a.skip(1)[0]] + (seq![a.skip(1).skip(1)[0]] + Seq::<char>::empty())) =~= a);
    }
}

proof fn lemma_form_byte_shape(b: u8)
    ensures
        form_unchanged(b) ==> form_byte(b) == seq![b as char] && b as char != '%' && b as char != '+'
            && (b as char == '*' <==> b == 42),
        !form_unchanged(b) && b == 32 ==> form_byte(b) == seq!['+'],
        !form_unchanged(b) && b != 32 ==> form_byte(b) == seq![
            '%',
            upper_hex_digit(b as int / 16),
            upper_hex_digit(b as int % 16),
        ],
        !form_unchanged(b) ==> b != 42,
{
}

proof fn lemma_spaces(bytes: Seq<u8>)
    ensures
        replace_all(form_serialize(bytes), "+"@, "%20"@) == spaces_encoded(bytes),
    decreases bytes.len(),
{
    lemma_literals();
    lemma_hex_digits();
    reveal_with_fuel(replace_all, 2);
    if bytes.len() > 0 {
        let b = bytes[0];
        let a = form_byte(b);
        lemma_form_byte_shape(b);
        lemma_replace_concat(a, form_serialize(bytes.drop_first()), "+"@, "%20"@);
        lemma_spaces(bytes.drop_first());
        if b == 32 {
            assert(matches_at(a, "+"@, 0));
            assert(a.skip(1) =~= Seq::<char>::empty());
            assert(replace_all(a, "+"@, "%20"@) =~= "%20"@);
        } else {
            if !form_unchanged(b) {
                assert(a[1] == upper_hex_digit(b as int / 16));
                assert(a[2] == upper_hex_digit(b as int % 16));
            }
            lemma_replace_untouched(a, '+', "%20"@);
        }
    }
}

proof fn lemma_stars(bytes: Seq<u8>)
    ensures
        replace_all(spaces_encoded(bytes), "*"@, "%2A"@) == stars_encoded(bytes),
    decreases bytes.len(),
{
    lemma_literals();
    lemma_hex_digits();
    reveal_with_fuel(replace_all, 2);
    if bytes.len() > 0 {
        let b = bytes[0];
        let a = space_byte(b);
        lemma_form_byte_shape(b);
        lemma_replace_concat(a, spaces_encoded(bytes.drop_first()), "*"@, "%2A"@);
        lemma_stars(bytes.drop_first());
        if b == 42 {
            assert(form_unchanged(b));
            assert(a =~= seq!['*']);
            assert(matches_at(a, "*"@, 0));
            assert(a.skip(1) =~= Seq::<char>::empty());
            assert(replace_all(a, "*"@, "%2A"@) =~= "%2A"@);
        } else {
            if b != 32 && !form_unchanged(b) {
                assert(a[1] == upper_hex_digit(b as int / 16));
                assert(a[2] == upper_hex_digit(b as int % 16));
            }
            lemma_replace_untouched(a, '*', "%2A"@);
        }
    }
}

/// The characters a chunk of the second stage holds: one character that is
/// not `%`, or `%` and two characters that are not.
proof fn lemma_star_byte_shape(b: u8)
    ensures
        star_byte(b).len() == 1 ==> star_byte(b)[0] != '%',
        star_byte(b).len() == 3 ==> star_byte(b)[0] == '%' && star_byte(b)[1] != '%' && star_byte(b)[2] != '%',
        star_byte(b).len() == 1 || star_byte(b).len() == 3,
        star_byte(b).len() == 3 ==> (star_byte(b)[1] == '7' && star_byte(b)[2] == 'E' <==> b == 126),
        b == 126 ==> star_byte(b) == seq!['%', '7', 'E'],
{
    lemma_literals();
    lemma_hex_digits();
    lemma_form_byte_shape(b);
    if b != 32 && b != 42 && !form_unchanged(b) {
        assert(star_byte(b)[1] == upper_hex_digit(b as int / 16));
        assert(star_byte(b)[2] == upper_hex_digit(b as int % 16));
        assert(b as int == (b as int / 16) * 16 + b as int % 16);
    }
}

proof fn lemma_tildes(bytes: Seq<u8>)
    ensures
        replace_all(stars_encoded(bytes), "%7E"@, "~"@) == tildes_encoded(bytes),
    decreases bytes.len(),
{
    lemma_literals();
    if bytes.len() > 0 {
        let b = bytes[0];
        let a = star_byte(b);
        let p = "%7E"@;
        lemma_star_byte_shape(b);
        assert forall|i: int| 0 <= i < a.len() && i + p.len() > a.len() implies a[i] != p[0] by {}
        lemma_replace_concat(a, stars_encoded(bytes.drop_first()), p, "~"@);
        lemma_tildes(bytes.drop_first());
        reveal_with_fuel(replace_all, 4);
        if a.len() == 1 {
            assert(!matches_at(a, p, 0));
            assert(a.skip(1) =~= Seq::<char>::empty());
            assert(replace_all(a, p, "~"@) =~= a);
        } else if b == 126 {
            assert(matches_at(a, p, 0));
            assert(a.skip(3) =~= Seq::<char>::empty());
            assert(replace_all(a, p, "~"@) =~= "~"@);
        } else {
            let (one, two): (int, int) = (1, 2);
            assert(p[one] == '7' && p[two] == 'E');
            assert(!(a[0 + one] == p[one] && a[0 + two] == p[two]));
            assert(!matches_at(a, p, 0));
            assert(!matches_at(a.skip(1), p, 0));
            assert(!matches_at(a.skip(1).skip(1), p, 0));
            assert(a.skip(1).skip(1).skip(1) =~= Seq::<char>::empty());
            assert(replace_all(a, p, "~"@) =~= a);
        }
    }
}

proof fn lemma_tilde_byte_is_rfc3986(b: u8)
    ensures
        tilde_byte(b) == rfc3986_byte(b),
{
    lemma_literals();
    lemma_hex_digits();
    lemma_form_byte_shape(b);
    if b == 126 {
        assert((126u8 as char) == '~');
    } else if b == 42 {
        assert(rfc3986_byte(b) =~= seq!['%', '2', 'A']);
    } else if b == 32 {
        assert(rfc3986_byte(b) =~= seq!['%', '2', '0']);
    }
}

proof fn lemma_tildes_are_rfc3986(bytes: Seq<u8>)
    ensures
        tildes_encoded(bytes) == rfc3986_encode(bytes),
    decreases bytes.len(),
{
    if bytes.len() > 0 {
        lemma_tilde_byte_is_rfc3986(bytes[0]);
        lemma_tildes_are_rfc3986(bytes.drop_first());
    }
}

/// Alibaba Cloud's percent-encoding of a text is the RFC 3986 encoding of
/// its UTF-8 bytes: unreserved bytes as they are, every other byte as `%`
/// and two upper-case hexadecimal digits.
pub proof fn law_percent_encode_is_rfc3986(s: Seq<char>)
    ensures
        percent_encode_spec(s) == rfc3986_encode(encode_utf8(s)),
{
    let bytes = encode_utf8(s);
    lemma_spaces(bytes);
    lemma_stars(bytes);
    lemma_tildes(bytes);
    lemma_tildes_are_rfc3986(bytes);
}

/// A query parameter, by the views of its name and value.
pub type ParamView = (Seq<char>, Seq<char>);

/// The views of a list of query parameters.
pub open spec fn param_views(ps: Seq<(String, String)>) -> Seq<ParamView> {
    ps.map_values(|p: (String, String)| (p.0@, p.1@))
}

/// `x` put into `sorted` after every parameter whose name is not greater.
pub open spec fn insert_by_name(sorted: Seq<ParamView>, x: ParamView) -> Seq<ParamView>
    decreases sorted.len(),
{
    if sorted.len() == 0 {
        seq![x]
    } else if lex_lt(x.0, sorted.last().0) {
        insert_by_name(sorted.drop_last(), x).push(sorted.last())
    } else {
        sorted.push(x)
    }
}

/// The parameters stably sorted by name: parameters with equal names keep
/// their order.
pub open spec fn sort_by_name(ps: Seq<ParamView>) -> Seq<ParamView>
    decreases ps.len(),
{
    if ps.len() == 0 {
        ps
    } else {
        insert_by_name(sort_by_name(ps.drop_last()), ps.last())
    }
}

/// Whether the names of `ps` never decrease.
pub open spec fn sorted_by_name(ps: Seq<ParamView>) -> bool {
    forall|i: int, j: int| 0 <= i < j < ps.len() ==> !lex_lt(#[trigger] ps[j].0, #[trigger] ps[i].0)
}

proof fn lemma_insert_position(s: Seq<ParamView>, x: ParamView, j: int)
    requires
        0 <= j <= s.len(),
        forall|m: int| j <= m < s.len() ==> lex_lt(x.0, #[trigger] s[m].0),
        j == 0 || !lex_lt(x.0, s[j - 1].0),
    ensures
        insert_by_name(s, x) == s.insert(j, x),
    decreases s.len(),
{
    if s.len() == j {
        if j == 0 {
            assert(s.insert(0, x) =~= seq![x]);
        } else {
            assert(s.insert(j, x) =~= s.push(x));
        }
    } else {
        lemma_insert_position(s.drop_last(), x, j);
        assert(s.insert(j, x) =~= s.drop_last().insert(j, x).push(s.last()));
    }
}

proof fn lemma_insert_sorted(s: Seq<ParamView>, x: ParamView)
    requires
        sorted_by_name(s),
    ensures
        sorted_by_name(insert_by_name(s, x)),
        insert_by_name(s, x).to_multiset() =~= s.to_multiset().insert(x),
        forall|i: int|
            0 <= i < insert_by_name(s, x).len() ==> #[trigger] insert_by_name(s, x)[i] == x || s.contains(
                insert_by_name(s, x)[i],
            ),
    decreases s.len(),
{
    broadcast use vstd::seq_lib::group_to_multiset_ensures;

    if s.len() == 0 {
        assert(seq![x] =~= Seq::<ParamView>::empty().push(x));
    } else if lex_lt(x.0, s.last().0) {
        let d = s.drop_last();
        let last = s.last();
        assert(sorted_by_name(d)) by {
            assert forall|i: int, j: int| 0 <= i < j < d.len() implies !lex_lt(#[trigger] d[j].0, #[trigger] d[i].0) by {
                assert(d[i] == s[i] && d[j] == s[j]);
            }
        }
        lemma_insert_sorted(d, x);
        let r = insert_by_name(d, x);
        assert(s =~= d.push(last));
        assert forall|i: int, j: int| 0 <= i < j < r.push(last).len() implies !lex_lt(
            #[trigger] r.push(last)[j].0,
            #[trigger] r.push(last)[i].0,
        ) by {
            if j == r.len() {
                let y = r[i];
                if y == x {
                    if lex_lt(last.0, x.0) {
                        crate::config_engine::lemma_lex_transitive(x.0, last.0, x.0);
                        crate::config_engine::lemma_lex_irreflexive(x.0);
                    }
                } else {
                    let k = choose|k: int| 0 <= k < d.len() && d[k] == y;
                    assert(s[k] == y && s[s.len() - 1] == last);
                }
            } else {
                assert(r.push(last)[i] == r[i] && r.push(last)[j] == r[j]);
            }
        }
        assert forall|i: int| 0 <= i < r.push(last).len() implies #[trigger] r.push(last)[i] == x || s.contains(
            r.push(last)[i],
        ) by {
            if i < r.len() {
                if r[i] != x {
                    let k = choose|k: int| 0 <= k < d.len() && d[k] == r[i];
                    assert(s[k] == r[i]);
                }
            } else {
                assert(s[s.len() - 1] == last);
            }
        }
    } else {
        assert forall|i: int, j: int| 0 <= i < j < s.push(x).len() implies !lex_lt(
            #[trigger] s.push(x)[j].0,
            #[trigger] s.push(x)[i].0,
        ) by {
            if j == s.len() {
                let y = s[i];
                if lex_lt(x.0, y.0) {
                    if i == s.len() - 1 {
                    } else {
                        assert(!lex_lt(s[s.len() - 1].0, s[i].0));
                        if y.0 == s.last().0 {
                        } else {
                            crate::config_engine::lemma_lex_total(y.0, s.last().0);
                            crate::config_engine::lemma_lex_transitive(x.0, y.0, s.last().0);
                        }
                    }
                }
            } else {
                assert(s.push(x)[i] == s[i] && s.push(x)[j] == s[j]);
            }
        }
        assert forall|i: int| 0 <= i < s.push(x).len() implies #[trigger] s.push(x)[i] == x || s.contains(
            s.push(x)[i],
        ) by {
            if i < s.len() {
                assert(s.push(x)[i] == s[i]);
            }
        }
    }
}

/// The stable sort by name orders the parameters by name and keeps each of
/// them, as often as it occurs.
pub proof fn law_sorted_params(ps: Seq<ParamView>)
    ensures
        sorted_by_name(sort_by_name(ps)),
        sort_by_name(ps).to_multiset() =~= ps.to_multiset(),
    decreases ps.len(),
{
    broadcast use vstd::seq_lib::group_to_multiset_ensures;

    if ps.len() > 0 {
        law_sorted_params(ps.drop_last());
        lemma_insert_sorted(sort_by_name(ps.drop_last()), ps.last());
        assert(ps =~= ps.drop_last().push(ps.last()));
    }
}

/// Sorts the parameters by name, keeping the order of equal names.
pub fn sort_params(params: &mut Vec<(String, String)>)
    ensures
        param_views(final(params)@) == sort_by_name(param_views(old(params)@)),
{
    let mut items: Vec<(String, String)> = Vec::new();
    std::mem::swap(&mut items, params);
    let ghost orig = param_views(items@);
    let ghost mut k: int = 0;
    let mut out: Vec<(String, String)> = Vec::new();
    proof {
        assert(orig.take(0) =~= Seq::<ParamView>::empty());
        assert(orig.skip(0) =~= orig);
    }
    while items.len() > 0
        invariant
            0 <= k <= orig.len(),
            param_views(items@) == orig.skip(k),
            param_views(out@) == sort_by_name(orig.take(k)),
        decreases items.len(),
    {
        let ghost before = out@;
        let ghost rest = items@;
        let x = items.remove(0);
        proof {
            assert(param_views(rest).len() == rest.len());
            assert(k < orig.len());
            assert(param_views(rest)[0] == orig.skip(k)[0]);
            assert(param_views(items@) =~= param_views(rest).skip(1));
            assert(orig.skip(k).skip(1) =~= orig.skip(k + 1));
        }
        let mut j: usize = out.len();
        loop
            invariant
                out@ == before,
                j <= out@.len(),
                forall|m: int| j <= m < out@.len() ==> lex_lt(x.0@, #[trigger] out@[m].0@),
            ensures
                j <= out@.len(),
                forall|m: int| j <= m < out@.len() ==> lex_lt(x.0@, #[trigger] out@[m].0@),
                j == 0 || !lex_lt(x.0@, out@[j - 1].0@),
            decreases j,
        {
            if j == 0 {
                break;
            }
            if !lex_less(x.0.as_str(), out[j - 1].0.as_str()) {
                break;
            }
            j = j - 1;
        }
        let ghost xv: ParamView = (x.0@, x.1@);
        out.insert(j, x);
        proof {
            let bv = param_views(before);
            assert forall|m: int| j <= m < bv.len() implies lex_lt(xv.0, #[trigger] bv[m].0) by {
                assert(bv[m].0 == before[m].0@);
            }
            if j > 0 {
                assert(bv[j - 1].0 == before[j - 1].0@);
            }
            lemma_insert_position(bv, xv, j as int);
            assert(param_views(out@) =~= bv.insert(j as int, xv));
            assert(orig.take(k + 1).drop_last() =~= orig.take(k));
            assert(orig.take(k + 1).last() == xv);
            k = k + 1;
        }
    }
    proof {
        assert(orig.take(k) =~= orig);
    }
    *params = out;
}

/// One parameter as `name=value`, both percent-encoded.
#[verifier::opaque]
pub open spec fn encoded_param(p: ParamView) -> Seq<char> {
    percent_encode_spec(p.0) + "="@ + percent_encode_spec(p.1)
}

/// The encoded parameters joined by `&`.
pub open spec fn encoded_query(ps: Seq<ParamView>) -> Seq<char>
    decreases ps.len(),
{
    if ps.len() == 0 {
        Seq::empty()
    } else if ps.len() == 1 {
        encoded_param(ps[0])
    } else {
        encoded_query(ps.drop_last()) + "&"@ + encoded_param(ps.last())
    }
}

/// The parameters as a percent-encoded query string, in their order.
pub fn encoded_query_string(params: &Vec<(String, String)>) -> (r: String)
    ensures
        r@ == encoded_query(param_views(params@)),
{
    let ghost ps = param_views(params@);
    let mut out = String::new();
    let mut i: usize = 0;
    proof {
        assert(ps.take(0) =~= Seq::<ParamView>::empty());
    }
    while i < params.len()
        invariant
            i <= params@.len(),
            ps == param_views(params@),
            out@ == encoded_query(ps.take(i as int)),
        decreases params@.len() - i,
    {
        let name = percent_encode(params[i].0.as_str());
        let value = percent_encode(params[i].1.as_str());
        let piece = join3(name.as_str(), "=", value.as_str());
        assert(piece@ == encoded_param(ps[i as int])) by {
            reveal(encoded_param);
            assert(ps[i as int] == (params@[i as int].0@, params@[i as int].1@));
        }
        if i > 0 {
            out.append("&");
        }
        out.append(piece.as_str());
        proof {
            let t = ps.take(i + 1);
            assert(t.drop_last() =~= ps.take(i as int));
            assert(t.last() == ps[i as int]);
            if i == 0 {
                assert(t.len() == 1);
            }
        }
        i = i + 1;
    }
    proof {
        assert(ps.take(params@.len() as int) =~= ps);
    }
    out
}

/// What Alibaba Cloud signs: `GET&%2F&` and the encoded canonical query.
pub open spec fn alidns_string_to_sign(canonical: Seq<char>) -> Seq<char> {
    "GET&%2F&"@ + percent_encode_spec(canonical)
}

/// The signature of sorted parameters: the base64 of the HMAC-SHA1 of the
/// string to sign, keyed by the secret followed by `&`.
pub open spec fn alidns_signature(secret: Seq<char>, sorted: Seq<ParamView>) -> Seq<char> {
    b64_encode(
        hmac_sha1_tag(encode_utf8(secret + "&"@), encode_utf8(alidns_string_to_sign(encoded_query(sorted)))),
    )
}

/// The common parameters of an Alibaba Cloud DNS call.
pub open spec fn alidns_common_params_spec(
    access_key_id: Seq<char>,
    action: Seq<char>,
    timestamp: Seq<char>,
    nonce: Seq<char>,
) -> Seq<ParamView> {
    seq![
        ("Format"@, "JSON"@),
        ("Version"@, "2015-01-09"@),
        ("AccessKeyId"@, access_key_id),
        ("SignatureMethod"@, "HMAC-SHA1"@),
        ("Timestamp"@, timestamp),
        ("SignatureVersion"@, "1.0"@),
        ("SignatureNonce"@, nonce),
        ("Action"@, action),
    ]
}

/// Signs Alibaba Cloud requests with an access key.
pub struct AlidnsSigner {
    pub access_key_id: String,
    pub access_key_secret: String,
}

impl AlidnsSigner {
    /// The signer of these credentials.
    pub fn new(cred: crate::dns::AlidnsCredential) -> (r: AlidnsSigner)
        ensures
            r.access_key_id@ == cred.access_key_id@,
            r.access_key_secret@ == cred.access_key_secret@,
    {
        AlidnsSigner { access_key_id: cred.access_key_id, access_key_secret: cred.access_key_secret }
    }

    /// The common parameters of a call of `action`, made at `timestamp`
    /// (`%Y-%m-%dT%H:%M:%SZ`, UTC) with the random `nonce`.
    pub fn common_params(&self, action: &str, timestamp: &str, nonce: &str) -> (r: Vec<(String, String)>)
        ensures
            param_views(r@) == alidns_common_params_spec(self.access_key_id@, action@, timestamp@, nonce@),
    {
        let mut r: Vec<(String, String)> = Vec::new();
        r.push((String::from_str("Format"), String::from_str("JSON")));
        r.push((String::from_str("Version"), String::from_str("2015-01-09")));
        r.push((String::from_str("AccessKeyId"), self.access_key_id.clone()));
        r.push((String::from_str("SignatureMethod"), String::from_str("HMAC-SHA1")));
        r.push((String::from_str("Timestamp"), String::from_str(timestamp)));
        r.push((String::from_str("SignatureVersion"), String::from_str("1.0")));
        r.push((String::from_str("SignatureNonce"), String::from_str(nonce)));
        r.push((String::from_str("Action"), String::from_str(action)));
        proof {
            assert(param_views(r@) =~= alidns_common_params_spec(
                self.access_key_id@,
                action@,
                timestamp@,
                nonce@,
            ));
        }
        r
    }

    /// Sorts the parameters by name, appends their `Signature` and returns the
    /// signed query string.
    pub fn sign_params(&self, params: &mut Vec<(String, String)>) -> (r: String)
        ensures
            param_views(final(params)@) == sort_by_name(param_views(old(params)@)).push(
                ("Signature"@, alidns_signature(self.access_key_secret@, sort_by_name(param_views(old(params)@)))),
            ),
            r@ == encoded_query(param_views(final(params)@)),
    {
        sort_params(params);
        let canonical = encoded_query_string(params);
        let encoded = percent_encode(canonical.as_str());
        let to_sign = join2("GET&%2F&", encoded.as_str());
        let key = join2(self.access_key_secret.as_str(), "&");
        let tag = hmac_sha1(key.as_str().as_bytes(), to_sign.as_str().as_bytes());
        let signature = base64_encode(tag.as_slice());
        let ghost before = params@;
        params.push((String::from_str("Signature"), signature));
        proof {
            assert(param_views(params@) =~= param_views(before).push(("Signature"@, signature@)));
        }
        encoded_query_string(params)
    }
}

/// Tencent Cloud's canonical request for a JSON `POST` with `payload`.
pub open spec fn tc3_canonical_request(payload: Seq<char>) -> Seq<char> {
    "POST\n/\n\ncontent-type:application/json\nhost:dnspod.tencentcloudapi.com\n\ncontent-type;host\n"@
        + hex_lower(sha256_digest(encode_utf8(payload)))
}

/// The credential scope of a TC3 signature made on `date` (`%Y-%m-%d`).
pub open spec fn tc3_scope(date: Seq<char>) -> Seq<char> {
    date + "/dnspod/tc3_request"@
}

/// What a TC3 signature signs.
pub open spec fn tc3_string_to_sign(timestamp: Seq<char>, date: Seq<char>, payload: Seq<char>) -> Seq<char> {
    "TC3-HMAC-SHA256\n"@ + timestamp + "\n"@ + tc3_scope(date) + "\n"@ + hex_lower(
        sha256_digest(encode_utf8(tc3_canonical_request(payload))),
    )
}

/// The TC3 signing key: the secret key, prefixed by `TC3`, chained through
/// the date, the service and `tc3_request`.
pub open spec fn tc3_signing_key(secret_key: Seq<char>, date: Seq<char>) -> Seq<u8> {
    hmac_sha256_tag(
        hmac_sha256_tag(
            hmac_sha256_tag(encode_utf8("TC3"@ + secret_key), encode_utf8(date)),
            encode_utf8("dnspod"@),
        ),
        encode_utf8("tc3_request"@),
    )
}

/// The `Authorization` header of a TC3-signed DNSPod call.
pub open spec fn tc3_authorization_spec(
    secret_id: Seq<char>,
    secret_key: Seq<char>,
    timestamp: Seq<char>,
    date: Seq<char>,
    payload: Seq<char>,
) -> Seq<char> {
    "TC3-HMAC-SHA256 Credential="@ + secret_id + "/"@ + tc3_scope(date)
        + ", SignedHeaders=content-type;host, Signature="@ + hex_lower(
        hmac_sha256_tag(
            tc3_signing_key(secret_key, date),
            encode_utf8(tc3_string_to_sign(timestamp, date, payload)),
        ),
    )
}

/// Signs DNSPod (Tencent Cloud API 3.0) calls.
pub struct DnspodSigner {
    pub secret_id: String,
    pub secret_key: String,
}

impl DnspodSigner {
    /// The signer of these credentials.
    pub fn new(cred: crate::dns::DnspodCredential) -> (r: DnspodSigner)
        ensures
            r.secret_id@ == cred.secret_id@,
            r.secret_key@ == cred.secret_key@,
    {
        DnspodSigner { secret_id: cred.secret_id, secret_key: cred.secret_key }
    }

    /// The `Authorization` header for a call made at `timestamp` (seconds,
    /// in decimal) on `date` (`%Y-%m-%d`, UTC) whose JSON body is `payload`.
    pub fn authorization(&self, timestamp: &str, date: &str, payload: &str) -> (r: String)
        ensures
            r@ == tc3_authorization_spec(self.secret_id@, self.secret_key@, timestamp@, date@, payload@),
    {
        let payload_hash = hex_encode(sha256(payload.as_bytes()).as_slice());
        let canonical = join2(
            "POST\n/\n\ncontent-type:application/json\nhost:dnspod.tencentcloudapi.com\n\ncontent-type;host\n",
            payload_hash.as_str(),
        );
        let scope = join2(date, "/dnspod/tc3_request");
        let canonical_hash = hex_encode(sha256(canonical.as_str().as_bytes()).as_slice());
        let mut to_sign = String::from_str("TC3-HMAC-SHA256\n");
        to_sign.append(timestamp);
        to_sign.append("\n");
        to_sign.append(scope.as_str());
        to_sign.append("\n");
        to_sign.append(canonical_hash.as_str());
        let first_key = join2("TC3", self.secret_key.as_str());
        let secret_date = hmac_sha256(first_key.as_str().as_bytes(), date.as_bytes());
        let secret_service = hmac_sha256(secret_date.as_slice(), "dnspod".as_bytes());
        let secret_signing = hmac_sha256(secret_service.as_slice(), "tc3_request".as_bytes());
        let signature = hex_encode(hmac_sha256(secret_signing.as_slice(), to_sign.as_str().as_bytes()).as_slice());
        let mut auth = String::from_str("TC3-HMAC-SHA256 Credential=");
        auth.append(self.secret_id.as_str());
        auth.append("/");
        auth.append(scope.as_str());
        auth.append(", SignedHeaders=content-type;host, Signature=");
        auth.append(signature.as_str());
        auth
    }
}

/// The path of a request split at its first `?` into the canonical URI and
/// the canonical query string (empty where there is no `?`).
pub open spec fn sigv4_path_parts(path: Seq<char>) -> (Seq<char>, Seq<char>) {
    match crate::dns::split_first(path, '?') {
        Some((uri, query)) => (uri, query),
        None => (path, Seq::empty()),
    }
}

/// The AWS host of `service`.
pub open spec fn sigv4_host(service: Seq<char>) -> Seq<char> {
    service + ".amazonaws.com"@
}

/// The canonical request of an AWS signature version 4.
pub open spec fn sigv4_canonical_request(
    method: Seq<char>,
    path: Seq<char>,
    body: Seq<char>,
    service: Seq<char>,
    amz_date: Seq<char>,
) -> Seq<char> {
    method + "\n"@ + sigv4_path_parts(path).0 + "\n"@ + sigv4_path_parts(path).1 + "\n"@ + "host:"@
        + sigv4_host(service) + "\nx-amz-date:"@ + amz_date + "\n"@ + "\n"@ + "host;x-amz-date"@ + "\n"@
        + hex_lower(sha256_digest(encode_utf8(body)))
}

/// The canonical request's last line is the lower-hex SHA-256 of the UTF-8
/// bytes of the body, after a line break, and the body enters nowhere else:
/// signing another body changes only that line.
pub proof fn law_sigv4_payload_hash(
    method: Seq<char>,
    path: Seq<char>,
    body: Seq<char>,
    other_body: Seq<char>,
    service: Seq<char>,
    amz_date: Seq<char>,
)
    ensures
        ({
            let c = sigv4_canonical_request(method, path, body, service, amz_date);
            let h = hex_lower(sha256_digest(encode_utf8(body)));
            let k = c.len() - h.len();
            &&& k >= 1
            &&& c.subrange(k, c.len() as int) == h
            &&& c[k - 1] == '\n'
            &&& sigv4_canonical_request(method, path, other_body, service, amz_date) == c.subrange(0, k)
                + hex_lower(sha256_digest(encode_utf8(other_body)))
        }),
{
    reveal_strlit("\n");
    reveal_strlit("host;x-amz-date");
    let c = sigv4_canonical_request(method, path, body, service, amz_date);
    let h = hex_lower(sha256_digest(encode_utf8(body)));
    let pre = method + "\n"@ + sigv4_path_parts(path).0 + "\n"@ + sigv4_path_parts(path).1 + "\n"@ + "host:"@
        + sigv4_host(service) + "\nx-amz-date:"@ + amz_date + "\n"@ + "\n"@ + "host;x-amz-date"@ + "\n"@;
    assert(c == pre + h);
    let k = c.len() - h.len();
    assert(k == pre.len());
    assert(c.subrange(k, c.len() as int) =~= h);
    assert(c.subrange(0, k) =~= pre);
    assert(pre[pre.len() - 1] == '\n');
}

/// The credential scope of a signature made on `date_stamp` (`%Y%m%d`).
pub open spec fn sigv4_scope(date_stamp: Seq<char>, service: Seq<char>) -> Seq<char> {
    date_stamp + "/"@ + service + "/aws4_request"@
}

/// The signing key: the secret, prefixed by `AWS4`, chained through the
/// date, the region, the service and `aws4_request`.
pub open spec fn sigv4_signing_key(
    secret: Seq<char>,
    date_stamp: Seq<char>,
    region: Seq<char>,
    service: Seq<char>,
) -> Seq<u8> {
    hmac_sha256_tag(
        hmac_sha256_tag(
            hmac_sha256_tag(
                hmac_sha256_tag(encode_utf8("AWS4"@ + secret), encode_utf8(date_stamp)),
                encode_utf8(region),
            ),
            encode_utf8(service),
        ),
        encode_utf8("aws4_request"@),
    )
}

/// The `Authorization` header of an AWS signature version 4.
pub open spec fn sigv4_authorization(
    access_key_id: Seq<char>,
    secret: Seq<char>,
    region: Seq<char>,
    method: Seq<char>,
    path: Seq<char>,
    body: Seq<char>,
    service: Seq<char>,
    amz_date: Seq<char>,
    date_stamp: Seq<char>,
) -> Seq<char> {
    let to_sign = "AWS4-HMAC-SHA256\n"@ + amz_date + "\n"@ + sigv4_scope(date_stamp, service) + "\n"@
        + hex_lower(sha256_digest(encode_utf8(sigv4_canonical_request(method, path, body, service, amz_date))));
    "AWS4-HMAC-SHA256 Credential="@ + access_key_id + "/"@ + sigv4_scope(date_stamp, service)
        + ", SignedHeaders="@ + "host;x-amz-date"@ + ", Signature="@ + hex_lower(
        hmac_sha256_tag(sigv4_signing_key(secret, date_stamp, region, service), encode_utf8(to_sign)),
    )
}

/// A signed AWS request: where it goes and the headers that carry the
/// signature.
pub struct SignedRequest {
    pub url: String,
    pub host: String,
    pub amz_date: String,
    pub authorization: String,
}

/// Signs Route53 calls with AWS signature version 4.
pub struct Route53Signer {
    pub access_key_id: String,
    pub secret_access_key: String,
    pub region: String,
}

impl Route53Signer {
    /// The signer of these credentials; the region defaults to `us-east-1`.
    pub fn new(cred: crate::dns::Route53Credential) -> (r: Route53Signer)
        ensures
            r.access_key_id@ == cred.access_key_id@,
            r.secret_access_key@ == cred.secret_access_key@,
            r.region@ == (match cred.region {
                Some(region) => region@,
                None => "us-east-1"@,
            }),
    {
        let region = match cred.region {
            Some(region) => region,
            None => String::from_str("us-east-1"),
        };
        Route53Signer { access_key_id: cred.access_key_id, secret_access_key: cred.secret_access_key, region }
    }

    /// Signs a call of `method` on `path` (with its query) of `service`, with
    /// `body`, made at `amz_date` (`%Y%m%dT%H%M%SZ`) on `date_stamp`
    /// (`%Y%m%d`), both UTC.
    pub fn sign(
        &self,
        method: &str,
        path: &str,
        body: &str,
        service: &str,
        amz_date: &str,
        date_stamp: &str,
    ) -> (r: SignedRequest)
        ensures
            r.host@ == sigv4_host(service@),
            r.url@ == "https://"@ + sigv4_host(service@) + path@,
            r.amz_date@ == amz_date@,
            r.authorization@ == sigv4_authorization(
                self.access_key_id@,
                self.secret_access_key@,
                self.region@,
                method@,
                path@,
                body@,
                service@,
                amz_date@,
                date_stamp@,
            ),
    {
        let host = join2(service, ".amazonaws.com");
        proof {
            reveal_strlit("?");
        }
        let (uri, query) = match crate::dns::split_first_exec(path, "?") {
            Some((uri, query)) => (uri, query),
            None => (String::from_str(path), String::new()),
        };
        let payload_hash = hex_encode(sha256(body.as_bytes()).as_slice());
        let mut canonical = String::from_str(method);
        canonical.append("\n");
        canonical.append(uri.as_str());
        canonical.append("\n");
        canonical.append(query.as_str());
        canonical.append("\n");
        canonical.append("host:");
        canonical.append(host.as_str());
        canonical.append("\nx-amz-date:");
        canonical.append(amz_date);
        canonical.append("\n");
        canonical.append("\n");
        canonical.append("host;x-amz-date");
        canonical.append("\n");
        canonical.append(payload_hash.as_str());
        let mut scope = String::from_str(date_stamp);
        scope.append("/");
        scope.append(service);
        scope.append("/aws4_request");
        let canonical_hash = hex_encode(sha256(canonical.as_str().as_bytes()).as_slice());
        let mut to_sign = String::from_str("AWS4-HMAC-SHA256\n");
        to_sign.append(amz_date);
        to_sign.append("\n");
        to_sign.append(scope.as_str());
        to_sign.append("\n");
        to_sign.append(canonical_hash.as_str());
        let first_key = join2("AWS4", self.secret_access_key.as_str());
        let k_date = hmac_sha256(first_key.as_str().as_bytes(), date_stamp.as_bytes());
        let k_region = hmac_sha256(k_date.as_slice(), self.region.as_str().as_bytes());
        let k_service = hmac_sha256(k_region.as_slice(), service.as_bytes());
        let k_signing = hmac_sha256(k_service.as_slice(), "aws4_request".as_bytes());
        let signature = hex_encode(hmac_sha256(k_signing.as_slice(), to_sign.as_str().as_bytes()).as_slice());
        let mut auth = String::from_str("AWS4-HMAC-SHA256 Credential=");
        auth.append(self.access_key_id.as_str());
        auth.append("/");
        auth.append(scope.as_str());
        auth.append(", SignedHeaders=");
        auth.append("host;x-amz-date");
        auth.append(", Signature=");
        auth.append(signature.as_str());
        let url = join2("https://", host.as_str());
        let mut full = url;
        full.append(path);
        SignedRequest { url: full, host, amz_date: String::from_str(amz_date), authorization: auth }
    }
}

} // verus!
