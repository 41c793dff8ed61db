//! Bearer tokens and the payload of a JWT: normalising a token, reading its
//! claims, the user id and expiry it carries; reply codes and JSON scalars.
use vstd::prelude::*;

use base64::DecodeError;
use base64::Engine;

use crate::json::{
    digits, direct_key_text, non_empty_text, entries_get, parse_json_text, scalar_text, serde_json_value_from_str,
    text_opt, tree_as_i64, JsonObject, JsonTree, JsonValue,
};
use crate::text::{
    all_ws, chars_of, chars_start_with, concat_str, find_char, find_char_index, is_ws,
    lacks_char, lemma_find_char_absent, lemma_find_char_append, lemma_find_char_bound,
    lemma_trim_of, lemma_trim_split, lemma_ws_lacks_dot, starts_with, str_eq, string_of,
    sub_chars, trim, trim_chars, trim_end, trim_start,
};
use crate::types::{is_success, success_code, Error, Result};

pub use crate::json::find_first_key;

verus! {

/// `"Bearer "`, the prefix a token may come with.
pub open spec fn bearer_prefix() -> Seq<char> {
    seq!['B', 'e', 'a', 'r', 'e', 'r', ' ']
}

/// `"bearer "`, the same prefix in lower case.
pub open spec fn bearer_prefix_lower() -> Seq<char> {
    seq!['b', 'e', 'a', 'r', 'e', 'r', ' ']
}

/// A token without surrounding whitespace and without one leading
/// `"Bearer "` or `"bearer "` (itself trimmed after the prefix goes).
pub open spec fn normalized(token: Seq<char>) -> Seq<char> {
    let t = trim(token);
    if starts_with(t, bearer_prefix()) || starts_with(t, bearer_prefix_lower()) {
        trim(t.skip(7))
    } else {
        t
    }
}

/// The characters of an optional text; none for an absent one.
pub open spec fn opt_text(token: Option<&str>) -> Seq<char> {
    match token {
        Some(t) => t@,
        None => Seq::empty(),
    }
}

fn prefix_chars(lower: bool) -> (r: Vec<char>)
    ensures
        r@ == (if lower {
            bearer_prefix_lower()
        } else {
            bearer_prefix()
        }),
{
    let mut v: Vec<char> = Vec::new();
    v.push(if lower { 'b' } else { 'B' });
    v.push('e');
    v.push('a');
    v.push('r');
    v.push('e');
    v.push('r');
    v.push(' ');
    assert(v@ =~= (if lower {
        bearer_prefix_lower()
    } else {
        bearer_prefix()
    }));
    v
}

/// Removes surrounding whitespace and a leading `"Bearer "` or `"bearer "`.
pub fn normalize_token(token: Option<&str>) -> (r: String)
    ensures
        r@ == normalized(opt_text(token)),
{
    let raw = match token {
        Some(t) => chars_of(t),
        None => Vec::new(),
    };
    let t = trim_chars(raw.as_slice());
    let upper = prefix_chars(false);
    let lower = prefix_chars(true);
    if chars_start_with(t.as_slice(), upper.as_slice()) || chars_start_with(
        t.as_slice(),
        lower.as_slice(),
    ) {
        let rest = sub_chars(t.as_slice(), 7, t.len());
        assert(rest@ =~= t@.skip(7));
        let n = trim_chars(rest.as_slice());
        string_of(n.as_slice())
    } else {
        string_of(t.as_slice())
    }
}

/// A normalised token has no whitespace at either end.
pub proof fn lemma_normalized_is_trimmed(token: Seq<char>)
    ensures
        normalized(token).len() > 0 ==> !crate::text::is_ws(normalized(token)[0])
            && !crate::text::is_ws(normalized(token).last()),
        trim(normalized(token)) == normalized(token),
{
    let t = trim(token);
    crate::text::lemma_trim_ends(token);
    crate::text::lemma_trim_ends(t.skip(7));
    crate::text::lemma_trim_idempotent(token);
    crate::text::lemma_trim_idempotent(t.skip(7));
}

/// The second `.`-separated segment of a text with at least one `.`.
pub open spec fn jwt_payload_segment(n: Seq<char>) -> Option<Seq<char>> {
    let i = find_char(n, '.');
    if i >= n.len() {
        None
    } else {
        let rest = n.skip(i as int + 1);
        Some(rest.take(find_char(rest, '.') as int))
    }
}

/// The `=` characters that pad a base64 text of `byte_len` bytes to a
/// multiple of four.
pub open spec fn padding(byte_len: nat) -> Seq<char> {
    Seq::new(((4 - byte_len % 4) % 4) as nat, |i: int| '=')
}

/// A base64 segment padded to a multiple of four bytes.
pub open spec fn padded(seg: Seq<char>) -> Seq<char> {
    seg + padding(vstd::utf8::encode_utf8(seg).len())
}

/// Why `base64` refuses a text, as its `DecodeError` says: an invalid
/// symbol (offset, byte), an invalid length (in symbols), an invalid last
/// symbol (offset, byte), or padding that is not canonical.
#[derive(Clone, Copy, Debug, PartialEq, Eq, Structural)]
pub enum Base64Error {
    InvalidByte(usize, u8),
    InvalidLength(usize),
    InvalidLastSymbol(usize, u8),
    InvalidPadding,
}

/// The message `DecodeError` displays for each reason.
pub open spec fn base64_error_text(e: Base64Error) -> Seq<char> {
    match e {
        Base64Error::InvalidByte(index, byte) => "Invalid symbol "@ + digits(byte as nat)
            + ", offset "@ + digits(index as nat) + "."@,
        Base64Error::InvalidLength(len) => "Invalid input length: "@ + digits(len as nat),
        Base64Error::InvalidLastSymbol(index, byte) => "Invalid last symbol "@ + digits(
            byte as nat,
        ) + ", offset "@ + digits(index as nat) + "."@,
        Base64Error::InvalidPadding => "Invalid padding"@,
    }
}

/// What `base64`'s `URL_SAFE` engine decodes a text to, or why it refuses
/// the text.
pub uninterp spec fn base64_url_safe_decoded(input: Seq<char>) -> core::result::Result<Seq<u8>, Base64Error>;

/// The text `String::from_utf8_lossy` reads from bytes.
pub uninterp spec fn utf8_lossy(bytes: Seq<u8>) -> Seq<char>;

/// How reading the payload of a token ends.
pub enum PayloadOutcome {
    /// The payload's fields; none where the token has no payload or the
    /// payload is not an object.
    Decoded(Seq<(Seq<char>, JsonTree)>),
    /// The payload segment is not base64, for this reason.
    BadBase64(Base64Error),
    /// The decoded payload is not JSON.
    BadJson,
}

/// The payload of a JWT, unverified: the second segment of the normalised
/// token, padded, base64-decoded, read as UTF-8 and parsed as JSON.
pub open spec fn jwt_payload(token: Seq<char>) -> PayloadOutcome {
    let n = normalized(token);
    if n.len() == 0 {
        PayloadOutcome::Decoded(Seq::empty())
    } else {
        match jwt_payload_segment(n) {
            None => PayloadOutcome::Decoded(Seq::empty()),
            Some(seg) => match base64_url_safe_decoded(padded(seg)) {
                Err(e) => PayloadOutcome::BadBase64(e),
                Ok(bytes) => match serde_json_value_from_str(utf8_lossy(bytes)) {
                    None => PayloadOutcome::BadJson,
                    Some(JsonTree::Object(es)) => PayloadOutcome::Decoded(es),
                    Some(_) => PayloadOutcome::Decoded(Seq::empty()),
                },
            },
        }
    }
}

/// A token with no `.` once normalised has no payload: reading it gives an
/// empty object, as does an empty token.
pub proof fn lemma_token_without_payload(token: Seq<char>)
    requires
        find_char(normalized(token), '.') == normalized(token).len(),
    ensures
        jwt_payload(token) == PayloadOutcome::Decoded(Seq::empty()),
{
}

/// `"Bearer "` and `"bearer "`: seven characters, none a `.`, starting with
/// a letter and ending in a space.
proof fn lemma_prefix_facts(p: Seq<char>)
    requires
        p == bearer_prefix() || p == bearer_prefix_lower(),
    ensures
        p.len() == 7,
        lacks_char(p, '.'),
        !is_ws(p[0]),
        !is_ws(p[5]),
        p[6] == ' ',
        is_ws(' '),
{
}

/// A text that starts with a part free of `.` and of whitespace, then a `.`,
/// does not start with a bearer prefix.
proof fn lemma_dotted_not_bearer(h: Seq<char>, r: Seq<char>)
    requires
        lacks_char(h, '.'),
        forall|i: int| 0 <= i < h.len() ==> !is_ws(#[trigger] h[i]),
        r.len() > 0,
        r[0] == '.',
    ensures
        !starts_with(h + r, bearer_prefix()),
        !starts_with(h + r, bearer_prefix_lower()),
{
    let x = h + r;
    lemma_prefix_facts(bearer_prefix());
    lemma_prefix_facts(bearer_prefix_lower());
    if h.len() >= 7 {
        assert(x[6] == h[6]);
        assert(!is_ws(h[6]));
        if starts_with(x, bearer_prefix()) || starts_with(x, bearer_prefix_lower()) {
            assert(x.take(7)[6] == x[6]);
        }
    } else {
        let k = h.len() as int;
        assert(x[k] == '.');
        if starts_with(x, bearer_prefix()) {
            assert(x.take(7)[k] == x[k]);
        }
        if starts_with(x, bearer_prefix_lower()) {
            assert(x.take(7)[k] == x[k]);
        }
    }
}

/// The payload segment lies past the first `.`: a part free of `.` in
/// front does not move it.
proof fn lemma_segment_skip(y: Seq<char>, z: Seq<char>)
    requires
        lacks_char(y, '.'),
    ensures
        jwt_payload_segment(y + z) == jwt_payload_segment(z),
{
    lemma_find_char_append(y, z, '.');
    lemma_find_char_bound(z, '.');
    let i = find_char(z, '.') as int;
    if i < z.len() {
        assert((y + z).skip(y.len() + i + 1) =~= z.skip(i + 1));
    }
}

/// The segment of `.p` followed by a `.` or the end is `p`.
proof fn lemma_segment_of(p: Seq<char>, tail: Seq<char>)
    requires
        lacks_char(p, '.'),
        tail.len() == 0 || tail[0] == '.',
    ensures
        jwt_payload_segment(seq!['.'] + p + tail) == Some(p),
{
    let z = seq!['.'] + p + tail;
    assert(z[0] == '.');
    assert(find_char(z, '.') == 0);
    let rest = z.skip(1);
    assert(rest =~= p + tail);
    lemma_find_char_append(p, tail, '.');
    if tail.len() > 0 {
        assert(find_char(tail, '.') == 0);
    }
    assert(rest.take(p.len() as int) =~= p);
}

/// Tokens whose normalised forms have the same payload segment have the same
/// payload.
proof fn lemma_payload_by_segment(a: Seq<char>, b: Seq<char>)
    requires
        jwt_payload_segment(normalized(a)) == jwt_payload_segment(normalized(b)),
    ensures
        jwt_payload(a) == jwt_payload(b),
        token_user_id(a) == token_user_id(b),
        token_exp(a) == token_exp(b),
{
}

/// Whitespace around a token is trimmed away before anything is read.
proof fn lemma_trim_ignores_whitespace(w1: Seq<char>, t: Seq<char>, w2: Seq<char>)
    requires
        all_ws(w1),
        all_ws(w2),
    ensures
        trim(w1 + t + w2) == trim(t),
{
    let (a, b) = lemma_trim_split(t);
    crate::text::lemma_trim_ends(t);
    assert(w1 + t + w2 =~= (w1 + a) + trim(t) + (b + w2));
    assert forall|i: int| 0 <= i < (w1 + a).len() implies is_ws(#[trigger] (w1 + a)[i]) by {
        if i < w1.len() {
            assert((w1 + a)[i] == w1[i]);
        } else {
            assert((w1 + a)[i] == a[i - w1.len()]);
        }
    }
    assert forall|i: int| 0 <= i < (b + w2).len() implies is_ws(#[trigger] (b + w2)[i]) by {
        if i < b.len() {
            assert((b + w2)[i] == b[i]);
        } else {
            assert((b + w2)[i] == w2[i - b.len()]);
        }
    }
    lemma_trim_of(w1 + a, trim(t), b + w2);
}

/// One bearer prefix in front of a token does not change its payload segment.
proof fn lemma_segment_ignores_prefix(p: Seq<char>, t: Seq<char>)
    requires
        p == bearer_prefix() || p == bearer_prefix_lower(),
    ensures
        jwt_payload_segment(normalized(p + t)) == jwt_payload_segment(normalized(t)),
{
    lemma_prefix_facts(p);
    let (a, b) = lemma_trim_split(t);
    let u = trim(t);
    crate::text::lemma_trim_ends(t);
    let s = p + t;
    let e = Seq::<char>::empty();
    if u.len() == 0 {
        let m = p.take(6);
        let rest = seq![' '] + a + b;
        assert(s =~= e + m + rest);
        assert forall|i: int| 0 <= i < rest.len() implies is_ws(#[trigger] rest[i]) by {
            if i == 0 {
            } else if i < 1 + a.len() {
                assert(rest[i] == a[i - 1]);
            } else {
                assert(rest[i] == b[i - 1 - a.len()]);
            }
        }
        assert(m[0] == p[0]);
        assert(m.last() == p[5]);
        lemma_trim_of(e, m, rest);
        assert forall|i: int| 0 <= i < m.len() implies #[trigger] m[i] != '.' by {
            assert(m[i] == p[i]);
        }
        lemma_find_char_absent(m, '.');
        assert(normalized(s) == m);
        assert(normalized(t) =~= e);
    } else {
        let m = p + a + u;
        assert(s =~= e + m + b);
        assert(m[0] == p[0]);
        assert(m.last() == u.last());
        lemma_trim_of(e, m, b);
        assert(m.take(7) =~= p);
        assert(m.skip(7) =~= a + u + e);
        lemma_trim_of(a, u, e);
        assert(normalized(s) == u);
        if starts_with(u, bearer_prefix()) || starts_with(u, bearer_prefix_lower()) {
            let q = u.take(7);
            lemma_prefix_facts(q);
            let rest = u.skip(7);
            assert(u =~= q + rest);
            assert(u.len() > 7) by {
                if u.len() == 7 {
                    assert(u.last() == q[6]);
                }
            }
            assert(rest.last() == u.last());
            let (c, d) = lemma_trim_split(rest);
            let v = trim(rest);
            assert(d.len() == 0) by {
                if d.len() > 0 {
                    assert(rest.last() == d.last());
                    assert(is_ws(d[d.len() - 1]));
                }
            }
            assert(rest =~= c + v);
            assert(normalized(t) == v);
            lemma_segment_skip(q, rest);
            lemma_ws_lacks_dot(c);
            lemma_segment_skip(c, v);
        }
    }
}

/// A token's payload, and the user id and expiry it carries, are the same
/// with any whitespace around it, and with one `Bearer ` or `bearer ` prefix
/// in front of it.
pub proof fn lemma_payload_ignores_bearer_and_whitespace(
    t: Seq<char>,
    w1: Seq<char>,
    w2: Seq<char>,
)
    requires
        all_ws(w1),
        all_ws(w2),
    ensures
        jwt_payload(w1 + t + w2) == jwt_payload(t),
        token_user_id(w1 + t + w2) == token_user_id(t),
        token_exp(w1 + t + w2) == token_exp(t),
        jwt_payload(bearer_prefix() + t) == jwt_payload(t),
        token_user_id(bearer_prefix() + t) == token_user_id(t),
        token_exp(bearer_prefix() + t) == token_exp(t),
        jwt_payload(bearer_prefix_lower() + t) == jwt_payload(t),
        token_user_id(bearer_prefix_lower() + t) == token_user_id(t),
        token_exp(bearer_prefix_lower() + t) == token_exp(t),
{
    lemma_trim_ignores_whitespace(w1, t, w2);
    lemma_payload_by_segment(w1 + t + w2, t);
    lemma_segment_ignores_prefix(bearer_prefix(), t);
    lemma_payload_by_segment(bearer_prefix() + t, t);
    lemma_segment_ignores_prefix(bearer_prefix_lower(), t);
    lemma_payload_by_segment(bearer_prefix_lower() + t, t);
}

/// The signature is never read: a token `h.p.s` has the payload of `h.p`,
/// whatever `s` is, and so has `Bearer h.p` (for a header `h` and payload
/// `p` that are not empty and hold neither `.` nor whitespace).
pub proof fn lemma_signature_ignored(h: Seq<char>, p: Seq<char>, s: Seq<char>)
    requires
        h.len() > 0,
        p.len() > 0,
        lacks_char(h, '.'),
        lacks_char(p, '.'),
        forall|i: int| 0 <= i < h.len() ==> !is_ws(#[trigger] h[i]),
        forall|i: int| 0 <= i < p.len() ==> !is_ws(#[trigger] p[i]),
    ensures
        jwt_payload(h + seq!['.'] + p + seq!['.'] + s) == jwt_payload(h + seq!['.'] + p),
        token_user_id(h + seq!['.'] + p + seq!['.'] + s) == token_user_id(h + seq!['.'] + p),
        token_exp(h + seq!['.'] + p + seq!['.'] + s) == token_exp(h + seq!['.'] + p),
        jwt_payload(bearer_prefix() + (h + seq!['.'] + p)) == jwt_payload(h + seq!['.'] + p),
        token_user_id(bearer_prefix() + (h + seq!['.'] + p)) == token_user_id(h + seq!['.'] + p),
        token_exp(bearer_prefix() + (h + seq!['.'] + p)) == token_exp(h + seq!['.'] + p),
{
    let dot = seq!['.'];
    let e = Seq::<char>::empty();
    let x2 = h + dot + p;
    assert(x2[0] == h[0]);
    assert(x2.last() == p[p.len() - 1]);
    assert(e + x2 + e =~= x2);
    lemma_trim_of(e, x2, e);
    assert(x2 =~= h + (dot + p));
    lemma_dotted_not_bearer(h, dot + p);
    assert(normalized(x2) == x2);
    lemma_segment_skip(h, dot + p);
    assert(dot + p =~= dot + p + e);
    lemma_segment_of(p, e);
    let a = h + dot + p + dot;
    let x1 = a + s;
    assert(x1 =~= h + dot + p + dot + s);
    assert(x1[0] == h[0]);
    assert(trim_start(x1) == x1);
    assert(a.last() == '.');
    crate::text::lemma_trim_end_append(a, s);
    let te = trim_end(s);
    let n1 = a + te;
    assert(n1 =~= h + (dot + p + (dot + te)));
    lemma_dotted_not_bearer(h, dot + p + (dot + te));
    assert(normalized(x1) == n1);
    lemma_segment_skip(h, dot + p + (dot + te));
    lemma_segment_of(p, dot + te);
    lemma_payload_by_segment(x1, x2);
    lemma_payload_ignores_bearer_and_whitespace(x2, e, e);
}

/// Decodes base64 with `base64::engine::general_purpose::URL_SAFE` (URL-safe
/// alphabet, padding required); a refusal comes back as its `DecodeError`
/// variant. The result is named, not described.
#[verifier::external_body]
fn url_safe_decode(input: &str) -> (r: core::result::Result<Vec<u8>, Base64Error>)
    ensures
        match r {
            Ok(bytes) => base64_url_safe_decoded(input@) == Ok::<Seq<u8>, Base64Error>(bytes@),
            Err(e) => base64_url_safe_decoded(input@) == Err::<Seq<u8>, Base64Error>(e),
        },
{
    match base64::engine::general_purpose::URL_SAFE.decode(input) {
        Ok(bytes) => Ok(bytes),
        Err(DecodeError::InvalidByte(i, b)) => Err(Base64Error::InvalidByte(i, b)),
        Err(DecodeError::InvalidLength(n)) => Err(Base64Error::InvalidLength(n)),
        Err(DecodeError::InvalidLastSymbol(i, b)) => Err(Base64Error::InvalidLastSymbol(i, b)),
        Err(DecodeError::InvalidPadding) => Err(Base64Error::InvalidPadding),
    }
}

/// `String::from_utf8_lossy`: the text of the bytes, each invalid sequence
/// replaced by U+FFFD. Only what its documentation says is stated: valid
/// UTF-8 comes back as the text it encodes.
#[verifier::external_body]
fn from_utf8_lossy(bytes: &[u8]) -> (r: String)
    ensures
        r@ == utf8_lossy(bytes@),
        vstd::utf8::valid_utf8(bytes@) ==> r@ == vstd::utf8::decode_utf8(bytes@),
{
    String::from_utf8_lossy(bytes).into_owned()
}

fn utf8_width(c: char) -> (r: usize)
    ensures
        r == vstd::utf8::encode_scalar(c as u32).len(),
{
    proof {
        vstd::utf8::char_is_scalar(c);
    }
    let u = c as u32;
    if u <= 0x7F {
        1
    } else if u <= 0x7FF {
        2
    } else if u <= 0xFFFF {
        3
    } else {
        4
    }
}

/// The length of the UTF-8 encoding of `s`, modulo four.
fn utf8_len_mod4(s: &[char]) -> (r: usize)
    ensures
        r == vstd::utf8::encode_utf8(s@).len() % 4,
{
    let mut i: usize = s.len();
    let mut m: usize = 0;
    assert(s@.skip(s.len() as int) =~= Seq::<char>::empty());
    while i > 0
        invariant
            i <= s.len(),
            m == vstd::utf8::encode_utf8(s@.skip(i as int)).len() % 4,
        decreases i,
    {
        let w = utf8_width(s[i - 1]);
        proof {
            let t = s@.skip(i - 1);
            assert(t.drop_first() =~= s@.skip(i as int));
            assert(t[0] == s@[i - 1]);
        }
        m = (m + w) % 4;
        i = i - 1;
    }
    assert(s@.skip(0) =~= s@);
    m
}

/// The decimal digits of `n` appended to `s`.
fn push_decimal(s: String, n: usize) -> (r: String)
    ensures
        r@ == s@ + digits(n as nat),
{
    let mut s = s;
    crate::json::push_digits(&mut s, n as u64);
    s
}

/// The message `DecodeError` displays for a reason.
pub fn base64_error_message(e: Base64Error) -> (r: String)
    ensures
        r@ == base64_error_text(e),
{
    match e {
        Base64Error::InvalidByte(index, byte) => {
            let m = push_decimal("Invalid symbol ".to_owned(), byte as usize);
            let m = push_decimal(concat_str(m.as_str(), ", offset "), index);
            concat_str(m.as_str(), ".")
        },
        Base64Error::InvalidLength(len) => push_decimal("Invalid input length: ".to_owned(), len),
        Base64Error::InvalidLastSymbol(index, byte) => {
            let m = push_decimal("Invalid last symbol ".to_owned(), byte as usize);
            let m = push_decimal(concat_str(m.as_str(), ", offset "), index);
            concat_str(m.as_str(), ".")
        },
        Base64Error::InvalidPadding => "Invalid padding".to_owned(),
    }
}

/// Reads the payload of a JWT without checking its signature: the second
/// `.`-separated segment of the normalised token, padded, base64-decoded
/// (URL-safe alphabet), read as UTF-8 and parsed as JSON. An empty token, a
/// token without `.` and a payload that is not an object give an empty
/// object.
pub fn decode_jwt_payload(token: Option<&str>) -> (r: Result<JsonObject>)
    ensures
        match jwt_payload(opt_text(token)) {
            PayloadOutcome::Decoded(es) => r matches Ok(o) && o@ == es,
            PayloadOutcome::BadBase64(e) => r matches Err(Error::Other(m)) && m@
                == "base64 decode error: "@ + base64_error_text(e),
            PayloadOutcome::BadJson => r matches Err(Error::Json(_)),
        },
{
    let normalized = normalize_token(token);
    let n = chars_of(normalized.as_str());
    if n.len() == 0 {
        return Ok(JsonObject::new());
    }
    let i = find_char_index(n.as_slice(), '.');
    if i == n.len() {
        return Ok(JsonObject::new());
    }
    let rest = sub_chars(n.as_slice(), i + 1, n.len());
    assert(rest@ =~= n@.skip(i + 1));
    let j = find_char_index(rest.as_slice(), '.');
    let seg = sub_chars(rest.as_slice(), 0, j);
    assert(seg@ =~= rest@.take(j as int));
    let mut text = string_of(seg.as_slice());
    let pad = (4 - utf8_len_mod4(seg.as_slice())) % 4;
    let ghost seg_text = text@;
    let mut k: usize = 0;
    while k < pad
        invariant
            k <= pad,
            pad == (4 - vstd::utf8::encode_utf8(seg_text).len() % 4) % 4,
            text@ == seg_text + Seq::new(k as nat, |m: int| '='),
        decreases pad - k,
    {
        text.push('=');
        k = k + 1;
        assert(text@ =~= seg_text + Seq::new(k as nat, |m: int| '='));
    }
    assert(text@ =~= padded(seg@));
    let bytes = match url_safe_decode(text.as_str()) {
        Ok(b) => b,
        Err(e) => {
            let text = base64_error_message(e);
            return Err(Error::Other(concat_str("base64 decode error: ", text.as_str())));
        },
    };
    let json_text = from_utf8_lossy(bytes.as_slice());
    let parsed = match parse_json_text(json_text.as_str()) {
        Ok(v) => v,
        Err(e) => {
            return Err(Error::Json(e));
        },
    };
    match parsed.into_object() {
        Some(o) => Ok(o),
        None => Ok(JsonObject::new()),
    }
}

/// The claims a user id is read from, in order: `userId`, `user_id`, `uid`,
/// `sub`.
pub open spec fn user_id_claims() -> Seq<Seq<char>> {
    seq![
        seq!['u', 's', 'e', 'r', 'I', 'd'],
        seq!['u', 's', 'e', 'r', '_', 'i', 'd'],
        seq!['u', 'i', 'd'],
        seq!['s', 'u', 'b'],
    ]
}

/// The user id a token carries: the first of the claims `userId`, `user_id`,
/// `uid`, `sub` that holds a non-blank string (trimmed) or a number.
pub open spec fn token_user_id(token: Seq<char>) -> Option<Seq<char>> {
    match jwt_payload(token) {
        PayloadOutcome::Decoded(es) => direct_key_text(es, user_id_claims()),
        _ => None,
    }
}

/// Infers the user id from a token's payload.
pub fn infer_user_id_from_token(token: &str) -> (r: Option<String>)
    ensures
        text_opt(r) == token_user_id(token@),
{
    let payload = match decode_jwt_payload(Some(token)) {
        Ok(p) => p,
        Err(_) => {
            return None;
        },
    };
    let mut keys: Vec<&str> = Vec::new();
    keys.push("userId");
    keys.push("user_id");
    keys.push("uid");
    keys.push("sub");
    proof {
        reveal_strlit("userId");
        reveal_strlit("user_id");
        reveal_strlit("uid");
        reveal_strlit("sub");
        assert("userId"@ =~= user_id_claims()[0]);
        assert("user_id"@ =~= user_id_claims()[1]);
        assert("uid"@ =~= user_id_claims()[2]);
        assert("sub"@ =~= user_id_claims()[3]);
        assert(crate::json::keys_view(keys@) =~= user_id_claims());
    }
    payload.first_text_of(keys.as_slice())
}

/// The claims are read in a fixed priority: a non-blank `userId` (string,
/// trimmed, or number) is the user id whatever the other claims hold; without
/// it `user_id`, then `uid`, then `sub`; a payload with none of them, or one
/// that cannot be read, gives none.
pub proof fn lemma_user_id_claim_priority(token: Seq<char>)
    ensures
        jwt_payload(token) matches PayloadOutcome::Decoded(es) ==> ({
            let from = |k: Seq<char>|
                match entries_get(es, k) {
                    Some(v) => non_empty_text(v),
                    None => None,
                };
            &&& from("userId"@) is Some ==> token_user_id(token) == from("userId"@)
            &&& from("userId"@) is None && from("user_id"@) is Some ==> token_user_id(token)
                == from("user_id"@)
            &&& from("userId"@) is None && from("user_id"@) is None && from("uid"@) is Some
                ==> token_user_id(token) == from("uid"@)
            &&& from("userId"@) is None && from("user_id"@) is None && from("uid"@) is None
                ==> token_user_id(token) == from("sub"@)
        }),
        !(jwt_payload(token) is Decoded) ==> token_user_id(token) is None,
{
    reveal_strlit("userId");
    reveal_strlit("user_id");
    reveal_strlit("uid");
    reveal_strlit("sub");
    let ks = user_id_claims();
    assert("userId"@ =~= ks[0]);
    assert("user_id"@ =~= ks[1]);
    assert("uid"@ =~= ks[2]);
    assert("sub"@ =~= ks[3]);
    assert(ks.drop_first()[0] == ks[1]);
    assert(ks.drop_first().drop_first()[0] == ks[2]);
    assert(ks.drop_first().drop_first().drop_first()[0] == ks[3]);
    assert(ks.drop_first().drop_first().drop_first().drop_first().len() == 0);
    if let PayloadOutcome::Decoded(es) = jwt_payload(token) {
        reveal_with_fuel(direct_key_text, 5);
    }
}

/// `"exp"`, the expiry claim.
pub open spec fn exp_claim() -> Seq<char> {
    seq!['e', 'x', 'p']
}

/// The expiry a token carries: its `exp` claim where that is an integer.
pub open spec fn token_exp(token: Seq<char>) -> Option<i64> {
    match jwt_payload(token) {
        PayloadOutcome::Decoded(es) => match entries_get(es, exp_claim()) {
            Some(v) => tree_as_i64(v),
            None => None,
        },
        _ => None,
    }
}

/// The expiry a token carries, in seconds since the Unix epoch: its `exp`
/// claim, where that is an integer.
pub fn token_expiry_seconds(token: Option<&str>) -> (r: Option<i64>)
    ensures
        r == token_exp(opt_text(token)),
{
    let payload = match decode_jwt_payload(token) {
        Ok(p) => p,
        Err(_) => {
            return None;
        },
    };
    proof {
        reveal_strlit("exp");
        assert("exp"@ =~= exp_claim());
    }
    match payload.get("exp") {
        Some(v) => v.as_i64(),
        None => None,
    }
}

/// A JSON string as it stands, the text of a number, or `true` / `false`.
pub fn parse_json_value_as_string(value: &JsonValue) -> (r: Option<String>)
    ensures
        text_opt(r) == scalar_text(value.tree()),
{
    crate::json::scalar_as_string(value)
}

/// Whether an error code, given as text, is the success code `"200"`.
pub fn is_success_code(errno: Option<&str>) -> (r: bool)
    ensures
        r == is_success(
            match errno {
                Some(e) => Some(e@),
                None => None,
            },
        ),
{
    match errno {
        Some(e) => {
            proof {
                reveal_strlit("200");
                assert("200"@ =~= success_code());
            }
            str_eq(e, "200")
        },
        None => false,
    }
}

} // verus!
