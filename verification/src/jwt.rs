//! The payload of a JSON Web Token: the second `.`-separated segment, decoded
//! from unpadded URL-safe base64. Turning the decoded bytes into JSON is left
//! to the caller.
use vstd::prelude::*;
use crate::text::{chars_of, lemma_char_index_at, second_field, second_field_bounds, string_of_range};

verus! {

/// What `base64`'s `URL_SAFE_NO_PAD` engine decodes `text` to (its UTF-8
/// bytes taken as the input), or `None` where it reports an error.
pub uninterp spec fn base64_url_no_pad_decode(text: Seq<char>) -> Option<Seq<u8>>;

/// The character of the URL-safe base64 alphabet
/// (`A`-`Z`, `a`-`z`, `0`-`9`, `-`, `_`) for the 6-bit value `v`.
pub open spec fn url_safe_digit(v: int) -> char {
    if v < 26 {
        (65 + v) as char
    } else if v < 52 {
        (97 + v - 26) as char
    } else if v < 62 {
        (48 + v - 52) as char
    } else if v == 62 {
        '-'
    } else {
        '_'
    }
}

/// `bytes` in URL-safe base64 without padding (RFC 4648, section 5, with
/// the `=` signs left off): each group of three bytes gives four digits, a
/// last group of one or two bytes gives two or three, the unused low bits
/// of its last digit being zero.
pub open spec fn url_safe_no_pad_encoding(bytes: Seq<u8>) -> Seq<char>
    decreases bytes.len(),
{
    if bytes.len() == 0 {
        Seq::empty()
    } else if bytes.len() == 1 {
        let a = bytes[0] as int;
        seq![url_safe_digit(a / 4), url_safe_digit((a % 4) * 16)]
    } else if bytes.len() == 2 {
        let a = bytes[0] as int;
        let b = bytes[1] as int;
        seq![url_safe_digit(a / 4), url_safe_digit((a % 4) * 16 + b / 16), url_safe_digit((b % 16) * 4)]
    } else {
        let a = bytes[0] as int;
        let b = bytes[1] as int;
        let c = bytes[2] as int;
        seq![
            url_safe_digit(a / 4),
            url_safe_digit((a % 4) * 16 + b / 16),
            url_safe_digit((b % 16) * 4 + c / 64),
            url_safe_digit(c % 64),
        ] + url_safe_no_pad_encoding(bytes.skip(3))
    }
}

/// `base64::Engine::decode` with `base64::engine::general_purpose::URL_SAFE_NO_PAD`.
/// The contract names the result (`base64_url_no_pad_decode`): the decoded
/// bytes depend on `text` alone. It also claims that the encoding of any
/// bytes (which has no padding and zero trailing bits, as this engine
/// requires) decodes to those bytes.
#[verifier::external_body]
fn decode_url_safe_no_pad(text: &str) -> (r: Option<Vec<u8>>)
    ensures
        match base64_url_no_pad_decode(text@) {
            Some(bytes) => r matches Some(v) && v@ == bytes,
            None => r is None,
        },
        r matches Some(v) ==> forall|bytes: Seq<u8>| #[trigger] url_safe_no_pad_encoding(bytes) == text@ ==> v@ == bytes,
        (exists|bytes: Seq<u8>| #[trigger] url_safe_no_pad_encoding(bytes) == text@) ==> r is Some,
{
    base64::Engine::decode(&base64::engine::general_purpose::URL_SAFE_NO_PAD, text).ok()
}

/// The payload segment of a token: `token.split('.').nth(1)`.
pub open spec fn jwt_payload_segment(token: Seq<char>) -> Option<Seq<char>> {
    second_field(token, '.')
}

/// The decoded payload bytes of a token, when it has a payload segment and
/// that segment decodes.
pub open spec fn jwt_payload_bytes(token: Seq<char>) -> Option<Seq<u8>> {
    match jwt_payload_segment(token) {
        Some(segment) => base64_url_no_pad_decode(segment),
        None => None,
    }
}

/// The payload segment of `token`.
pub fn jwt_payload_text(token: &str) -> (r: Option<String>)
    ensures
        match jwt_payload_segment(token@) {
            Some(seg) => r matches Some(s) && s@ == seg,
            None => r is None,
        },
{
    let v = chars_of(token);
    assert(v@.subrange(0, v@.len() as int) =~= v@);
    match second_field_bounds(&v, 0, v.len(), '.') {
        Some((a, b)) => Some(string_of_range(&v, a, b)),
        None => None,
    }
}

/// A token whose payload segment is the encoding of `bytes`: `head`, a
/// `.`, the encoding, a `.`, and `tail`.
pub open spec fn token_with_payload(head: Seq<char>, bytes: Seq<u8>, tail: Seq<char>) -> Seq<char> {
    head + seq!['.'] + url_safe_no_pad_encoding(bytes) + seq!['.'] + tail
}

proof fn lemma_encoding_has_no_dot(bytes: Seq<u8>)
    ensures
        !url_safe_no_pad_encoding(bytes).contains('.'),
    decreases bytes.len(),
{
    if bytes.len() >= 3 {
        lemma_encoding_has_no_dot(bytes.skip(3));
    }
    let e = url_safe_no_pad_encoding(bytes);
    assert forall|k: int| 0 <= k < e.len() implies e[k] != '.' by {
        if bytes.len() >= 3 && k >= 4 {
            assert(e[k] == url_safe_no_pad_encoding(bytes.skip(3))[k - 4]);
        }
    }
}

proof fn lemma_payload_segment(head: Seq<char>, bytes: Seq<u8>, tail: Seq<char>)
    requires
        !head.contains('.'),
    ensures
        jwt_payload_segment(token_with_payload(head, bytes, tail)) == Some(url_safe_no_pad_encoding(bytes)),
{
    let e = url_safe_no_pad_encoding(bytes);
    let t = token_with_payload(head, bytes, tail);
    lemma_encoding_has_no_dot(bytes);
    assert forall|k: int| 0 <= k < head.len() implies t[k] != '.' by {
        assert(t[k] == head[k]);
    }
    lemma_char_index_at(t, '.', head.len() as int);
    let rest = t.skip(head.len() + 1int);
    assert(rest =~= e + seq!['.'] + tail);
    assert forall|k: int| 0 <= k < e.len() implies rest[k] != '.' by {
        assert(rest[k] == e[k]);
    }
    lemma_char_index_at(rest, '.', e.len() as int);
    assert(rest.take(e.len() as int) =~= e);
}

/// The bytes of the payload of `token`: its second `.`-separated segment,
/// decoded from unpadded URL-safe base64. `None` when the token has no such
/// segment or it does not decode. A token made of a head without `.`, a
/// `.`, the encoding of some bytes, a `.` and any tail gives those bytes.
pub fn decode_jwt_payload(token: &str) -> (r: Option<Vec<u8>>)
    ensures
        match jwt_payload_bytes(token@) {
            Some(bytes) => r matches Some(v) && v@ == bytes,
            None => r is None,
        },
        forall|head: Seq<char>, bytes: Seq<u8>, tail: Seq<char>|
            !head.contains('.') && token@ == #[trigger] token_with_payload(head, bytes, tail) ==> (r matches Some(
                v,
            ) && v@ == bytes),
{
    proof {
        assert forall|head: Seq<char>, bytes: Seq<u8>, tail: Seq<char>|
            !head.contains('.') && token@ == #[trigger] token_with_payload(head, bytes, tail) implies jwt_payload_segment(
            token@,
        ) == Some(url_safe_no_pad_encoding(bytes)) by {
            lemma_payload_segment(head, bytes, tail);
        }
    }
    match jwt_payload_text(token) {
        Some(seg) => decode_url_safe_no_pad(seg.as_str()),
        None => None,
    }
}

} // verus!
