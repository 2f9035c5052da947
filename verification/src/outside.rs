//! What comes from outside: the clock, chance, base64, lossy decoding and reason phrases.
use crate::text;
use base64::Engine;
use rand::Rng;
use vstd::prelude::*;

verus! {

/// The latest time that `chrono` can represent, in seconds since the start of 1970.
pub const LAST_SECOND: i64 = 8_210_266_876_799;

/// `chrono::Utc::now` and `DateTime::timestamp`: the seconds since the start of 1970 on the
/// machine's clock, which must not stand before that; at most what `chrono` can represent.
#[verifier::external_body]
pub(crate) fn now_seconds() -> (r: i64)
    ensures
        0 <= r <= LAST_SECOND,
{
    chrono::Utc::now().timestamp()
}

/// `chrono::Utc::now` and `DateTime::timestamp_millis`: the milliseconds since the start of 1970
/// on the machine's clock.
#[verifier::external_body]
pub(crate) fn now_millis() -> (r: i64)
    ensures
        0 <= r <= LAST_SECOND * 1000 + 999,
{
    chrono::Utc::now().timestamp_millis()
}

/// Whether `c` is a hexadecimal digit, in lower case.
pub open spec fn is_hex(c: char) -> bool {
    '0' <= c <= '9' || 'a' <= c <= 'f'
}

/// Whether `s` is a random identifier: 32 hexadecimal digits in groups of 8, 4, 4, 4 and 12, with
/// the version 4 and the variant of the standard.
pub open spec fn is_random_id(s: Seq<char>) -> bool {
    &&& s.len() == 36
    &&& forall|i: int|
        0 <= i < 36 ==> if i == 8 || i == 13 || i == 18 || i == 23 {
            #[trigger] s[i] == '-'
        } else {
            is_hex(s[i])
        }
    &&& s[14] == '4'
    &&& s[19] == '8' || s[19] == '9' || s[19] == 'a' || s[19] == 'b'
}

/// `uuid::Uuid::new_v4` in its hyphenated form. Which identifier comes is left to chance.
#[verifier::external_body]
pub(crate) fn random_id() -> (r: String)
    ensures
        is_random_id(r@),
{
    uuid::Uuid::new_v4().to_string()
}

/// Whether `c` is an ASCII letter or digit.
pub open spec fn is_alphanumeric(c: char) -> bool {
    'a' <= c <= 'z' || 'A' <= c <= 'Z' || '0' <= c <= '9'
}

/// Whether `s` has only ASCII letters and digits.
pub open spec fn all_alphanumeric(s: Seq<char>) -> bool {
    forall|i: int| 0 <= i < s.len() ==> is_alphanumeric(#[trigger] s[i])
}

/// `rand::Rng::sample_iter` with the distribution `rand::distributions::Alphanumeric` on
/// `rand::thread_rng`: `n` ASCII letters and digits. Which ones is left to chance.
#[verifier::external_body]
pub(crate) fn random_text(n: usize) -> (r: String)
    requires
        n <= isize::MAX,
    ensures
        r@.len() == n,
        all_alphanumeric(r@),
{
    rand::thread_rng().sample_iter(&rand::distributions::Alphanumeric).take(n).map(
        char::from,
    ).collect()
}

/// The character for the six bits `n`, in the standard alphabet or the one for URLs.
pub open spec fn base64_digit(n: int, url: bool) -> char {
    if n < 26 {
        (('A' as u32) + n) as char
    } else if n < 52 {
        (('a' as u32) + n - 26) as char
    } else if n < 62 {
        (('0' as u32) + n - 52) as char
    } else if n == 62 {
        if url {
            '-'
        } else {
            '+'
        }
    } else {
        if url {
            '_'
        } else {
            '/'
        }
    }
}

/// `bytes` in base64: in the standard alphabet with padding, or in the one for URLs without.
pub open spec fn base64(bytes: Seq<u8>, url: bool) -> Seq<char>
    decreases bytes.len(),
{
    let pad = if url {
        Seq::empty()
    } else {
        seq!['=']
    };
    if bytes.len() == 0 {
        Seq::empty()
    } else if bytes.len() == 1 {
        seq![
            base64_digit(bytes[0] as int / 4, url),
            base64_digit(bytes[0] as int % 4 * 16, url),
        ] + pad + pad
    } else if bytes.len() == 2 {
        seq![
            base64_digit(bytes[0] as int / 4, url),
            base64_digit(bytes[0] as int % 4 * 16 + bytes[1] as int / 16, url),
            base64_digit(bytes[1] as int % 16 * 4, url),
        ] + pad
    } else {
        seq![
            base64_digit(bytes[0] as int / 4, url),
            base64_digit(bytes[0] as int % 4 * 16 + bytes[1] as int / 16, url),
            base64_digit(bytes[1] as int % 16 * 4 + bytes[2] as int / 64, url),
            base64_digit(bytes[2] as int % 64, url),
        ] + base64(bytes.skip(3), url)
    }
}

/// Different six-bit groups have different characters, and none is the padding.
proof fn lemma_digits_differ(n: int, m: int, url: bool)
    requires
        0 <= n < 64,
        0 <= m < 64,
        base64_digit(n, url) == base64_digit(m, url),
    ensures
        n == m,
        base64_digit(n, url) != '=',
{
}

/// Different bytes have different base64 texts.
pub proof fn base64_is_injective(a: Seq<u8>, b: Seq<u8>, url: bool)
    requires
        base64(a, url) == base64(b, url),
    ensures
        a == b,
    decreases a.len(),
{
    let s = base64(a, url);
    let t = base64(b, url);
    if a.len() == 0 || b.len() == 0 {
        assert(s.len() == t.len());
        assert(a == b);
    } else {
        let a1: int = if a.len() > 1 { a[1] as int } else { 0 };
        let b1: int = if b.len() > 1 { b[1] as int } else { 0 };
        let a2: int = if a.len() > 2 { a[2] as int } else { 0 };
        let b2: int = if b.len() > 2 { b[2] as int } else { 0 };
        assert(s[0] == t[0] && s[1] == t[1]);
        lemma_digits_differ(a[0] as int / 4, b[0] as int / 4, url);
        assert(s[1] == base64_digit(a[0] as int % 4 * 16 + a1 / 16, url));
        assert(t[1] == base64_digit(b[0] as int % 4 * 16 + b1 / 16, url));
        lemma_digits_differ(a[0] as int % 4 * 16 + a1 / 16, b[0] as int % 4 * 16 + b1 / 16, url);
        assert(a[0] == b[0]);
        if a.len() > 1 {
            lemma_digits_differ(a1 % 16 * 4 + a2 / 64, a1 % 16 * 4 + a2 / 64, url);
            assert(s[2] == base64_digit(a1 % 16 * 4 + a2 / 64, url));
        }
        if b.len() > 1 {
            lemma_digits_differ(b1 % 16 * 4 + b2 / 64, b1 % 16 * 4 + b2 / 64, url);
            assert(t[2] == base64_digit(b1 % 16 * 4 + b2 / 64, url));
        }
        assert(a.len() > 1 <==> b.len() > 1);
        if a.len() > 1 {
            lemma_digits_differ(a1 % 16 * 4 + a2 / 64, b1 % 16 * 4 + b2 / 64, url);
            assert(a[1] == b[1]);
            if a.len() > 2 {
                lemma_digits_differ(a2 % 64, a2 % 64, url);
                assert(s[3] == base64_digit(a2 % 64, url));
            }
            if b.len() > 2 {
                lemma_digits_differ(b2 % 64, b2 % 64, url);
                assert(t[3] == base64_digit(b2 % 64, url));
            }
            assert(a.len() > 2 <==> b.len() > 2);
            if a.len() > 2 {
                lemma_digits_differ(a2 % 64, b2 % 64, url);
                assert(a[2] == b[2]);
                assert(s.skip(4) == base64(a.skip(3), url));
                assert(t.skip(4) == base64(b.skip(3), url));
                base64_is_injective(a.skip(3), b.skip(3), url);
                assert(a == seq![a[0], a[1], a[2]] + a.skip(3));
                assert(b == seq![b[0], b[1], b[2]] + b.skip(3));
            } else {
                assert(a == b);
            }
        } else {
            assert(a == b);
        }
    }
}

/// A base64 text for URLs holds letters, digits, hyphens and underscores only.
pub proof fn base64_url_alphabet(bytes: Seq<u8>, c: char)
    requires
        base64(bytes, true).contains(c),
    ensures
        is_alphanumeric(c) || c == '-' || c == '_',
    decreases bytes.len(),
{
    let s = base64(bytes, true);
    let i = choose|i: int| 0 <= i < s.len() && s[i] == c;
    if bytes.len() > 2 && i >= 4 {
        let rest = base64(bytes.skip(3), true);
        assert(rest[i - 4] == c);
        base64_url_alphabet(bytes.skip(3), c);
    }
}

/// `base64::Engine::encode` with the engine `STANDARD`.
#[verifier::external_body]
pub(crate) fn base64_standard(bytes: &[u8]) -> (r: String)
    ensures
        r@ == base64(bytes@, false),
{
    base64::engine::general_purpose::STANDARD.encode(bytes)
}

/// `base64::Engine::encode` with the engine `URL_SAFE_NO_PAD`.
#[verifier::external_body]
pub(crate) fn base64_url(bytes: &[u8]) -> (r: String)
    ensures
        r@ == base64(bytes@, true),
{
    base64::engine::general_purpose::URL_SAFE_NO_PAD.encode(bytes)
}

/// `base64::Engine::decode` with the engine `URL_SAFE_NO_PAD`, which accepts the text that some
/// bytes have, without padding or spare bits, and nothing else.
#[verifier::external_body]
pub(crate) fn base64_url_decode(s: &str) -> (r: Option<Vec<u8>>)
    ensures
        match r {
            Some(bytes) => base64(bytes@, true) == s@,
            None => forall|bytes: Seq<u8>| #[trigger] base64(bytes, true) != s@,
        },
{
    base64::engine::general_purpose::URL_SAFE_NO_PAD.decode(s.as_bytes()).ok()
}

/// What `String::from_utf8_lossy` makes of `bytes`.
pub uninterp spec fn utf8_lossy(bytes: Seq<u8>) -> Seq<char>;

/// `String::from_utf8_lossy`: the text that the bytes encode, where they are UTF-8; else a text
/// that is determined by them.
#[verifier::external_body]
pub(crate) fn lossy_text(bytes: &[u8]) -> (r: String)
    ensures
        r@ == utf8_lossy(bytes@),
        vstd::utf8::valid_utf8(bytes@) ==> r@ == vstd::utf8::decode_utf8(bytes@),
{
    String::from_utf8_lossy(bytes).into_owned()
}

/// The text in `bytes`: the one that they encode, where they are UTF-8, and else what
/// `String::from_utf8_lossy` makes of them.
pub open spec fn text_in(bytes: Seq<u8>) -> Seq<char> {
    if vstd::utf8::valid_utf8(bytes) {
        vstd::utf8::decode_utf8(bytes)
    } else {
        utf8_lossy(bytes)
    }
}

/// The text in the bytes of a text is that text.
pub proof fn text_in_utf8(s: Seq<char>)
    ensures
        text_in(text::utf8(s)) == s,
{
    vstd::utf8::encode_utf8_valid_utf8(s);
    vstd::utf8::encode_utf8_decode_utf8(s);
}

/// The reason phrase that the type `http::StatusCode` shows for the status `code`.
pub uninterp spec fn reason_phrase(code: u16) -> Seq<char>;

/// The `Display` of `http::StatusCode`: the code, a space and a reason phrase.
#[verifier::external_body]
pub(crate) fn status_text(code: u16) -> (r: String)
    requires
        100 <= code <= 999,
    ensures
        r@ == text::decimal(code as nat) + seq![' '] + reason_phrase(code),
{
    axum::http::StatusCode::from_u16(code).unwrap().to_string()
}

} // verus!
