//! Tarball integrity verification.
//!
//! npm publishes a Subresource-Integrity string (`sha512-<base64>`) in
//! `dist.integrity`, and a legacy `dist.shasum` (SHA-1 hex). Whichever is
//! available is checked, SHA-512 first. A package with neither is refused:
//! the check is fail-closed.

use crate::error::VaultError;
use crate::text::{
    after_char, ascii_lower_char, before_char, chars_of, first_index_of, split_once_char, str_eq,
    string_of,
};
use vstd::prelude::*;

verus! {

/// The SHA-512 digest of some bytes (`sha2::Sha512::digest`).
pub uninterp spec fn sha512_digest(data: Seq<u8>) -> Seq<u8>;

/// The SHA-1 digest of some bytes (`sha1::Sha1::digest`).
pub uninterp spec fn sha1_digest(data: Seq<u8>) -> Seq<u8>;

/// The bytes that the padded standard base64 engine of the `base64` crate
/// decodes a text to, or `None` where it reports an error.
pub uninterp spec fn base64_decode(text: Seq<char>) -> Option<Seq<u8>>;

/// The character of a 6-bit value in the standard base64 alphabet.
pub open spec fn b64_char(n: int) -> char {
    if n < 26 {
        (65 + n) as char
    } else if n < 52 {
        (97 + n - 26) as char
    } else if n < 62 {
        (48 + n - 52) as char
    } else if n == 62 {
        '+'
    } else {
        '/'
    }
}

/// Standard base64 with `=` padding: each group of three bytes becomes four
/// characters; a final group of one or two bytes is padded.
pub open spec fn b64_encode(b: Seq<u8>) -> Seq<char>
    decreases b.len(),
{
    if b.len() == 0 {
        Seq::empty()
    } else {
        let x = b[0] as int;
        let y = if b.len() > 1 { b[1] as int } else { 0 };
        let z = if b.len() > 2 { b[2] as int } else { 0 };
        if b.len() == 1 {
            seq![b64_char(x / 4), b64_char((x % 4) * 16), '=', '=']
        } else if b.len() == 2 {
            seq![b64_char(x / 4), b64_char((x % 4) * 16 + y / 16), b64_char((y % 16) * 4), '=']
        } else {
            seq![
                b64_char(x / 4),
                b64_char((x % 4) * 16 + y / 16),
                b64_char((y % 16) * 4 + z / 64),
                b64_char(z % 64),
            ] + b64_encode(b.subrange(3, b.len() as int))
        }
    }
}

/// The lowercase hexadecimal digit of a value below 16.
pub open spec fn hex_digit(n: int) -> char {
    if n < 10 {
        (48 + n) as char
    } else {
        (97 + n - 10) as char
    }
}

/// Lowercase hexadecimal, two digits per byte (`hex::encode`).
pub open spec fn hex_text(b: Seq<u8>) -> Seq<char>
    decreases b.len(),
{
    if b.len() == 0 {
        Seq::empty()
    } else {
        hex_text(b.drop_last()) + seq![hex_digit(b.last() as int / 16), hex_digit(b.last() as int % 16)]
    }
}

/// Hex text is two ASCII digits per byte.
pub proof fn lemma_hex_text_shape(b: Seq<u8>)
    ensures
        hex_text(b).len() == 2 * b.len(),
        forall|i: int| 0 <= i < hex_text(b).len() ==> (#[trigger] hex_text(b)[i] as u32) < 128,
    decreases b.len(),
{
    if b.len() > 0 {
        let p = b.drop_last();
        lemma_hex_text_shape(p);
        let x = b.last() as int;
        assert(hex_text(b) == hex_text(p) + seq![hex_digit(x / 16), hex_digit(x % 16)]);
        assert forall|i: int| 0 <= i < hex_text(b).len() implies (#[trigger] hex_text(b)[i] as u32)
            < 128 by {
            if i >= hex_text(p).len() {
                let n = if i == hex_text(p).len() { x / 16 } else { x % 16 };
                assert(hex_text(b)[i] == hex_digit(n));
                assert(0 <= n < 16);
            } else {
                assert(hex_text(b)[i] == hex_text(p)[i]);
            }
        }
    }
}

/// Computes the SHA-512 digest with `sha2::Sha512::digest`; named by
/// `sha512_digest`, and 64 bytes long.
#[verifier::external_body]
fn sha512(data: &[u8]) -> (d: Vec<u8>)
    ensures
        d@ == sha512_digest(data@),
        d@.len() == 64,
{
    <sha2::Sha512 as sha2::Digest>::digest(data).to_vec()
}

/// Computes the SHA-1 digest with `sha1::Sha1::digest`; named by
/// `sha1_digest`, and 20 bytes long.
#[verifier::external_body]
fn sha1(data: &[u8]) -> (d: Vec<u8>)
    ensures
        d@ == sha1_digest(data@),
        d@.len() == 20,
{
    <sha1::Sha1 as sha1::Digest>::digest(data).to_vec()
}

/// Lowercase hex of some bytes with `hex::encode`, stated in full.
#[verifier::external_body]
pub(crate) fn hex_encode(data: &[u8]) -> (s: String)
    ensures
        s@ == hex_text(data@),
{
    hex::encode(data)
}

/// Standard padded base64 of some bytes with the `base64` crate's
/// `STANDARD` engine, stated in full.
#[verifier::external_body]
fn base64_encode(data: &[u8]) -> (s: String)
    ensures
        s@ == b64_encode(data@),
{
    base64::Engine::encode(&base64::engine::general_purpose::STANDARD, data)
}

/// Decodes standard padded base64 with the `base64` crate's `STANDARD`
/// engine; the result is named by `base64_decode`. A text that is the
/// encoding of some bytes decodes to those bytes (the crate's round trip).
#[verifier::external_body]
fn base64_decode_text(text: &str) -> (r: Option<Vec<u8>>)
    ensures
        match r {
            Some(v) => base64_decode(text@) == Some(v@) && forall|x: Seq<u8>|
                #[trigger] b64_encode(x) == text@ ==> v@ == x,
            None => base64_decode(text@) is None && forall|x: Seq<u8>|
                #[trigger] b64_encode(x) != text@,
        },
{
    base64::Engine::decode(&base64::engine::general_purpose::STANDARD, text).ok()
}

/// Whether `c` is white space as `char::is_whitespace` has it (the Unicode
/// `White_Space` property).
pub open spec fn is_ws(c: char) -> bool {
    ||| '\u{9}' <= c <= '\u{d}'
    ||| c == ' '
    ||| c == '\u{85}'
    ||| c == '\u{a0}'
    ||| c == '\u{1680}'
    ||| '\u{2000}' <= c <= '\u{200a}'
    ||| c == '\u{2028}'
    ||| c == '\u{2029}'
    ||| c == '\u{202f}'
    ||| c == '\u{205f}'
    ||| c == '\u{3000}'
}

fn is_whitespace(c: char) -> (b: bool)
    ensures
        b == is_ws(c),
{
    ('\u{9}' <= c && c <= '\u{d}') || c == ' ' || c == '\u{85}' || c == '\u{a0}' || c
        == '\u{1680}' || ('\u{2000}' <= c && c <= '\u{200a}') || c == '\u{2028}' || c
        == '\u{2029}' || c == '\u{202f}' || c == '\u{205f}' || c == '\u{3000}'
}

/// The index of the first non-white-space character at or after `i`.
pub open spec fn skip_ws(s: Seq<char>, i: nat) -> nat
    decreases s.len() - i,
{
    if i < s.len() && is_ws(s[i as int]) {
        skip_ws(s, i + 1)
    } else {
        i
    }
}

/// The index of the first white-space character at or after `i`.
pub open spec fn token_end(s: Seq<char>, i: nat) -> nat
    decreases s.len() - i,
{
    if i < s.len() && !is_ws(s[i as int]) {
        token_end(s, i + 1)
    } else {
        i
    }
}

/// The first white-space separated token of `s`, or `s` itself when it has
/// none (`split_whitespace().next().unwrap_or(s)`).
pub open spec fn first_token(s: Seq<char>) -> Seq<char> {
    let a = skip_ws(s, 0);
    if a >= s.len() {
        s
    } else {
        s.subrange(a as int, token_end(s, a) as int)
    }
}

fn first_token_chars(v: &Vec<char>) -> (t: Vec<char>)
    ensures
        t@ == first_token(v@),
{
    let mut a: usize = 0;
    while a < v.len() && is_whitespace(v[a])
        invariant
            a <= v@.len(),
            skip_ws(v@, 0) == skip_ws(v@, a as nat),
        decreases v@.len() - a,
    {
        a += 1;
    }
    if a >= v.len() {
        let mut t: Vec<char> = Vec::new();
        let mut k: usize = 0;
        while k < v.len()
            invariant
                k <= v@.len(),
                t@ == v@.subrange(0, k as int),
            decreases v@.len() - k,
        {
            t.push(v[k]);
            k += 1;
            assert(t@ =~= v@.subrange(0, k as int));
        }
        assert(t@ =~= v@);
        return t;
    }
    let mut e: usize = a;
    let mut t: Vec<char> = Vec::new();
    while e < v.len() && !is_whitespace(v[e])
        invariant
            a <= e <= v@.len(),
            token_end(v@, a as nat) == token_end(v@, e as nat),
            t@ == v@.subrange(a as int, e as int),
        decreases v@.len() - e,
    {
        t.push(v[e]);
        e += 1;
        assert(t@ =~= v@.subrange(a as int, e as int));
    }
    t
}

/// Case-insensitive equality for ASCII letters (`eq_ignore_ascii_case`).
pub open spec fn eq_ignore_ascii_case(a: Seq<char>, b: Seq<char>) -> bool {
    a.len() == b.len() && forall|i: int|
        0 <= i < a.len() ==> ascii_lower_char(#[trigger] a[i]) == ascii_lower_char(b[i])
}

fn lower_char(c: char) -> (r: char)
    ensures
        r == ascii_lower_char(c),
{
    if 'A' <= c && c <= 'Z' {
        ((c as u8) + 32) as char
    } else {
        c
    }
}

fn str_eq_ignore_ascii_case(a: &str, b: &str) -> (r: bool)
    ensures
        r == eq_ignore_ascii_case(a@, b@),
{
    let x = chars_of(a);
    let y = chars_of(b);
    if x.len() != y.len() {
        return false;
    }
    let mut i: usize = 0;
    while i < x.len()
        invariant
            i <= x@.len(),
            x@ == a@,
            y@ == b@,
            x@.len() == y@.len(),
            forall|k: int| 0 <= k < i ==> ascii_lower_char(#[trigger] x@[k]) == ascii_lower_char(y@[k]),
        decreases x@.len() - i,
    {
        if lower_char(x[i]) != lower_char(y[i]) {
            return false;
        }
        i += 1;
    }
    true
}

fn bytes_eq(a: &[u8], b: &[u8]) -> (r: bool)
    ensures
        r == (a@ == b@),
{
    if a.len() != b.len() {
        return false;
    }
    let mut i: usize = 0;
    while i < a.len()
        invariant
            i <= a@.len(),
            a@.len() == b@.len(),
            forall|k: int| 0 <= k < i ==> a@[k] == b@[k],
        decreases a@.len() - i,
    {
        if a[i] != b[i] {
            return false;
        }
        i += 1;
    }
    assert(a@ =~= b@);
    true
}

/// The SRI string of a SHA-512 digest: `sha512-<base64>`.
pub open spec fn sri_text(digest: Seq<u8>) -> Seq<char> {
    "sha512-"@ + b64_encode(digest)
}

/// How an SRI string judges a SHA-512 digest: `None` when it matches, else
/// the `expected` and `actual` texts of the integrity error.
pub open spec fn sri_outcome(sha512: Seq<u8>, sri: Seq<char>) -> Option<(Seq<char>, Seq<char>)> {
    let token = first_token(sri);
    match after_char(token, '-') {
        None => Some((sri, "<malformed SRI>"@)),
        Some(b64) => {
            let algo = before_char(token, '-');
            match base64_decode(b64) {
                None => Some((sri, "<invalid base64 in SRI>"@)),
                Some(expected) => if algo != "sha512"@ {
                    Some(("unsupported integrity algorithm `"@ + algo + "`"@, "<none>"@))
                } else if sha512 == expected {
                    None
                } else {
                    Some((sri, sri_text(sha512)))
                },
            }
        },
    }
}

/// How the integrity metadata judges the digests: `None` when they match,
/// else the `expected` and `actual` texts of the integrity error. The SRI
/// string wins over the SHA-1 hex; with neither the package is refused.
pub open spec fn integrity_outcome(
    sha512: Seq<u8>,
    sha1: Seq<u8>,
    integrity: Option<Seq<char>>,
    shasum: Option<Seq<char>>,
) -> Option<(Seq<char>, Seq<char>)> {
    match integrity {
        Some(sri) => sri_outcome(sha512, sri),
        None => match shasum {
            Some(hex) => if eq_ignore_ascii_case(hex_text(sha1), hex) {
                None
            } else {
                Some((hex, hex_text(sha1)))
            },
            None => Some(("<registry provided no integrity hash>"@, "<none>"@)),
        },
    }
}

/// The view of an optional string slice.
pub open spec fn opt_text(o: Option<&str>) -> Option<Seq<char>> {
    match o {
        Some(s) => Some(s@),
        None => None,
    }
}

/// Whether a result is the outcome of an integrity check of `name@version`.
pub open spec fn is_outcome(
    r: Result<(), VaultError>,
    name: Seq<char>,
    version: Seq<char>,
    outcome: Option<(Seq<char>, Seq<char>)>,
) -> bool {
    match outcome {
        None => r is Ok,
        Some((expected, actual)) => r matches Err(VaultError::Integrity {
            name: n,
            version: v,
            expected: e,
            actual: a,
        }) && n@ == name && v@ == version && e@ == expected && a@ == actual,
    }
}

proof fn lemma_b64_char(n: int)
    requires
        0 <= n < 64,
    ensures
        !is_ws(b64_char(n)),
        b64_char(n) != '-',
{
}

proof fn lemma_b64_chars(b: Seq<u8>)
    ensures
        forall|i: int|
            0 <= i < b64_encode(b).len() ==> !is_ws(#[trigger] b64_encode(b)[i]) && b64_encode(
                b,
            )[i] != '-',
    decreases b.len(),
{
    if b.len() > 0 {
        let x = b[0] as int;
        let y = if b.len() > 1 { b[1] as int } else { 0 };
        let z = if b.len() > 2 { b[2] as int } else { 0 };
        lemma_b64_char(x / 4);
        lemma_b64_char((x % 4) * 16);
        lemma_b64_char((x % 4) * 16 + y / 16);
        lemma_b64_char((y % 16) * 4);
        lemma_b64_char((y % 16) * 4 + z / 64);
        lemma_b64_char(z % 64);
        if b.len() > 2 {
            let rest = b.subrange(3, b.len() as int);
            lemma_b64_chars(rest);
            assert forall|i: int|
                0 <= i < b64_encode(b).len() implies !is_ws(#[trigger] b64_encode(b)[i])
                && b64_encode(b)[i] != '-' by {
                if i >= 4 {
                    assert(b64_encode(b)[i] == b64_encode(rest)[i - 4]);
                }
            }
        }
    }
}

proof fn lemma_token_of_sri(d: Seq<u8>)
    ensures
        first_token(sri_text(d)) == sri_text(d),
        before_char(sri_text(d), '-') == "sha512"@,
        after_char(sri_text(d), '-') == Some(b64_encode(d)),
{
    reveal_strlit("sha512-");
    reveal_strlit("sha512");
    let s = sri_text(d);
    lemma_b64_chars(d);
    assert forall|i: int| 0 <= i < s.len() implies !is_ws(#[trigger] s[i]) by {
        if i >= 7 {
            assert(s[i] == b64_encode(d)[i - 7]);
        }
    }
    assert(skip_ws(s, 0) == 0);
    assert forall|k: nat| k <= s.len() implies token_end(s, k) == s.len() by {
        lemma_token_end_all(s, k);
    }
    assert(s.subrange(0, s.len() as int) =~= s);
    assert(s[6] == '-');
    assert forall|j: int| 0 <= j < 6 implies s[j] != '-' by {}
    assert(first_index_of(s, '-') == Some(6int)) by {
        let k = choose|k: int| 0 <= k < s.len() && s[k] == '-' && forall|j: int| 0 <= j < k ==> s[j] != '-';
        assert(s[6] == '-');
        if k < 6 {
        } else if k > 6 {
        }
    }
    assert(s.subrange(0, 6) =~= "sha512"@);
    assert(s.subrange(7, s.len() as int) =~= b64_encode(d));
}

proof fn lemma_token_end_all(s: Seq<char>, k: nat)
    requires
        k <= s.len(),
        forall|i: int| 0 <= i < s.len() ==> !is_ws(#[trigger] s[i]),
    ensures
        token_end(s, k) == s.len(),
    decreases s.len() - k,
{
    if k < s.len() {
        lemma_token_end_all(s, k + 1);
    }
}

/// Compare a precomputed SHA-512 digest against an SRI string. An SRI
/// string that encodes some digest accepts exactly that digest.
fn verify_sri(name: &str, version: &str, sha512: &[u8], sri: &str) -> (r: Result<(), VaultError>)
    ensures
        is_outcome(r, name@, version@, sri_outcome(sha512@, sri@)),
        forall|d: Seq<u8>| sri@ == #[trigger] sri_text(d) ==> (r is Ok <==> sha512@ == d),
{
    let v = chars_of(sri);
    let token = first_token_chars(&v);
    let (algo, rest) = split_once_char(&token, '-');
    proof {
        assert forall|d: Seq<u8>| sri@ == #[trigger] sri_text(d) implies rest matches Some(b)
            && b@ == b64_encode(d) && algo@ == "sha512"@ by {
            lemma_token_of_sri(d);
        }
    }
    let b64 = match rest {
        None => {
            return Err(
                VaultError::Integrity {
                    name: name.to_owned(),
                    version: version.to_owned(),
                    expected: sri.to_owned(),
                    actual: "<malformed SRI>".to_owned(),
                },
            );
        },
        Some(b) => string_of(&b),
    };
    let expected = match base64_decode_text(b64.as_str()) {
        None => {
            return Err(
                VaultError::Integrity {
                    name: name.to_owned(),
                    version: version.to_owned(),
                    expected: sri.to_owned(),
                    actual: "<invalid base64 in SRI>".to_owned(),
                },
            );
        },
        Some(e) => e,
    };
    let algo_text = string_of(&algo);
    if !str_eq(algo_text.as_str(), "sha512") {
        let mut expected_text = "unsupported integrity algorithm `".to_owned();
        expected_text.append(algo_text.as_str());
        expected_text.append("`");
        return Err(
            VaultError::Integrity {
                name: name.to_owned(),
                version: version.to_owned(),
                expected: expected_text,
                actual: "<none>".to_owned(),
            },
        );
    }
    if bytes_eq(sha512, expected.as_slice()) {
        Ok(())
    } else {
        let mut actual = "sha512-".to_owned();
        actual.append(base64_encode(sha512).as_str());
        Err(
            VaultError::Integrity {
                name: name.to_owned(),
                version: version.to_owned(),
                expected: sri.to_owned(),
                actual,
            },
        )
    }
}

/// Like [`verify`], for digests computed while streaming the tarball to
/// disk. The check is still fail-closed and comes before extraction.
pub fn verify_precomputed(
    name: &str,
    version: &str,
    sha512: &[u8],
    sha1: &[u8],
    integrity: Option<&str>,
    shasum: Option<&str>,
) -> (r: Result<(), VaultError>)
    ensures
        is_outcome(
            r,
            name@,
            version@,
            integrity_outcome(sha512@, sha1@, opt_text(integrity), opt_text(shasum)),
        ),
        forall|d: Seq<u8>|
            integrity matches Some(s) && s@ == #[trigger] sri_text(d) ==> (r is Ok <==> sha512@ == d),
{
    if let Some(sri) = integrity {
        return verify_sri(name, version, sha512, sri);
    }
    if let Some(sha1_hex) = shasum {
        let actual = hex_encode(sha1);
        if str_eq_ignore_ascii_case(actual.as_str(), sha1_hex) {
            return Ok(());
        }
        return Err(
            VaultError::Integrity {
                name: name.to_owned(),
                version: version.to_owned(),
                expected: sha1_hex.to_owned(),
                actual,
            },
        );
    }
    Err(
        VaultError::Integrity {
            name: name.to_owned(),
            version: version.to_owned(),
            expected: "<registry provided no integrity hash>".to_owned(),
            actual: "<none>".to_owned(),
        },
    )
}

/// Verify `bytes` against the registry-provided integrity metadata.
///
/// `Ok` on success, else a [`VaultError::Integrity`] describing the
/// mismatch; no metadata at all is a failure too. An SRI string made from
/// the SHA-512 digest of `bytes` accepts them, and one made from any other
/// digest refuses them.
pub fn verify(
    name: &str,
    version: &str,
    bytes: &[u8],
    integrity: Option<&str>,
    shasum: Option<&str>,
) -> (r: Result<(), VaultError>)
    ensures
        is_outcome(
            r,
            name@,
            version@,
            integrity_outcome(
                sha512_digest(bytes@),
                sha1_digest(bytes@),
                opt_text(integrity),
                opt_text(shasum),
            ),
        ),
        forall|d: Seq<u8>|
            integrity matches Some(s) && s@ == #[trigger] sri_text(d) ==> (r is Ok <==> d
                == sha512_digest(bytes@)),
{
    let d512 = sha512(bytes);
    let d1 = sha1(bytes);
    verify_precomputed(name, version, d512.as_slice(), d1.as_slice(), integrity, shasum)
}

} // verus!
