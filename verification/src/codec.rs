//! Standard base64 with padding, as RFC 4648 defines it.

use base64::engine::general_purpose::STANDARD;
use base64::Engine;
use vstd::prelude::*;
use vstd::string::*;
use vstd::utf8::*;

verus! {

/// `base64::DecodeError`: why a text is no base64. Nothing is claimed of it.
#[verifier::external_type_specification]
#[verifier::external_body]
pub struct ExDecodeError(base64::DecodeError);

/// `std::string::FromUtf8Error`: why bytes are no UTF-8. Nothing is claimed of it.
#[verifier::external_type_specification]
#[verifier::external_body]
pub struct ExFromUtf8Error(std::string::FromUtf8Error);

/// The character that stands for six bits.
pub open spec fn sextet(v: int) -> char {
    if v < 26 {
        ('A' as u32 + v) as char
    } else if v < 52 {
        ('a' as u32 + (v - 26)) as char
    } else if v < 62 {
        ('0' as u32 + (v - 52)) as char
    } else if v == 62 {
        '+'
    } else {
        '/'
    }
}

/// The base64 text of a byte sequence: four characters for each three bytes, and `=` in place
/// of what a short last group lacks.
pub open spec fn base64_text(b: Seq<u8>) -> Seq<char>
    decreases b.len(),
{
    if b.len() == 0 {
        seq![]
    } else if b.len() == 1 {
        seq![sextet(b[0] as int / 4), sextet(b[0] as int % 4 * 16), '=', '=']
    } else if b.len() == 2 {
        seq![
            sextet(b[0] as int / 4),
            sextet(b[0] as int % 4 * 16 + b[1] as int / 16),
            sextet(b[1] as int % 16 * 4),
            '=',
        ]
    } else {
        seq![
            sextet(b[0] as int / 4),
            sextet(b[0] as int % 4 * 16 + b[1] as int / 16),
            sextet(b[1] as int % 16 * 4 + b[2] as int / 64),
            sextet(b[2] as int % 64),
        ] + base64_text(b.skip(3))
    }
}

/// The bytes of which `s` is the base64 text, where there are such.
pub open spec fn base64_bytes(s: Seq<char>) -> Option<Seq<u8>> {
    if exists|b: Seq<u8>| base64_text(b) == s {
        Some(choose|b: Seq<u8>| base64_text(b) == s)
    } else {
        None
    }
}

proof fn lemma_sextet(v: int, w: int)
    requires
        0 <= v < 64,
        0 <= w < 64,
    ensures
        sextet(v) == sextet(w) ==> v == w,
        sextet(v) != '=',
        sextet(v) != ',',
        '+' <= sextet(v) <= 'z',
{
}

/// No two byte sequences have the same base64 text.
pub proof fn lemma_base64_injective(a: Seq<u8>, b: Seq<u8>)
    requires
        base64_text(a) == base64_text(b),
    ensures
        a == b,
    decreases a.len(),
{
    let s = base64_text(a);
    let t = base64_text(b);
    assert(s.len() == t.len());
    if a.len() > 0 && b.len() > 0 {
        assert(s[0] == t[0] && s[1] == t[1] && s[2] == t[2] && s[3] == t[3]);
        lemma_sextet(a[0] as int / 4, b[0] as int / 4);
        let a1 = if a.len() > 1 { a[1] as int } else { 0 };
        let b1 = if b.len() > 1 { b[1] as int } else { 0 };
        let a2 = if a.len() > 2 { a[2] as int } else { 0 };
        let b2 = if b.len() > 2 { b[2] as int } else { 0 };
        lemma_sextet(a[0] as int % 4 * 16 + a1 / 16, b[0] as int % 4 * 16 + b1 / 16);
        lemma_sextet(a1 % 16 * 4 + a2 / 64, b1 % 16 * 4 + b2 / 64);
        lemma_sextet(a2 % 64, b2 % 64);
        assert(a[0] == b[0]);
        if a.len() >= 3 && b.len() >= 3 {
            assert(s.skip(4) =~= base64_text(a.skip(3)));
            assert(t.skip(4) =~= base64_text(b.skip(3)));
            lemma_base64_injective(a.skip(3), b.skip(3));
            assert(a =~= seq![a[0], a[1], a[2]] + a.skip(3));
            assert(b =~= seq![b[0], b[1], b[2]] + b.skip(3));
        }
    }
    assert(a =~= b);
}

/// What base64 text is made of: no separator of a property list and no white space.
pub proof fn lemma_base64_chars(b: Seq<u8>)
    ensures
        forall|i: int|
            0 <= i < base64_text(b).len() ==> {
                let c = #[trigger] base64_text(b)[i];
                '+' <= c <= 'z' && c != ','
            },
    decreases b.len(),
{
    let s = base64_text(b);
    if b.len() > 0 {
        let b1 = if b.len() > 1 { b[1] as int } else { 0 };
        let b2 = if b.len() > 2 { b[2] as int } else { 0 };
        lemma_sextet(b[0] as int / 4, 0);
        lemma_sextet(b[0] as int % 4 * 16 + b1 / 16, 0);
        lemma_sextet(b1 % 16 * 4 + b2 / 64, 0);
        lemma_sextet(b2 % 64, 0);
        if b.len() >= 3 {
            lemma_base64_chars(b.skip(3));
            assert forall|i: int| 0 <= i < s.len() implies ({
                let c = #[trigger] s[i];
                '+' <= c <= 'z' && c != ','
            }) by {
                if i >= 4 {
                    assert(s[i] == base64_text(b.skip(3))[i - 4]);
                }
            }
        }
    }
}

/// Decoding undoes encoding, whatever the bytes.
pub proof fn law_base64_round_trip(b: Seq<u8>)
    ensures
        base64_bytes(base64_text(b)) == Some(b),
{
    let found = choose|x: Seq<u8>| base64_text(x) == base64_text(b);
    lemma_base64_injective(found, b);
}

/// `base64::Engine::encode` of the engine `STANDARD`, on the UTF-8 bytes of a string: their
/// base64 text, padded.
#[verifier::external_body]
pub(crate) fn base64_encode(v: &str) -> (r: String)
    ensures
        r@ == base64_text(encode_utf8(v@)),
{
    STANDARD.encode(v)
}

/// `base64::Engine::decode` of the engine `STANDARD`: it gives back the bytes of which the
/// input is the base64 text, and an error where there are none. Padding must be canonical and
/// no bit may be left over, so two texts never decode to the same bytes.
#[verifier::external_body]
pub(crate) fn base64_decode(s: &str) -> (r: Result<Vec<u8>, base64::DecodeError>)
    ensures
        match r {
            Ok(b) => base64_text(b@) == s@,
            Err(_) => forall|b: Seq<u8>| base64_text(b) != s@,
        },
{
    STANDARD.decode(s)
}

/// `String::from_utf8`: the characters that the bytes encode, where the bytes are valid UTF-8,
/// and an error elsewhere.
pub assume_specification[ String::from_utf8 ](v: Vec<u8>) -> (r: Result<
    String,
    std::string::FromUtf8Error,
>)
    ensures
        match r {
            Ok(s) => valid_utf8(v@) && s@ == decode_utf8(v@),
            Err(_) => !valid_utf8(v@),
        },
;

} // verus!
