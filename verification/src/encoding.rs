//! Base64 and UTF-8: the forms in which bytes and paths travel through headers
//! and scripts.

use base64::Engine;
use vstd::prelude::*;
use vstd::utf8::{decode_utf8, valid_utf8};

verus! {

/// The character of the standard alphabet for a number below 64.
pub open spec fn base64_char(v: int) -> char {
    if v < 26 {
        (65 + v) as char
    } else if v < 52 {
        (97 + v - 26) as char
    } else if v < 62 {
        (48 + v - 52) as char
    } else if v == 62 {
        '+'
    } else {
        '/'
    }
}

/// The standard Base64 form, with padding: three bytes give four characters of
/// six bits each.
pub open spec fn base64(b: Seq<u8>) -> Seq<char>
    decreases b.len(),
{
    if b.len() == 0 {
        Seq::empty()
    } else if b.len() == 1 {
        seq![base64_char(b[0] as int / 4), base64_char(b[0] as int % 4 * 16), '=', '=']
    } else if b.len() == 2 {
        seq![
            base64_char(b[0] as int / 4),
            base64_char(b[0] as int % 4 * 16 + b[1] as int / 16),
            base64_char(b[1] as int % 16 * 4),
            '=',
        ]
    } else {
        seq![
            base64_char(b[0] as int / 4),
            base64_char(b[0] as int % 4 * 16 + b[1] as int / 16),
            base64_char(b[1] as int % 16 * 4 + b[2] as int / 64),
            base64_char(b[2] as int % 64),
        ] + base64(b.skip(3))
    }
}

/// The bytes that have the given text for their Base64 form, where there are any.
pub open spec fn base64_bytes(encoded: Seq<char>) -> Option<Seq<u8>> {
    if exists|b: Seq<u8>| #[trigger] base64(b) == encoded {
        Some(choose|b: Seq<u8>| #[trigger] base64(b) == encoded)
    } else {
        None
    }
}

/// What the error of `Engine::decode` of the base64 crate says of a text that is
/// not the Base64 form of any bytes.
pub uninterp spec fn base64_error(encoded: Seq<char>) -> Seq<char>;

/// `Engine::encode` of the base64 crate on its engine `STANDARD`: the standard
/// alphabet, padded. It panics where the length of the result does not fit.
#[verifier::external_body]
pub(crate) fn base64_encode(bytes: &[u8]) -> (r: String)
    requires
        (bytes@.len() + 2) / 3 * 4 <= isize::MAX,
    ensures
        r@ == base64(bytes@),
{
    base64::engine::general_purpose::STANDARD.encode(bytes)
}

/// `Engine::decode` of the base64 crate on its engine `STANDARD`, with the text
/// of its error. That engine insists on the padding and on zeros in the bits that
/// are left over, so it accepts the Base64 forms of bytes and nothing else.
#[verifier::external_body]
pub(crate) fn base64_decode(encoded: &str) -> (r: Result<Vec<u8>, String>)
    ensures
        match r {
            Ok(bytes) => base64(bytes@) == encoded@,
            Err(e) => e@ == base64_error(encoded@) && forall|b: Seq<u8>|
                #[trigger] base64(b) != encoded@,
        },
{
    base64::engine::general_purpose::STANDARD.decode(encoded).map_err(|e| e.to_string())
}

/// What the error of `String::from_utf8` of std says of bytes that are not UTF-8.
pub uninterp spec fn utf8_error(bytes: Seq<u8>) -> Seq<char>;

/// `String::from_utf8` of std, with the text of its error.
#[verifier::external_body]
pub(crate) fn string_from_utf8(bytes: Vec<u8>) -> (r: Result<String, String>)
    ensures
        match r {
            Ok(s) => valid_utf8(bytes@) && s@ == decode_utf8(bytes@),
            Err(e) => !valid_utf8(bytes@) && e@ == utf8_error(bytes@),
        },
{
    String::from_utf8(bytes).map_err(|e| e.to_string())
}

proof fn lemma_base64_char_is_injective(v: int, w: int)
    requires
        0 <= v < 64,
        0 <= w < 64,
    ensures
        base64_char(v) == base64_char(w) ==> v == w,
        base64_char(v) != '=',
{
}

/// Different bytes have different Base64 forms, so the form can be read back.
pub proof fn law_base64_is_injective(a: Seq<u8>, b: Seq<u8>)
    requires
        base64(a) == base64(b),
    ensures
        a == b,
    decreases a.len(),
{
    let s = base64(a);
    assert(a.len() > 0 ==> s.len() >= 4);
    assert(b.len() > 0 ==> base64(b).len() >= 4);
    if a.len() == 0 || b.len() == 0 {
        assert(a =~= b);
    } else {
        let a0 = a[0] as int;
        let b0 = b[0] as int;
        let a1 = if a.len() > 1 { a[1] as int } else { 0 };
        let b1 = if b.len() > 1 { b[1] as int } else { 0 };
        let a2 = if a.len() > 2 { a[2] as int } else { 0 };
        let b2 = if b.len() > 2 { b[2] as int } else { 0 };
        assert(base64(a)[0] == base64_char(a0 / 4));
        assert(base64(b)[0] == base64_char(b0 / 4));
        assert(base64(a)[1] == base64_char(a0 % 4 * 16 + a1 / 16));
        assert(base64(b)[1] == base64_char(b0 % 4 * 16 + b1 / 16));
        lemma_base64_char_is_injective(a0 / 4, b0 / 4);
        lemma_base64_char_is_injective(a0 % 4 * 16 + a1 / 16, b0 % 4 * 16 + b1 / 16);
        lemma_base64_char_is_injective(a1 % 16 * 4 + a2 / 64, b1 % 16 * 4 + b2 / 64);
        lemma_base64_char_is_injective(b1 % 16 * 4 + b2 / 64, a1 % 16 * 4 + a2 / 64);
        lemma_base64_char_is_injective(a2 % 64, b2 % 64);
        lemma_base64_char_is_injective(b2 % 64, a2 % 64);
        assert(base64(a)[2] == base64(b)[2]);
        assert(base64(a)[3] == base64(b)[3]);
        assert(a0 == b0);
        if a.len() >= 3 && b.len() >= 3 {
            assert(base64(a).skip(4) =~= base64(a.skip(3)));
            assert(base64(b).skip(4) =~= base64(b.skip(3)));
            law_base64_is_injective(a.skip(3), b.skip(3));
            assert(a =~= seq![a[0], a[1], a[2]] + a.skip(3));
            assert(b =~= seq![b[0], b[1], b[2]] + b.skip(3));
        } else {
            assert(a.len() == b.len());
            assert(a =~= b);
        }
    }
}

/// The bytes that a Base64 form stands for are the bytes that it was made of.
pub proof fn law_base64_reads_back(b: Seq<u8>)
    ensures
        base64_bytes(base64(b)) == Some(b),
{
    let other = choose|c: Seq<u8>| #[trigger] base64(c) == base64(b);
    law_base64_is_injective(other, b);
}

/// The alphabet holds the capital letters, the small letters, the digits, the plus
/// sign and the slash, in this order.
pub proof fn law_base64_alphabet(v: int)
    requires
        0 <= v < 63,
    ensures
        base64_char(0) == 'A' && base64_char(25) == 'Z',
        base64_char(26) == 'a' && base64_char(51) == 'z',
        base64_char(52) == '0' && base64_char(61) == '9',
        base64_char(62) == '+' && base64_char(63) == '/',
        v != 25 && v != 51 && v < 61 ==> base64_char(v + 1) as int == base64_char(v) as int + 1,
{
}

/// Three bytes, read as one number, give the four characters that stand for its digits
/// to the base of 64.
pub proof fn law_three_bytes_give_four_characters(
    x: u8,
    y: u8,
    z: u8,
    d0: int,
    d1: int,
    d2: int,
    d3: int,
)
    requires
        0 <= d0 < 64,
        0 <= d1 < 64,
        0 <= d2 < 64,
        0 <= d3 < 64,
        65536 * x + 256 * y + z == 262144 * d0 + 4096 * d1 + 64 * d2 + d3,
    ensures
        base64(seq![x, y, z]) == seq![
            base64_char(d0),
            base64_char(d1),
            base64_char(d2),
            base64_char(d3),
        ],
{
    let b = seq![x, y, z];
    assert(b.skip(3) =~= Seq::<u8>::empty());
    assert(base64(b.skip(3)) =~= Seq::<char>::empty());
    assert(x as int / 4 == d0);
    assert(x as int % 4 * 16 + y as int / 16 == d1);
    assert(y as int % 16 * 4 + z as int / 64 == d2);
    assert(z as int % 64 == d3);
}

/// Bytes are encoded in threes, one after the other. One or two bytes that are left
/// over are encoded as if zeros followed, and an equals sign stands for each character
/// that only those would give.
pub proof fn law_base64_goes_by_threes(a: Seq<u8>, b: Seq<u8>, x: u8, y: u8)
    requires
        a.len() % 3 == 0,
    ensures
        base64(a + b) == base64(a) + base64(b),
        base64(Seq::empty()) == Seq::<char>::empty(),
        base64(seq![x]) == base64(seq![x, 0, 0]).take(2) + seq!['=', '='],
        base64(seq![x, y]) == base64(seq![x, y, 0]).take(3) + seq!['='],
    decreases a.len(),
{
    if a.len() == 0 {
        assert(a + b =~= b);
        assert(base64(a) + base64(b) =~= base64(b));
    } else {
        law_base64_goes_by_threes(a.skip(3), b, x, y);
        assert((a + b).skip(3) =~= a.skip(3) + b);
        assert(base64(a + b) =~= base64(a) + base64(b));
    }
    assert(base64(seq![x]) =~= base64(seq![x, 0, 0]).take(2) + seq!['=', '=']);
    assert(base64(seq![x, y]) =~= base64(seq![x, y, 0]).take(3) + seq!['=']);
}

/// A text is read as the bytes whose Base64 form it is, and as nothing where it is the
/// form of none.
pub proof fn law_base64_is_read_as_it_was_written(encoded: Seq<char>, b: Seq<u8>)
    ensures
        base64_bytes(encoded) == Some(b) <==> base64(b) == encoded,
{
    if base64(b) == encoded {
        law_base64_reads_back(b);
    }
}

} // verus!
