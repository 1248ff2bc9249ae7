//! Inline rasters: a PNG stream as `data:image/png;base64,<text>`.

use vstd::prelude::*;
use vstd::string::StringExecFns;
use crate::error::EncodingFault;

verus! {

/// The character of one six-bit digit in the standard base64 alphabet:
/// `A`-`Z`, `a`-`z`, `0`-`9`, `+`, `/`.
pub open spec fn digit(v: int) -> char {
    if v < 26 {
        (65 + v) as u8 as char
    } else if v < 52 {
        (71 + v) as u8 as char
    } else if v < 62 {
        (v - 4) as u8 as char
    } else if v == 62 {
        '+'
    } else {
        '/'
    }
}

/// Standard padded base64: every three bytes become four digits, and a last
/// group of one or two bytes is zero-filled to whole digits and padded with
/// `=` to four characters.
pub open spec fn base64_text(bytes: Seq<u8>) -> Seq<char>
    decreases bytes.len(),
{
    let b0 = bytes[0] as int;
    let b1 = bytes[1] as int;
    let b2 = bytes[2] as int;
    if bytes.len() == 0 {
        Seq::empty()
    } else if bytes.len() == 1 {
        seq![digit(b0 / 4), digit(b0 % 4 * 16), '=', '=']
    } else if bytes.len() == 2 {
        seq![digit(b0 / 4), digit(b0 % 4 * 16 + b1 / 16), digit(b1 % 16 * 4), '=']
    } else {
        seq![
            digit(b0 / 4),
            digit(b0 % 4 * 16 + b1 / 16),
            digit(b1 % 16 * 4 + b2 / 64),
            digit(b2 % 64),
        ] + base64_text(bytes.skip(3))
    }
}

/// Number of characters in the base64 text of `len` bytes.
pub open spec fn base64_len(len: nat) -> nat {
    4 * ((len + 2) / 3)
}

/// The inline form of a PNG stream.
pub open spec fn data_url_text(png: Seq<u8>) -> Seq<char> {
    "data:image/png;base64,"@ + base64_text(png)
}

/// The base64 text of `n` bytes has `base64_len(n)` characters.
pub proof fn lemma_base64_len(bytes: Seq<u8>)
    ensures
        base64_text(bytes).len() == base64_len(bytes.len()),
    decreases bytes.len(),
{
    if bytes.len() >= 3 {
        lemma_base64_len(bytes.skip(3));
    }
}

/// The code point of each digit: no two digits share a character, and none
/// is the padding character.
pub proof fn lemma_digit_code(v: int)
    requires
        0 <= v < 64,
    ensures
        digit(v) as int == if v < 26 {
            65 + v
        } else if v < 52 {
            71 + v
        } else if v < 62 {
            v - 4
        } else if v == 62 {
            43
        } else {
            47
        },
        digit(v) != '=',
{
}

/// The three bytes of a full group are determined by its four digits.
proof fn lemma_group(a: Seq<u8>, b: Seq<u8>)
    requires
        a.len() >= 3,
        b.len() >= 3,
        digit(a[0] as int / 4) == digit(b[0] as int / 4),
        digit(a[0] as int % 4 * 16 + a[1] as int / 16) == digit(
            b[0] as int % 4 * 16 + b[1] as int / 16,
        ),
        digit(a[1] as int % 16 * 4 + a[2] as int / 64) == digit(
            b[1] as int % 16 * 4 + b[2] as int / 64,
        ),
        digit(a[2] as int % 64) == digit(b[2] as int % 64),
    ensures
        a[0] == b[0],
        a[1] == b[1],
        a[2] == b[2],
{
    lemma_digit_code(a[0] as int / 4);
    lemma_digit_code(b[0] as int / 4);
    lemma_digit_code(a[0] as int % 4 * 16 + a[1] as int / 16);
    lemma_digit_code(b[0] as int % 4 * 16 + b[1] as int / 16);
    lemma_digit_code(a[1] as int % 16 * 4 + a[2] as int / 64);
    lemma_digit_code(b[1] as int % 16 * 4 + b[2] as int / 64);
    lemma_digit_code(a[2] as int % 64);
    lemma_digit_code(b[2] as int % 64);
}

/// Base64 loses nothing: streams with the same text are the same stream.
pub proof fn lemma_base64_lossless(a: Seq<u8>, b: Seq<u8>)
    requires
        base64_text(a) == base64_text(b),
    ensures
        a == b,
    decreases a.len(),
{
    lemma_base64_len(a);
    lemma_base64_len(b);
    let ta = base64_text(a);
    let tb = base64_text(b);
    if a.len() == 0 || b.len() == 0 {
        assert(a.len() == 0 && b.len() == 0);
        assert(a =~= b);
    } else {
        // the last character of the first group tells a full group from a padded one,
        // and the third tells the two padded ones apart
        lemma_digit_code(a[0] as int / 4);
        lemma_digit_code(b[0] as int / 4);
        lemma_digit_code(a[0] as int % 4 * 16);
        lemma_digit_code(b[0] as int % 4 * 16);
        if a.len() >= 2 {
            lemma_digit_code(a[0] as int % 4 * 16 + a[1] as int / 16);
            lemma_digit_code(a[1] as int % 16 * 4);
        }
        if b.len() >= 2 {
            lemma_digit_code(b[0] as int % 4 * 16 + b[1] as int / 16);
            lemma_digit_code(b[1] as int % 16 * 4);
        }
        if a.len() >= 3 {
            lemma_digit_code(a[1] as int % 16 * 4 + a[2] as int / 64);
            lemma_digit_code(a[2] as int % 64);
        }
        if b.len() >= 3 {
            lemma_digit_code(b[1] as int % 16 * 4 + b[2] as int / 64);
            lemma_digit_code(b[2] as int % 64);
        }
        assert(ta[0] == tb[0] && ta[1] == tb[1] && ta[2] == tb[2] && ta[3] == tb[3]);
        if a.len() >= 3 {
            assert(ta[3] != '=');
            assert(b.len() >= 3);
            lemma_group(a, b);
            let ra = a.skip(3);
            let rb = b.skip(3);
            assert(base64_text(ra) =~= ta.skip(4));
            assert(base64_text(rb) =~= tb.skip(4));
            lemma_base64_lossless(ra, rb);
            assert forall|i: int| 0 <= i < a.len() implies a[i] == b[i] by {
                if i >= 3 {
                    assert(a[i] == ra[i - 3]);
                    assert(b[i] == rb[i - 3]);
                }
            }
            assert(a.len() == ra.len() + 3 && b.len() == rb.len() + 3);
            assert(a =~= b);
        } else if a.len() == 2 {
            assert(ta[3] == '=' && ta[2] != '=');
            assert(b.len() == 2);
            assert(a[0] == b[0] && a[1] == b[1]);
            assert(a =~= b);
        } else {
            assert(ta[2] == '=');
            assert(b.len() == 1);
            assert(a[0] == b[0]);
            assert(a =~= b);
        }
    }
}

/// The inline form loses nothing: streams with the same inline text are the
/// same stream.
pub proof fn lemma_data_url_lossless(a: Seq<u8>, b: Seq<u8>)
    requires
        data_url_text(a) == data_url_text(b),
    ensures
        a == b,
{
    let tag = "data:image/png;base64,"@;
    assert(base64_text(a) =~= data_url_text(a).skip(tag.len() as int));
    assert(base64_text(b) =~= data_url_text(b).skip(tag.len() as int));
    lemma_base64_lossless(a, b);
}

/// `Engine::encode` of base64's `general_purpose::STANDARD` engine: the
/// standard alphabet with padding. The contract claims that the string it
/// returns is the padded base64 text of the input. The call panics where the
/// length of that text overflows `usize`, which `requires` leaves out.
#[verifier::external_body]
fn encode_standard(bytes: &Vec<u8>) -> (text: String)
    requires
        base64_len(bytes@.len()) <= usize::MAX,
    ensures
        text@ == base64_text(bytes@),
{
    base64::Engine::encode(&base64::engine::general_purpose::STANDARD, bytes)
}

/// Renders a PNG stream as inline text. Fails exactly when the base64 text
/// would be longer than the machine word can count.
pub fn data_url(png: &Vec<u8>) -> (result: Result<String, EncodingFault>)
    ensures
        match result {
            Ok(url) => base64_len(png@.len()) <= usize::MAX && url@ == data_url_text(png@),
            Err(fault) => fault == EncodingFault::TooLong && base64_len(png@.len()) > usize::MAX,
        },
{
    let len: usize = png.len();
    let groups: usize = if len % 3 == 0 {
        len / 3
    } else {
        len / 3 + 1
    };
    assert(groups == (len + 2) / 3);
    if groups > usize::MAX / 4 {
        return Err(EncodingFault::TooLong);
    }
    let text = encode_standard(png);
    Ok(String::from_str("data:image/png;base64,").concat(text.as_str()))
}

} // verus!
