use vstd::prelude::*;
use vstd::utf8::*;
use crate::number::{digit_char, law_parse_append_digit, law_parse_digit, parse_i32};

verus! {

/// The ASCII decimal digits of `n`, most significant first (as `to_string` writes them).
pub open spec fn decimal(n: nat) -> Seq<u8>
    decreases n,
{
    if n < 10 {
        seq![(48 + n) as u8]
    } else {
        decimal(n / 10) + seq![(48 + n % 10) as u8]
    }
}

/// Writes the decimal digits of `n`.
pub fn decimal_bytes(n: u8) -> (res: Vec<u8>)
    ensures
        res@ == decimal(n as nat),
{
    if n < 10 {
        vec![48 + n]
    } else if n < 100 {
        proof {
            reveal_with_fuel(decimal, 2);
        }
        vec![48 + n / 10, 48 + n % 10]
    } else {
        proof {
            reveal_with_fuel(decimal, 3);
            assert((n / 10) / 10 == n / 100);
        }
        vec![48 + n / 100, 48 + (n / 10) % 10, 48 + n % 10]
    }
}

/// Appends `bytes` to `out`.
pub fn push_all(out: &mut Vec<u8>, bytes: &[u8])
    ensures
        final(out)@ == old(out)@ + bytes@,
{
    let mut i: usize = 0;
    while i < bytes.len()
        invariant
            i <= bytes@.len(),
            out@ == old(out)@ + bytes@.subrange(0, i as int),
        decreases bytes@.len() - i,
    {
        out.push(bytes[i]);
        i = i + 1;
        assert(bytes@.subrange(0, i as int) == bytes@.subrange(0, i - 1) + seq![bytes@[i - 1]]);
    }
    assert(bytes@.subrange(0, bytes@.len() as int) == bytes@);
}

/// The UTF-8 encoding of a scalar value that takes three bytes.
pub fn encode_three(cp: u32) -> (res: Vec<u8>)
    requires
        has_width_3_encoding(cp),
    ensures
        res@ == encode_scalar(cp),
{
    vec![
        0xE0u8 | ((cp >> 12) & 0x0F) as u8,
        0x80u8 | ((cp >> 6) & 0x3F) as u8,
        0x80u8 | (cp & 0x3F) as u8,
    ]
}

/// `std::str::from_utf8`, with the result copied into a `String`. Its documentation
/// says that it fails exactly when the bytes are not valid UTF-8; the contract states
/// this with vstd's definitions of valid UTF-8 and of its decoding.
#[verifier::external_body]
pub fn utf8_string(bytes: &[u8]) -> (res: Option<String>)
    ensures
        res is Some <==> valid_utf8(bytes@),
        res matches Some(s) ==> s@ == decode_utf8(bytes@),
{
    match std::str::from_utf8(bytes) {
        Ok(s) => Some(s.to_string()),
        Err(_) => None,
    }
}

/// What `str::to_lowercase` returns for a string: a function of the string alone
/// (Unicode's lowercase mapping, with the final-sigma rule).
pub uninterp spec fn lowercase_of(s: Seq<char>) -> Seq<char>;

/// `str::to_lowercase`. Nothing is claimed of the mapping beyond its name.
#[verifier::external_body]
pub fn lowercase(s: &str) -> (res: String)
    ensures
        res@ == lowercase_of(s@),
{
    s.to_lowercase()
}

proof fn lemma_decimal_digits(n: nat)
    ensures
        decimal(n).len() > 0,
        forall|i: int| 0 <= i < decimal(n).len() ==> 48 <= #[trigger] decimal(n)[i] <= 57,
    decreases n,
{
    if n >= 10 {
        lemma_decimal_digits(n / 10);
    }
}

/// The decimal digits written for a number read back as that number.
pub proof fn law_decimal_parses_back(n: nat)
    requires
        n <= i32::MAX,
    ensures
        parse_i32(decimal(n), 10) == Some(n as i32),
    decreases n,
{
    lemma_decimal_digits(n);
    if n < 10 {
        law_parse_digit(n, 10);
        assert(digit_char(n) == (48 + n) as u8);
    } else {
        law_decimal_parses_back(n / 10);
        lemma_decimal_digits(n / 10);
        assert(decimal(n / 10)[0] != 45);
        law_parse_append_digit(decimal(n / 10), 10, n % 10);
        assert(digit_char(n % 10) == (48 + n % 10) as u8);
        assert(decimal(n) == decimal(n / 10).push(digit_char(n % 10)));
        assert((n / 10) * 10 + n % 10 == n);
    }
}

} // verus!
