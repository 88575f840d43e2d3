//! Percent-encoding over the RFC 3986 unreserved-character set, as OAuth 1.0a
//! signing requires it: `A-Z a-z 0-9 - _ . ~` pass through, every other byte
//! becomes `%XX` with uppercase hex digits (a space becomes `%20`, never `+`).

use vstd::prelude::*;
use vstd::string::StrSliceExecFns;
use vstd::string::StringSliceAdditionalSpecFns;

verus! {

/// A byte that percent-encoding leaves unescaped.
pub open spec fn is_unreserved(b: u8) -> bool {
    (0x41 <= b <= 0x5a)  // A-Z
    || (0x61 <= b <= 0x7a)  // a-z
    || (0x30 <= b <= 0x39)  // 0-9
    || b == 0x2d  // -
    || b == 0x5f  // _
    || b == 0x2e  // .
    || b == 0x7e  // ~
}

/// The uppercase hexadecimal digit for a value below 16.
pub open spec fn hex_digit(n: u8) -> u8
    recommends
        n < 16,
{
    if n < 10 {
        (0x30 + n) as u8
    } else {
        (0x41 + (n - 10)) as u8
    }
}

/// The value of a hexadecimal digit byte, either case, if it is one.
pub open spec fn hex_val(b: u8) -> Option<u8> {
    if 0x30 <= b <= 0x39 {
        Some((b - 0x30) as u8)
    } else if 0x41 <= b <= 0x46 {
        Some((b - 0x41 + 10) as u8)
    } else if 0x61 <= b <= 0x66 {
        Some((b - 0x61 + 10) as u8)
    } else {
        None
    }
}

/// The percent-encoding of one byte.
pub open spec fn pe_byte(b: u8) -> Seq<u8> {
    if is_unreserved(b) {
        seq![b]
    } else {
        seq![0x25u8, hex_digit(b / 16), hex_digit(b % 16)]
    }
}

/// The percent-encoding of a byte sequence.
pub open spec fn pe(s: Seq<u8>) -> Seq<u8>
    decreases s.len(),
{
    if s.len() == 0 {
        Seq::empty()
    } else {
        pe_byte(s[0]) + pe(s.drop_first())
    }
}

/// Percent-decoding: `%XX` (either hex case) becomes one byte, any other byte
/// passes through; a truncated or malformed escape fails.
pub open spec fn pd(s: Seq<u8>) -> Option<Seq<u8>>
    decreases s.len(),
{
    if s.len() == 0 {
        Some(Seq::empty())
    } else if s[0] == 0x25 {
        if s.len() >= 3 {
            match (hex_val(s[1]), hex_val(s[2])) {
                (Some(h), Some(l)) => match pd(s.subrange(3, s.len() as int)) {
                    Some(t) => Some(seq![(16 * h + l) as u8] + t),
                    None => None,
                },
                _ => None,
            }
        } else {
            None
        }
    } else {
        match pd(s.drop_first()) {
            Some(t) => Some(seq![s[0]] + t),
            None => None,
        }
    }
}

pub proof fn lemma_pe_push(s: Seq<u8>, b: u8)
    ensures
        pe(s.push(b)) == pe(s) + pe_byte(b),
    decreases s.len(),
{
    if s.len() == 0 {
        assert(s.push(b)[0] == b);
        assert(s.push(b).drop_first() =~= Seq::<u8>::empty());
        assert(s.push(b).len() == 1);
        assert(pe(s.push(b)) == pe_byte(b) + pe(Seq::<u8>::empty()));
        assert(pe(Seq::<u8>::empty()) =~= Seq::<u8>::empty());
        assert(pe(s.push(b)) =~= pe_byte(b));
        assert(pe(s) + pe_byte(b) =~= pe_byte(b));
    } else {
        assert(s.push(b).drop_first() =~= s.drop_first().push(b));
        lemma_pe_push(s.drop_first(), b);
        assert(pe(s.push(b)) =~= pe(s) + pe_byte(b));
    }
}

/// Every byte of a percent-encoded sequence is ASCII.
pub proof fn lemma_pe_ascii(s: Seq<u8>)
    ensures
        forall|i: int| 0 <= i < pe(s).len() ==> pe(s)[i] < 0x80,
    decreases s.len(),
{
    if s.len() > 0 {
        lemma_pe_ascii(s.drop_first());
        assert forall|i: int| 0 <= i < pe(s).len() implies pe(s)[i] < 0x80 by {
            if i < pe_byte(s[0]).len() {
                assert(pe(s)[i] == pe_byte(s[0])[i]);
            } else {
                assert(pe(s)[i] == pe(s.drop_first())[i - pe_byte(s[0]).len()]);
            }
        }
    }
}

proof fn lemma_hex_val_of_digit(n: u8)
    requires
        n < 16,
    ensures
        hex_val(hex_digit(n)) == Some(n),
{
}

/// Decoding inverts encoding: for every byte sequence `s`,
/// `pd(pe(s)) == Some(s)`.
pub proof fn lemma_percent_round_trip(s: Seq<u8>)
    ensures
        pd(pe(s)) == Some(s),
    decreases s.len(),
{
    if s.len() == 0 {
    } else {
        let b = s[0];
        let rest = s.drop_first();
        lemma_percent_round_trip(rest);
        let e = pe(s);
        assert(e == pe_byte(b) + pe(rest));
        if is_unreserved(b) {
            assert(e[0] == b);
            assert(b != 0x25);
            assert(e.drop_first() =~= pe(rest));
            assert(pd(e) == Some(seq![b] + rest));
            assert(seq![b] + rest =~= s);
        } else {
            assert(e[0] == 0x25);
            assert(e[1] == hex_digit(b / 16));
            assert(e[2] == hex_digit(b % 16));
            lemma_hex_val_of_digit(b / 16);
            lemma_hex_val_of_digit(b % 16);
            assert(e.subrange(3, e.len() as int) =~= pe(rest));
            assert(16 * (b / 16) + (b % 16) == b) by (nonlinear_arith);
            assert(pd(e) == Some(seq![b] + rest));
            assert(seq![b] + rest =~= s);
        }
    }
}

/// Percent-encode a byte sequence.
pub fn percent_encode_bytes(s: &[u8]) -> (r: Vec<u8>)
    ensures
        r@ == pe(s@),
{
    let mut r: Vec<u8> = Vec::new();
    let mut i: usize = 0;
    while i < s.len()
        invariant
            i <= s@.len(),
            r@ == pe(s@.take(i as int)),
        decreases s@.len() - i,
    {
        let b = s[i];
        proof {
            lemma_pe_push(s@.take(i as int), b);
            assert(s@.take(i as int).push(b) =~= s@.take(i + 1));
        }
        if (0x41 <= b && b <= 0x5a) || (0x61 <= b && b <= 0x7a) || (0x30 <= b && b <= 0x39)
            || b == 0x2d || b == 0x5f || b == 0x2e || b == 0x7e {
            r.push(b);
        } else {
            r.push(0x25);
            r.push(hex_digit_of(b / 16));
            r.push(hex_digit_of(b % 16));
        }
        assert(r@ =~= pe(s@.take(i + 1 as int)));
        i = i + 1;
    }
    proof {
        assert(s@.take(s@.len() as int) =~= s@);
    }
    r
}

/// The uppercase hexadecimal digit byte for a value below 16.
pub fn hex_digit_of(n: u8) -> (r: u8)
    requires
        n < 16,
    ensures
        r == hex_digit(n),
{
    if n < 10 {
        0x30 + n
    } else {
        0x41 + (n - 10)
    }
}

/// The value of a hexadecimal digit byte, either case.
pub fn hex_val_of(b: u8) -> (r: Option<u8>)
    ensures
        r == hex_val(b),
{
    if 0x30 <= b && b <= 0x39 {
        Some(b - 0x30)
    } else if 0x41 <= b && b <= 0x46 {
        Some(b - 0x41 + 10)
    } else if 0x61 <= b && b <= 0x66 {
        Some(b - 0x61 + 10)
    } else {
        None
    }
}

/// Percent-decode a byte sequence; `None` on a truncated or malformed escape.
pub fn percent_decode_bytes(s: &[u8]) -> (r: Option<Vec<u8>>)
    ensures
        match r {
            Some(v) => pd(s@) == Some(v@),
            None => pd(s@) is None,
        },
{
    let mut r: Vec<u8> = Vec::new();
    let mut i: usize = 0;
    proof {
        assert(s@.skip(0) =~= s@);
        assert(forall|t: Seq<u8>| Seq::<u8>::empty() + t =~= t);
    }
    while i < s.len()
        invariant
            i <= s@.len(),
            pd(s@) == match pd(s@.skip(i as int)) {
                Some(t) => Some(r@ + t),
                None => None::<Seq<u8>>,
            },
        decreases s@.len() - i,
    {
        let ghost suf = s@.skip(i as int);
        assert(suf[0] == s@[i as int]);
        if s[i] == 0x25 {
            if s.len() - i >= 3 {
                let h = hex_val_of(s[i + 1]);
                let l = hex_val_of(s[i + 2]);
                match (h, l) {
                    (Some(hv), Some(lv)) => {
                        assert(suf.len() >= 3);
                        assert(suf[1] == s@[i + 1]);
                        assert(suf[2] == s@[i + 2]);
                        assert(hv < 16 && lv < 16);
                        r.push(16 * hv + lv);
                        proof {
                            assert(suf.subrange(3, suf.len() as int) =~= s@.skip(i + 3));
                            assert(forall|a: Seq<u8>, b: Seq<u8>, c: Seq<u8>|
                                (a + b) + c =~= a + (b + c));
                        }
                        i = i + 3;
                    },
                    _ => {
                        return None;
                    },
                }
            } else {
                return None;
            }
        } else {
            r.push(s[i]);
            proof {
                assert(suf.drop_first() =~= s@.skip(i + 1));
                assert(forall|a: Seq<u8>, b: Seq<u8>, c: Seq<u8>| (a + b) + c =~= a + (b + c));
            }
            i = i + 1;
        }
    }
    proof {
        assert(s@.skip(s@.len() as int) =~= Seq::<u8>::empty());
        assert(r@ + Seq::<u8>::empty() =~= r@);
    }
    Some(r)
}

/// Bytes known to be ASCII, repackaged as a `String`.
///
/// Relies on `String::from_utf8`: ASCII bytes are valid UTF-8 and decode to
/// the character of the same code point, one per byte.
#[verifier::external_body]
pub(crate) fn ascii_to_string(v: Vec<u8>) -> (r: String)
    requires
        forall|i: int| 0 <= i < v@.len() ==> v@[i] < 0x80,
    ensures
        r@ == v@.map_values(|b: u8| b as char),
{
    match String::from_utf8(v) {
        Ok(s) => s,
        Err(_) => String::new(),
    }
}

/// The UTF-8 bytes of a character sequence.
pub open spec fn utf8_bytes(s: Seq<char>) -> Seq<u8> {
    vstd::utf8::encode_utf8(s)
}

/// The bytes of an ASCII character sequence, one per character.
pub open spec fn ascii_bytes(s: Seq<char>) -> Seq<u8> {
    s.map_values(|c: char| c as u8)
}

/// The byte vector of an ASCII string slice (used for the protocol's fixed
/// names, whose literals are ASCII by inspection).
pub fn lit_bytes(s: &str) -> (r: Vec<u8>)
    requires
        vstd::utf8::is_ascii_chars(s@),
    ensures
        r@ == ascii_bytes(s@),
        r@.len() == s@.len(),
        forall|i: int| 0 <= i < r@.len() ==> r@[i] < 0x80,
{
    proof {
        vstd::string::is_ascii_spec_bytes(s);
        assert(s.spec_bytes() =~= ascii_bytes(s@));
    }
    s.as_bytes_vec()
}

/// The decimal digit string of a natural number, most significant first,
/// without leading zeros (a single `0` for zero).
pub open spec fn dec_u64(n: nat) -> Seq<u8>
    decreases n,
{
    if n < 10 {
        seq![(0x30 + n) as u8]
    } else {
        dec_u64(n / 10) + seq![(0x30 + (n % 10)) as u8]
    }
}

/// The decimal digit string of an integer: a `-` sign before the digits of
/// the magnitude when negative.
pub open spec fn dec_i64(n: int) -> Seq<u8> {
    if n < 0 {
        seq![0x2du8] + dec_u64((-n) as nat)
    } else {
        dec_u64(n as nat)
    }
}

/// Every byte of a decimal digit string is an ASCII digit.
pub proof fn lemma_dec_u64_ascii(n: nat)
    ensures
        forall|i: int| 0 <= i < dec_u64(n).len() ==> 0x30 <= #[trigger] dec_u64(n)[i] <= 0x39,
    decreases n,
{
    if n >= 10 {
        lemma_dec_u64_ascii(n / 10);
        assert forall|i: int| 0 <= i < dec_u64(n).len() implies 0x30 <= #[trigger] dec_u64(n)[i]
            <= 0x39 by {
            if i < dec_u64(n / 10).len() {
                assert(dec_u64(n)[i] == dec_u64(n / 10)[i]);
            }
        }
    }
}

/// Render a number in decimal.
pub fn u64_to_decimal(n: u64) -> (r: Vec<u8>)
    ensures
        r@ == dec_u64(n as nat),
    decreases n,
{
    if n < 10 {
        let mut r: Vec<u8> = Vec::new();
        r.push(0x30 + (n as u8));
        proof {
            assert(r@ =~= dec_u64(n as nat));
        }
        r
    } else {
        let mut r = u64_to_decimal(n / 10);
        r.push(0x30 + ((n % 10) as u8));
        proof {
            assert(r@ =~= dec_u64(n as nat));
        }
        r
    }
}

/// Render a signed number in decimal.
pub fn i64_to_decimal(n: i64) -> (r: Vec<u8>)
    ensures
        r@ == dec_i64(n as int),
{
    if n >= 0 {
        u64_to_decimal(n as u64)
    } else {
        // Magnitude without overflowing on the smallest value.
        let m: u64 = ((-(n + 1)) as u64) + 1;
        assert(m == -(n as int));
        let digits = u64_to_decimal(m);
        let mut r: Vec<u8> = Vec::new();
        r.push(0x2d);
        push_all(&mut r, digits.as_slice());
        proof {
            assert(r@ =~= dec_i64(n as int));
        }
        r
    }
}

/// Append the bytes of a slice to a vector.
pub fn push_all(dst: &mut Vec<u8>, src: &[u8])
    ensures
        final(dst)@ == old(dst)@ + src@,
{
    let mut i: usize = 0;
    while i < src.len()
        invariant
            i <= src@.len(),
            dst@ == old(dst)@ + src@.take(i as int),
        decreases src@.len() - i,
    {
        dst.push(src[i]);
        proof {
            assert(old(dst)@ + src@.take(i as int) + seq![src@[i as int]] =~= old(dst)@
                + src@.take(i + 1));
        }
        i = i + 1;
    }
    proof {
        assert(src@.take(src@.len() as int) =~= src@);
    }
}

/// Bytes repackaged as a `String` when they are valid UTF-8.
///
/// Relies on `String::from_utf8`: it succeeds exactly on valid UTF-8 and
/// keeps the bytes as they are.
#[verifier::external_body]
pub(crate) fn utf8_to_string(v: Vec<u8>) -> (r: Option<String>)
    ensures
        match r {
            Some(s) => vstd::utf8::encode_utf8(s@) == v@ && vstd::utf8::valid_utf8(v@),
            None => !vstd::utf8::valid_utf8(v@),
        },
{
    match String::from_utf8(v) {
        Ok(s) => Some(s),
        Err(_) => None,
    }
}

/// Percent encode a string for OAuth.
pub fn percent_encode(s: &str) -> (r: String)
    ensures
        r@ == pe(s.spec_bytes()).map_values(|b: u8| b as char),
{
    let bytes = s.as_bytes_vec();
    let encoded = percent_encode_bytes(bytes.as_slice());
    proof {
        lemma_pe_ascii(s.spec_bytes());
    }
    ascii_to_string(encoded)
}

/// Every byte is an ASCII decimal digit.
pub open spec fn is_digit_bytes(s: Seq<u8>) -> bool {
    forall|i: int| 0 <= i < s.len() ==> 0x30 <= #[trigger] s[i] <= 0x39
}

/// The numeric value of a digit string, most significant digit first.
pub open spec fn dec_val(s: Seq<u8>) -> int
    decreases s.len(),
{
    if s.len() == 0 {
        0
    } else {
        dec_val(s.drop_last()) * 10 + (s.last() - 0x30)
    }
}

pub proof fn lemma_dec_val_nonneg(s: Seq<u8>)
    requires
        is_digit_bytes(s),
    ensures
        dec_val(s) >= 0,
    decreases s.len(),
{
    if s.len() > 0 {
        assert(is_digit_bytes(s.drop_last())) by {
            assert(forall|i: int|
                0 <= i < s.drop_last().len() ==> 0x30 <= #[trigger] s.drop_last()[i] <= 0x39);
        }
        lemma_dec_val_nonneg(s.drop_last());
    }
}

pub proof fn lemma_dec_val_prefix(s: Seq<u8>, i: int)
    requires
        is_digit_bytes(s),
        0 <= i <= s.len(),
    ensures
        dec_val(s.take(i)) <= dec_val(s),
    decreases s.len() - i,
{
    if i < s.len() {
        lemma_dec_val_prefix(s, i + 1);
        assert(s.take(i + 1).drop_last() =~= s.take(i));
        assert(is_digit_bytes(s.take(i))) by {
            assert(forall|j: int|
                0 <= j < s.take(i).len() ==> 0x30 <= #[trigger] s.take(i)[j] <= 0x39);
        }
        lemma_dec_val_nonneg(s.take(i));
        assert(s.take(i + 1).last() == s[i]);
        assert(dec_val(s.take(i + 1)) == dec_val(s.take(i)) * 10 + (s[i] - 0x30));
        assert(dec_val(s.take(i)) * 10 >= dec_val(s.take(i))) by (nonlinear_arith)
            requires dec_val(s.take(i)) >= 0;
    } else {
        assert(s.take(i) =~= s);
    }
}

/// Decimal rendering and decimal value are inverse: the digit string of a
/// number is all digits and denotes that number.
pub proof fn lemma_dec_u64_value(n: nat)
    ensures
        is_digit_bytes(dec_u64(n)),
        dec_val(dec_u64(n)) == n,
    decreases n,
{
    lemma_dec_u64_ascii(n);
    if n < 10 {
        let d = dec_u64(n);
        assert(d.len() == 1);
        assert(d.drop_last() =~= Seq::<u8>::empty());
        assert(dec_val(Seq::<u8>::empty()) == 0);
        assert(d.last() == (0x30 + n) as u8);
        assert(dec_val(d) == dec_val(d.drop_last()) * 10 + (d.last() - 0x30));
        assert(dec_val(d) == n);
    } else {
        lemma_dec_u64_value(n / 10);
        let d = dec_u64(n);
        assert(d.drop_last() =~= dec_u64(n / 10));
        assert(d.last() == (0x30 + (n % 10)) as u8);
        assert(dec_val(d) == dec_val(dec_u64(n / 10)) * 10 + (n % 10));
        assert((n / 10) * 10 + (n % 10) == n);
        assert(is_digit_bytes(d)) by {
            assert(forall|i: int| 0 <= i < d.len() ==> 0x30 <= #[trigger] d[i] <= 0x39);
        }
    }
}

/// A digit token that denotes a value a `u32` can hold.
pub open spec fn lex_u32_ok(s: Seq<u8>) -> bool {
    s.len() > 0 && is_digit_bytes(s) && dec_val(s) <= u32::MAX
}

/// Read the value of a decimal digit token; `None` on a sign, a fraction, an
/// exponent, an empty token, or a value over the `u32` range.
pub fn parse_u32_digits(s: &Vec<u8>) -> (r: Option<u32>)
    ensures
        match r {
            Some(n) => lex_u32_ok(s@) && n == dec_val(s@),
            None => !lex_u32_ok(s@),
        },
{
    if s.len() == 0 {
        return None;
    }
    let mut val: u32 = 0;
    let mut i: usize = 0;
    while i < s.len()
        invariant
            i <= s@.len(),
            forall|j: int| 0 <= j < i ==> 0x30 <= #[trigger] s@[j] <= 0x39,
            val == dec_val(s@.take(i as int)),
        decreases s@.len() - i,
    {
        let b = s[i];
        if !(0x30 <= b && b <= 0x39) {
            return None;
        }
        let d: u32 = (b - 0x30) as u32;
        if val > (u32::MAX - d) / 10 {
            proof {
                assert(is_digit_bytes(s@.take(i + 1))) by {
                    assert(forall|j: int|
                        0 <= j < s@.take(i + 1).len() ==> 0x30 <= #[trigger] s@.take(i + 1)[j]
                            <= 0x39);
                }
                assert(s@.take(i + 1).drop_last() =~= s@.take(i as int));
                assert(s@.take(i + 1).last() == s@[i as int]);
                assert(dec_val(s@.take(i + 1)) == val * 10 + d);
                assert(val * 10 + d > u32::MAX) by (nonlinear_arith)
                    requires val > (u32::MAX - d) / 10 && d <= 9 && val <= u32::MAX;
                if is_digit_bytes(s@) {
                    lemma_dec_val_prefix(s@, i + 1);
                }
            }
            return None;
        }
        proof {
            assert(val * 10 + d <= u32::MAX) by (nonlinear_arith)
                requires val <= (u32::MAX - d) / 10 && d <= 9;
            assert(s@.take(i + 1).drop_last() =~= s@.take(i as int));
            assert(s@.take(i + 1).last() == s@[i as int]);
        }
        val = val * 10 + d;
        i = i + 1;
    }
    proof {
        assert(s@.take(s@.len() as int) =~= s@);
    }
    Some(val)
}

} // verus!
