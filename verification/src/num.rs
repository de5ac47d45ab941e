//! Decimal and hexadecimal byte-level numerals: parsing (for
//! `Content-Length` values and chunk-size lines) and formatting (for the
//! emitted framing headers and chunk sizes), with round-trip lemmas.

use vstd::prelude::*;

verus! {

pub open spec fn is_dec_digit(b: u8) -> bool {
    48 <= b <= 57
}

pub open spec fn is_hex_digit(b: u8) -> bool {
    is_dec_digit(b) || (97 <= b <= 102) || (65 <= b <= 70)
}

/// Numeric value of one hexadecimal digit byte.
pub open spec fn hex_digit_val(b: u8) -> int {
    if is_dec_digit(b) {
        b - 48
    } else if 97 <= b <= 102 {
        b - 97 + 10
    } else {
        b - 65 + 10
    }
}

pub open spec fn all_dec_digits(s: Seq<u8>) -> bool {
    forall|i: int| 0 <= i < s.len() ==> is_dec_digit(#[trigger] s[i])
}

pub open spec fn all_hex_digits(s: Seq<u8>) -> bool {
    forall|i: int| 0 <= i < s.len() ==> is_hex_digit(#[trigger] s[i])
}

/// Value of a decimal numeral, most significant digit first.
pub open spec fn dec_val_of(s: Seq<u8>) -> int
    decreases s.len(),
{
    if s.len() == 0 {
        0
    } else {
        dec_val_of(s.drop_last()) * 10 + (s.last() - 48)
    }
}

/// Value of a hexadecimal numeral, most significant digit first.
pub open spec fn hex_val_of(s: Seq<u8>) -> int
    decreases s.len(),
{
    if s.len() == 0 {
        0
    } else {
        hex_val_of(s.drop_last()) * 16 + hex_digit_val(s.last())
    }
}

/// The shortest decimal numeral of `n` (no leading zeros, except for 0
/// itself).
pub open spec fn spec_dec_bytes(n: nat) -> Seq<u8>
    decreases n,
{
    if n < 10 {
        seq![(48 + n) as u8]
    } else {
        spec_dec_bytes(n / 10).push((48 + n % 10) as u8)
    }
}

/// The shortest lower-case hexadecimal numeral of `n`.
pub open spec fn spec_hex_bytes(n: nat) -> Seq<u8>
    decreases n,
{
    if n < 10 {
        seq![(48 + n) as u8]
    } else if n < 16 {
        seq![(97 + (n - 10)) as u8]
    } else {
        spec_hex_bytes(n / 16).push(spec_hex_bytes((n % 16) as nat)[0])
    }
}

pub proof fn lemma_dec_val_nonneg(s: Seq<u8>)
    requires
        all_dec_digits(s),
    ensures
        dec_val_of(s) >= 0,
    decreases s.len(),
{
    if s.len() > 0 {
        assert(all_dec_digits(s.drop_last()));
        lemma_dec_val_nonneg(s.drop_last());
    }
}

pub proof fn lemma_hex_val_nonneg(s: Seq<u8>)
    requires
        all_hex_digits(s),
    ensures
        hex_val_of(s) >= 0,
    decreases s.len(),
{
    if s.len() > 0 {
        assert(all_hex_digits(s.drop_last()));
        lemma_hex_val_nonneg(s.drop_last());
    }
}

/// Every byte of the decimal numeral of `n` is a decimal digit.
pub proof fn lemma_dec_bytes_digits(n: nat)
    ensures
        spec_dec_bytes(n).len() >= 1,
        all_dec_digits(spec_dec_bytes(n)),
    decreases n,
{
    if n >= 10 {
        lemma_dec_bytes_digits(n / 10);
    }
}

/// Every byte of the hexadecimal numeral of `n` is a hexadecimal digit.
pub proof fn lemma_hex_bytes_digits(n: nat)
    ensures
        spec_hex_bytes(n).len() >= 1,
        all_hex_digits(spec_hex_bytes(n)),
    decreases n,
{
    if n >= 16 {
        lemma_hex_bytes_digits(n / 16);
        lemma_hex_bytes_digits((n % 16) as nat);
    }
}

/// Parsing the decimal numeral of `n` gives back `n`.
pub proof fn lemma_dec_roundtrip(n: nat)
    ensures
        dec_val_of(spec_dec_bytes(n)) == n,
    decreases n,
{
    if n < 10 {
        let s = spec_dec_bytes(n);
        assert(s.len() == 1);
        assert(s.last() == (48 + n) as u8);
        assert(s.drop_last() =~= Seq::<u8>::empty());
        assert(dec_val_of(s) == dec_val_of(s.drop_last()) * 10 + (s.last() - 48));
    } else {
        lemma_dec_roundtrip(n / 10);
        assert(spec_dec_bytes(n).drop_last() =~= spec_dec_bytes(n / 10));
        assert(spec_dec_bytes(n).last() == (48 + n % 10) as u8);
        assert(n / 10 * 10 + n % 10 == n) by (nonlinear_arith);
    }
}

/// Parsing the hexadecimal numeral of `n` gives back `n`.
pub proof fn lemma_hex_roundtrip(n: nat)
    ensures
        hex_val_of(spec_hex_bytes(n)) == n,
    decreases n,
{
    if n < 16 {
        let s = spec_hex_bytes(n);
        assert(s.len() == 1);
        assert(s.drop_last() =~= Seq::<u8>::empty());
        assert(hex_val_of(s) == hex_val_of(s.drop_last()) * 16 + hex_digit_val(s.last()));
        if n < 10 {
            assert(s.last() == (48 + n) as u8);
        } else {
            assert(s.last() == (97 + (n - 10)) as u8);
        }
    } else {
        lemma_hex_roundtrip(n / 16);
        assert(spec_hex_bytes(n).drop_last() =~= spec_hex_bytes(n / 16));
        assert(spec_hex_bytes(n).last() == spec_hex_bytes((n % 16) as nat)[0]);
        assert(hex_digit_val(spec_hex_bytes((n % 16) as nat)[0]) == n % 16);
        assert(n / 16 * 16 + n % 16 == n) by (nonlinear_arith);
    }
}

proof fn lemma_dec_val_monotone(s: Seq<u8>, i: int)
    requires
        all_dec_digits(s),
        0 <= i <= s.len(),
    ensures
        dec_val_of(s.take(i)) <= dec_val_of(s),
    decreases s.len() - i,
{
    if i < s.len() {
        assert(s.take(i + 1).drop_last() =~= s.take(i));
        assert(all_dec_digits(s.take(i)));
        lemma_dec_val_nonneg(s.take(i));
        assert(dec_val_of(s.take(i + 1)) == dec_val_of(s.take(i)) * 10 + (s[i] - 48));
        assert(dec_val_of(s.take(i)) * 10 >= dec_val_of(s.take(i))) by (nonlinear_arith)
            requires dec_val_of(s.take(i)) >= 0;
        lemma_dec_val_monotone(s, i + 1);
        assert(s.take(s.len() as int) =~= s);
    } else {
        assert(s.take(i) =~= s);
    }
}

proof fn lemma_hex_val_monotone(s: Seq<u8>, i: int)
    requires
        all_hex_digits(s),
        0 <= i <= s.len(),
    ensures
        hex_val_of(s.take(i)) <= hex_val_of(s),
    decreases s.len() - i,
{
    if i < s.len() {
        assert(s.take(i + 1).drop_last() =~= s.take(i));
        assert(all_hex_digits(s.take(i)));
        lemma_hex_val_nonneg(s.take(i));
        assert(hex_val_of(s.take(i + 1)) == hex_val_of(s.take(i)) * 16 + hex_digit_val(s[i]));
        assert(hex_val_of(s.take(i)) * 16 >= hex_val_of(s.take(i))) by (nonlinear_arith)
            requires hex_val_of(s.take(i)) >= 0;
        lemma_hex_val_monotone(s, i + 1);
        assert(s.take(s.len() as int) =~= s);
    } else {
        assert(s.take(i) =~= s);
    }
}

/// Parses a decimal numeral: at least one digit, nothing but digits, and
/// the value must fit in `usize`.
pub fn parse_dec(s: &[u8]) -> (r: Option<usize>)
    ensures
        r is Some <==> s@.len() > 0 && all_dec_digits(s@) && dec_val_of(s@) <= usize::MAX,
        r is Some ==> r.unwrap() == dec_val_of(s@),
{
    if s.len() == 0 {
        return None;
    }
    let mut v: usize = 0;
    let mut i: usize = 0;
    while i < s.len()
        invariant
            0 <= i <= s@.len(),
            all_dec_digits(s@.take(i as int)),
            v == dec_val_of(s@.take(i as int)),
        decreases s@.len() - i,
    {
        let b = s[i];
        if !(48 <= b && b <= 57) {
            assert(!is_dec_digit(s@[i as int]));
            return None;
        }
        let d: usize = (b - 48) as usize;
        if v > usize::MAX / 10 || (d > usize::MAX - v * 10) {
            proof {
                assert(s@.take(i + 1).drop_last() =~= s@.take(i as int));
                assert(all_dec_digits(s@.take(i + 1)));
                if v > usize::MAX / 10 {
                    assert(v * 10 > usize::MAX) by (nonlinear_arith)
                        requires v > usize::MAX / 10;
                }
                assert(dec_val_of(s@.take(i + 1)) > usize::MAX);
                if all_dec_digits(s@) {
                    lemma_dec_val_monotone(s@, i + 1);
                }
            }
            return None;
        }
        proof {
            assert(v * 10 <= usize::MAX) by (nonlinear_arith)
                requires v <= usize::MAX / 10;
            assert(s@.take(i + 1).drop_last() =~= s@.take(i as int));
        }
        v = v * 10 + d;
        i += 1;
    }
    assert(s@.take(i as int) =~= s@);
    Some(v)
}

/// Parses a hexadecimal numeral: at least one digit, nothing but
/// hexadecimal digits (either case), and the value must fit in `usize`.
pub fn parse_hex(s: &[u8]) -> (r: Option<usize>)
    ensures
        r is Some <==> s@.len() > 0 && all_hex_digits(s@) && hex_val_of(s@) <= usize::MAX,
        r is Some ==> r.unwrap() == hex_val_of(s@),
{
    if s.len() == 0 {
        return None;
    }
    let mut v: usize = 0;
    let mut i: usize = 0;
    while i < s.len()
        invariant
            0 <= i <= s@.len(),
            all_hex_digits(s@.take(i as int)),
            v == hex_val_of(s@.take(i as int)),
        decreases s@.len() - i,
    {
        let b = s[i];
        let d: usize = if 48 <= b && b <= 57 {
            (b - 48) as usize
        } else if 97 <= b && b <= 102 {
            (b - 97 + 10) as usize
        } else if 65 <= b && b <= 70 {
            (b - 65 + 10) as usize
        } else {
            assert(!is_hex_digit(s@[i as int]));
            return None;
        };
        assert(is_hex_digit(s@[i as int]) && d == hex_digit_val(s@[i as int]));
        if v > usize::MAX / 16 || (d > usize::MAX - v * 16) {
            proof {
                assert(s@.take(i + 1).drop_last() =~= s@.take(i as int));
                assert(all_hex_digits(s@.take(i + 1)));
                if v > usize::MAX / 16 {
                    assert(v * 16 > usize::MAX) by (nonlinear_arith)
                        requires v > usize::MAX / 16;
                }
                assert(hex_val_of(s@.take(i + 1)) > usize::MAX);
                if all_hex_digits(s@) {
                    lemma_hex_val_monotone(s@, i + 1);
                }
            }
            return None;
        }
        proof {
            assert(v * 16 <= usize::MAX) by (nonlinear_arith)
                requires v <= usize::MAX / 16;
            assert(s@.take(i + 1).drop_last() =~= s@.take(i as int));
        }
        v = v * 16 + d;
        i += 1;
    }
    assert(s@.take(i as int) =~= s@);
    Some(v)
}

/// The decimal numeral of `n`, most significant digit first.
pub fn format_dec(n: usize) -> (r: Vec<u8>)
    ensures
        r@ == spec_dec_bytes(n as nat),
    decreases n,
{
    if n < 10 {
        let mut r: Vec<u8> = Vec::new();
        r.push((48 + n) as u8);
        assert(r@ =~= spec_dec_bytes(n as nat));
        r
    } else {
        let mut r = format_dec(n / 10);
        r.push((48 + n % 10) as u8);
        r
    }
}

/// The lower-case hexadecimal numeral of `n`, most significant digit
/// first.
pub fn format_hex(n: usize) -> (r: Vec<u8>)
    ensures
        r@ == spec_hex_bytes(n as nat),
    decreases n,
{
    if n < 10 {
        let mut r: Vec<u8> = Vec::new();
        r.push((48 + n) as u8);
        assert(r@ =~= spec_hex_bytes(n as nat));
        r
    } else if n < 16 {
        let mut r: Vec<u8> = Vec::new();
        r.push((97 + (n - 10)) as u8);
        assert(r@ =~= spec_hex_bytes(n as nat));
        r
    } else {
        let mut r = format_hex(n / 16);
        let d = n % 16;
        if d < 10 {
            r.push((48 + d) as u8);
        } else {
            r.push((97 + (d - 10)) as u8);
        }
        assert(spec_hex_bytes((n % 16) as nat).len() == 1);
        r
    }
}

} // verus!
