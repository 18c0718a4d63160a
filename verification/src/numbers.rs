//! Decimal spellings of integers.
//!
//! The broadcast envelopes carry user identities, sender identities and
//! timestamps as decimal integer literals.  This module defines the canonical
//! spelling (no sign for zero, no leading zeros, a leading `-` for negative
//! values), produces it, and reads it back; it also reads the more forgiving
//! integer literals (optional `+`, leading zeros) that arrive in request
//! headers.

use vstd::prelude::*;

verus! {

/// ASCII code of one decimal digit.
pub open spec fn digit_char(n: int) -> u8
    recommends
        0 <= n < 10,
{
    (0x30 + n) as u8
}

/// Whether `c` is an ASCII decimal digit.
pub open spec fn is_digit(c: u8) -> bool {
    0x30 <= c <= 0x39
}

/// Whether every byte of `s` is a decimal digit.
pub open spec fn all_digits(s: Seq<u8>) -> bool {
    forall|i: int| 0 <= i < s.len() ==> is_digit(#[trigger] s[i])
}

/// The canonical decimal spelling of a non-negative value.
pub open spec fn dec_digits(n: nat) -> Seq<u8>
    decreases n,
{
    if n < 10 {
        seq![digit_char(n as int)]
    } else {
        dec_digits(n / 10) + seq![digit_char((n % 10) as int)]
    }
}

/// The canonical decimal spelling of an integer: a `-` before the magnitude
/// of a negative value, the bare magnitude otherwise.
pub open spec fn dec_int(v: int) -> Seq<u8> {
    if v < 0 {
        seq![0x2du8] + dec_digits((-v) as nat)
    } else {
        dec_digits(v as nat)
    }
}

/// Whether `v` fits a sixty-four bit signed integer.
pub open spec fn in_i64(v: int) -> bool {
    i64::MIN <= v <= i64::MAX
}

/// A canonical signed spelling is never empty and holds only digits and a
/// possible leading minus sign.
pub proof fn lemma_dec_int_bytes(v: int)
    ensures
        dec_int(v).len() >= 1,
        forall|j: int| 0 <= j < dec_int(v).len() ==> (is_digit(#[trigger] dec_int(v)[j]) || dec_int(
            v,
        )[j] == 0x2d),
{
    if v < 0 {
        lemma_dec_digits((-v) as nat);
        assert(forall|j: int| 1 <= j < dec_int(v).len() ==> dec_int(v)[j] == dec_digits(
            (-v) as nat,
        )[j - 1]);
    } else {
        lemma_dec_digits(v as nat);
    }
}

/// Numeric value of a digit string, most significant digit first.
pub open spec fn digits_value(s: Seq<u8>) -> int
    recommends
        all_digits(s),
    decreases s.len(),
{
    if s.len() == 0 {
        0
    } else {
        digits_value(s.drop_last()) * 10 + (s.last() - 0x30)
    }
}

/// Ten to the `k`.
pub open spec fn pow10(k: nat) -> nat
    decreases k,
{
    if k == 0 {
        1
    } else {
        10 * pow10((k - 1) as nat)
    }
}

/// A one-byte digit string reads as its digit's value.
pub proof fn lemma_digits_value_single(c: u8)
    ensures
        digits_value(seq![c]) == c - 0x30,
{
    let s = seq![c];
    assert(s.drop_last() =~= Seq::<u8>::empty());
    assert(digits_value(Seq::<u8>::empty()) == 0);
}

/// The canonical spelling is made of digits, is never empty, starts with `0`
/// only for the value zero, and reads back to the value it spells.
pub proof fn lemma_dec_digits(n: nat)
    ensures
        all_digits(dec_digits(n)),
        dec_digits(n).len() >= 1,
        dec_digits(n)[0] == 0x30 ==> n == 0 && dec_digits(n).len() == 1,
        digits_value(dec_digits(n)) == n,
    decreases n,
{
    if n < 10 {
        assert(dec_digits(n) == seq![digit_char(n as int)]);
        lemma_digits_value_single(digit_char(n as int));
    } else {
        lemma_dec_digits(n / 10);
        let s = dec_digits(n);
        let prefix = dec_digits(n / 10);
        assert(s.drop_last() =~= prefix);
        assert(s[0] == prefix[0]);
        assert(n / 10 >= 1);
        assert(digits_value(s) == (n / 10) * 10 + n % 10);
        assert((n / 10) * 10 + n % 10 == n) by {
            vstd::arithmetic::div_mod::lemma_fundamental_div_mod(n as int, 10);
        }
    }
}

/// A digit string without a spurious leading zero is the canonical spelling
/// of the value it reads as.
pub proof fn lemma_digits_canonical(s: Seq<u8>)
    requires
        all_digits(s),
        s.len() >= 1,
        s[0] != 0x30 || s.len() == 1,
    ensures
        digits_value(s) >= 0,
        dec_digits(digits_value(s) as nat) == s,
    decreases s.len(),
{
    lemma_digits_value_nonneg(s);
    if s.len() == 1 {
        assert(s =~= seq![s[0]]);
        lemma_digits_value_single(s[0]);
        assert(digits_value(s) == s[0] - 0x30);
        assert(dec_digits((s[0] - 0x30) as nat) =~= s);
    } else {
        let prefix = s.drop_last();
        assert(prefix[0] == s[0]);
        lemma_digits_canonical(prefix);
        lemma_digits_value_positive(prefix);
        let v = digits_value(s);
        let pv = digits_value(prefix);
        assert(v == pv * 10 + (s.last() - 0x30));
        assert(v >= 10) by (nonlinear_arith)
            requires
                pv >= 1,
                v == pv * 10 + (s.last() - 0x30),
                s.last() - 0x30 >= 0,
        ;
        assert(v / 10 == pv && v % 10 == s.last() - 0x30) by (nonlinear_arith)
            requires
                v == pv * 10 + (s.last() - 0x30),
                0 <= s.last() - 0x30 < 10,
                pv >= 0,
        ;
        assert(dec_digits(v as nat) == dec_digits(pv as nat) + seq![digit_char(s.last() - 0x30)]);
        assert(seq![digit_char(s.last() - 0x30)] =~= seq![s.last()]);
        assert(prefix + seq![s.last()] =~= s);
    }
}

/// Digit strings read as non-negative values.
pub proof fn lemma_digits_value_nonneg(s: Seq<u8>)
    requires
        all_digits(s),
    ensures
        digits_value(s) >= 0,
    decreases s.len(),
{
    if s.len() > 0 {
        lemma_digits_value_nonneg(s.drop_last());
    }
}

/// A digit string whose first digit is not `0` reads as a positive value.
pub proof fn lemma_digits_value_positive(s: Seq<u8>)
    requires
        all_digits(s),
        s.len() >= 1,
        s[0] != 0x30,
    ensures
        digits_value(s) >= 1,
    decreases s.len(),
{
    if s.len() == 1 {
        assert(s =~= seq![s[0]]);
        lemma_digits_value_single(s[0]);
    } else {
        let prefix = s.drop_last();
        assert(prefix[0] == s[0]);
        lemma_digits_value_positive(prefix);
        assert(digits_value(s) == digits_value(prefix) * 10 + (s.last() - 0x30));
        assert(digits_value(prefix) * 10 >= 10) by (nonlinear_arith)
            requires
                digits_value(prefix) >= 1,
        ;
    }
}

/// A digit string reads as a value below ten to its length.
pub proof fn lemma_digits_value_bound(s: Seq<u8>)
    requires
        all_digits(s),
    ensures
        digits_value(s) < pow10(s.len() as nat),
    decreases s.len(),
{
    if s.len() > 0 {
        let prefix = s.drop_last();
        lemma_digits_value_bound(prefix);
        lemma_digits_value_nonneg(prefix);
        let p = pow10(prefix.len() as nat);
        assert(digits_value(prefix) * 10 + (s.last() - 0x30) < p * 10) by (nonlinear_arith)
            requires
                0 <= digits_value(prefix) < p,
                s.last() - 0x30 < 10,
        ;
    }
}

/// A value below ten to the `k` spells in at most `k` digits.
pub proof fn lemma_dec_digits_len(n: nat, k: nat)
    requires
        k >= 1,
        n < pow10(k),
    ensures
        dec_digits(n).len() <= k,
    decreases n,
{
    if n >= 10 {
        assert(k >= 2) by {
            assert(pow10(1) == 10 * pow10(0));
            assert(pow10(0) == 1);
            if k == 1 {
            }
        }
        assert(n / 10 < pow10((k - 1) as nat)) by (nonlinear_arith)
            requires
                n < pow10(k),
                pow10(k) == 10 * pow10((k - 1) as nat),
                n >= 10,
        ;
        lemma_dec_digits_len(n / 10, (k - 1) as nat);
    }
}

/// Exec form of `dec_digits`.
pub fn format_u64(n: u64) -> (r: Vec<u8>)
    ensures
        r@ == dec_digits(n as nat),
    decreases n,
{
    if n < 10 {
        let digit: u8 = 0x30 + (n as u8);
        let mut r: Vec<u8> = Vec::new();
        r.push(digit);
        proof {
            assert(r@ =~= dec_digits(n as nat));
        }
        r
    } else {
        let mut r = format_u64(n / 10);
        r.push(0x30 + ((n % 10) as u8));
        proof {
            assert(r@ =~= dec_digits(n as nat));
        }
        r
    }
}

/// Exec form of `dec_int`.
pub fn format_i64(v: i64) -> (r: Vec<u8>)
    ensures
        r@ == dec_int(v as int),
{
    if v >= 0 {
        format_u64(v as u64)
    } else {
        let mag: u64 = (-(v as i128)) as u64;
        let mut r: Vec<u8> = Vec::new();
        r.push(0x2d);
        let mut digits = format_u64(mag);
        r.append(&mut digits);
        proof {
            assert(r@ =~= dec_int(v as int));
        }
        r
    }
}

/// Reads a canonical unsigned decimal spelling.  Succeeds exactly on the
/// strings `format_u64` emits.
pub fn parse_u64_dec(region: &[u8]) -> (r: Option<u64>)
    ensures
        r matches Some(n) ==> region@ == dec_digits(n as nat),
        r is None ==> forall|n: u64| region@ != dec_digits(n as nat),
{
    proof {
        lemma_pow10_value();
    }
    if region.len() == 0 || region.len() > 20 {
        proof {
            assert forall|n: u64| region@ != dec_digits(n as nat) by {
                lemma_dec_digits(n as nat);
                if region@.len() > 20 {
                    lemma_dec_digits_len(n as nat, 20);
                }
            }
        }
        return None;
    }
    if region[0] == 0x30 && region.len() > 1 {
        proof {
            assert forall|n: u64| region@ != dec_digits(n as nat) by {
                lemma_dec_digits(n as nat);
            }
        }
        return None;
    }
    let mut acc: u128 = 0;
    let mut i: usize = 0;
    while i < region.len()
        invariant
            i <= region@.len(),
            region@.len() <= 20,
            all_digits(region@.take(i as int)),
            acc == digits_value(region@.take(i as int)),
            acc < pow10(i as nat),
            pow10(20) == 100000000000000000000,
        decreases region@.len() - i,
    {
        let c = region[i];
        if c < 0x30 || c > 0x39 {
            proof {
                assert forall|n: u64| region@ != dec_digits(n as nat) by {
                    lemma_dec_digits(n as nat);
                }
            }
            return None;
        }
        proof {
            lemma_pow10_mono(i as nat, 20);
            assert(acc * 10 + (c - 0x30) < pow10((i + 1) as nat)) by (nonlinear_arith)
                requires
                    acc < pow10(i as nat),
                    pow10((i + 1) as nat) == 10 * pow10(i as nat),
                    c - 0x30 < 10,
            ;
            assert(pow10((i + 1) as nat) <= pow10(20)) by {
                lemma_pow10_mono((i + 1) as nat, 20);
            }
            assert(region@.take(i + 1).drop_last() =~= region@.take(i as int));
        }
        acc = acc * 10 + ((c - 0x30) as u128);
        i = i + 1;
    }
    proof {
        assert(region@.take(region@.len() as int) =~= region@);
    }
    if acc > 0xffff_ffff_ffff_ffff {
        proof {
            assert forall|n: u64| region@ != dec_digits(n as nat) by {
                lemma_dec_digits(n as nat);
            }
        }
        None
    } else {
        proof {
            lemma_digits_value_nonneg(region@);
            lemma_digits_canonical(region@);
        }
        Some(acc as u64)
    }
}

/// Twenty digits suffice for any sixty-four bit value.
pub proof fn lemma_pow10_value()
    ensures
        pow10(20) == 100000000000000000000,
{
    reveal_with_fuel(pow10, 21);
}

/// Powers of ten grow with the exponent.
pub proof fn lemma_pow10_mono(a: nat, b: nat)
    requires
        a <= b,
    ensures
        pow10(a) <= pow10(b),
        pow10(a) >= 1,
    decreases b,
{
    if a < b {
        lemma_pow10_mono(a, (b - 1) as nat);
    } else if b > 0 {
        lemma_pow10_mono((a - 1) as nat, (b - 1) as nat);
    }
}

/// Reads a canonical signed decimal spelling.  Succeeds exactly on the
/// strings `format_i64` emits.
pub fn parse_i64_dec(region: &[u8]) -> (r: Option<i64>)
    ensures
        r matches Some(v) ==> region@ == dec_int(v as int),
        r is None ==> forall|v: i64| region@ != dec_int(v as int),
{
    if region.len() >= 1 && region[0] == 0x2d {
        let rest = vstd::slice::slice_subrange(region, 1, region.len());
        let mag = match parse_u64_dec(rest) {
            Some(m) => m,
            None => {
                proof {
                    assert forall|v: i64| region@ != dec_int(v as int) by {
                        if v < 0 {
                            assert(dec_int(v as int).drop_first() =~= dec_digits((-v) as nat));
                            if region@ == dec_int(v as int) {
                                assert(rest@ =~= dec_digits((-v) as nat));
                            }
                        } else {
                            lemma_dec_digits(v as nat);
                            if region@ == dec_int(v as int) {
                                assert(region@[0] == dec_digits(v as nat)[0]);
                                assert(is_digit(region@[0]));
                            }
                        }
                    }
                }
                return None;
            },
        };
        if mag == 0 || mag > 0x8000_0000_0000_0000 {
            proof {
                assert forall|v: i64| region@ != dec_int(v as int) by {
                    lemma_dec_digits((-(v as int)) as nat);
                    lemma_dec_digits(v as nat);
                    lemma_dec_digits(mag as nat);
                    if region@ == dec_int(v as int) {
                        if v < 0 {
                            assert(dec_int(v as int).drop_first() =~= dec_digits((-v) as nat));
                            assert(rest@ =~= dec_digits((-v) as nat));
                            assert(digits_value(dec_digits((-v) as nat)) == -v);
                            assert(digits_value(dec_digits(mag as nat)) == mag);
                        } else {
                            assert(region@[0] == dec_digits(v as nat)[0]);
                            assert(is_digit(region@[0]));
                        }
                    }
                }
            }
            return None;
        }
        let v: i64 = (-(mag as i128)) as i64;
        proof {
            assert(v < 0 && -(v as int) == mag);
            assert(region@ =~= dec_int(v as int));
        }
        Some(v)
    } else {
        let n = match parse_u64_dec(region) {
            Some(n) => n,
            None => {
                proof {
                    assert forall|v: i64| region@ != dec_int(v as int) by {
                        if v >= 0 {
                        } else {
                            if region@ == dec_int(v as int) {
                                assert(region@[0] == 0x2d);
                            }
                        }
                    }
                }
                return None;
            },
        };
        if n > 0x7fff_ffff_ffff_ffff {
            proof {
                assert forall|v: i64| region@ != dec_int(v as int) by {
                    lemma_dec_digits(v as nat);
                    lemma_dec_digits(n as nat);
                    if region@ == dec_int(v as int) {
                        if v >= 0 {
                            assert(digits_value(region@) == v);
                            assert(digits_value(region@) == n);
                        } else {
                            assert(region@[0] == 0x2d);
                        }
                    }
                }
            }
            None
        } else {
            Some(n as i64)
        }
    }
}

/// Two values with the same canonical spelling are the same value.
pub proof fn lemma_dec_int_injective(v1: int, v2: int)
    requires
        dec_int(v1) == dec_int(v2),
    ensures
        v1 == v2,
{
    lemma_dec_digits((if v1 < 0 { -v1 } else { v1 }) as nat);
    lemma_dec_digits((if v2 < 0 { -v2 } else { v2 }) as nat);
    if v1 < 0 && v2 < 0 {
        assert(dec_int(v1).drop_first() =~= dec_digits((-v1) as nat));
        assert(dec_int(v2).drop_first() =~= dec_digits((-v2) as nat));
        assert(digits_value(dec_digits((-v1) as nat)) == digits_value(dec_digits((-v2) as nat)));
    } else if v1 >= 0 && v2 >= 0 {
        assert(digits_value(dec_digits(v1 as nat)) == digits_value(dec_digits(v2 as nat)));
    } else if v1 < 0 {
        assert(dec_int(v1)[0] == 0x2d);
        assert(is_digit(dec_digits(v2 as nat)[0]));
    } else {
        assert(dec_int(v2)[0] == 0x2d);
        assert(is_digit(dec_digits(v1 as nat)[0]));
    }
}

/// A forgiving integer literal: an optional `+` or `-`, then one or more
/// digits, leading zeros allowed — what a request header may carry.
pub open spec fn int_literal(s: Seq<u8>) -> bool {
    if s.len() == 0 {
        false
    } else if s[0] == 0x2b || s[0] == 0x2d {
        s.len() >= 2 && all_digits(s.skip(1))
    } else {
        all_digits(s)
    }
}

/// The value a forgiving literal spells.
pub open spec fn literal_value(s: Seq<u8>) -> int
    recommends
        int_literal(s),
{
    if s[0] == 0x2d {
        -digits_value(s.skip(1))
    } else if s[0] == 0x2b {
        digits_value(s.skip(1))
    } else {
        digits_value(s)
    }
}

/// Reads a forgiving integer literal, as `str::parse::<i64>` would: sign,
/// digits, leading zeros allowed; anything else, or a value out of range,
/// is refused.
pub fn parse_i64_flexible(s: &[u8]) -> (r: Option<i64>)
    ensures
        r matches Some(v) ==> int_literal(s@) && literal_value(s@) == v as int,
        r is None ==> !int_literal(s@) || literal_value(s@) < i64::MIN || literal_value(s@)
            > i64::MAX,
{
    let n = s.len();
    if n == 0 {
        return None;
    }
    let (neg, ds): (bool, usize) = if s[0] == 0x2d {
        (true, 1)
    } else if s[0] == 0x2b {
        (false, 1)
    } else {
        (false, 0)
    };
    if n - ds == 0 {
        return None;
    }
    let ghost digits = s@.skip(ds as int);
    let cap: u128 = 0x8000_0000_0000_0000;
    let mut acc: u128 = 0;
    let mut i: usize = ds;
    while i < n
        invariant
            n == s@.len(),
            ds <= i <= n,
            ds < n,
            ds == 0 || ds == 1,
            ds == 1 <==> (s@[0] == 0x2b || s@[0] == 0x2d),
            neg <==> s@[0] == 0x2d,
            digits == s@.skip(ds as int),
            all_digits(digits.take(i - ds)),
            cap == 0x8000_0000_0000_0000,
            digits_value(digits.take(i - ds)) <= cap ==> acc == digits_value(digits.take(i - ds)),
            digits_value(digits.take(i - ds)) > cap ==> acc > cap,
            acc <= 0xffff_ffff_ffff_ffff_ffff,
        decreases n - i,
    {
        let c = s[i];
        if c < 0x30 || c > 0x39 {
            proof {
                assert(digits[i - ds] == c);
                assert(!is_digit(digits[i - ds]));
                assert(!all_digits(digits));
                if ds == 1 {
                    assert(s@.skip(1) =~= digits);
                } else {
                    assert(digits =~= s@);
                }
                assert(!int_literal(s@));
            }
            return None;
        }
        let ghost pre = digits.take(i - ds);
        let ghost post = digits.take(i + 1 - ds);
        proof {
            assert(post.drop_last() =~= pre);
            assert(post.last() == c);
            assert(digits_value(post) == digits_value(pre) * 10 + (c - 0x30));
            lemma_digits_value_nonneg(pre);
            if digits_value(pre) > cap {
                assert(digits_value(post) > cap) by (nonlinear_arith)
                    requires
                        digits_value(post) == digits_value(pre) * 10 + (c - 0x30),
                        digits_value(pre) > cap,
                        c - 0x30 >= 0,
                ;
            }
        }
        if acc <= cap {
            acc = acc * 10 + ((c - 0x30) as u128);
            proof {
                if digits_value(pre) <= cap {
                    assert(acc == digits_value(post));
                }
            }
        } else {
            proof {
                assert(digits_value(pre) > cap);
            }
        }
        i = i + 1;
    }
    proof {
        assert(digits.take(n - ds) =~= digits);
        assert(int_literal(s@)) by {
            if ds == 1 {
                assert(s@.skip(1) == digits);
            } else {
                assert(digits =~= s@);
            }
        }
    }
    if neg {
        if acc > cap {
            proof {
                lemma_digits_value_nonneg(digits);
                assert(digits_value(digits) > cap);
                assert(literal_value(s@) == -digits_value(digits));
            }
            return None;
        }
        let v: i64 = (-(acc as i128)) as i64;
        proof {
            assert(s@[0] == 0x2d);
            assert(literal_value(s@) == -digits_value(digits));
            assert(v as int == -(acc as int));
        }
        Some(v)
    } else {
        if acc > 0x7fff_ffff_ffff_ffff {
            proof {
                lemma_digits_value_nonneg(digits);
                assert(digits_value(digits) > 0x7fff_ffff_ffff_ffff);
                if ds == 1 {
                    assert(literal_value(s@) == digits_value(digits));
                } else {
                    assert(digits =~= s@);
                    assert(literal_value(s@) == digits_value(digits));
                }
            }
            return None;
        }
        proof {
            if ds == 1 {
                assert(literal_value(s@) == digits_value(digits));
            } else {
                assert(digits =~= s@);
                assert(literal_value(s@) == digits_value(digits));
            }
        }
        Some(acc as i64)
    }
}

} // verus!
