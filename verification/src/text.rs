//! Escaping of message text inside envelope payloads.
//!
//! Message text travels inside a JSON string literal.  The canonical form
//! written here escapes the quote and the backslash, names the five control
//! bytes that have short escapes, spells every other control byte as
//! `\u00` and two lowercase hex digits, and leaves all other bytes as they
//! are.  `unescape` accepts exactly the strings `escape` emits.

use vstd::prelude::*;

use crate::ids::{hex_digit, hex_value, is_hex_lower, lemma_hex_digit_value, lemma_hex_value_digit};

verus! {

/// The escape codes that name one byte: `\"`, `\\`, `\b`, `\t`, `\n`, `\f`, `\r`.
pub open spec fn is_named_code(c: u8) -> bool {
    c == 0x22 || c == 0x5c || c == 0x62 || c == 0x74 || c == 0x6e || c == 0x66 || c == 0x72
}

/// The byte a named escape code stands for.
pub open spec fn named_value(c: u8) -> u8
    recommends
        is_named_code(c),
{
    if c == 0x22 {
        0x22
    } else if c == 0x5c {
        0x5c
    } else if c == 0x62 {
        0x08
    } else if c == 0x74 {
        0x09
    } else if c == 0x6e {
        0x0a
    } else if c == 0x66 {
        0x0c
    } else {
        0x0d
    }
}

/// The control bytes that are escaped by name rather than by hex digits.
pub open spec fn has_named_escape(b: u8) -> bool {
    b == 0x08 || b == 0x09 || b == 0x0a || b == 0x0c || b == 0x0d
}

/// The escape code naming a control byte.
pub open spec fn name_of(b: u8) -> u8
    recommends
        has_named_escape(b),
{
    if b == 0x08 {
        0x62
    } else if b == 0x09 {
        0x74
    } else if b == 0x0a {
        0x6e
    } else if b == 0x0c {
        0x66
    } else {
        0x72
    }
}

/// The canonical escaped spelling of one byte.
pub open spec fn esc_byte(b: u8) -> Seq<u8> {
    if b == 0x22 || b == 0x5c {
        seq![0x5cu8, b]
    } else if has_named_escape(b) {
        seq![0x5cu8, name_of(b)]
    } else if b < 0x20 {
        seq![0x5cu8, 0x75u8, 0x30u8, 0x30u8, hex_digit(b / 16), hex_digit(b % 16)]
    } else {
        seq![b]
    }
}

/// The canonical escaped spelling of a byte string.
pub open spec fn escaped(t: Seq<u8>) -> Seq<u8>
    decreases t.len(),
{
    if t.len() == 0 {
        Seq::empty()
    } else {
        esc_byte(t[0]) + escaped(t.drop_first())
    }
}

/// Escaping distributes over concatenation.
pub proof fn lemma_escaped_append(a: Seq<u8>, b: Seq<u8>)
    ensures
        escaped(a + b) == escaped(a) + escaped(b),
    decreases a.len(),
{
    if a.len() == 0 {
        assert(a + b =~= b);
        assert(escaped(a) + escaped(b) =~= escaped(b));
    } else {
        assert((a + b).drop_first() =~= a.drop_first() + b);
        lemma_escaped_append(a.drop_first(), b);
        assert(esc_byte(a[0]) + (escaped(a.drop_first()) + escaped(b)) =~= (esc_byte(a[0])
            + escaped(a.drop_first())) + escaped(b));
    }
}

/// The escaped spelling of a single byte.
pub proof fn lemma_escaped_single(b: u8)
    ensures
        escaped(seq![b]) == esc_byte(b),
{
    assert(seq![b].drop_first() =~= Seq::<u8>::empty());
    assert(escaped(seq![b]) == esc_byte(b) + escaped(seq![b].drop_first()));
    assert(escaped(Seq::<u8>::empty()) == Seq::<u8>::empty());
    assert(esc_byte(b) + Seq::<u8>::empty() =~= esc_byte(b));
}

/// What a prefix of an escaped string looks like after one more byte.
pub proof fn lemma_escaped_push(t: Seq<u8>, b: u8)
    ensures
        escaped(t.push(b)) == escaped(t) + esc_byte(b),
{
    assert(t.push(b) =~= t + seq![b]);
    lemma_escaped_append(t, seq![b]);
    lemma_escaped_single(b);
}

/// Reads an escaped region back, one unit at a time: the total spec the
/// executable `unescape` refines.
pub open spec fn spec_unescape(r: Seq<u8>) -> Option<Seq<u8>>
    decreases r.len(),
{
    if r.len() == 0 {
        Some(Seq::empty())
    } else if r[0] == 0x5c {
        if r.len() >= 2 && is_named_code(r[1]) {
            opt_prepend(named_value(r[1]), spec_unescape(r.skip(2)))
        } else if r.len() >= 6 && r[1] == 0x75 && r[2] == 0x30 && r[3] == 0x30 && is_hex_lower(
            r[4],
        ) && is_hex_lower(r[5]) && hex_value(r[4]) * 16 + hex_value(r[5]) < 0x20
            && !has_named_escape((hex_value(r[4]) * 16 + hex_value(r[5])) as u8) {
            opt_prepend(
                (hex_value(r[4]) * 16 + hex_value(r[5])) as u8,
                spec_unescape(r.skip(6)),
            )
        } else {
            None
        }
    } else if r[0] == 0x22 || r[0] < 0x20 {
        None
    } else {
        opt_prepend(r[0], spec_unescape(r.skip(1)))
    }
}

/// Puts one decoded byte before the rest of a decoding, if the rest decoded.
pub open spec fn opt_prepend(b: u8, rest: Option<Seq<u8>>) -> Option<Seq<u8>> {
    match rest {
        Some(s) => Some(seq![b] + s),
        None => None,
    }
}

/// Whatever `spec_unescape` accepts is the escaped spelling of its result.
pub proof fn lemma_unescape_sound(r: Seq<u8>, t: Seq<u8>)
    requires
        spec_unescape(r) == Some(t),
    ensures
        escaped(t) == r,
    decreases r.len(),
{
    if r.len() == 0 {
        assert(escaped(t) =~= r);
    } else if r[0] == 0x5c {
        if r.len() >= 2 && is_named_code(r[1]) {
            let rest = spec_unescape(r.skip(2));
            let s = rest->Some_0;
            lemma_unescape_sound(r.skip(2), s);
            assert(t == seq![named_value(r[1])] + s);
            assert(t[0] == named_value(r[1]));
            assert(t.drop_first() =~= s);
            assert(esc_byte(t[0]) =~= seq![0x5cu8, r[1]]);
            assert(escaped(t) =~= r);
        } else {
            let v4 = hex_value(r[4]);
            let v5 = hex_value(r[5]);
            let b = (v4 * 16 + v5) as u8;
            let rest = spec_unescape(r.skip(6));
            let s = rest->Some_0;
            lemma_unescape_sound(r.skip(6), s);
            assert(t == seq![b] + s);
            assert(t.drop_first() =~= s);
            lemma_hex_value_digit(r[4]);
            lemma_hex_value_digit(r[5]);
            assert(b / 16 == v4 && b % 16 == v5) by (nonlinear_arith)
                requires
                    v4 < 16,
                    v5 < 16,
                    b == v4 * 16 + v5,
            ;
            assert(esc_byte(b) =~= seq![0x5cu8, 0x75u8, 0x30u8, 0x30u8, r[4], r[5]]);
            assert(escaped(t) =~= r);
        }
    } else {
        let rest = spec_unescape(r.skip(1));
        let s = rest->Some_0;
        lemma_unescape_sound(r.skip(1), s);
        assert(t == seq![r[0]] + s);
        assert(t.drop_first() =~= s);
        assert(esc_byte(t[0]) =~= seq![r[0]]);
        assert(escaped(t) =~= r);
    }
}

/// `spec_unescape` reads every escaped spelling back to what was escaped.
pub proof fn lemma_unescape_complete(t: Seq<u8>)
    ensures
        spec_unescape(escaped(t)) == Some(t),
    decreases t.len(),
{
    if t.len() == 0 {
    } else {
        let b = t[0];
        let rest = t.drop_first();
        lemma_unescape_complete(rest);
        let r = escaped(t);
        assert(r == esc_byte(b) + escaped(rest));
        let k = esc_byte(b).len();
        assert(r.skip(k as int) =~= escaped(rest));
        if b == 0x22 || b == 0x5c {
            assert(r[0] == 0x5c && r[1] == b);
            assert(is_named_code(r[1]));
            assert(named_value(r[1]) == b);
            assert(seq![b] + rest =~= t);
        } else if has_named_escape(b) {
            assert(r[0] == 0x5c && r[1] == name_of(b));
            assert(is_named_code(r[1]));
            assert(named_value(r[1]) == b);
            assert(seq![b] + rest =~= t);
        } else if b < 0x20 {
            assert(r[0] == 0x5c && r[1] == 0x75 && r[2] == 0x30 && r[3] == 0x30);
            assert(r[4] == hex_digit(b / 16) && r[5] == hex_digit(b % 16));
            lemma_hex_digit_value(b / 16);
            lemma_hex_digit_value(b % 16);
            assert(!is_named_code(r[1]));
            assert(hex_value(r[4]) * 16 + hex_value(r[5]) == b) by (nonlinear_arith)
                requires
                    hex_value(r[4]) == b / 16,
                    hex_value(r[5]) == b % 16,
            ;
            assert(seq![b] + rest =~= t);
        } else {
            assert(r[0] == b);
            assert(seq![b] + rest =~= t);
        }
    }
}

/// Two texts with the same escaped spelling are the same text.
pub proof fn lemma_escaped_injective(t1: Seq<u8>, t2: Seq<u8>)
    requires
        escaped(t1) == escaped(t2),
    ensures
        t1 == t2,
{
    lemma_unescape_complete(t1);
    lemma_unescape_complete(t2);
}

/// The canonical escaped spelling of message text.
pub fn escape(text: &[u8]) -> (r: Vec<u8>)
    ensures
        r@ == escaped(text@),
{
    let mut out: Vec<u8> = Vec::new();
    let mut i: usize = 0;
    while i < text.len()
        invariant
            i <= text@.len(),
            out@ == escaped(text@.take(i as int)),
        decreases text@.len() - i,
    {
        let b = text[i];
        proof {
            lemma_escaped_push(text@.take(i as int), b);
            assert(text@.take(i as int).push(b) =~= text@.take(i + 1));
        }
        if b == 0x22 || b == 0x5c {
            out.push(0x5c);
            out.push(b);
        } else if b == 0x08 {
            out.push(0x5c);
            out.push(0x62);
        } else if b == 0x09 {
            out.push(0x5c);
            out.push(0x74);
        } else if b == 0x0a {
            out.push(0x5c);
            out.push(0x6e);
        } else if b == 0x0c {
            out.push(0x5c);
            out.push(0x66);
        } else if b == 0x0d {
            out.push(0x5c);
            out.push(0x72);
        } else if b < 0x20 {
            out.push(0x5c);
            out.push(0x75);
            out.push(0x30);
            out.push(0x30);
            out.push(crate::ids::hex_char_of(b / 16));
            out.push(crate::ids::hex_char_of(b % 16));
        } else {
            out.push(b);
        }
        proof {
            assert(out@ =~= escaped(text@.take(i + 1)));
        }
        i = i + 1;
    }
    proof {
        assert(text@.take(text@.len() as int) =~= text@);
    }
    out
}

/// Reads escaped message text back.  Succeeds exactly on the strings
/// `escape` emits.
pub fn unescape(region: &[u8]) -> (r: Option<Vec<u8>>)
    ensures
        r matches Some(t) ==> region@ == escaped(t@),
        r is None ==> forall|t: Seq<u8>| region@ != escaped(t),
{
    let mut out: Vec<u8> = Vec::new();
    let mut i: usize = 0;
    let mut failed = false;
    proof {
        assert(region@.skip(0) =~= region@);
        match spec_unescape(region@) {
            Some(s) => {
                assert(Seq::<u8>::empty() + s =~= s);
            },
            None => {},
        }
    }
    while i < region.len() && !failed
        invariant
            i <= region@.len(),
            !failed ==> spec_unescape(region@) == opt_prepend_all(
                out@,
                spec_unescape(region@.skip(i as int)),
            ),
            failed ==> spec_unescape(region@) is None,
        decreases region@.len() - i + if failed { 0int } else { 1int },
    {
        let ghost pre = region@.skip(i as int);
        let ghost out0 = out@;
        let ghost i0 = i as int;
        let c = region[i];
        assert(pre[0] == c);
        if c == 0x5c {
            if region.len() - i < 2 {
                failed = true;
                proof {
                    assert(pre.len() < 2);
                    assert(spec_unescape(pre) is None);
                }
            } else {
                let d = region[i + 1];
                assert(pre[1] == d);
                if d == 0x22 || d == 0x5c || d == 0x62 || d == 0x74 || d == 0x6e || d == 0x66
                    || d == 0x72 {
                    let b: u8 = if d == 0x22 {
                        0x22
                    } else if d == 0x5c {
                        0x5c
                    } else if d == 0x62 {
                        0x08
                    } else if d == 0x74 {
                        0x09
                    } else if d == 0x6e {
                        0x0a
                    } else if d == 0x66 {
                        0x0c
                    } else {
                        0x0d
                    };
                    out.push(b);
                    i = i + 2;
                    proof {
                        assert(is_named_code(pre[1]) && named_value(pre[1]) == b);
                        assert(pre.skip(2) =~= region@.skip(i0 + 2));
                        assert(spec_unescape(pre) == opt_prepend(b, spec_unescape(pre.skip(2))));
                        lemma_step(region@, i0, out0, b, 2);
                    }
                } else if d == 0x75 {
                    if region.len() - i < 6 {
                        failed = true;
                        proof {
                            assert(pre.len() < 6);
                            assert(!is_named_code(pre[1]));
                            assert(spec_unescape(pre) is None);
                        }
                    } else {
                        let h0 = region[i + 2];
                        let h1 = region[i + 3];
                        let c4 = region[i + 4];
                        let c5 = region[i + 5];
                        assert(pre[2] == h0 && pre[3] == h1 && pre[4] == c4 && pre[5] == c5);
                        let v4 = hex_val_exec(c4);
                        let v5 = hex_val_exec(c5);
                        match (v4, v5) {
                            (Some(v4), Some(v5)) => {
                                let b = v4 * 16 + v5;
                                if h0 != 0x30 || h1 != 0x30 || b >= 0x20 || b == 0x08 || b == 0x09
                                    || b == 0x0a || b == 0x0c || b == 0x0d {
                                    failed = true;
                                    proof {
                                        assert(!is_named_code(pre[1]));
                                        assert(spec_unescape(pre) is None);
                                    }
                                } else {
                                    out.push(b);
                                    i = i + 6;
                                    proof {
                                        assert(!is_named_code(pre[1]));
                                        assert(pre.skip(6) =~= region@.skip(i0 + 6));
                                        assert(spec_unescape(pre) == opt_prepend(
                                            b,
                                            spec_unescape(pre.skip(6)),
                                        ));
                                        lemma_step(region@, i0, out0, b, 6);
                                    }
                                }
                            },
                            _ => {
                                failed = true;
                                proof {
                                    assert(!is_named_code(pre[1]));
                                    assert(spec_unescape(pre) is None);
                                }
                            },
                        }
                    }
                } else {
                    failed = true;
                    proof {
                        assert(!is_named_code(pre[1]));
                        assert(spec_unescape(pre) is None);
                    }
                }
            }
        } else if c == 0x22 || c < 0x20 {
            failed = true;
            proof {
                assert(spec_unescape(pre) is None);
            }
        } else {
            out.push(c);
            i = i + 1;
            proof {
                assert(pre.skip(1) =~= region@.skip(i0 + 1));
                assert(spec_unescape(pre) == opt_prepend(c, spec_unescape(pre.skip(1))));
                lemma_step(region@, i0, out0, c, 1);
            }
        }
    }
    if failed {
        proof {
            assert forall|t: Seq<u8>| region@ != escaped(t) by {
                if region@ == escaped(t) {
                    lemma_unescape_complete(t);
                }
            }
        }
        None
    } else {
        proof {
            assert(region@.skip(region@.len() as int) =~= Seq::<u8>::empty());
            assert(spec_unescape(region@) == Some(out@)) by {
                assert(opt_prepend_all(out@, Some(Seq::<u8>::empty())) == Some(
                    out@ + Seq::<u8>::empty(),
                ));
                assert(out@ + Seq::<u8>::empty() =~= out@);
            }
            lemma_unescape_sound(region@, out@);
        }
        Some(out)
    }
}

/// Puts already-decoded bytes before the rest of a decoding.
pub open spec fn opt_prepend_all(a: Seq<u8>, rest: Option<Seq<u8>>) -> Option<Seq<u8>> {
    match rest {
        Some(s) => Some(a + s),
        None => None,
    }
}

/// One decoding step: consuming a `k`-byte unit that decodes to `b` moves
/// the accumulated prefix forward.
proof fn lemma_step(region: Seq<u8>, i: int, acc: Seq<u8>, b: u8, k: int)
    requires
        0 <= i,
        0 <= k,
        i + k <= region.len(),
        spec_unescape(region) == opt_prepend_all(acc, spec_unescape(region.skip(i))),
        spec_unescape(region.skip(i)) == opt_prepend(b, spec_unescape(region.skip(i + k))),
    ensures
        spec_unescape(region) == opt_prepend_all(acc.push(b), spec_unescape(region.skip(i + k))),
{
    match spec_unescape(region.skip(i + k)) {
        Some(s) => {
            assert(acc + (seq![b] + s) =~= acc.push(b) + s);
        },
        None => {},
    }
}

/// Exec form of `hex_value`.
fn hex_val_exec(c: u8) -> (r: Option<u8>)
    ensures
        r matches Some(v) ==> is_hex_lower(c) && v == hex_value(c) && v < 16,
        r is None ==> !is_hex_lower(c),
{
    if 0x30 <= c && c <= 0x39 {
        Some(c - 0x30)
    } else if 0x61 <= c && c <= 0x66 {
        Some(c - 0x57)
    } else {
        None
    }
}

} // verus!
