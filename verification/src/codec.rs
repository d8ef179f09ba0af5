//! The wire format: one self-delimited text record per `SyncMessage`.
//!
//! A frame is a JSON-shaped object with the fields `key`, `value`,
//! `timestamp`, `machine_id` and `deleted`, in that order, with no
//! whitespace: string fields are quoted with `"`, `\`, and control
//! characters escaped; the timestamp is a decimal integer; `deleted` is
//! `true` or `false`. `encode` is the canonical spelling of a message,
//! `decode` the parse, and decoding an encoded message gives the message
//! back.

use vstd::prelude::*;
use vstd::string::{StrSliceExecFns, StringExecFns};
use crate::message::{SyncMessage, SyncMessageV};

verus! {

/// Relies on `String::push`: appends exactly one character.
#[verifier::external_body]
pub(crate) fn push_char(out: &mut String, c: char)
    ensures
        final(out)@ == old(out)@.push(c),
{
    out.push(c);
}

/// The decimal digit character for `d`.
pub open spec fn dec_digit(d: int) -> char {
    ((48 + d) as u8) as char
}

/// The lower-case hexadecimal digit character for `d`.
pub open spec fn hex_digit(d: int) -> char {
    if d < 10 {
        ((48 + d) as u8) as char
    } else {
        ((87 + d) as u8) as char
    }
}

/// Whether `c` is a decimal digit.
pub open spec fn is_digit(c: char) -> bool {
    48 <= c as u32 <= 57
}

/// The value of a decimal digit character.
pub open spec fn digit_val(c: char) -> int {
    c as u32 - 48
}

/// The value of a hexadecimal digit character, or -1.
pub open spec fn hex_val(c: char) -> int {
    if 48 <= c as u32 <= 57 {
        c as u32 - 48
    } else if 97 <= c as u32 <= 102 {
        c as u32 - 87
    } else if 65 <= c as u32 <= 70 {
        c as u32 - 55
    } else {
        -1
    }
}

/// The escape of one character inside a quoted string.
pub open spec fn esc_char(c: char) -> Seq<char> {
    if c == '"' {
        seq!['\\', '"']
    } else if c == '\\' {
        seq!['\\', '\\']
    } else if c == '\n' {
        seq!['\\', 'n']
    } else if c == '\r' {
        seq!['\\', 'r']
    } else if c == '\t' {
        seq!['\\', 't']
    } else if (c as u32) < 32 {
        seq!['\\', 'u', '0', '0', hex_digit((c as u32 / 16) as int), hex_digit((c as u32 % 16) as int)]
    } else {
        seq![c]
    }
}

/// The escape of a whole string body.
pub open spec fn esc(s: Seq<char>) -> Seq<char>
    decreases s.len(),
{
    if s.len() == 0 {
        Seq::empty()
    } else {
        esc_char(s[0]) + esc(s.drop_first())
    }
}

/// Escaping one more character at the end appends its escape.
pub proof fn lemma_esc_snoc(s: Seq<char>, c: char)
    ensures
        esc(s.push(c)) == esc(s) + esc_char(c),
    decreases s.len(),
{
    if s.len() == 0 {
        assert(s.push(c).drop_first() =~= Seq::<char>::empty());
        assert(s.push(c)[0] == c);
        assert(esc(Seq::<char>::empty()) == Seq::<char>::empty());
        assert(esc(s.push(c)) == esc_char(c) + esc(s.push(c).drop_first()));
        assert(esc(s.push(c)) =~= esc(s) + esc_char(c));
    } else {
        assert(s.push(c).drop_first() =~= s.drop_first().push(c));
        lemma_esc_snoc(s.drop_first(), c);
        assert(s.push(c)[0] == s[0]);
        assert(esc(s.push(c)) == esc_char(s[0]) + esc(s.drop_first().push(c)));
        assert(esc(s.push(c)) =~= esc(s) + esc_char(c));
    }
}

/// The decimal digits of a non-negative integer.
pub open spec fn int_chars(n: int) -> Seq<char>
    decreases n,
{
    if n < 10 {
        seq![dec_digit(n)]
    } else {
        int_chars(n / 10).push(dec_digit(n % 10))
    }
}

/// The decimal spelling of a signed 64-bit value.
pub open spec fn i64_chars(n: int) -> Seq<char> {
    if n < 0 {
        seq!['-'] + int_chars(-n)
    } else {
        int_chars(n)
    }
}

/// The spelling of the `deleted` flag.
pub open spec fn bool_chars(b: bool) -> Seq<char> {
    if b {
        seq!['t', 'r', 'u', 'e']
    } else {
        seq!['f', 'a', 'l', 's', 'e']
    }
}

/// `{"key":"` — the frame opening.
pub open spec fn lit_key() -> Seq<char> {
    seq!['{', '"', 'k', 'e', 'y', '"', ':', '"']
}

/// `,"value":"` — between the key and the value.
pub open spec fn lit_after_key() -> Seq<char> {
    seq![',', '"', 'v', 'a', 'l', 'u', 'e', '"', ':', '"']
}

/// `,"timestamp":` — between the value and the timestamp.
pub open spec fn lit_after_value() -> Seq<char> {
    seq![',', '"', 't', 'i', 'm', 'e', 's', 't', 'a', 'm', 'p', '"', ':']
}

/// `,"machine_id":"` — between the timestamp and the origin.
pub open spec fn lit_after_ts() -> Seq<char> {
    seq![',', '"', 'm', 'a', 'c', 'h', 'i', 'n', 'e', '_', 'i', 'd', '"', ':', '"']
}

/// `,"deleted":` — between the origin and the flag.
pub open spec fn lit_after_mid() -> Seq<char> {
    seq![',', '"', 'd', 'e', 'l', 'e', 't', 'e', 'd', '"', ':']
}

/// The canonical frame for a message, grouped as the parser consumes it.
pub open spec fn encode(m: SyncMessageV) -> Seq<char> {
    lit_key() + (esc(m.key) + (seq!['"'] + (lit_after_key() + (esc(m.value) + (seq!['"'] + (
    lit_after_value() + (i64_chars(m.timestamp) + (lit_after_ts() + (esc(m.machine_id) + (
    seq!['"'] + (lit_after_mid() + (bool_chars(m.deleted) + seq!['}']))))))))))))
}

/// Consume an exact literal prefix.
pub open spec fn expect(s: Seq<char>, lit: Seq<char>) -> Option<Seq<char>> {
    if s.len() >= lit.len() && s.take(lit.len() as int) == lit {
        Some(s.skip(lit.len() as int))
    } else {
        None
    }
}

/// Consume an escaped string body up to and including its closing quote.
/// Returns the decoded body and what follows the quote.
pub open spec fn unesc_prefix(s: Seq<char>) -> Option<(Seq<char>, Seq<char>)>
    decreases s.len(),
{
    if s.len() == 0 {
        None
    } else if s[0] == '"' {
        Some((Seq::empty(), s.drop_first()))
    } else if s[0] == '\\' {
        if s.len() < 2 {
            None
        } else {
            let e = s[1];
            if e == 'u' {
                if s.len() < 6 || s[2] != '0' || s[3] != '0' || hex_val(s[4]) < 0 || hex_val(s[5])
                    < 0 {
                    None
                } else {
                    let c = ((16 * hex_val(s[4]) + hex_val(s[5])) as u8) as char;
                    match unesc_prefix(s.skip(6)) {
                        Some(p) => Some((seq![c] + p.0, p.1)),
                        None => None,
                    }
                }
            } else {
                let c = if e == '"' {
                    '"'
                } else if e == '\\' {
                    '\\'
                } else if e == '/' {
                    '/'
                } else if e == 'n' {
                    '\n'
                } else if e == 'r' {
                    '\r'
                } else if e == 't' {
                    '\t'
                } else if e == 'b' {
                    ((8u8) as char)
                } else if e == 'f' {
                    ((12u8) as char)
                } else {
                    ' '
                };
                if e == '"' || e == '\\' || e == '/' || e == 'n' || e == 'r' || e == 't' || e
                    == 'b' || e == 'f' {
                    match unesc_prefix(s.skip(2)) {
                        Some(p) => Some((seq![c] + p.0, p.1)),
                        None => None,
                    }
                } else {
                    None
                }
            }
        }
    } else {
        match unesc_prefix(s.drop_first()) {
            Some(p) => Some((seq![s[0]] + p.0, p.1)),
            None => None,
        }
    }
}

/// Consume a run of at most 19 decimal digits, accumulating their value.
pub open spec fn parse_mag(s: Seq<char>, acc: int, count: int) -> Option<(int, Seq<char>)>
    decreases s.len(),
{
    if s.len() > 0 && is_digit(s[0]) {
        if count >= 19 {
            None
        } else {
            parse_mag(s.drop_first(), acc * 10 + digit_val(s[0]), count + 1)
        }
    } else if count == 0 {
        None
    } else {
        Some((acc, s))
    }
}

/// Consume a decimal 64-bit integer with optional sign.
pub open spec fn parse_i64(s: Seq<char>) -> Option<(int, Seq<char>)> {
    if s.len() > 0 && s[0] == '-' {
        match parse_mag(s.drop_first(), 0, 0) {
            Some(p) => if p.0 <= 0x8000000000000000 {
                Some((-p.0, p.1))
            } else {
                None
            },
            None => None,
        }
    } else {
        match parse_mag(s, 0, 0) {
            Some(p) => if p.0 <= 0x7fffffffffffffff {
                Some(p)
            } else {
                None
            },
            None => None,
        }
    }
}

/// Consume `true` or `false`.
pub open spec fn parse_bool(s: Seq<char>) -> Option<(bool, Seq<char>)> {
    match expect(s, bool_chars(true)) {
        Some(rest) => Some((true, rest)),
        None => match expect(s, bool_chars(false)) {
            Some(rest) => Some((false, rest)),
            None => None,
        },
    }
}

/// Parse one frame. `None` on anything that is not a complete frame.
pub open spec fn decode(s: Seq<char>) -> Option<SyncMessageV> {
    match expect(s, lit_key()) {
        None => None,
        Some(s1) => match unesc_prefix(s1) {
            None => None,
            Some((key, s2)) => match expect(s2, lit_after_key()) {
                None => None,
                Some(s3) => match unesc_prefix(s3) {
                    None => None,
                    Some((value, s4)) => match expect(s4, lit_after_value()) {
                        None => None,
                        Some(s5) => match parse_i64(s5) {
                            None => None,
                            Some((ts, s6)) => match expect(s6, lit_after_ts()) {
                                None => None,
                                Some(s7) => match unesc_prefix(s7) {
                                    None => None,
                                    Some((mid, s8)) => match expect(s8, lit_after_mid()) {
                                        None => None,
                                        Some(s9) => match parse_bool(s9) {
                                            None => None,
                                            Some((del, s10)) => if s10 =~= seq!['}'] {
                                                Some(SyncMessageV {
                                                    key,
                                                    value,
                                                    timestamp: ts,
                                                    machine_id: mid,
                                                    deleted: del,
                                                })
                                            } else {
                                                None
                                            },
                                        },
                                    },
                                },
                            },
                        },
                    },
                },
            },
        },
    }
}

/// Powers of ten.
pub open spec fn pow10(k: int) -> int
    decreases k,
{
    if k <= 0 {
        1
    } else {
        10 * pow10(k - 1)
    }
}

/// The value of a digit string, most significant digit first.
pub open spec fn digits_val(ds: Seq<char>) -> int
    decreases ds.len(),
{
    if ds.len() == 0 {
        0
    } else {
        digit_val(ds[0]) * pow10(ds.len() - 1) + digits_val(ds.drop_first())
    }
}

/// All characters of `ds` are decimal digits.
pub open spec fn all_digits(ds: Seq<char>) -> bool {
    forall|i: int| 0 <= i < ds.len() ==> is_digit(#[trigger] ds[i])
}

/// A literal prefix followed by anything is consumed exactly.
proof fn lemma_expect_concat(lit: Seq<char>, rest: Seq<char>)
    ensures
        expect(lit + rest, lit) == Some(rest),
{
    let s = lit + rest;
    assert(s.take(lit.len() as int) =~= lit);
    assert(s.skip(lit.len() as int) =~= rest);
}

/// Appending a digit multiplies the value by ten.
proof fn lemma_digits_val_snoc(ds: Seq<char>, c: char)
    ensures
        digits_val(ds.push(c)) == 10 * digits_val(ds) + digit_val(c),
    decreases ds.len(),
{
    if ds.len() == 0 {
        assert(ds.push(c).drop_first() =~= Seq::<char>::empty());
        assert(ds.push(c)[0] == c);
        assert(pow10(0) == 1);
        assert(digits_val(Seq::<char>::empty()) == 0);
        assert(digits_val(ds.push(c)) == digit_val(c) * 1 + 0);
    } else {
        assert(ds.push(c).drop_first() =~= ds.drop_first().push(c));
        lemma_digits_val_snoc(ds.drop_first(), c);
        assert(ds.push(c)[0] == ds[0]);
        assert(ds.push(c).len() - 1 == ds.len());
        assert(digits_val(ds.push(c)) == digit_val(ds[0]) * pow10(ds.len() as int) + digits_val(
            ds.drop_first().push(c),
        ));
        assert(digit_val(ds[0]) * pow10(ds.len() as int) == 10 * (digit_val(ds[0]) * pow10(
            ds.len() - 1,
        ))) by (nonlinear_arith)
            requires
                pow10(ds.len() as int) == 10 * pow10(ds.len() - 1),
        ;
    }
}

/// The decimal digits of `n` are digits, spell `n`, and there are at
/// most `k` of them when `n < pow10(k)`.
proof fn lemma_int_chars_props(n: int)
    requires
        n >= 0,
    ensures
        all_digits(int_chars(n)),
        int_chars(n).len() >= 1,
        digits_val(int_chars(n)) == n,
        forall|k: int| k >= 1 && n < pow10(k) ==> int_chars(n).len() <= k,
    decreases n,
{
    if n < 10 {
        assert(int_chars(n) =~= seq![dec_digit(n)]);
        assert(is_digit(dec_digit(n)));
        assert(digit_val(dec_digit(n)) == n);
        assert(int_chars(n).drop_first() =~= Seq::<char>::empty());
        assert(int_chars(n)[0] == dec_digit(n));
        assert(pow10(0) == 1);
        assert(digits_val(Seq::<char>::empty()) == 0);
        assert(digits_val(int_chars(n)) == digit_val(dec_digit(n)) * 1 + 0);
    } else {
        lemma_int_chars_props(n / 10);
        let ds = int_chars(n / 10);
        assert(int_chars(n) == ds.push(dec_digit(n % 10)));
        assert(all_digits(int_chars(n))) by {
            assert forall|i: int| 0 <= i < int_chars(n).len()
                implies is_digit(#[trigger] int_chars(n)[i]) by {
                if i < ds.len() {
                    assert(int_chars(n)[i] == ds[i]);
                } else {
                    assert(int_chars(n)[i] == dec_digit(n % 10));
                }
            }
        }
        lemma_digits_val_snoc(ds, dec_digit(n % 10));
        assert(digit_val(dec_digit(n % 10)) == n % 10);
        assert(digits_val(int_chars(n)) == 10 * (n / 10) + (n % 10));
        assert forall|k: int| k >= 1 && n < pow10(k) implies int_chars(n).len() <= k by {
            assert(n / 10 < pow10(k - 1)) by (nonlinear_arith)
                requires
                    n < pow10(k),
                    pow10(k) == 10 * pow10(k - 1),
                    n >= 10,
            ;
            assert(k - 1 >= 1) by {
                if k == 1 {
                    assert(pow10(1) == 10);
                }
            }
        }
    }
}

/// Digits followed by a non-digit parse to their value.
proof fn lemma_parse_mag_digits(ds: Seq<char>, rest: Seq<char>, acc: int, count: int)
    requires
        all_digits(ds),
        ds.len() >= 1,
        count >= 0,
        count + ds.len() <= 19,
        rest.len() == 0 || !is_digit(rest[0]),
    ensures
        parse_mag(ds + rest, acc, count) == Some::<(int, Seq<char>)>((
            acc * pow10(ds.len() as int) + digits_val(ds),
            rest,
        )),
    decreases ds.len(),
{
    let s = ds + rest;
    assert(s[0] == ds[0]);
    assert(is_digit(s[0]));
    assert(s.len() > 0);
    let acc2 = acc * 10 + digit_val(ds[0]);
    if ds.len() == 1 {
        assert(s.drop_first() =~= rest);
        assert(parse_mag(s, acc, count) == parse_mag(rest, acc2, count + 1));
        assert(parse_mag(rest, acc2, count + 1) == Some::<(int, Seq<char>)>((acc2, rest)));
        assert(digits_val(ds) == digit_val(ds[0]) * pow10(0) + digits_val(ds.drop_first()));
        assert(ds.drop_first() =~= Seq::<char>::empty());
        assert(pow10(0) == 1);
        assert(acc2 * pow10(0) == acc2) by (nonlinear_arith)
            requires
                pow10(0) == 1,
        ;
        assert(acc * 10 == acc * pow10(1)) by (nonlinear_arith)
            requires
                pow10(1) == 10,
        ;
    } else {
        let tail = ds.drop_first();
        assert(all_digits(tail)) by {
            assert(forall|i: int| 0 <= i < tail.len() ==> tail[i] == ds[i + 1]);
        }
        assert(s.drop_first() =~= tail + rest);
        lemma_parse_mag_digits(tail, rest, acc2, count + 1);
        assert(parse_mag(s, acc, count) == Some::<(int, Seq<char>)>((
            acc2 * pow10(tail.len() as int) + digits_val(tail),
            rest,
        )));
        // regroup: (10 acc + d) * p + v == acc * 10p + (d * p + v)
        let p = pow10(tail.len() as int);
        assert(acc2 * p == acc * (10 * p) + digit_val(ds[0]) * p) by (nonlinear_arith)
            requires
                acc2 == acc * 10 + digit_val(ds[0]),
        ;
        assert(pow10(ds.len() as int) == 10 * p);
        assert(digits_val(ds) == digit_val(ds[0]) * p + digits_val(tail));
    }
}

/// A decimal spelling of an in-range signed value, followed by anything
/// that does not look like another digit, parses back to the value.
proof fn lemma_parse_i64_round(n: int, rest: Seq<char>)
    requires
        -0x8000000000000000 <= n <= 0x7fffffffffffffff,
        rest.len() == 0 || !is_digit(rest[0]),
    ensures
        parse_i64(i64_chars(n) + rest) == Some::<(int, Seq<char>)>((n, rest)),
{
    let mag = if n < 0 {
        -n
    } else {
        n
    };
    lemma_int_chars_props(mag);
    assert(pow10(19) == 10000000000000000000) by {
        reveal_with_fuel(pow10, 21);
    }
    assert(int_chars(mag).len() <= 19);
    let s = i64_chars(n) + rest;
    if n < 0 {
        assert(i64_chars(n) == seq!['-'] + int_chars(mag));
        assert(s[0] == '-');
        assert(s.drop_first() =~= int_chars(mag) + rest);
        lemma_parse_mag_digits(int_chars(mag), rest, 0, 0);
        assert(0 * pow10(int_chars(mag).len() as int) == 0) by (nonlinear_arith);
        assert(parse_mag(s.drop_first(), 0, 0) == Some::<(int, Seq<char>)>((mag, rest)));
    } else {
        assert(s[0] == int_chars(mag)[0]);
        assert(is_digit(s[0]));
        assert(s[0] as u32 != 45);
        assert(s[0] != '-') by {
            if s[0] == '-' {
                assert(('-') as u32 == 45);
            }
        }
        lemma_parse_mag_digits(int_chars(mag), rest, 0, 0);
        assert(0 * pow10(int_chars(mag).len() as int) == 0) by (nonlinear_arith);
    }
}

/// An escaped body, its closing quote, and a tail decode back to the
/// body and the tail.
proof fn lemma_unesc_esc(body: Seq<char>, rest: Seq<char>)
    ensures
        unesc_prefix(esc(body) + (seq!['"'] + rest)) == Some::<(Seq<char>, Seq<char>)>((
            body,
            rest,
        )),
    decreases body.len(),
{
    broadcast use vstd::utf8::char_u32_cast;

    let s = esc(body) + (seq!['"'] + rest);
    if body.len() == 0 {
        assert(esc(body) == Seq::<char>::empty());
        assert(s =~= seq!['"'] + rest);
        assert(s[0] == '"');
        assert(s.drop_first() =~= rest);
    } else {
        let c = body[0];
        let tail = body.drop_first();
        assert(esc(body) == esc_char(c) + esc(tail));
        let s2 = esc(tail) + (seq!['"'] + rest);
        lemma_unesc_esc(tail, rest);
        assert(seq![c] + tail =~= body);
        if c == '"' || c == '\\' {
            let e = if c == '"' {
                '"'
            } else {
                '\\'
            };
            assert(s[0] == '\\' && s[1] == e);
            assert(s.skip(2) =~= s2);
            assert(e != 'u');
        } else if c == '\n' {
            assert(s[0] == '\\' && s[1] == 'n');
            assert(s.skip(2) =~= s2);
        } else if c == '\r' {
            assert(s[0] == '\\' && s[1] == 'r');
            assert(s.skip(2) =~= s2);
        } else if c == '\t' {
            assert(s[0] == '\\' && s[1] == 't');
            assert(s.skip(2) =~= s2);
        } else if (c as u32) < 32 {
            let hi = (c as u32 / 16) as int;
            let lo = (c as u32 % 16) as int;
            assert(s[0] == '\\' && s[1] == 'u' && s[2] == '0' && s[3] == '0');
            assert(s[4] == hex_digit(hi) && s[5] == hex_digit(lo));
            assert(0 <= hi < 2 && 0 <= lo < 16);
            assert(hex_val(hex_digit(hi)) == hi && hex_val(hex_digit(lo)) == lo) by {
                assert(hex_digit(hi) as u32 == 48 + hi);
                if lo < 10 {
                    assert(hex_digit(lo) as u32 == 48 + lo);
                } else {
                    assert(hex_digit(lo) as u32 == 87 + lo);
                }
            }
            assert(16 * hi + lo == c as u32) by {
                vstd::arithmetic::div_mod::lemma_fundamental_div_mod(c as u32 as int, 16);
            }
            assert((((16 * hi + lo) as u8) as char) as u32 == 16 * hi + lo);
            vstd::utf8::char_u32_cast(c, (16 * hi + lo) as u32);
            vstd::utf8::char_u32_cast(((16 * hi + lo) as u8) as char, (16 * hi + lo) as u32);
            assert(((16 * hi + lo) as u8) as char == c);
            assert(s.skip(6) =~= s2);
        } else {
            // plain character: not a quote, not a backslash
            assert(s[0] == c);
            assert(c != '"' && c != '\\');
            assert(s.drop_first() =~= s2);
        }
    }
}

/// Decoding an encoded frame yields the original message: the wire
/// round trip is the identity on every message whose timestamp fits a
/// signed 64-bit integer.
pub proof fn lemma_decode_encode(m: SyncMessageV)
    requires
        -0x8000000000000000 <= m.timestamp <= 0x7fffffffffffffff,
    ensures
        decode(encode(m)) == Some(m),
{
    let t13 = seq!['}'];
    let t12 = bool_chars(m.deleted) + t13;
    let t11 = lit_after_mid() + t12;
    let t10 = seq!['"'] + t11;
    let t9 = esc(m.machine_id) + t10;
    let t8 = lit_after_ts() + t9;
    let t7 = i64_chars(m.timestamp) + t8;
    let t6 = lit_after_value() + t7;
    let t5 = seq!['"'] + t6;
    let t4 = esc(m.value) + t5;
    let t3 = lit_after_key() + t4;
    let t2 = seq!['"'] + t3;
    let t1 = esc(m.key) + t2;
    let s = lit_key() + t1;
    assert(s == encode(m));

    lemma_expect_concat(lit_key(), t1);
    lemma_unesc_esc(m.key, t3);
    lemma_expect_concat(lit_after_key(), t4);
    lemma_unesc_esc(m.value, t6);
    lemma_expect_concat(lit_after_value(), t7);
    assert(t8[0] == ',');
    assert(!is_digit(',')) by {
        assert((',') as u32 == 44);
    }
    lemma_parse_i64_round(m.timestamp, t8);
    lemma_expect_concat(lit_after_ts(), t9);
    lemma_unesc_esc(m.machine_id, t11);
    lemma_expect_concat(lit_after_mid(), t12);
    lemma_expect_concat(bool_chars(m.deleted), t13);
    if m.deleted {
        assert(parse_bool(t12) == Some::<(bool, Seq<char>)>((true, t13)));
    } else {
        assert(expect(t12, bool_chars(true)) is None) by {
            assert(t12[0] == 'f');
            if t12.len() >= 4 && t12.take(4) == bool_chars(true) {
                assert(t12.take(4)[0] == 'f');
                assert(bool_chars(true)[0] == 't');
            }
        }
        assert(parse_bool(t12) == Some::<(bool, Seq<char>)>((false, t13)));
    }
    assert(t13 =~= seq!['}']);
}

/// Append the escape of one character.
#[verifier::loop_isolation(false)]
fn push_escaped_char(out: &mut String, c: char)
    ensures
        final(out)@ == old(out)@ + esc_char(c),
{
    let ghost start = out@;
    if c == '"' {
        out.append("\\\"");
        proof {
            reveal_strlit("\\\"");
            assert(out@ =~= start + esc_char(c));
        }
    } else if c == '\\' {
        out.append("\\\\");
        proof {
            reveal_strlit("\\\\");
            assert(out@ =~= start + esc_char(c));
        }
    } else if c == '\n' {
        out.append("\\n");
        proof {
            reveal_strlit("\\n");
            assert(out@ =~= start + esc_char(c));
        }
    } else if c == '\r' {
        out.append("\\r");
        proof {
            reveal_strlit("\\r");
            assert(out@ =~= start + esc_char(c));
        }
    } else if c == '\t' {
        out.append("\\t");
        proof {
            reveal_strlit("\\t");
            assert(out@ =~= start + esc_char(c));
        }
    } else if (c as u32) < 32 {
        out.append("\\u00");
        let hv: u32 = (c as u32) / 16;
        let lv: u32 = (c as u32) % 16;
        let hc: char = if hv < 10 {
            ((48 + hv) as u8) as char
        } else {
            ((87 + hv) as u8) as char
        };
        let lc: char = if lv < 10 {
            ((48 + lv) as u8) as char
        } else {
            ((87 + lv) as u8) as char
        };
        push_char(out, hc);
        push_char(out, lc);
        proof {
            reveal_strlit("\\u00");
            assert(hc == hex_digit(hv as int));
            assert(lc == hex_digit(lv as int));
            assert(out@ =~= start + esc_char(c));
        }
    } else {
        push_char(out, c);
        proof {
            assert(out@ =~= start + esc_char(c));
        }
    }
}

/// Append the escape of a whole string body.
#[verifier::loop_isolation(false)]
fn append_escaped(out: &mut String, s: &str)
    ensures
        final(out)@ == old(out)@ + esc(s@),
{
    let n: usize = s.unicode_len();
    let mut i: usize = 0;
    proof {
        assert(s@.take(0) =~= Seq::<char>::empty());
        assert(out@ =~= out@ + esc(s@.take(0)));
    }
    while i < n
        invariant
            0 <= i <= n,
            n == s@.len(),
            out@ == old(out)@ + esc(s@.take(i as int)),
        decreases n - i,
    {
        let c = s.get_char(i);
        push_escaped_char(out, c);
        proof {
            lemma_esc_snoc(s@.take(i as int), c);
            assert(s@.take(i as int + 1) =~= s@.take(i as int).push(c));
            assert(out@ =~= old(out)@ + esc(s@.take(i as int + 1)));
        }
        i = i + 1;
    }
    proof {
        assert(s@.take(n as int) =~= s@);
    }
}

/// Append the decimal digits of `n`.
#[verifier::loop_isolation(false)]
pub(crate) fn push_u64(out: &mut String, n: u64)
    ensures
        final(out)@ == old(out)@ + int_chars(n as int),
    decreases n,
{
    if n < 10 {
        let d: char = ((48 + n) as u8) as char;
        push_char(out, d);
        proof {
            assert(d == dec_digit(n as int));
            assert(out@ =~= old(out)@ + int_chars(n as int));
        }
    } else {
        let ghost start = out@;
        push_u64(out, n / 10);
        let d: char = ((48 + (n % 10)) as u8) as char;
        push_char(out, d);
        proof {
            assert(d == dec_digit(n as int % 10));
            assert(out@ =~= start + int_chars(n as int));
        }
    }
}

/// Write one frame: the canonical spelling of `m`.
#[verifier::rlimit(60)]
pub fn serialize_sync_message(m: &SyncMessage) -> (r: String)
    ensures
        r@ == encode(m@),
{
    let mut out = String::new();
    proof {
        reveal_strlit("{\"key\":\"");
        reveal_strlit("\",\"value\":\"");
        reveal_strlit("\",\"timestamp\":");
        reveal_strlit(",\"machine_id\":\"");
        reveal_strlit("\",\"deleted\":");
        reveal_strlit("true");
        reveal_strlit("false");
        reveal_strlit("-");
        reveal_strlit("}");
    }
    out.append("{\"key\":\"");
    proof {
        assert(out@ =~= lit_key());
    }
    append_escaped(&mut out, m.key.as_str());
    out.append("\",\"value\":\"");
    proof {
        assert("\",\"value\":\""@ =~= seq!['"'] + lit_after_key());
    }
    append_escaped(&mut out, m.value.as_str());
    out.append("\",\"timestamp\":");
    proof {
        assert("\",\"timestamp\":"@ =~= seq!['"'] + lit_after_value());
    }
    if m.timestamp < 0 {
        out.append("-");
        proof {
            assert("-"@ =~= seq!['-']);
        }
        let mag: u64 = if m.timestamp == i64::MIN {
            9223372036854775808u64
        } else {
            (-(m.timestamp)) as u64
        };
        push_u64(&mut out, mag);
        proof {
            assert(seq!['-'] + int_chars(mag as int) =~= i64_chars(m@.timestamp));
        }
    } else {
        push_u64(&mut out, m.timestamp as u64);
    }
    out.append(",\"machine_id\":\"");
    proof {
        assert(",\"machine_id\":\""@ =~= lit_after_ts());
    }
    append_escaped(&mut out, m.machine_id.as_str());
    out.append("\",\"deleted\":");
    proof {
        assert("\",\"deleted\":"@ =~= seq!['"'] + lit_after_mid());
    }
    if m.deleted {
        out.append("true");
        proof {
            assert("true"@ =~= bool_chars(true));
        }
    } else {
        out.append("false");
        proof {
            assert("false"@ =~= bool_chars(false));
        }
    }
    out.append("}");
    proof {
        assert("}"@ =~= seq!['}']);
        assert(out@ =~= encode(m@));
    }
    out
}

/// Match an exact literal at position `i`; `Some` carries the position
/// just past it.
#[verifier::loop_isolation(false)]
fn eat_lit(s: &str, n: usize, i: usize, lit: &str) -> (r: Option<usize>)
    requires
        n == s@.len(),
        i <= n,
    ensures
        match r {
            Some(j) => i <= j <= n && expect(s@.skip(i as int), lit@) == Some(s@.skip(j as int)),
            None => expect(s@.skip(i as int), lit@) is None,
        },
{
    let llen: usize = lit.unicode_len();
    if n - i < llen {
        return None;
    }
    let mut k: usize = 0;
    while k < llen
        invariant
            0 <= k <= llen,
            llen <= n - i,
            n == s@.len(),
            llen == lit@.len(),
            i <= n,
            forall|l: int| 0 <= l < k ==> s@[i + l] == lit@[l],
        decreases llen - k,
    {
        let sc = s.get_char(i + k);
        let lc = lit.get_char(k);
        if sc != lc {
            proof {
                let s2 = s@.skip(i as int);
                if s2.len() >= lit@.len() && s2.take(lit@.len() as int) == lit@ {
                    assert(s2.take(lit@.len() as int)[k as int] == lit@[k as int]);
                    assert(s2[k as int] == s@[i + k]);
                }
            }
            return None;
        }
        k = k + 1;
    }
    proof {
        let s2 = s@.skip(i as int);
        assert(s2.take(lit@.len() as int) =~= lit@);
        assert(s2.skip(lit@.len() as int) =~= s@.skip(i as int + llen as int));
    }
    Some(i + llen)
}

/// The value of a hexadecimal digit character, or -1.
fn hex_value(c: char) -> (r: i8)
    ensures
        r as int == hex_val(c),
{
    let u = c as u32;
    if 48 <= u && u <= 57 {
        (u - 48) as i8
    } else if 97 <= u && u <= 102 {
        (u - 87) as i8
    } else if 65 <= u && u <= 70 {
        (u - 55) as i8
    } else {
        -1
    }
}

/// Decode an escaped string body starting at `i`, up to and including
/// its closing quote. `Some` carries the body and the position just
/// past the quote.
#[verifier::loop_isolation(false)]
fn unescape_body(s: &str, n: usize, i: usize) -> (r: Option<(String, usize)>)
    requires
        n == s@.len(),
        i <= n,
    ensures
        match r {
            Some(p) => p.1 <= n && unesc_prefix(s@.skip(i as int)) == Some::<(Seq<char>, Seq<char>)>(
                (p.0@, s@.skip(p.1 as int)),
            ),
            None => unesc_prefix(s@.skip(i as int)) is None,
        },
{
    let mut out = String::new();
    let mut j: usize = i;
    loop
        invariant
            i <= j <= n,
            n == s@.len(),
            match unesc_prefix(s@.skip(j as int)) {
                Some(p) => unesc_prefix(s@.skip(i as int)) == Some::<(Seq<char>, Seq<char>)>((
                    out@ + p.0,
                    p.1,
                )),
                None => unesc_prefix(s@.skip(i as int)) is None,
            },
        decreases n - j,
    {
        if j >= n {
            proof {
                assert(s@.skip(j as int) =~= Seq::<char>::empty());
            }
            return None;
        }
        let ghost sj = s@.skip(j as int);
        proof {
            assert(sj.len() > 0);
            assert(sj[0] == s@[j as int]);
        }
        let c = s.get_char(j);
        if c == '"' {
            proof {
                assert(sj.drop_first() =~= s@.skip(j as int + 1));
                assert(out@ + Seq::<char>::empty() =~= out@);
            }
            return Some((out, j + 1));
        } else if c == '\\' {
            if j + 1 >= n {
                proof {
                    assert(sj.len() < 2);
                }
                return None;
            }
            proof {
                assert(sj[1] == s@[j + 1]);
            }
            let e = s.get_char(j + 1);
            if e == 'u' {
                if n - j < 6 {
                    proof {
                        assert(sj.len() < 6);
                    }
                    return None;
                }
                proof {
                    assert(sj[2] == s@[j + 2] && sj[3] == s@[j + 3] && sj[4] == s@[j + 4]
                        && sj[5] == s@[j + 5]);
                }
                if s.get_char(j + 2) != '0' || s.get_char(j + 3) != '0' {
                    return None;
                }
                let v1 = hex_value(s.get_char(j + 4));
                let v2 = hex_value(s.get_char(j + 5));
                if v1 < 0 || v2 < 0 {
                    return None;
                }
                let ch: char = ((16 * (v1 as u32) + (v2 as u32)) as u8) as char;
                push_char(&mut out, ch);
                proof {
                    assert(16 * (v1 as int) + (v2 as int) == 16 * hex_val(sj[4]) + hex_val(sj[5]));
                    assert(sj.skip(6) =~= s@.skip(j as int + 6));
                    if let Some(p) = unesc_prefix(s@.skip(j as int + 6)) {
                        assert(out@ + p.0 =~= out@.drop_last() + (seq![ch] + p.0));
                    }
                }
                j = j + 6;
            } else {
                let ch: char = if e == '"' {
                    '"'
                } else if e == '\\' {
                    '\\'
                } else if e == '/' {
                    '/'
                } else if e == 'n' {
                    '\n'
                } else if e == 'r' {
                    '\r'
                } else if e == 't' {
                    '\t'
                } else if e == 'b' {
                    (8u8) as char
                } else if e == 'f' {
                    (12u8) as char
                } else {
                    ' '
                };
                if !(e == '"' || e == '\\' || e == '/' || e == 'n' || e == 'r' || e == 't' || e
                    == 'b' || e == 'f') {
                    return None;
                }
                push_char(&mut out, ch);
                proof {
                    assert(sj.skip(2) =~= s@.skip(j as int + 2));
                    if let Some(p) = unesc_prefix(s@.skip(j as int + 2)) {
                        assert(out@ + p.0 =~= out@.drop_last() + (seq![ch] + p.0));
                    }
                }
                j = j + 2;
            }
        } else {
            push_char(&mut out, c);
            proof {
                assert(sj.drop_first() =~= s@.skip(j as int + 1));
                if let Some(p) = unesc_prefix(s@.skip(j as int + 1)) {
                    assert(out@ + p.0 =~= out@.drop_last() + (seq![c] + p.0));
                }
            }
            j = j + 1;
        }
    }
}

/// Parse a decimal signed 64-bit integer at `i`.
#[verifier::loop_isolation(false)]
fn parse_int_at(s: &str, n: usize, i: usize) -> (r: Option<(i64, usize)>)
    requires
        n == s@.len(),
        i <= n,
    ensures
        match r {
            Some(p) => p.1 <= n && parse_i64(s@.skip(i as int)) == Some::<(int, Seq<char>)>((
                p.0 as int,
                s@.skip(p.1 as int),
            )),
            None => parse_i64(s@.skip(i as int)) is None,
        },
{
    proof {
        reveal_with_fuel(pow10, 21);
    }
    let neg: bool = i < n && s.get_char(i) == '-';
    let start: usize = if neg {
        i + 1
    } else {
        i
    };
    proof {
        if neg {
            assert(s@.skip(i as int)[0] == s@[i as int]);
            assert(s@.skip(i as int).drop_first() =~= s@.skip(start as int));
        } else if i < n {
            assert(s@.skip(i as int)[0] == s@[i as int]);
        }
    }
    let mut acc: u64 = 0;
    let mut count: usize = 0;
    let mut j: usize = start;
    loop
        invariant
            start <= j <= n,
            n == s@.len(),
            i <= start <= n,
            count == j - start,
            count <= 19,
            acc < pow10(count as int),
            pow10(19) == 10000000000000000000,
            parse_mag(s@.skip(start as int), 0, 0) == parse_mag(
                s@.skip(j as int),
                acc as int,
                count as int,
            ),
            forall|k: int| 0 <= k < 19 ==> #[trigger] pow10(k + 1) == 10 * pow10(k),
        decreases n - j,
    {
        let ghost sj = s@.skip(j as int);
        if j >= n {
            proof {
                assert(sj =~= Seq::<char>::empty());
            }
            break;
        }
        proof {
            assert(sj[0] == s@[j as int]);
        }
        let c = s.get_char(j);
        let u = c as u32;
        if u < 48 || u > 57 {
            break;
        }
        if count >= 19 {
            return None;
        }
        let d: u64 = (u - 48) as u64;
        proof {
            assert(acc * 10 + d < pow10(count as int + 1)) by (nonlinear_arith)
                requires
                    acc < pow10(count as int),
                    d <= 9,
                    pow10(count as int + 1) == 10 * pow10(count as int),
            ;
            assert(pow10(count as int + 1) <= pow10(19)) by {
                assert forall|a: int, b: int| 0 <= a <= b <= 19 implies pow10(a) <= pow10(b) by {
                    lemma_pow10_mono(a, b);
                }
            }
            assert(sj.drop_first() =~= s@.skip(j as int + 1));
        }
        acc = acc * 10 + d;
        count = count + 1;
        j = j + 1;
    }
    if count == 0 {
        return None;
    }
    let ghost srest = s@.skip(j as int);
    proof {
        assert(parse_mag(s@.skip(start as int), 0, 0) == Some::<(int, Seq<char>)>((
            acc as int,
            srest,
        )));
    }
    if neg {
        if acc > 9223372036854775808u64 {
            return None;
        }
        let v: i64 = if acc == 9223372036854775808u64 {
            i64::MIN
        } else {
            -(acc as i64)
        };
        Some((v, j))
    } else {
        if acc > 9223372036854775807u64 {
            return None;
        }
        Some((acc as i64, j))
    }
}

/// Powers of ten do not decrease.
proof fn lemma_pow10_mono(a: int, b: int)
    requires
        0 <= a <= b,
    ensures
        pow10(a) <= pow10(b),
    decreases b - a,
{
    if a < b {
        lemma_pow10_mono(a, b - 1);
        assert(pow10(b) == 10 * pow10(b - 1));
        assert(pow10(b - 1) >= 1) by {
            lemma_pow10_pos(b - 1);
        }
    }
}

/// Powers of ten are positive.
proof fn lemma_pow10_pos(k: int)
    ensures
        pow10(k) >= 1,
    decreases (if k > 0 {
        k
    } else {
        0
    }),
{
    if k > 0 {
        lemma_pow10_pos(k - 1);
    }
}

/// Parse one frame; `None` on anything that is not a complete frame.
#[verifier::rlimit(60)]
pub fn deserialize_sync_message(s: &str) -> (r: Option<SyncMessage>)
    ensures
        match r {
            Some(msg) => decode(s@) == Some(msg@),
            None => decode(s@) is None,
        },
{
    let n: usize = s.unicode_len();
    proof {
        reveal_strlit("{\"key\":\"");
        reveal_strlit(",\"value\":\"");
        reveal_strlit(",\"timestamp\":");
        reveal_strlit(",\"machine_id\":\"");
        reveal_strlit(",\"deleted\":");
        assert(s@.skip(0) =~= s@);
        assert("{\"key\":\""@ =~= lit_key());
        assert(",\"value\":\""@ =~= lit_after_key());
        assert(",\"timestamp\":"@ =~= lit_after_value());
        assert(",\"machine_id\":\""@ =~= lit_after_ts());
        assert(",\"deleted\":"@ =~= lit_after_mid());
    }
    let i1 = match eat_lit(s, n, 0, "{\"key\":\"") {
        Some(j) => j,
        None => {
            return None;
        },
    };
    let (key, i2) = match unescape_body(s, n, i1) {
        Some(p) => p,
        None => {
            return None;
        },
    };
    let i3 = match eat_lit(s, n, i2, ",\"value\":\"") {
        Some(j) => j,
        None => {
            return None;
        },
    };
    let (value, i4) = match unescape_body(s, n, i3) {
        Some(p) => p,
        None => {
            return None;
        },
    };
    let i5 = match eat_lit(s, n, i4, ",\"timestamp\":") {
        Some(j) => j,
        None => {
            return None;
        },
    };
    let (ts, i6) = match parse_int_at(s, n, i5) {
        Some(p) => p,
        None => {
            return None;
        },
    };
    let i7 = match eat_lit(s, n, i6, ",\"machine_id\":\"") {
        Some(j) => j,
        None => {
            return None;
        },
    };
    let (mid, i8) = match unescape_body(s, n, i7) {
        Some(p) => p,
        None => {
            return None;
        },
    };
    let i9 = match eat_lit(s, n, i8, ",\"deleted\":") {
        Some(j) => j,
        None => {
            return None;
        },
    };
    let (del, i10) = match parse_bool_at(s, n, i9) {
        Some(p) => p,
        None => {
            return None;
        },
    };
    if i10 < n && i10 + 1 == n && s.get_char(i10) == '}' {
        proof {
            assert(s@.skip(i10 as int) =~= seq!['}']);
        }
        let msg = SyncMessage { key, value, timestamp: ts, machine_id: mid, deleted: del };
        Some(msg)
    } else {
        proof {
            let s10 = s@.skip(i10 as int);
            if s10 =~= seq!['}'] {
                assert(s10.len() == 1);
                assert(s10[0] == s@[i10 as int]);
                assert(i10 + 1 == n);
                assert(s@[i10 as int] == '}');
            }
        }
        None
    }
}

/// Decode one inbound wire frame; anything that is not a complete
/// frame is a `Serialization` error, which the caller drops without
/// disconnecting.
pub fn decode_wire_text(text: &str) -> (r: Result<SyncMessage, crate::errors::MeshError>)
    ensures
        match r {
            Ok(m) => decode(text@) == Some(m@),
            Err(e) => e is Serialization && decode(text@) is None,
        },
{
    match deserialize_sync_message(text) {
        Some(m) => Ok(m),
        None => Err(crate::errors::MeshError::Serialization),
    }
}

/// Parse `true` or `false` at `i`.
fn parse_bool_at(s: &str, n: usize, i: usize) -> (r: Option<(bool, usize)>)
    requires
        n == s@.len(),
        i <= n,
    ensures
        match r {
            Some(p) => p.1 <= n && parse_bool(s@.skip(i as int)) == Some::<(bool, Seq<char>)>((
                p.0,
                s@.skip(p.1 as int),
            )),
            None => parse_bool(s@.skip(i as int)) is None,
        },
{
    proof {
        reveal_strlit("true");
        reveal_strlit("false");
        assert("true"@ =~= bool_chars(true));
        assert("false"@ =~= bool_chars(false));
    }
    match eat_lit(s, n, i, "true") {
        Some(j) => Some((true, j)),
        None => match eat_lit(s, n, i, "false") {
            Some(j) => Some((false, j)),
            None => None,
        },
    }
}

} // verus!
