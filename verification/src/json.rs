//! JSON primitives for the diagnostic encoding.
//!
//! The JSON form of a token uses four value kinds: unsigned decimal
//! integers, strings (with the minimal escapes `\"`, `\\`, and
//! `\u00XX` for control bytes), byte strings rendered as lowercase hex
//! inside a JSON string, and `null` for an absent optional field.
//! Records are JSON objects with fixed keys in declaration order and
//! no whitespace.
//!
//! As with the CBOR side, the emitted form is canonical (no leading
//! zeros, lowercase hex, shortest escapes) and the parsers accept
//! exactly that form, which makes them exact inverses of the encoders.

use vstd::prelude::*;
use vstd::arithmetic::div_mod::lemma_fundamental_div_mod;
use vstd::slice::slice_index_get;
use crate::cbor::{lemma_concat_split, lemma_subrange_within};
use vstd::utf8::{decode_utf8, encode_utf8, encode_utf8_decode_utf8, encode_utf8_valid_utf8,
    valid_utf8};
use crate::text::bytes_to_string;

verus! {

// ---------------------------------------------------------------------------
// Decimal integers
// ---------------------------------------------------------------------------

pub open spec fn is_digit(x: u8) -> bool {
    0x30 <= x <= 0x39
}

pub open spec fn digit_val(x: u8) -> nat
    recommends
        is_digit(x),
{
    (x - 0x30) as nat
}

/// The shortest decimal digit string for `n`.
pub open spec fn dec_digits(n: nat) -> Seq<u8>
    decreases n,
{
    if n < 10 {
        seq![(0x30 + n) as u8]
    } else {
        dec_digits(n / 10).push((0x30 + n % 10) as u8)
    }
}

/// The value of a digit string.
pub open spec fn dec_val(ds: Seq<u8>) -> nat
    decreases ds.len(),
{
    if ds.len() == 0 {
        0
    } else {
        dec_val(ds.drop_last()) * 10 + digit_val(ds.last())
    }
}

pub proof fn lemma_dec_digits_wf(n: nat)
    ensures
        dec_digits(n).len() >= 1,
        forall|j: int| 0 <= j < dec_digits(n).len() ==> is_digit(#[trigger] dec_digits(n)[j]),
        n >= 1 ==> dec_digits(n)[0] != 0x30,
        n < 10 ==> dec_digits(n).len() == 1,
    decreases n,
{
    let ds = dec_digits(n);
    if n < 10 {
        assert(ds =~= seq![(0x30 + n) as u8]);
        assert(is_digit(ds[0]));
    } else {
        lemma_dec_digits_wf(n / 10);
        assert(n / 10 >= 1);
        let prev = dec_digits(n / 10);
        assert(ds == prev.push((0x30 + n % 10) as u8));
        assert forall|j: int| 0 <= j < ds.len() implies is_digit(#[trigger] ds[j]) by {
            if j < prev.len() {
                assert(ds[j] == prev[j]);
            } else {
                assert(ds[j] == (0x30 + n % 10) as u8);
            }
        }
        assert(ds[0] == prev[0]);
    }
}

pub proof fn lemma_dec_val_of_digits(n: nat)
    ensures
        dec_val(dec_digits(n)) == n,
    decreases n,
{
    let ds = dec_digits(n);
    if n < 10 {
        assert(ds =~= seq![(0x30 + n) as u8]);
        assert(ds.drop_last() =~= Seq::<u8>::empty());
        assert(dec_val(ds.drop_last()) == 0);
        assert(ds.last() == (0x30 + n) as u8);
        assert(digit_val(ds.last()) == n);
    } else {
        lemma_dec_val_of_digits(n / 10);
        assert(ds == dec_digits(n / 10).push((0x30 + n % 10) as u8));
        assert(ds.drop_last() =~= dec_digits(n / 10));
        assert(ds.last() == (0x30 + n % 10) as u8);
        assert(digit_val(ds.last()) == n % 10);
        assert(dec_val(ds) == (n / 10) * 10 + n % 10);
        lemma_fundamental_div_mod(n as int, 10);
    }
}

/// Extending a digit string never decreases its value.
pub proof fn lemma_dec_val_prefix(ds: Seq<u8>, t: int)
    requires
        0 <= t <= ds.len(),
    ensures
        dec_val(ds) >= dec_val(ds.take(t)),
    decreases ds.len() - t,
{
    if t < ds.len() {
        lemma_dec_val_prefix(ds, t + 1);
        assert(ds.take(t + 1).drop_last() =~= ds.take(t));
        assert(dec_val(ds.take(t + 1)) == dec_val(ds.take(t)) * 10 + digit_val(ds.take(t + 1).last()));
    } else {
        assert(ds.take(t) =~= ds);
    }
}

/// First index at or after `i` that does not hold a decimal digit.
pub open spec fn digit_run_end(b: Seq<u8>, i: int) -> int
    decreases b.len() - i,
{
    if 0 <= i < b.len() && is_digit(b[i]) {
        digit_run_end(b, i + 1)
    } else {
        i
    }
}

pub proof fn lemma_digit_run_end_at(b: Seq<u8>, i: int, e: int)
    requires
        0 <= i <= e <= b.len(),
        forall|k: int| i <= k < e ==> is_digit(#[trigger] b[k]),
        e == b.len() || !is_digit(b[e]),
    ensures
        digit_run_end(b, i) == e,
    decreases e - i,
{
    if i < e {
        lemma_digit_run_end_at(b, i + 1, e);
    }
}

/// Parse a canonical decimal integer below `2^64`.
pub open spec fn spec_parse_dec(b: Seq<u8>, i: int) -> Option<(nat, int)> {
    if 0 <= i < b.len() && is_digit(b[i]) {
        let e = digit_run_end(b, i);
        if b[i] == 0x30 && e > i + 1 {
            None
        } else {
            let v = dec_val(b.subrange(i, e));
            if v < 0x1_0000_0000_0000_0000 {
                Some((v, e))
            } else {
                None
            }
        }
    } else {
        None
    }
}

pub fn push_dec(out: &mut Vec<u8>, n: u64)
    ensures
        final(out)@ =~= old(out)@ + dec_digits(n as nat),
    decreases n,
{
    if n < 10 {
        out.push(0x30 + (n as u8));
        assert(out@ =~= old(out)@ + dec_digits(n as nat));
    } else {
        push_dec(out, n / 10);
        out.push(0x30 + ((n % 10) as u8));
        assert(out@ =~= old(out)@ + dec_digits(n as nat));
    }
}

pub fn parse_dec(b: &[u8], i: usize) -> (r: Option<(u64, usize)>)
    ensures
        match r {
            Some((v, j)) => {
                &&& spec_parse_dec(b@, i as int) == Some((v as nat, j as int))
                &&& i < j <= b@.len()
            },
            None => spec_parse_dec(b@, i as int) is None,
        },
{
    let n = b.len();
    if i >= n {
        return None;
    }
    let first = *slice_index_get(b, i);
    if !(0x30 <= first && first <= 0x39) {
        return None;
    }
    if first == 0x30 {
        if i + 1 < n {
            let nx = *slice_index_get(b, i + 1);
            if 0x30 <= nx && nx <= 0x39 {
                proof {
                    assert(digit_run_end(b@, i as int) == digit_run_end(b@, i + 1));
                    assert(digit_run_end(b@, i + 1) == digit_run_end(b@, i + 2));
                    lemma_digit_run_end_ge(b@, i + 2);
                }
                return None;
            }
        }
        proof {
            assert(digit_run_end(b@, i as int) == digit_run_end(b@, i + 1));
            lemma_digit_run_end_at(b@, i + 1, i + 1);
            let sub = b@.subrange(i as int, i + 1);
            assert(sub =~= seq![0x30u8]);
            assert(sub.drop_last() =~= Seq::<u8>::empty());
            assert(dec_val(sub.drop_last()) == 0);
            assert(sub.last() == 0x30);
            assert(dec_val(sub) == 0);
        }
        return Some((0, i + 1));
    }
    let mut v: u64 = first as u64 - 0x30;
    let mut cur: usize = i + 1;
    proof {
        let sub = b@.subrange(i as int, i + 1);
        assert(sub =~= seq![first]);
        assert(sub.drop_last() =~= Seq::<u8>::empty());
        assert(dec_val(sub.drop_last()) == 0);
        assert(sub.last() == first);
        assert(dec_val(sub) == digit_val(first));
    }
    loop
        invariant
            i < cur <= n <= usize::MAX,
            n == b@.len(),
            forall|k: int| i <= k < cur ==> is_digit(#[trigger] b@[k]),
            b@[i as int] == first,
            0x30 < first <= 0x39,
            v as nat == dec_val(b@.subrange(i as int, cur as int)),
        decreases n - cur,
    {
        if cur >= n {
            proof {
                lemma_digit_run_end_at(b@, i as int, cur as int);
            }
            return Some((v, cur));
        }
        let c = *slice_index_get(b, cur);
        if !(0x30 <= c && c <= 0x39) {
            proof {
                lemma_digit_run_end_at(b@, i as int, cur as int);
            }
            return Some((v, cur));
        }
        let d = c - 0x30;
        proof {
            assert(b@.subrange(i as int, cur + 1).drop_last() =~= b@.subrange(i as int, cur as int));
        }
        if v > (u64::MAX - (d as u64)) / 10 {
            proof {
                let e = digit_run_end(b@, i as int);
                lemma_digit_run_end_props(b@, i as int);
                assert(e > cur) by {
                    lemma_digit_run_end_covers(b@, i as int, cur as int);
                }
                let run = b@.subrange(i as int, e);
                assert(run.take(cur + 1 - i) =~= b@.subrange(i as int, cur + 1));
                lemma_dec_val_prefix(run, cur + 1 - i);
                assert(dec_val(b@.subrange(i as int, cur + 1)) == (v as nat) * 10 + (d as nat));
                assert((v as nat) * 10 + (d as nat) >= 0x1_0000_0000_0000_0000);
            }
            return None;
        }
        v = v * 10 + (d as u64);
        cur += 1;
    }
}

/// `digit_run_end` stays within bounds and covers only digits.
pub proof fn lemma_digit_run_end_props(b: Seq<u8>, i: int)
    requires
        0 <= i <= b.len(),
    ensures
        i <= digit_run_end(b, i) <= b.len(),
        forall|k: int| i <= k < digit_run_end(b, i) ==> is_digit(#[trigger] b[k]),
        digit_run_end(b, i) == b.len() || !is_digit(b[digit_run_end(b, i)]),
    decreases b.len() - i,
{
    if i < b.len() && is_digit(b[i]) {
        lemma_digit_run_end_props(b, i + 1);
    }
}

proof fn lemma_digit_run_end_ge(b: Seq<u8>, i: int)
    requires
        0 <= i <= b.len(),
    ensures
        digit_run_end(b, i) >= i,
    decreases b.len() - i,
{
    if i < b.len() && is_digit(b[i]) {
        lemma_digit_run_end_ge(b, i + 1);
    }
}

/// If every position in `[i, c]` holds a digit, the run extends past `c`.
proof fn lemma_digit_run_end_covers(b: Seq<u8>, i: int, c: int)
    requires
        0 <= i <= c < b.len(),
        forall|k: int| i <= k < c ==> is_digit(#[trigger] b[k]),
        is_digit(b[c]),
    ensures
        digit_run_end(b, i) > c,
    decreases c - i,
{
    if i < c {
        lemma_digit_run_end_covers(b, i + 1, c);
    } else {
        lemma_digit_run_end_ge(b, i + 1);
    }
}

/// Parsing at the position of an encoded decimal yields that value,
/// provided the digit run is delimited (the next byte is not a digit).
pub proof fn lemma_parse_dec_of_enc(b: Seq<u8>, i: int, n: nat)
    requires
        n < 0x1_0000_0000_0000_0000,
        0 <= i,
        i + dec_digits(n).len() <= b.len(),
        b.subrange(i, i + dec_digits(n).len()) == dec_digits(n),
        i + dec_digits(n).len() == b.len() || !is_digit(b[i + dec_digits(n).len()]),
    ensures
        spec_parse_dec(b, i) == Some((n, i + dec_digits(n).len())),
{
    let ds = dec_digits(n);
    lemma_dec_digits_wf(n);
    lemma_dec_val_of_digits(n);
    assert(b[i] == ds[0]);
    assert forall|k: int| i <= k < i + ds.len() implies is_digit(#[trigger] b[k]) by {
        assert(b[k] == ds[k - i]);
    }
    lemma_digit_run_end_at(b, i, i + ds.len());
    if n == 0 {
        assert(ds.len() == 1);
    } else {
        assert(b[i] != 0x30);
    }
}

// ---------------------------------------------------------------------------
// Lowercase hex
// ---------------------------------------------------------------------------

/// Lowercase hex digit for a value below 16.
pub open spec fn hexdig(v: u8) -> u8
    recommends
        v < 16,
{
    if v < 10 {
        (0x30 + v) as u8
    } else {
        (0x57 + v) as u8
    }
}

pub open spec fn is_lhex(x: u8) -> bool {
    is_digit(x) || (0x61 <= x <= 0x66)
}

pub open spec fn hexval(x: u8) -> nat
    recommends
        is_lhex(x),
{
    if x <= 0x39 {
        (x - 0x30) as nat
    } else {
        (x - 0x57) as nat
    }
}

/// Two lowercase hex digits per byte.
pub open spec fn spec_hex(d: Seq<u8>) -> Seq<u8>
    decreases d.len(),
{
    if d.len() == 0 {
        Seq::empty()
    } else {
        seq![hexdig(d[0] / 16), hexdig(d[0] % 16)] + spec_hex(d.drop_first())
    }
}

pub proof fn lemma_hex_app(a: Seq<u8>, c: Seq<u8>)
    ensures
        spec_hex(a + c) =~= spec_hex(a) + spec_hex(c),
        spec_hex(a).len() == 2 * a.len(),
    decreases a.len(),
{
    if a.len() == 0 {
        assert(a + c =~= c);
        assert(spec_hex(a) =~= Seq::<u8>::empty());
    } else {
        assert((a + c).drop_first() =~= a.drop_first() + c);
        assert((a + c)[0] == a[0]);
        lemma_hex_app(a.drop_first(), c);
    }
}

pub proof fn lemma_hex_len(a: Seq<u8>)
    ensures
        spec_hex(a).len() == 2 * a.len(),
    decreases a.len(),
{
    if a.len() > 0 {
        lemma_hex_len(a.drop_first());
    }
}

pub fn push_hex(out: &mut Vec<u8>, d: &[u8])
    ensures
        final(out)@ =~= old(out)@ + spec_hex(d@),
{
    let n = d.len();
    let mut t: usize = 0;
    while t < n
        invariant
            0 <= t <= n,
            n == d@.len(),
            out@ =~= old(out)@ + spec_hex(d@.take(t as int)),
        decreases n - t,
    {
        let x = *slice_index_get(d, t);
        let hi: u8 = x / 16;
        let lo: u8 = x % 16;
        out.push(if hi < 10 {
            0x30 + hi
        } else {
            0x57 + hi
        });
        out.push(if lo < 10 {
            0x30 + lo
        } else {
            0x57 + lo
        });
        proof {
            assert(d@.take(t + 1) =~= d@.take(t as int) + seq![d@[t as int]]);
            lemma_hex_app(d@.take(t as int), seq![d@[t as int]]);
            let single = seq![d@[t as int]];
            assert(single.drop_first() =~= Seq::<u8>::empty());
            assert(spec_hex(single.drop_first()) =~= Seq::<u8>::empty());
            assert(spec_hex(single) =~= seq![hexdig(x / 16), hexdig(x % 16)]);
            assert(out@ =~= old(out)@ + spec_hex(d@.take(t + 1)));
        }
        t += 1;
    }
    proof {
        assert(d@.take(n as int) =~= d@);
    }
}

/// Parse hex pairs until a closing quote; returns the bytes and the
/// index after the quote.
pub open spec fn spec_parse_hex(b: Seq<u8>, i: int) -> Option<(Seq<u8>, int)>
    decreases b.len() - i,
{
    if i < 0 || i >= b.len() {
        None
    } else if b[i] == 0x22 {
        Some((Seq::empty(), i + 1))
    } else if i + 1 < b.len() && is_lhex(b[i]) && is_lhex(b[i + 1]) {
        match spec_parse_hex(b, i + 2) {
            Some((d, j)) => Some((seq![(hexval(b[i]) * 16 + hexval(b[i + 1])) as u8] + d, j)),
            None => None,
        }
    } else {
        None
    }
}

pub fn parse_hex(b: &[u8], i: usize) -> (r: Option<(Vec<u8>, usize)>)
    ensures
        match r {
            Some((d, j)) => {
                &&& spec_parse_hex(b@, i as int) == Some((d@, j as int))
                &&& i < j <= b@.len()
            },
            None => spec_parse_hex(b@, i as int) is None,
        },
{
    let n = b.len();
    if i >= n {
        return None;
    }
    let mut acc: Vec<u8> = Vec::new();
    let mut cur: usize = i;
    loop
        invariant
            i <= cur <= n <= usize::MAX,
            n == b@.len(),
            forall|d: Seq<u8>, j: int|
                spec_parse_hex(b@, cur as int) == Some((d, j)) ==> spec_parse_hex(b@, i as int)
                    == Some((acc@ + d, j)),
            spec_parse_hex(b@, cur as int) is None ==> spec_parse_hex(b@, i as int) is None,
        decreases n - cur,
    {
        if cur >= n {
            return None;
        }
        let c = *slice_index_get(b, cur);
        if c == 0x22 {
            proof {
                assert(acc@ + Seq::<u8>::empty() =~= acc@);
            }
            return Some((acc, cur + 1));
        }
        if cur + 1 >= n {
            return None;
        }
        let c2 = *slice_index_get(b, cur + 1);
        let hv1 = if 0x30 <= c && c <= 0x39 {
            c - 0x30
        } else if 0x61 <= c && c <= 0x66 {
            c - 0x57
        } else {
            return None;
        };
        let hv2 = if 0x30 <= c2 && c2 <= 0x39 {
            c2 - 0x30
        } else if 0x61 <= c2 && c2 <= 0x66 {
            c2 - 0x57
        } else {
            return None;
        };
        let byte: u8 = hv1 * 16 + hv2;
        proof {
            assert forall|d: Seq<u8>, j: int|
                spec_parse_hex(b@, cur + 2) == Some((d, j)) implies spec_parse_hex(
                b@,
                i as int,
            ) == Some((acc@.push(byte) + d, j)) by {
                assert(spec_parse_hex(b@, cur as int) == Some((seq![byte] + d, j)));
                assert(acc@ + (seq![byte] + d) =~= acc@.push(byte) + d);
            }
        }
        acc.push(byte);
        cur += 2;
    }
}

/// Parsing at the position of hex-encoded bytes followed by a quote
/// yields exactly those bytes.
pub proof fn lemma_parse_hex_of_enc(b: Seq<u8>, i: int, d: Seq<u8>)
    requires
        0 <= i,
        i + spec_hex(d).len() + 1 <= b.len(),
        b.subrange(i, i + spec_hex(d).len() + 1) == spec_hex(d) + seq![0x22u8],
    ensures
        spec_parse_hex(b, i) == Some((d, i + spec_hex(d).len() + 1)),
    decreases d.len(),
{
    lemma_hex_len(d);
    let w = spec_hex(d) + seq![0x22u8];
    if d.len() == 0 {
        assert(b[i] == w[0]);
    } else {
        let h1 = hexdig(d[0] / 16);
        let h2 = hexdig(d[0] % 16);
        assert(w[0] == h1 && w[1] == h2);
        assert(b[i] == h1 && b[i + 1] == h2);
        assert(is_lhex(h1) && is_lhex(h2));
        assert(hexval(h1) == d[0] / 16 && hexval(h2) == d[0] % 16);
        assert(b[i] != 0x22);
        let d2 = d.drop_first();
        lemma_hex_len(d2);
        assert(spec_hex(d) =~= seq![h1, h2] + spec_hex(d2));
        let wlen = spec_hex(d).len() + 1;
        lemma_subrange_within(b, i, wlen as int, 2, wlen as int);
        assert(w.subrange(2, wlen as int) =~= spec_hex(d2) + seq![0x22u8]);
        assert(b.subrange(i + 2, i + 2 + spec_hex(d2).len() + 1) =~= spec_hex(d2) + seq![0x22u8]);
        lemma_parse_hex_of_enc(b, i + 2, d2);
        assert(hexval(h1) * 16 + hexval(h2) == d[0]) by {
            lemma_fundamental_div_mod(d[0] as int, 16);
        }
        assert(seq![(hexval(b[i]) * 16 + hexval(b[i + 1])) as u8] + d2 =~= d);
    }
}

// ---------------------------------------------------------------------------
// Escaped string bodies
// ---------------------------------------------------------------------------

/// JSON escape of one byte of UTF-8 string content.
pub open spec fn escape_byte(x: u8) -> Seq<u8> {
    if x == 0x22 {
        seq![0x5cu8, 0x22u8]
    } else if x == 0x5c {
        seq![0x5cu8, 0x5cu8]
    } else if x < 0x20 {
        seq![0x5cu8, 0x75u8, 0x30u8, 0x30u8, hexdig(x / 16), hexdig(x % 16)]
    } else {
        seq![x]
    }
}

pub open spec fn spec_escape(u: Seq<u8>) -> Seq<u8>
    decreases u.len(),
{
    if u.len() == 0 {
        Seq::empty()
    } else {
        escape_byte(u[0]) + spec_escape(u.drop_first())
    }
}

pub proof fn lemma_escape_app(a: Seq<u8>, c: Seq<u8>)
    ensures
        spec_escape(a + c) =~= spec_escape(a) + spec_escape(c),
    decreases a.len(),
{
    if a.len() == 0 {
        assert(a + c =~= c);
        assert(spec_escape(a) =~= Seq::<u8>::empty());
    } else {
        assert((a + c).drop_first() =~= a.drop_first() + c);
        assert((a + c)[0] == a[0]);
        lemma_escape_app(a.drop_first(), c);
    }
}

pub proof fn lemma_escape_len(u: Seq<u8>)
    ensures
        u.len() <= spec_escape(u).len() <= 6 * u.len(),
    decreases u.len(),
{
    if u.len() > 0 {
        lemma_escape_len(u.drop_first());
    }
}

pub fn push_escaped(out: &mut Vec<u8>, u: &[u8])
    ensures
        final(out)@ =~= old(out)@ + spec_escape(u@),
{
    let n = u.len();
    let mut t: usize = 0;
    while t < n
        invariant
            0 <= t <= n,
            n == u@.len(),
            out@ =~= old(out)@ + spec_escape(u@.take(t as int)),
        decreases n - t,
    {
        let x = *slice_index_get(u, t);
        if x == 0x22 {
            out.push(0x5c);
            out.push(0x22);
        } else if x == 0x5c {
            out.push(0x5c);
            out.push(0x5c);
        } else if x < 0x20 {
            out.push(0x5c);
            out.push(0x75);
            out.push(0x30);
            out.push(0x30);
            let hi = x / 16;
            let lo = x % 16;
            out.push(if hi < 10 {
                0x30 + hi
            } else {
                0x57 + hi
            });
            out.push(if lo < 10 {
                0x30 + lo
            } else {
                0x57 + lo
            });
        } else {
            out.push(x);
        }
        proof {
            assert(u@.take(t + 1) =~= u@.take(t as int) + seq![u@[t as int]]);
            lemma_escape_app(u@.take(t as int), seq![u@[t as int]]);
            let single = seq![u@[t as int]];
            assert(single.drop_first() =~= Seq::<u8>::empty());
            assert(spec_escape(single.drop_first()) =~= Seq::<u8>::empty());
            assert(spec_escape(single) =~= escape_byte(x));
            assert(out@ =~= old(out)@ + spec_escape(u@.take(t + 1)));
        }
        t += 1;
    }
    proof {
        assert(u@.take(n as int) =~= u@);
    }
}

/// Parse an escaped string body until the closing quote; returns the
/// unescaped bytes and the index after the quote.
pub open spec fn spec_parse_str_bytes(b: Seq<u8>, i: int) -> Option<(Seq<u8>, int)>
    decreases b.len() - i,
{
    if i < 0 || i >= b.len() {
        None
    } else if b[i] == 0x22 {
        Some((Seq::empty(), i + 1))
    } else if b[i] == 0x5c {
        if i + 1 < b.len() && (b[i + 1] == 0x22 || b[i + 1] == 0x5c) {
            match spec_parse_str_bytes(b, i + 2) {
                Some((u, j)) => Some((seq![b[i + 1]] + u, j)),
                None => None,
            }
        } else if i + 5 < b.len() && b[i + 1] == 0x75 && b[i + 2] == 0x30 && b[i + 3] == 0x30
            && is_lhex(b[i + 4]) && is_lhex(b[i + 5]) && hexval(b[i + 4]) * 16 + hexval(b[i + 5])
            < 0x20 {
            match spec_parse_str_bytes(b, i + 6) {
                Some((u, j)) => Some(
                    (seq![(hexval(b[i + 4]) * 16 + hexval(b[i + 5])) as u8] + u, j),
                ),
                None => None,
            }
        } else {
            None
        }
    } else if b[i] < 0x20 {
        None
    } else {
        match spec_parse_str_bytes(b, i + 1) {
            Some((u, j)) => Some((seq![b[i]] + u, j)),
            None => None,
        }
    }
}

pub fn parse_str_bytes(b: &[u8], i: usize) -> (r: Option<(Vec<u8>, usize)>)
    ensures
        match r {
            Some((u, j)) => {
                &&& spec_parse_str_bytes(b@, i as int) == Some((u@, j as int))
                &&& i < j <= b@.len()
            },
            None => spec_parse_str_bytes(b@, i as int) is None,
        },
{
    let n = b.len();
    if i >= n {
        return None;
    }
    let mut acc: Vec<u8> = Vec::new();
    let mut cur: usize = i;
    loop
        invariant
            i <= cur <= n <= usize::MAX,
            n == b@.len(),
            forall|u: Seq<u8>, j: int|
                spec_parse_str_bytes(b@, cur as int) == Some((u, j)) ==> spec_parse_str_bytes(
                    b@,
                    i as int,
                ) == Some((acc@ + u, j)),
            spec_parse_str_bytes(b@, cur as int) is None ==> spec_parse_str_bytes(b@, i as int)
                is None,
        decreases n - cur,
    {
        if cur >= n {
            return None;
        }
        let c = *slice_index_get(b, cur);
        if c == 0x22 {
            proof {
                assert(acc@ + Seq::<u8>::empty() =~= acc@);
            }
            return Some((acc, cur + 1));
        }
        let (byte, step): (u8, usize) = if c == 0x5c {
            if cur + 1 < n {
                let e = *slice_index_get(b, cur + 1);
                if e == 0x22 || e == 0x5c {
                    (e, 2)
                } else if e == 0x75 && n - cur > 5 {
                    let z1 = *slice_index_get(b, cur + 2);
                    let z2 = *slice_index_get(b, cur + 3);
                    let h1 = *slice_index_get(b, cur + 4);
                    let h2 = *slice_index_get(b, cur + 5);
                    if z1 != 0x30 || z2 != 0x30 {
                        return None;
                    }
                    let hv1 = if 0x30 <= h1 && h1 <= 0x39 {
                        h1 - 0x30
                    } else if 0x61 <= h1 && h1 <= 0x66 {
                        h1 - 0x57
                    } else {
                        return None;
                    };
                    let hv2 = if 0x30 <= h2 && h2 <= 0x39 {
                        h2 - 0x30
                    } else if 0x61 <= h2 && h2 <= 0x66 {
                        h2 - 0x57
                    } else {
                        return None;
                    };
                    let v: u8 = hv1 * 16 + hv2;
                    if v >= 0x20 {
                        return None;
                    }
                    (v, 6)
                } else {
                    return None;
                }
            } else {
                return None;
            }
        } else if c < 0x20 {
            return None;
        } else {
            (c, 1)
        };
        proof {
            assert forall|u: Seq<u8>, j: int|
                spec_parse_str_bytes(b@, cur + step) == Some((u, j)) implies spec_parse_str_bytes(
                b@,
                i as int,
            ) == Some((acc@.push(byte) + u, j)) by {
                assert(spec_parse_str_bytes(b@, cur as int) == Some((seq![byte] + u, j)));
                assert(acc@ + (seq![byte] + u) =~= acc@.push(byte) + u);
            }
        }
        acc.push(byte);
        cur += step;
    }
}

/// Parsing at the position of an escaped body followed by a quote
/// yields exactly the unescaped bytes.
pub proof fn lemma_parse_str_of_escape(b: Seq<u8>, i: int, u: Seq<u8>)
    requires
        0 <= i,
        i + spec_escape(u).len() + 1 <= b.len(),
        b.subrange(i, i + spec_escape(u).len() + 1) == spec_escape(u) + seq![0x22u8],
    ensures
        spec_parse_str_bytes(b, i) == Some((u, i + spec_escape(u).len() + 1)),
    decreases u.len(),
{
    lemma_escape_len(u);
    let w = spec_escape(u) + seq![0x22u8];
    if u.len() == 0 {
        assert(b[i] == w[0]);
    } else {
        let eb = escape_byte(u[0]);
        let u2 = u.drop_first();
        lemma_escape_len(u2);
        assert(spec_escape(u) =~= eb + spec_escape(u2));
        let wlen = spec_escape(u).len() + 1;
        assert forall|k: int| 0 <= k < eb.len() implies b[i + k] == eb[k] by {
            assert(b.subrange(i, i + wlen as int)[k] == w[k]);
            assert(w[k] == (eb + spec_escape(u2) + seq![0x22u8])[k]);
        }
        assert(b[i] == eb[0]) by {
            assert(b.subrange(i, i + wlen as int)[0] == w[0]);
        }
        let i2 = i + eb.len();
        lemma_subrange_within(b, i, wlen as int, eb.len() as int, wlen as int);
        assert(w.subrange(eb.len() as int, wlen as int) =~= spec_escape(u2) + seq![0x22u8]);
        assert(b.subrange(i2, i2 + spec_escape(u2).len() + 1) =~= spec_escape(u2) + seq![0x22u8]);
        lemma_parse_str_of_escape(b, i2, u2);
        let x = u[0];
        if x == 0x22 {
            assert(b[i] == 0x5c && b[i + 1] == 0x22);
            assert(seq![b[i + 1]] + u2 =~= u);
        } else if x == 0x5c {
            assert(b[i] == 0x5c && b[i + 1] == 0x5c);
            assert(seq![b[i + 1]] + u2 =~= u);
        } else if x < 0x20 {
            assert(b[i] == 0x5c && b[i + 1] == 0x75 && b[i + 2] == 0x30 && b[i + 3] == 0x30);
            assert(eb[4] == hexdig(x / 16) && eb[5] == hexdig(x % 16));
            assert(b[i + 4] == w[4] && b[i + 5] == w[5]) by {
                assert(b.subrange(i, i + wlen as int)[4] == w[4]);
                assert(b.subrange(i, i + wlen as int)[5] == w[5]);
            }
            assert(w[4] == eb[4] && w[5] == eb[5]);
            assert(b[i + 4] == hexdig(x / 16) && b[i + 5] == hexdig(x % 16));
            assert(is_lhex(b[i + 4]) && is_lhex(b[i + 5]));
            assert(hexval(b[i + 4]) == x / 16 && hexval(b[i + 5]) == x % 16);
            assert(hexval(b[i + 4]) * 16 + hexval(b[i + 5]) == x) by {
                lemma_fundamental_div_mod(x as int, 16);
            }
            assert(seq![(hexval(b[i + 4]) * 16 + hexval(b[i + 5])) as u8] + u2 =~= u);
        } else {
            assert(b[i] == x);
            assert(b[i] != 0x22 && b[i] != 0x5c && !(b[i] < 0x20));
            assert(seq![b[i]] + u2 =~= u);
        }
    }
}

// ---------------------------------------------------------------------------
// String, hex-string, and null tokens
// ---------------------------------------------------------------------------

/// A JSON string token for text content.
pub open spec fn spec_jstring(s: Seq<char>) -> Seq<u8> {
    seq![0x22u8] + spec_escape(encode_utf8(s)) + seq![0x22u8]
}

pub open spec fn spec_parse_jstring(b: Seq<u8>, i: int) -> Option<(Seq<char>, int)> {
    if 0 <= i < b.len() && b[i] == 0x22 {
        match spec_parse_str_bytes(b, i + 1) {
            Some((u, j)) => if valid_utf8(u) {
                Some((decode_utf8(u), j))
            } else {
                None
            },
            None => None,
        }
    } else {
        None
    }
}

pub fn push_jstring(out: &mut Vec<u8>, s: &str)
    ensures
        final(out)@ =~= old(out)@ + spec_jstring(s@),
{
    out.push(0x22);
    push_escaped(out, s.as_bytes());
    out.push(0x22);
    assert(out@ =~= old(out)@ + spec_jstring(s@));
}

pub fn parse_jstring(b: &[u8], i: usize) -> (r: Option<(String, usize)>)
    ensures
        match r {
            Some((v, j)) => {
                &&& spec_parse_jstring(b@, i as int) == Some((v@, j as int))
                &&& i < j <= b@.len()
            },
            None => spec_parse_jstring(b@, i as int) is None,
        },
{
    if i >= b.len() || *slice_index_get(b, i) != 0x22 {
        return None;
    }
    match parse_str_bytes(b, i + 1) {
        Some((u, j)) => {
            match bytes_to_string(u.as_slice()) {
                Some(s) => {
                    proof {
                        encode_utf8_decode_utf8(s@);
                    }
                    Some((s, j))
                },
                None => None,
            }
        },
        None => None,
    }
}

/// Parsing at the position of an encoded string token yields the
/// source characters.
pub proof fn lemma_parse_jstring_of_enc(b: Seq<u8>, i: int, s: Seq<char>)
    requires
        0 <= i,
        i + spec_jstring(s).len() <= b.len(),
        b.subrange(i, i + spec_jstring(s).len()) == spec_jstring(s),
    ensures
        spec_parse_jstring(b, i) == Some((s, i + spec_jstring(s).len())),
{
    let u = encode_utf8(s);
    let e = spec_escape(u);
    lemma_escape_len(u);
    let w = spec_jstring(s);
    assert(b[i] == w[0]);
    lemma_subrange_within(b, i, w.len() as int, 1, w.len() as int);
    assert(w.subrange(1, w.len() as int) =~= e + seq![0x22u8]);
    assert(b.subrange(i + 1, i + 1 + e.len() + 1) =~= e + seq![0x22u8]);
    lemma_parse_str_of_escape(b, i + 1, u);
    encode_utf8_valid_utf8(s);
    encode_utf8_decode_utf8(s);
}

/// A JSON string token holding lowercase hex for byte content.
pub open spec fn spec_jhex(d: Seq<u8>) -> Seq<u8> {
    seq![0x22u8] + spec_hex(d) + seq![0x22u8]
}

pub open spec fn spec_parse_jhex(b: Seq<u8>, i: int) -> Option<(Seq<u8>, int)> {
    if 0 <= i < b.len() && b[i] == 0x22 {
        spec_parse_hex(b, i + 1)
    } else {
        None
    }
}

pub fn push_jhex(out: &mut Vec<u8>, d: &[u8])
    ensures
        final(out)@ =~= old(out)@ + spec_jhex(d@),
{
    out.push(0x22);
    push_hex(out, d);
    out.push(0x22);
    assert(out@ =~= old(out)@ + spec_jhex(d@));
}

pub fn parse_jhex(b: &[u8], i: usize) -> (r: Option<(Vec<u8>, usize)>)
    ensures
        match r {
            Some((v, j)) => {
                &&& spec_parse_jhex(b@, i as int) == Some((v@, j as int))
                &&& i < j <= b@.len()
            },
            None => spec_parse_jhex(b@, i as int) is None,
        },
{
    if i >= b.len() || *slice_index_get(b, i) != 0x22 {
        return None;
    }
    parse_hex(b, i + 1)
}

pub proof fn lemma_parse_jhex_of_enc(b: Seq<u8>, i: int, d: Seq<u8>)
    requires
        0 <= i,
        i + spec_jhex(d).len() <= b.len(),
        b.subrange(i, i + spec_jhex(d).len()) == spec_jhex(d),
    ensures
        spec_parse_jhex(b, i) == Some((d, i + spec_jhex(d).len())),
{
    lemma_hex_len(d);
    let w = spec_jhex(d);
    assert(b[i] == w[0]);
    lemma_subrange_within(b, i, w.len() as int, 1, w.len() as int);
    assert(w.subrange(1, w.len() as int) =~= spec_hex(d) + seq![0x22u8]);
    assert(b.subrange(i + 1, i + 1 + spec_hex(d).len() + 1) =~= spec_hex(d) + seq![0x22u8]);
    lemma_parse_hex_of_enc(b, i + 1, d);
}

/// The JSON `null` token.
pub open spec fn spec_jnull() -> Seq<u8> {
    seq![0x6eu8, 0x75u8, 0x6cu8, 0x6cu8]
}

/// True when position `i` starts the token `null`.
pub open spec fn spec_at_jnull(b: Seq<u8>, i: int) -> bool {
    0 <= i && i + 4 <= b.len() && b.subrange(i, i + 4) == spec_jnull()
}

pub fn push_jnull(out: &mut Vec<u8>)
    ensures
        final(out)@ =~= old(out)@ + spec_jnull(),
{
    out.push(0x6e);
    out.push(0x75);
    out.push(0x6c);
    out.push(0x6c);
    assert(out@ =~= old(out)@ + spec_jnull());
}

pub fn at_jnull(b: &[u8], i: usize) -> (r: bool)
    ensures
        r == spec_at_jnull(b@, i as int),
{
    if i <= b.len() && b.len() - i >= 4 {
        let r = *slice_index_get(b, i) == 0x6e && *slice_index_get(b, i + 1) == 0x75
            && *slice_index_get(b, i + 2) == 0x6c && *slice_index_get(b, i + 3) == 0x6c;
        proof {
            if r {
                assert(b@.subrange(i as int, i + 4) =~= spec_jnull());
            } else {
                assert(b@.subrange(i as int, i + 4) != spec_jnull()) by {
                    if b@.subrange(i as int, i + 4) == spec_jnull() {
                        assert(b@[i as int] == spec_jnull()[0]);
                        assert(b@[i + 1] == spec_jnull()[1]);
                        assert(b@[i + 2] == spec_jnull()[2]);
                        assert(b@[i + 3] == spec_jnull()[3]);
                    }
                }
            }
        }
        r
    } else {
        false
    }
}

// ---------------------------------------------------------------------------
// Fixed literal fragments (object keys and punctuation)
// ---------------------------------------------------------------------------

/// Expect the exact byte sequence `s` at position `i`.
pub open spec fn spec_expect(b: Seq<u8>, i: int, s: Seq<u8>) -> Option<int> {
    if 0 <= i && i + s.len() <= b.len() && b.subrange(i, i + s.len()) == s {
        Some(i + s.len())
    } else {
        None
    }
}

pub fn expect_lit(b: &[u8], i: usize, lit: &[u8]) -> (r: Option<usize>)
    ensures
        match r {
            Some(j) => {
                &&& spec_expect(b@, i as int, lit@) == Some(j as int)
                &&& i <= j <= b@.len()
            },
            None => spec_expect(b@, i as int, lit@) is None,
        },
{
    let m = lit.len();
    if i > b.len() || b.len() - i < m {
        return None;
    }
    let mut t: usize = 0;
    while t < m
        invariant
            0 <= t <= m,
            m == lit@.len(),
            i + m <= b@.len(),
            b@.len() <= usize::MAX,
            forall|k: int| 0 <= k < t ==> b@[i + k] == lit@[k],
        decreases m - t,
    {
        if *slice_index_get(b, i + t) != *slice_index_get(lit, t) {
            proof {
                assert(b@.subrange(i as int, i + lit@.len())[t as int] != lit@[t as int]);
            }
            return None;
        }
        t += 1;
    }
    proof {
        assert(b@.subrange(i as int, i + lit@.len()) =~= lit@);
    }
    Some(i + m)
}


// ---------------------------------------------------------------------------
// Arrays of strings
// ---------------------------------------------------------------------------

/// The comma-separated items of a JSON array of strings.
pub open spec fn spec_jstr_items(ss: Seq<Seq<char>>) -> Seq<u8>
    decreases ss.len(),
{
    if ss.len() == 0 {
        Seq::empty()
    } else if ss.len() == 1 {
        spec_jstring(ss[0])
    } else {
        spec_jstring(ss[0]) + seq![0x2cu8] + spec_jstr_items(ss.drop_first())
    }
}

pub open spec fn spec_jstr_array(ss: Seq<Seq<char>>) -> Seq<u8> {
    seq![0x5bu8] + spec_jstr_items(ss) + seq![0x5du8]
}

pub proof fn lemma_jstr_items_push(a: Seq<Seq<char>>, x: Seq<char>)
    ensures
        spec_jstr_items(a.push(x)) =~= if a.len() == 0 {
            spec_jstring(x)
        } else {
            spec_jstr_items(a) + seq![0x2cu8] + spec_jstring(x)
        },
    decreases a.len(),
{
    let p = a.push(x);
    if a.len() == 0 {
        assert(p.len() == 1);
        assert(p[0] == x);
    } else {
        assert(p.len() >= 2);
        assert(p[0] == a[0]);
        assert(p.drop_first() =~= a.drop_first().push(x));
        lemma_jstr_items_push(a.drop_first(), x);
        if a.len() == 1 {
            assert(spec_jstr_items(a) =~= spec_jstring(a[0]));
        }
    }
}

/// Parse string items up to and including the closing `]`.
pub open spec fn spec_parse_jstr_items(b: Seq<u8>, i: int) -> Option<(Seq<Seq<char>>, int)>
    decreases b.len() - i,
{
    match spec_parse_jstring(b, i) {
        Some((s, j)) => if i < j && j < b.len() {
            if b[j] == 0x2c {
                match spec_parse_jstr_items(b, j + 1) {
                    Some((ts, j2)) => Some((seq![s] + ts, j2)),
                    None => None,
                }
            } else if b[j] == 0x5d {
                Some((seq![s], j + 1))
            } else {
                None
            }
        } else {
            None
        },
        None => None,
    }
}

pub open spec fn spec_parse_jstr_array(b: Seq<u8>, i: int) -> Option<(Seq<Seq<char>>, int)> {
    if 0 <= i && i + 1 < b.len() && b[i] == 0x5b && b[i + 1] == 0x5d {
        Some((Seq::empty(), i + 2))
    } else if 0 <= i < b.len() && b[i] == 0x5b {
        spec_parse_jstr_items(b, i + 1)
    } else {
        None
    }
}

/// Bounds that `spec_parse_jstring` guarantees when it succeeds.
pub proof fn lemma_parse_jstring_bounds(b: Seq<u8>, i: int)
    ensures
        match spec_parse_jstring(b, i) {
            Some((s, j)) => i < j <= b.len(),
            None => true,
        },
{
    if 0 <= i < b.len() && b[i] == 0x22 {
        lemma_parse_str_bytes_bounds(b, i + 1);
    }
}

pub proof fn lemma_parse_str_bytes_bounds(b: Seq<u8>, i: int)
    ensures
        match spec_parse_str_bytes(b, i) {
            Some((u, j)) => i < j <= b.len(),
            None => true,
        },
    decreases b.len() - i,
{
    if 0 <= i < b.len() {
        if b[i] == 0x22 {
        } else if b[i] == 0x5c {
            if i + 2 <= b.len() {
                lemma_parse_str_bytes_bounds(b, i + 2);
            }
            if i + 6 <= b.len() {
                lemma_parse_str_bytes_bounds(b, i + 6);
            }
        } else {
            lemma_parse_str_bytes_bounds(b, i + 1);
        }
    }
}

pub proof fn lemma_parse_jstr_items_of_enc(b: Seq<u8>, i: int, ss: Seq<Seq<char>>)
    requires
        ss.len() >= 1,
        0 <= i,
        i + spec_jstr_items(ss).len() + 1 <= b.len(),
        b.subrange(i, i + spec_jstr_items(ss).len() + 1) == spec_jstr_items(ss) + seq![0x5du8],
    ensures
        spec_parse_jstr_items(b, i) == Some((ss, i + spec_jstr_items(ss).len() + 1)),
    decreases ss.len(),
{
    let tok = spec_jstring(ss[0]);
    if ss.len() == 1 {
        lemma_concat_split(b, i, tok, seq![0x5du8]);
        lemma_parse_jstring_of_enc(b, i, ss[0]);
        let j = i + tok.len();
        assert(b[j] == b.subrange(j, j + 1)[0]);
        assert(b[j] == 0x5d);
        assert(seq![ss[0]] =~= ss);
    } else {
        let rest = spec_jstr_items(ss.drop_first());
        assert(spec_jstr_items(ss) == tok + seq![0x2cu8] + rest);
        let tail = seq![0x2cu8] + rest + seq![0x5du8];
        assert(spec_jstr_items(ss) + seq![0x5du8] =~= tok + tail);
        lemma_concat_split(b, i, tok, tail);
        lemma_parse_jstring_of_enc(b, i, ss[0]);
        let j = i + tok.len();
        assert(b[j] == b.subrange(j, j + tail.len())[0]);
        assert(b[j] == 0x2c);
        lemma_subrange_within(b, j, tail.len() as int, 1, tail.len() as int);
        assert((rest + seq![0x5du8]).len() == rest.len() + 1);
        assert(tail.subrange(1, tail.len() as int) =~= rest + seq![0x5du8]);
        assert(b.subrange(j + 1, j + 1 + rest.len() + 1) =~= rest + seq![0x5du8]);
        lemma_parse_jstr_items_of_enc(b, j + 1, ss.drop_first());
        assert(seq![ss[0]] + ss.drop_first() =~= ss);
    }
}

pub proof fn lemma_parse_jstr_array_of_enc(b: Seq<u8>, i: int, ss: Seq<Seq<char>>)
    requires
        0 <= i,
        i + spec_jstr_array(ss).len() <= b.len(),
        b.subrange(i, i + spec_jstr_array(ss).len()) == spec_jstr_array(ss),
    ensures
        spec_parse_jstr_array(b, i) == Some((ss, i + spec_jstr_array(ss).len())),
{
    let w = spec_jstr_array(ss);
    assert(b[i] == w[0]);
    if ss.len() == 0 {
        assert(w =~= seq![0x5bu8, 0x5du8]);
        assert(b[i + 1] == w[1]);
    } else {
        assert(b[i + 1] == w[1]);
        assert(w[1] == spec_jstr_items(ss)[0]);
        assert(spec_jstr_items(ss)[0] == spec_jstring(ss[0])[0]);
        assert(b[i + 1] == 0x22);
        lemma_subrange_within(b, i, w.len() as int, 1, w.len() as int);
        assert(w.subrange(1, w.len() as int) =~= spec_jstr_items(ss) + seq![0x5du8]);
        assert(b.subrange(i + 1, i + 1 + spec_jstr_items(ss).len() + 1) =~= spec_jstr_items(ss)
            + seq![0x5du8]);
        lemma_parse_jstr_items_of_enc(b, i + 1, ss);
    }
}

pub fn push_jstr_array(out: &mut Vec<u8>, ss: &Vec<String>)
    ensures
        final(out)@ =~= old(out)@ + spec_jstr_array(ss.deep_view()),
{
    out.push(0x5b);
    let n = ss.len();
    let mut t: usize = 0;
    while t < n
        invariant
            0 <= t <= n,
            n == ss@.len(),
            out@ =~= old(out)@ + seq![0x5bu8] + spec_jstr_items(ss.deep_view().take(t as int)),
        decreases n - t,
    {
        if t > 0 {
            out.push(0x2c);
        }
        push_jstring(out, ss[t].as_str());
        proof {
            let dv = ss.deep_view();
            assert(dv.take(t + 1) =~= dv.take(t as int).push(dv[t as int]));
            lemma_jstr_items_push(dv.take(t as int), dv[t as int]);
            assert(dv[t as int] == ss@[t as int]@);
            assert(out@ =~= old(out)@ + seq![0x5bu8] + spec_jstr_items(dv.take(t + 1)));
        }
        t += 1;
    }
    out.push(0x5d);
    proof {
        let dv = ss.deep_view();
        assert(dv.take(n as int) =~= dv);
        assert(out@ =~= old(out)@ + spec_jstr_array(dv));
    }
}

pub fn parse_jstr_array(b: &[u8], i: usize) -> (r: Option<(Vec<String>, usize)>)
    ensures
        match r {
            Some((v, j)) => {
                &&& spec_parse_jstr_array(b@, i as int) == Some((v.deep_view(), j as int))
                &&& i < j <= b@.len()
            },
            None => spec_parse_jstr_array(b@, i as int) is None,
        },
{
    let n = b.len();
    if i >= n || *slice_index_get(b, i) != 0x5b {
        return None;
    }
    if i + 1 < n && *slice_index_get(b, i + 1) == 0x5d {
        let empty: Vec<String> = Vec::new();
        proof {
            assert(empty.deep_view() =~= Seq::<Seq<char>>::empty());
        }
        return Some((empty, i + 2));
    }
    let mut acc: Vec<String> = Vec::new();
    let mut cur: usize = i + 1;
    proof {
        assert(acc.deep_view() =~= Seq::<Seq<char>>::empty());
        assert forall|ts: Seq<Seq<char>>, j2: int|
            spec_parse_jstr_items(b@, cur as int) == Some((ts, j2)) implies spec_parse_jstr_array(
            b@,
            i as int,
        ) == Some((acc.deep_view() + ts, j2)) by {
            assert(acc.deep_view() + ts =~= ts);
        }
    }
    loop
        invariant
            i < cur <= n <= usize::MAX,
            n == b@.len(),
            forall|ts: Seq<Seq<char>>, j2: int|
                spec_parse_jstr_items(b@, cur as int) == Some((ts, j2))
                    ==> spec_parse_jstr_array(b@, i as int) == Some((acc.deep_view() + ts, j2)),
            spec_parse_jstr_items(b@, cur as int) is None ==> spec_parse_jstr_array(b@, i as int)
                is None,
        decreases n - cur,
    {
        let (s, j) = match parse_jstring(b, cur) {
            Some(x) => x,
            None => {
                return None;
            },
        };
        if j >= n {
            return None;
        }
        let sep = *slice_index_get(b, j);
        let ghost pre = acc.deep_view();
        if sep == 0x5d {
            proof {
                assert(spec_parse_jstr_items(b@, cur as int) == Some((seq![s@], j + 1)));
                assert(pre + seq![s@] =~= pre.push(s@));
            }
            acc.push(s);
            proof {
                assert(acc.deep_view() =~= pre.push(s@));
            }
            return Some((acc, j + 1));
        }
        if sep != 0x2c {
            return None;
        }
        proof {
            assert forall|ts: Seq<Seq<char>>, j2: int|
                spec_parse_jstr_items(b@, j + 1) == Some((ts, j2)) implies spec_parse_jstr_array(
                b@,
                i as int,
            ) == Some((pre.push(s@) + ts, j2)) by {
                assert(spec_parse_jstr_items(b@, cur as int) == Some((seq![s@] + ts, j2)));
                assert(pre + (seq![s@] + ts) =~= pre.push(s@) + ts);
            }
        }
        acc.push(s);
        cur = j + 1;
        proof {
            assert(acc.deep_view() =~= pre.push(s@));
        }
    }
}

// ---------------------------------------------------------------------------
// The emitted JSON is valid UTF-8
// ---------------------------------------------------------------------------

/// A sequence of bytes below `0x80` is valid UTF-8.
pub proof fn lemma_ascii_valid_utf8(s: Seq<u8>)
    requires
        forall|i: int| 0 <= i < s.len() ==> #[trigger] s[i] < 0x80,
    ensures
        valid_utf8(s),
    decreases s.len(),
{
    if s.len() > 0 {
        assert(vstd::utf8::is_leading_byte_width_1(s[0]));
        assert(vstd::utf8::length_of_first_scalar(s) == 1);
        let rest = vstd::utf8::pop_first_scalar(s);
        assert forall|i: int| 0 <= i < rest.len() implies #[trigger] rest[i] < 0x80 by {
            assert(rest[i] == s[i + 1]);
        }
        lemma_ascii_valid_utf8(rest);
    }
}

/// Escaping leaves bytes at or above `0x80` untouched.
proof fn lemma_escape_high_passthrough(s: Seq<u8>)
    requires
        forall|i: int| 0 <= i < s.len() ==> #[trigger] s[i] >= 0x80,
    ensures
        spec_escape(s) == s,
    decreases s.len(),
{
    if s.len() > 0 {
        assert(s[0] >= 0x80);
        assert(escape_byte(s[0]) =~= seq![s[0]]);
        let rest = s.drop_first();
        assert forall|i: int| 0 <= i < rest.len() implies #[trigger] rest[i] >= 0x80 by {
            assert(rest[i] == s[i + 1]);
        }
        lemma_escape_high_passthrough(rest);
        assert(spec_escape(s) =~= seq![s[0]] + rest);
        assert(seq![s[0]] + rest =~= s);
    }
}

/// Escaping valid UTF-8 yields valid UTF-8: only ASCII scalars are
/// rewritten, and they are rewritten to ASCII.
pub proof fn lemma_escape_valid_utf8(u: Seq<u8>)
    requires
        valid_utf8(u),
    ensures
        valid_utf8(spec_escape(u)),
    decreases u.len(),
{
    broadcast use vstd::utf8::valid_utf8_concat;

    if u.len() == 0 {
        assert(spec_escape(u) =~= Seq::<u8>::empty());
    } else {
        let k = vstd::utf8::length_of_first_scalar(u);
        let first = vstd::utf8::take_first_scalar(u);
        let rest = vstd::utf8::pop_first_scalar(u);
        assert(1 <= k <= 4);
        assert(u =~= first + rest);
        lemma_escape_app(first, rest);
        assert(spec_escape(u) =~= spec_escape(first) + spec_escape(rest));
        lemma_escape_valid_utf8(rest);
        if k == 1 {
            assert(vstd::utf8::is_leading_byte_width_1(u[0]));
            assert(first =~= seq![u[0]]);
            assert(first.drop_first() =~= Seq::<u8>::empty());
            assert(spec_escape(first) =~= escape_byte(u[0]));
            assert forall|i: int|
                0 <= i < escape_byte(u[0]).len() implies #[trigger] escape_byte(u[0])[i]
                < 0x80 by {
                let x = u[0];
                if x == 0x22 || x == 0x5c {
                } else if x < 0x20 {
                    assert(hexdig(x / 16) < 0x80 && hexdig(x % 16) < 0x80);
                }
            }
            lemma_ascii_valid_utf8(escape_byte(u[0]));
        } else {
            assert forall|i: int| 0 <= i < first.len() implies #[trigger] first[i] >= 0x80 by {
                assert(first[i] == u[i]);
                if i == 0 {
                    assert(!vstd::utf8::is_leading_byte_width_1(u[0]));
                } else {
                    assert(vstd::utf8::is_continuation_byte(u[i]));
                }
            }
            lemma_escape_high_passthrough(first);
            assert(valid_utf8(first)) by {
                assert(first.len() == k);
                assert(vstd::utf8::valid_first_scalar(u));
                assert(first[0] == u[0]);
                if k >= 2 {
                    assert(first[1] == u[1]);
                }
                if k >= 3 {
                    assert(first[2] == u[2]);
                }
                if k == 4 {
                    assert(first[3] == u[3]);
                }
                assert(vstd::utf8::valid_leading_and_continuation_bytes_first_codepoint(first));
                assert(vstd::utf8::length_of_first_codepoint(first) == k);
                assert(vstd::utf8::decode_first_codepoint(first)
                    == vstd::utf8::decode_first_codepoint(u));
                assert(vstd::utf8::valid_first_scalar(first));
                assert(vstd::utf8::pop_first_scalar(first) =~= Seq::<u8>::empty());
                assert(valid_utf8(vstd::utf8::pop_first_scalar(first)));
            }
        }
        assert(valid_utf8(spec_escape(first)));
        assert(valid_utf8(spec_escape(first) + spec_escape(rest)));
    }
}

/// A whole string token is valid UTF-8.
pub proof fn lemma_jstring_valid_utf8(s: Seq<char>)
    ensures
        valid_utf8(spec_jstring(s)),
{
    broadcast use vstd::utf8::valid_utf8_concat;

    encode_utf8_valid_utf8(s);
    lemma_escape_valid_utf8(encode_utf8(s));
    lemma_ascii_valid_utf8(seq![0x22u8]);
    vstd::utf8::valid_utf8_concat(seq![0x22u8], spec_escape(encode_utf8(s)));
    vstd::utf8::valid_utf8_concat(seq![0x22u8] + spec_escape(encode_utf8(s)), seq![0x22u8]);
    assert(valid_utf8(seq![0x22u8] + spec_escape(encode_utf8(s)) + seq![0x22u8]));
}

/// A hex token is ASCII, hence valid UTF-8.
pub proof fn lemma_jhex_valid_utf8(d: Seq<u8>)
    ensures
        valid_utf8(spec_jhex(d)),
    decreases d.len(),
{
    lemma_hex_ascii(d);
    assert forall|i: int| 0 <= i < spec_jhex(d).len() implies #[trigger] spec_jhex(d)[i]
        < 0x80 by {
        if 0 < i < spec_jhex(d).len() - 1 {
            assert(spec_jhex(d)[i] == spec_hex(d)[i - 1]);
        }
    }
    lemma_ascii_valid_utf8(spec_jhex(d));
}

proof fn lemma_hex_ascii(d: Seq<u8>)
    ensures
        forall|i: int| 0 <= i < spec_hex(d).len() ==> #[trigger] spec_hex(d)[i] < 0x80,
    decreases d.len(),
{
    lemma_hex_len(d);
    if d.len() > 0 {
        let rest = d.drop_first();
        lemma_hex_ascii(rest);
        lemma_hex_len(rest);
        assert forall|i: int| 0 <= i < spec_hex(d).len() implies #[trigger] spec_hex(d)[i]
            < 0x80 by {
            if i == 0 {
                assert(spec_hex(d)[0] == hexdig(d[0] / 16));
            } else if i == 1 {
                assert(spec_hex(d)[1] == hexdig(d[0] % 16));
            } else {
                assert(spec_hex(d)[i] == spec_hex(rest)[i - 2]);
            }
        }
    }
}

/// Decimal digit tokens are ASCII, hence valid UTF-8.
pub proof fn lemma_dec_valid_utf8(n: nat)
    ensures
        valid_utf8(dec_digits(n)),
{
    lemma_dec_digits_wf(n);
    assert forall|i: int| 0 <= i < dec_digits(n).len() implies #[trigger] dec_digits(n)[i]
        < 0x80 by {
        assert(is_digit(dec_digits(n)[i]));
    }
    lemma_ascii_valid_utf8(dec_digits(n));
}

/// The `null` token is valid UTF-8.
pub proof fn lemma_jnull_valid_utf8()
    ensures
        valid_utf8(spec_jnull()),
{
    lemma_ascii_valid_utf8(spec_jnull());
}

/// Left-associated concatenation of valid UTF-8 pieces is valid.
pub proof fn lemma_valid_concat8(
    s0: Seq<u8>,
    s1: Seq<u8>,
    s2: Seq<u8>,
    s3: Seq<u8>,
    s4: Seq<u8>,
    s5: Seq<u8>,
    s6: Seq<u8>,
    s7: Seq<u8>,
)
    requires
        valid_utf8(s0),
        valid_utf8(s1),
        valid_utf8(s2),
        valid_utf8(s3),
        valid_utf8(s4),
        valid_utf8(s5),
        valid_utf8(s6),
        valid_utf8(s7),
    ensures
        valid_utf8(s0 + s1 + s2 + s3 + s4 + s5 + s6 + s7),
        valid_utf8(s0 + s1 + s2 + s3 + s4 + s5 + s6),
        valid_utf8(s0 + s1 + s2 + s3 + s4 + s5),
        valid_utf8(s0 + s1 + s2 + s3 + s4),
        valid_utf8(s0 + s1 + s2 + s3),
        valid_utf8(s0 + s1 + s2),
        valid_utf8(s0 + s1),
{
    vstd::utf8::valid_utf8_concat(s0, s1);
    vstd::utf8::valid_utf8_concat(s0 + s1, s2);
    vstd::utf8::valid_utf8_concat(s0 + s1 + s2, s3);
    vstd::utf8::valid_utf8_concat(s0 + s1 + s2 + s3, s4);
    vstd::utf8::valid_utf8_concat(s0 + s1 + s2 + s3 + s4, s5);
    vstd::utf8::valid_utf8_concat(s0 + s1 + s2 + s3 + s4 + s5, s6);
    vstd::utf8::valid_utf8_concat(s0 + s1 + s2 + s3 + s4 + s5 + s6, s7);
}

/// The empty byte sequence is valid UTF-8.
pub proof fn lemma_empty_valid_utf8()
    ensures
        valid_utf8(Seq::<u8>::empty()),
{
}

/// A JSON array of string tokens is valid UTF-8.
pub proof fn lemma_jstr_array_valid_utf8(ss: Seq<Seq<char>>)
    ensures
        valid_utf8(spec_jstr_array(ss)),
{
    lemma_jstr_items_valid_utf8(ss);
    lemma_ascii_valid_utf8(seq![0x5bu8]);
    lemma_ascii_valid_utf8(seq![0x5du8]);
    vstd::utf8::valid_utf8_concat(seq![0x5bu8], spec_jstr_items(ss));
    vstd::utf8::valid_utf8_concat(seq![0x5bu8] + spec_jstr_items(ss), seq![0x5du8]);
}

proof fn lemma_jstr_items_valid_utf8(ss: Seq<Seq<char>>)
    ensures
        valid_utf8(spec_jstr_items(ss)),
    decreases ss.len(),
{
    if ss.len() == 0 {
        assert(spec_jstr_items(ss) =~= Seq::<u8>::empty());
    } else if ss.len() == 1 {
        lemma_jstring_valid_utf8(ss[0]);
    } else {
        lemma_jstring_valid_utf8(ss[0]);
        lemma_jstr_items_valid_utf8(ss.drop_first());
        lemma_ascii_valid_utf8(seq![0x2cu8]);
        vstd::utf8::valid_utf8_concat(spec_jstring(ss[0]), seq![0x2cu8]);
        vstd::utf8::valid_utf8_concat(
            spec_jstring(ss[0]) + seq![0x2cu8],
            spec_jstr_items(ss.drop_first()),
        );
    }
}

} // verus!
