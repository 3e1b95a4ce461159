//! Canonical CBOR primitives.
//!
//! The wire form of every token is built from five CBOR item kinds:
//! unsigned integers (major type 0), byte strings (major 2), text
//! strings (major 3), definite-length arrays (major 4), and the `null`
//! simple value.  A record is encoded as a definite-length array of
//! its fields in declaration order; an optional field is `null` or the
//! field's encoding.
//!
//! Encoding is canonical: every head uses the shortest form that fits
//! its value, and the parsers reject non-minimal heads, indefinite
//! lengths, and every other item kind.  This makes the encoding of a
//! value unique and the parsers exact inverses of the encoders, which
//! the `lemma_parse_*_of_enc` lemmas state.

use vstd::prelude::*;
use vstd::arithmetic::div_mod::{lemma_div_denominator, lemma_fundamental_div_mod};
use vstd::slice::{slice_index_get, slice_subrange, slice_to_vec};
use vstd::utf8::{decode_utf8, encode_utf8, encode_utf8_decode_utf8, encode_utf8_valid_utf8,
    valid_utf8};
use crate::text::bytes_to_string;

verus! {

/// `256^k`.
pub open spec fn pow256(k: nat) -> nat
    decreases k,
{
    if k == 0 {
        1
    } else {
        256 * pow256((k - 1) as nat)
    }
}

pub proof fn lemma_pow256_values()
    ensures
        pow256(0) == 1,
        pow256(1) == 256,
        pow256(2) == 65536,
        pow256(4) == 4294967296,
        pow256(8) == 0x1_0000_0000_0000_0000,
{
    assert(pow256(1) == 256 * pow256(0));
    assert(pow256(2) == 256 * pow256(1));
    assert(pow256(3) == 256 * pow256(2));
    assert(pow256(4) == 256 * pow256(3));
    assert(pow256(5) == 256 * pow256(4));
    assert(pow256(6) == 256 * pow256(5));
    assert(pow256(7) == 256 * pow256(6));
    assert(pow256(8) == 256 * pow256(7));
}

/// The `k`-byte big-endian representation of `n` (mod `256^k`).
pub open spec fn be_bytes(n: nat, k: nat) -> Seq<u8>
    decreases k,
{
    if k == 0 {
        Seq::empty()
    } else {
        be_bytes(n / 256, (k - 1) as nat).push((n % 256) as u8)
    }
}

/// The value of a big-endian byte sequence.
pub open spec fn be_val(s: Seq<u8>) -> nat
    decreases s.len(),
{
    if s.len() == 0 {
        0
    } else {
        be_val(s.drop_last()) * 256 + s.last() as nat
    }
}

pub proof fn lemma_be_bytes_len(n: nat, k: nat)
    ensures
        be_bytes(n, k).len() == k,
    decreases k,
{
    if k > 0 {
        lemma_be_bytes_len(n / 256, (k - 1) as nat);
    }
}

pub proof fn lemma_be_val_of_bytes(n: nat, k: nat)
    requires
        n < pow256(k),
    ensures
        be_val(be_bytes(n, k)) == n,
    decreases k,
{
    if k > 0 {
        lemma_be_bytes_len(n / 256, (k - 1) as nat);
        assert(n / 256 < pow256((k - 1) as nat)) by {
            lemma_div_denominator(n as int, 256, pow256((k - 1) as nat) as int);
        }
        lemma_be_val_of_bytes(n / 256, (k - 1) as nat);
        let b = be_bytes(n, k);
        assert(b.drop_last() =~= be_bytes(n / 256, (k - 1) as nat));
        assert(b.last() == (n % 256) as u8);
        lemma_fundamental_div_mod(n as int, 256);
    }
}

/// Canonical CBOR head for major type `major` and value/length `n`.
pub open spec fn spec_head(major: u8, n: nat) -> Seq<u8>
    recommends
        major < 8,
        n < pow256(8),
{
    if n < 24 {
        seq![(major * 32 + n) as u8]
    } else if n < 256 {
        seq![(major * 32 + 24) as u8] + be_bytes(n, 1)
    } else if n < 65536 {
        seq![(major * 32 + 25) as u8] + be_bytes(n, 2)
    } else if n < 4294967296 {
        seq![(major * 32 + 26) as u8] + be_bytes(n, 4)
    } else {
        seq![(major * 32 + 27) as u8] + be_bytes(n, 8)
    }
}

pub proof fn lemma_head_len(major: u8, n: nat)
    ensures
        1 <= spec_head(major, n).len() <= 9,
        n < 24 ==> spec_head(major, n).len() == 1,
        n < 256 ==> spec_head(major, n).len() <= 2,
    decreases n,
{
    lemma_be_bytes_len(n, 1);
    lemma_be_bytes_len(n, 2);
    lemma_be_bytes_len(n, 4);
    lemma_be_bytes_len(n, 8);
}

/// The first byte of a head is below `0xf6`, so no encoded item of
/// major type 0 to 4 can be confused with the `null` byte.
pub proof fn lemma_head_first_byte(major: u8, n: nat)
    requires
        major < 8,
    ensures
        spec_head(major, n).len() >= 1,
        spec_head(major, n)[0] == (if n < 24 {
            (major * 32 + n) as u8
        } else if n < 256 {
            (major * 32 + 24) as u8
        } else if n < 65536 {
            (major * 32 + 25) as u8
        } else if n < 4294967296 {
            (major * 32 + 26) as u8
        } else {
            (major * 32 + 27) as u8
        }),
        major < 5 ==> spec_head(major, n)[0] < 0xf6,
{
    lemma_head_len(major, n);
}

/// Minimum value that the additional-information byte `ai` may carry
/// in a canonical head.
pub open spec fn min_for_ai(ai: u8) -> nat {
    if ai == 24 {
        24
    } else if ai == 25 {
        256
    } else if ai == 26 {
        65536
    } else {
        4294967296
    }
}

/// Parse a canonical head at index `i`: `(major, value, next index)`.
pub open spec fn spec_parse_head(b: Seq<u8>, i: int) -> Option<(u8, nat, int)> {
    if 0 <= i < b.len() {
        let ib = b[i];
        let major = ib / 32;
        let ai = ib % 32;
        if ai < 24 {
            Some((major, ai as nat, i + 1))
        } else if ai <= 27 {
            let k: int = if ai == 24 {
                1
            } else if ai == 25 {
                2
            } else if ai == 26 {
                4
            } else {
                8
            };
            if i + 1 + k <= b.len() {
                let v = be_val(b.subrange(i + 1, i + 1 + k));
                if v >= min_for_ai(ai) {
                    Some((major, v, i + 1 + k))
                } else {
                    None
                }
            } else {
                None
            }
        } else {
            None
        }
    } else {
        None
    }
}

/// A subrange within a window equals the corresponding subrange of the
/// window's content.
pub proof fn lemma_subrange_within(b: Seq<u8>, i: int, len: int, lo: int, hi: int)
    requires
        0 <= i,
        i + len <= b.len(),
        0 <= lo <= hi <= len,
    ensures
        b.subrange(i + lo, i + hi) =~= b.subrange(i, i + len).subrange(lo, hi),
{
}

/// Parsing at the position of a canonically encoded head yields
/// exactly that head's major type and value.
pub proof fn lemma_parse_head_of_enc(b: Seq<u8>, i: int, major: u8, n: nat)
    requires
        major < 8,
        n < pow256(8),
        0 <= i,
        i + spec_head(major, n).len() <= b.len(),
        b.subrange(i, i + spec_head(major, n).len()) == spec_head(major, n),
    ensures
        spec_parse_head(b, i) == Some((major, n, i + spec_head(major, n).len())),
{
    lemma_pow256_values();
    lemma_head_len(major, n);
    let h = spec_head(major, n);
    assert(b[i] == h[0]);
    if n < 24 {
        assert(h[0] == (major * 32 + n) as u8);
        assert((major * 32 + n) as u8 / 32 == major && (major * 32 + n) as u8 % 32 == n) by (nonlinear_arith)
            requires
                major < 8,
                n < 24,
        ;
    } else {
        let (ai, k): (u8, int) = if n < 256 {
            (24u8, 1int)
        } else if n < 65536 {
            (25u8, 2int)
        } else if n < 4294967296 {
            (26u8, 4int)
        } else {
            (27u8, 8int)
        };
        lemma_be_bytes_len(n, k as nat);
        assert(h =~= seq![(major * 32 + ai) as u8] + be_bytes(n, k as nat));
        assert(h[0] == (major * 32 + ai) as u8);
        assert((major * 32 + ai) as u8 / 32 == major && (major * 32 + ai) as u8 % 32 == ai) by (nonlinear_arith)
            requires
                major < 8,
                24 <= ai <= 27,
        ;
        lemma_subrange_within(b, i, 1 + k, 1, 1 + k);
        assert(h.subrange(1, 1 + k) =~= be_bytes(n, k as nat));
        assert(b.subrange(i + 1, i + 1 + k) =~= be_bytes(n, k as nat));
        if n < 256 {
            assert(n < pow256(1));
        } else if n < 65536 {
            assert(n < pow256(2));
        } else if n < 4294967296 {
            assert(n < pow256(4));
        }
        lemma_be_val_of_bytes(n, k as nat);
        assert(be_val(b.subrange(i + 1, i + 1 + k)) == n);
        assert(n >= min_for_ai(ai));
    }
}

/// Exec mirror of `spec_parse_head`.
pub fn parse_head(b: &[u8], i: usize) -> (r: Option<(u8, u64, usize)>)
    ensures
        match r {
            Some((major, v, j)) => {
                &&& spec_parse_head(b@, i as int) == Some((major, v as nat, j as int))
                &&& i < j <= b@.len()
                &&& major < 8
            },
            None => spec_parse_head(b@, i as int) is None,
        },
{
    proof {
        lemma_pow256_values();
    }
    if i >= b.len() {
        return None;
    }
    let ib = *slice_index_get(b, i);
    let major = ib / 32;
    let ai = ib % 32;
    if ai < 24 {
        Some((major, ai as u64, i + 1))
    } else if ai <= 27 {
        let k: usize = if ai == 24 {
            1
        } else if ai == 25 {
            2
        } else if ai == 26 {
            4
        } else {
            8
        };
        if b.len() - (i + 1) < k {
            return None;
        }
        let mut v: u64 = 0;
        let mut t: usize = 0;
        while t < k
            invariant
                0 <= t <= k <= 8,
                i + 1 + k <= b@.len(),
                b@.len() <= usize::MAX,
                v as nat == be_val(b@.subrange(i + 1, i + 1 + t)),
                (v as nat) < pow256(t as nat),
            decreases k - t,
        {
            let byte = *slice_index_get(b, i + 1 + t);
            proof {
                lemma_pow256_values();
                assert(pow256(t as nat) <= pow256(7)) by {
                    lemma_pow256_mono(t as nat, 7);
                }
                let s0 = b@.subrange(i + 1, i + 1 + t);
                let s1 = b@.subrange(i + 1, i + 1 + (t + 1));
                assert(s1.drop_last() =~= s0);
                assert(s1.last() == byte);
                assert(be_val(s1) == be_val(s0) * 256 + byte);
            }
            v = v * 256 + (byte as u64);
            t += 1;
        }
        let min: u64 = if ai == 24 {
            24
        } else if ai == 25 {
            256
        } else if ai == 26 {
            65536
        } else {
            4294967296
        };
        if v < min {
            None
        } else {
            Some((major, v, i + 1 + k))
        }
    } else {
        None
    }
}

pub proof fn lemma_pow256_mono(a: nat, c: nat)
    requires
        a <= c,
    ensures
        pow256(a) <= pow256(c),
    decreases c,
{
    if a < c {
        lemma_pow256_mono(a, (c - 1) as nat);
        assert(pow256(c) == 256 * pow256((c - 1) as nat));
    }
}

/// Push a canonical head onto `out`.
fn push_be(out: &mut Vec<u8>, n: u64, k: usize)
    ensures
        final(out)@ =~= old(out)@ + be_bytes(n as nat, k as nat),
    decreases k,
{
    if k > 0 {
        push_be(out, n / 256, k - 1);
        out.push((n % 256) as u8);
        assert(out@ =~= old(out)@ + be_bytes(n as nat, k as nat));
    } else {
        assert(out@ =~= old(out)@ + be_bytes(n as nat, 0));
    }
}

pub fn push_head(out: &mut Vec<u8>, major: u8, n: u64)
    requires
        major < 8,
    ensures
        final(out)@ =~= old(out)@ + spec_head(major, n as nat),
{
    proof {
        lemma_pow256_values();
    }
    let first: u8 = major * 32;
    if n < 24 {
        out.push(first + (n as u8));
        assert(out@ =~= old(out)@ + spec_head(major, n as nat));
    } else {
        let (ai, k): (u8, usize) = if n < 256 {
            (24, 1)
        } else if n < 65536 {
            (25, 2)
        } else if n < 4294967296 {
            (26, 4)
        } else {
            (27, 8)
        };
        out.push(first + ai);
        push_be(out, n, k);
        assert(out@ =~= old(out)@ + spec_head(major, n as nat));
    }
}

// ---------------------------------------------------------------------------
// Unsigned integers (major type 0)
// ---------------------------------------------------------------------------

pub open spec fn spec_enc_uint(n: nat) -> Seq<u8> {
    spec_head(0, n)
}

pub open spec fn spec_parse_uint(b: Seq<u8>, i: int) -> Option<(nat, int)> {
    match spec_parse_head(b, i) {
        Some((major, v, j)) => if major == 0 {
            Some((v, j))
        } else {
            None
        },
        None => None,
    }
}

pub proof fn lemma_parse_uint_of_enc(b: Seq<u8>, i: int, n: nat)
    requires
        n < pow256(8),
        0 <= i,
        i + spec_enc_uint(n).len() <= b.len(),
        b.subrange(i, i + spec_enc_uint(n).len()) == spec_enc_uint(n),
    ensures
        spec_parse_uint(b, i) == Some((n, i + spec_enc_uint(n).len())),
{
    lemma_parse_head_of_enc(b, i, 0, n);
}

pub fn push_uint(out: &mut Vec<u8>, n: u64)
    ensures
        final(out)@ =~= old(out)@ + spec_enc_uint(n as nat),
{
    push_head(out, 0, n);
}

pub fn parse_uint(b: &[u8], i: usize) -> (r: Option<(u64, usize)>)
    ensures
        match r {
            Some((v, j)) => {
                &&& spec_parse_uint(b@, i as int) == Some((v as nat, j as int))
                &&& i < j <= b@.len()
            },
            None => spec_parse_uint(b@, i as int) is None,
        },
{
    match parse_head(b, i) {
        Some((major, v, j)) => if major == 0 {
            Some((v, j))
        } else {
            None
        },
        None => None,
    }
}

// ---------------------------------------------------------------------------
// Byte strings (major type 2)
// ---------------------------------------------------------------------------

pub open spec fn spec_enc_bytes(d: Seq<u8>) -> Seq<u8> {
    spec_head(2, d.len()) + d
}

pub open spec fn spec_parse_bytes(b: Seq<u8>, i: int) -> Option<(Seq<u8>, int)> {
    match spec_parse_head(b, i) {
        Some((major, v, j)) => if major == 2 && j + v <= b.len() {
            Some((b.subrange(j, j + v), j + v as int))
        } else {
            None
        },
        None => None,
    }
}

pub proof fn lemma_parse_bytes_of_enc(b: Seq<u8>, i: int, d: Seq<u8>)
    requires
        d.len() < pow256(8),
        0 <= i,
        i + spec_enc_bytes(d).len() <= b.len(),
        b.subrange(i, i + spec_enc_bytes(d).len()) == spec_enc_bytes(d),
    ensures
        spec_parse_bytes(b, i) == Some((d, i + spec_enc_bytes(d).len())),
{
    let h = spec_head(2, d.len());
    lemma_head_len(2, d.len());
    lemma_subrange_within(b, i, (h.len() + d.len()) as int, 0, h.len() as int);
    assert(spec_enc_bytes(d).subrange(0, h.len() as int) =~= h);
    lemma_parse_head_of_enc(b, i, 2, d.len());
    lemma_subrange_within(b, i, (h.len() + d.len()) as int, h.len() as int, (h.len() + d.len()) as int);
    assert(spec_enc_bytes(d).subrange(h.len() as int, (h.len() + d.len()) as int) =~= d);
}

pub fn push_bytes(out: &mut Vec<u8>, d: &[u8])
    ensures
        final(out)@ =~= old(out)@ + spec_enc_bytes(d@),
{
    push_head(out, 2, d.len() as u64);
    out.extend_from_slice(d);
    assert(out@ =~= old(out)@ + spec_enc_bytes(d@));
}

pub fn parse_bytes(b: &[u8], i: usize) -> (r: Option<(Vec<u8>, usize)>)
    ensures
        match r {
            Some((v, j)) => {
                &&& spec_parse_bytes(b@, i as int) == Some((v@, j as int))
                &&& i < j <= b@.len()
            },
            None => spec_parse_bytes(b@, i as int) is None,
        },
{
    match parse_head(b, i) {
        Some((major, v, j)) => {
            if major == 2 && v <= (b.len() - j) as u64 {
                let jj = j + (v as usize);
                let content = slice_subrange(b, j, jj);
                Some((slice_to_vec(content), jj))
            } else {
                None
            }
        },
        None => None,
    }
}

// ---------------------------------------------------------------------------
// Text strings (major type 3)
// ---------------------------------------------------------------------------

pub open spec fn spec_enc_text(s: Seq<char>) -> Seq<u8> {
    spec_head(3, encode_utf8(s).len()) + encode_utf8(s)
}

pub open spec fn spec_parse_text(b: Seq<u8>, i: int) -> Option<(Seq<char>, int)> {
    match spec_parse_head(b, i) {
        Some((major, v, j)) => if major == 3 && j + v <= b.len() && valid_utf8(
            b.subrange(j, j + v),
        ) {
            Some((decode_utf8(b.subrange(j, j + v)), j + v as int))
        } else {
            None
        },
        None => None,
    }
}

pub proof fn lemma_parse_text_of_enc(b: Seq<u8>, i: int, s: Seq<char>)
    requires
        encode_utf8(s).len() < pow256(8),
        0 <= i,
        i + spec_enc_text(s).len() <= b.len(),
        b.subrange(i, i + spec_enc_text(s).len()) == spec_enc_text(s),
    ensures
        spec_parse_text(b, i) == Some((s, i + spec_enc_text(s).len())),
{
    let u = encode_utf8(s);
    let h = spec_head(3, u.len());
    lemma_head_len(3, u.len());
    lemma_subrange_within(b, i, (h.len() + u.len()) as int, 0, h.len() as int);
    assert(spec_enc_text(s).subrange(0, h.len() as int) =~= h);
    lemma_parse_head_of_enc(b, i, 3, u.len());
    lemma_subrange_within(b, i, (h.len() + u.len()) as int, h.len() as int, (h.len() + u.len()) as int);
    assert(b.subrange(i + h.len(), i + h.len() + u.len() as int) =~= u);
    encode_utf8_valid_utf8(s);
    encode_utf8_decode_utf8(s);
}

pub fn push_text(out: &mut Vec<u8>, s: &str)
    ensures
        final(out)@ =~= old(out)@ + spec_enc_text(s@),
{
    let bs: &[u8] = s.as_bytes();
    push_head(out, 3, bs.len() as u64);
    out.extend_from_slice(bs);
    assert(out@ =~= old(out)@ + spec_enc_text(s@));
}

pub fn parse_text(b: &[u8], i: usize) -> (r: Option<(String, usize)>)
    ensures
        match r {
            Some((v, j)) => {
                &&& spec_parse_text(b@, i as int) == Some((v@, j as int))
                &&& i < j <= b@.len()
            },
            None => spec_parse_text(b@, i as int) is None,
        },
{
    match parse_head(b, i) {
        Some((major, v, j)) => {
            if major == 3 && v <= (b.len() - j) as u64 {
                let jj = j + (v as usize);
                let content = slice_subrange(b, j, jj);
                match bytes_to_string(content) {
                    Some(s) => {
                        proof {
                            encode_utf8_decode_utf8(s@);
                        }
                        Some((s, jj))
                    },
                    None => None,
                }
            } else {
                None
            }
        },
        None => None,
    }
}

// ---------------------------------------------------------------------------
// Arrays (major type 4) and the null simple value
// ---------------------------------------------------------------------------

pub open spec fn spec_enc_array_header(count: nat) -> Seq<u8> {
    spec_head(4, count)
}

pub open spec fn spec_parse_array_header(b: Seq<u8>, i: int) -> Option<(nat, int)> {
    match spec_parse_head(b, i) {
        Some((major, v, j)) => if major == 4 {
            Some((v, j))
        } else {
            None
        },
        None => None,
    }
}

pub proof fn lemma_parse_array_header_of_enc(b: Seq<u8>, i: int, count: nat)
    requires
        count < pow256(8),
        0 <= i,
        i + spec_enc_array_header(count).len() <= b.len(),
        b.subrange(i, i + spec_enc_array_header(count).len()) == spec_enc_array_header(count),
    ensures
        spec_parse_array_header(b, i) == Some((count, i + spec_enc_array_header(count).len())),
{
    lemma_parse_head_of_enc(b, i, 4, count);
}

pub fn push_array_header(out: &mut Vec<u8>, count: u64)
    ensures
        final(out)@ =~= old(out)@ + spec_enc_array_header(count as nat),
{
    push_head(out, 4, count);
}

pub fn parse_array_header(b: &[u8], i: usize) -> (r: Option<(u64, usize)>)
    ensures
        match r {
            Some((v, j)) => {
                &&& spec_parse_array_header(b@, i as int) == Some((v as nat, j as int))
                &&& i < j <= b@.len()
            },
            None => spec_parse_array_header(b@, i as int) is None,
        },
{
    match parse_head(b, i) {
        Some((major, v, j)) => if major == 4 {
            Some((v, j))
        } else {
            None
        },
        None => None,
    }
}

/// The CBOR simple value `null`, used for an absent optional field.
pub const CBOR_NULL: u8 = 0xf6;

pub open spec fn spec_enc_null() -> Seq<u8> {
    seq![0xf6u8]
}

/// True when position `i` holds the `null` byte.
pub open spec fn spec_at_null(b: Seq<u8>, i: int) -> bool {
    0 <= i < b.len() && b[i] == 0xf6
}

pub fn push_null(out: &mut Vec<u8>)
    ensures
        final(out)@ =~= old(out)@ + spec_enc_null(),
{
    out.push(CBOR_NULL);
    assert(out@ =~= old(out)@ + spec_enc_null());
}

pub fn at_null(b: &[u8], i: usize) -> (r: bool)
    ensures
        r == spec_at_null(b@, i as int),
{
    i < b.len() && *slice_index_get(b, i) == CBOR_NULL
}

/// A window that holds `x + y` holds `x` and then `y`.
pub proof fn lemma_concat_split(b: Seq<u8>, i: int, x: Seq<u8>, y: Seq<u8>)
    requires
        0 <= i,
        i + x.len() + y.len() <= b.len(),
        b.subrange(i, i + x.len() + y.len()) == x + y,
    ensures
        b.subrange(i, i + x.len()) =~= x,
        b.subrange(i + x.len(), i + x.len() + y.len()) =~= y,
{
    let l = (x.len() + y.len()) as int;
    lemma_subrange_within(b, i, l, 0, x.len() as int);
    assert((x + y).subrange(0, x.len() as int) =~= x);
    lemma_subrange_within(b, i, l, x.len() as int, l);
    assert((x + y).subrange(x.len() as int, l) =~= y);
}

/// Values and lengths that a canonical head can carry.
pub open spec fn fits_u64(n: nat) -> bool {
    n < 0x1_0000_0000_0000_0000
}

pub proof fn lemma_fits_u64_pow256(n: nat)
    ensures
        fits_u64(n) <==> n < pow256(8),
{
    lemma_pow256_values();
}

// ---------------------------------------------------------------------------
// Arrays of text strings
// ---------------------------------------------------------------------------

pub open spec fn spec_enc_texts(ss: Seq<Seq<char>>) -> Seq<u8>
    decreases ss.len(),
{
    if ss.len() == 0 {
        Seq::empty()
    } else {
        spec_enc_text(ss[0]) + spec_enc_texts(ss.drop_first())
    }
}

/// A whole array of text strings.
pub open spec fn spec_enc_text_array(ss: Seq<Seq<char>>) -> Seq<u8> {
    spec_enc_array_header(ss.len()) + spec_enc_texts(ss)
}

pub open spec fn spec_parse_texts(b: Seq<u8>, i: int, count: nat) -> Option<(Seq<Seq<char>>, int)>
    decreases count,
{
    if count == 0 {
        Some((Seq::empty(), i))
    } else {
        match spec_parse_text(b, i) {
            Some((t, j)) => match spec_parse_texts(b, j, (count - 1) as nat) {
                Some((ts, j2)) => Some((seq![t] + ts, j2)),
                None => None,
            },
            None => None,
        }
    }
}

pub open spec fn spec_parse_text_array(b: Seq<u8>, i: int) -> Option<(Seq<Seq<char>>, int)> {
    match spec_parse_array_header(b, i) {
        Some((c, j)) => spec_parse_texts(b, j, c),
        None => None,
    }
}

/// Every text in `ss` fits a canonical head.
pub open spec fn texts_fit(ss: Seq<Seq<char>>) -> bool {
    forall|m: int| 0 <= m < ss.len() ==> fits_u64(encode_utf8(#[trigger] ss[m]).len())
}

pub proof fn lemma_enc_texts_app(a: Seq<Seq<char>>, c: Seq<Seq<char>>)
    ensures
        spec_enc_texts(a + c) =~= spec_enc_texts(a) + spec_enc_texts(c),
    decreases a.len(),
{
    if a.len() == 0 {
        assert(a + c =~= c);
        assert(spec_enc_texts(a) =~= Seq::<u8>::empty());
    } else {
        assert((a + c).drop_first() =~= a.drop_first() + c);
        assert((a + c)[0] == a[0]);
        lemma_enc_texts_app(a.drop_first(), c);
    }
}

pub proof fn lemma_parse_texts_of_enc(b: Seq<u8>, i: int, ss: Seq<Seq<char>>)
    requires
        texts_fit(ss),
        0 <= i,
        i + spec_enc_texts(ss).len() <= b.len(),
        b.subrange(i, i + spec_enc_texts(ss).len()) == spec_enc_texts(ss),
    ensures
        spec_parse_texts(b, i, ss.len()) == Some((ss, i + spec_enc_texts(ss).len())),
    decreases ss.len(),
{
    if ss.len() == 0 {
        assert(b.subrange(i, i) =~= Seq::<u8>::empty());
    } else {
        let e0 = spec_enc_text(ss[0]);
        let rest = spec_enc_texts(ss.drop_first());
        assert(spec_enc_texts(ss) == e0 + rest);
        lemma_concat_split(b, i, e0, rest);
        lemma_fits_u64_pow256(encode_utf8(ss[0]).len());
        lemma_parse_text_of_enc(b, i, ss[0]);
        lemma_parse_texts_of_enc(b, i + e0.len(), ss.drop_first());
        assert(seq![ss[0]] + ss.drop_first() =~= ss);
    }
}

/// Parsing at the position of an encoded text array yields the texts.
pub proof fn lemma_parse_text_array_of_enc(b: Seq<u8>, i: int, ss: Seq<Seq<char>>)
    requires
        texts_fit(ss),
        fits_u64(ss.len()),
        0 <= i,
        i + spec_enc_text_array(ss).len() <= b.len(),
        b.subrange(i, i + spec_enc_text_array(ss).len()) == spec_enc_text_array(ss),
    ensures
        spec_parse_text_array(b, i) == Some((ss, i + spec_enc_text_array(ss).len())),
{
    let h = spec_enc_array_header(ss.len());
    lemma_concat_split(b, i, h, spec_enc_texts(ss));
    lemma_fits_u64_pow256(ss.len());
    lemma_parse_array_header_of_enc(b, i, ss.len());
    lemma_parse_texts_of_enc(b, i + h.len(), ss);
}

pub fn push_text_array(out: &mut Vec<u8>, ss: &Vec<String>)
    ensures
        final(out)@ =~= old(out)@ + spec_enc_text_array(ss.deep_view()),
{
    push_array_header(out, ss.len() as u64);
    let n = ss.len();
    let mut t: usize = 0;
    while t < n
        invariant
            0 <= t <= n,
            n == ss@.len(),
            out@ =~= old(out)@ + spec_enc_array_header(ss.deep_view().len()) + spec_enc_texts(
                ss.deep_view().take(t as int),
            ),
        decreases n - t,
    {
        push_text(out, ss[t].as_str());
        proof {
            let dv = ss.deep_view();
            assert(dv.take(t + 1) =~= dv.take(t as int) + seq![dv[t as int]]);
            lemma_enc_texts_app(dv.take(t as int), seq![dv[t as int]]);
            let single = seq![dv[t as int]];
            assert(single.drop_first() =~= Seq::<Seq<char>>::empty());
            assert(spec_enc_texts(single.drop_first()) =~= Seq::<u8>::empty());
            assert(spec_enc_texts(single) =~= spec_enc_text(dv[t as int]));
            assert(dv[t as int] == ss@[t as int]@);
            assert(out@ =~= old(out)@ + spec_enc_array_header(dv.len()) + spec_enc_texts(
                dv.take(t + 1),
            ));
        }
        t += 1;
    }
    proof {
        let dv = ss.deep_view();
        assert(dv.take(n as int) =~= dv);
        assert(out@ =~= old(out)@ + spec_enc_text_array(dv));
    }
}

pub fn parse_text_array(b: &[u8], i: usize) -> (r: Option<(Vec<String>, usize)>)
    ensures
        match r {
            Some((v, j)) => {
                &&& spec_parse_text_array(b@, i as int) == Some((v.deep_view(), j as int))
                &&& i < j <= b@.len()
            },
            None => spec_parse_text_array(b@, i as int) is None,
        },
{
    let n = b.len();
    let (count, mut cur) = match parse_array_header(b, i) {
        Some(x) => x,
        None => {
            return None;
        },
    };
    proof {
        assert(n == b@.len());
    }
    let mut acc: Vec<String> = Vec::new();
    let mut t: u64 = 0;
    proof {
        assert(acc.deep_view() =~= Seq::<Seq<char>>::empty());
        assert forall|ts: Seq<Seq<char>>, j2: int|
            spec_parse_texts(b@, cur as int, count as nat) == Some((ts, j2))
                implies spec_parse_text_array(b@, i as int) == Some(
            (acc.deep_view() + ts, j2),
        ) by {
            assert(acc.deep_view() + ts =~= ts);
        }
    }
    while t < count
        invariant
            0 <= t <= count,
            i < cur <= b@.len(),
            b@.len() <= usize::MAX,
            forall|ts: Seq<Seq<char>>, j2: int|
                spec_parse_texts(b@, cur as int, (count - t) as nat) == Some((ts, j2))
                    ==> spec_parse_text_array(b@, i as int) == Some((acc.deep_view() + ts, j2)),
            spec_parse_texts(b@, cur as int, (count - t) as nat) is None
                ==> spec_parse_text_array(b@, i as int) is None,
        decreases count - t,
    {
        let (s, j) = match parse_text(b, cur) {
            Some(x) => x,
            None => {
                return None;
            },
        };
        let ghost pre = acc.deep_view();
        proof {
            let sv = s@;
            assert forall|ts: Seq<Seq<char>>, j2: int|
                spec_parse_texts(b@, j as int, (count - (t + 1)) as nat) == Some(
                    (ts, j2),
                ) implies spec_parse_text_array(b@, i as int) == Some(
                (pre.push(sv) + ts, j2),
            ) by {
                assert(spec_parse_texts(b@, cur as int, (count - t) as nat) == Some(
                    (seq![sv] + ts, j2),
                ));
                assert(pre + (seq![sv] + ts) =~= pre.push(sv) + ts);
            }
        }
        acc.push(s);
        cur = j;
        t += 1;
        proof {
            assert(acc.deep_view() =~= pre.push(s@));
        }
    }
    proof {
        assert(acc.deep_view() + Seq::<Seq<char>>::empty() =~= acc.deep_view());
    }
    Some((acc, cur))
}

/// A window that holds the concatenation of eight pieces holds each
/// piece at its cumulative offset.
pub proof fn lemma_concat_split8(
    b: Seq<u8>,
    i: int,
    s0: Seq<u8>,
    s1: Seq<u8>,
    s2: Seq<u8>,
    s3: Seq<u8>,
    s4: Seq<u8>,
    s5: Seq<u8>,
    s6: Seq<u8>,
    s7: Seq<u8>,
)
    requires
        0 <= i,
        i + (s0 + s1 + s2 + s3 + s4 + s5 + s6 + s7).len() <= b.len(),
        b.subrange(i, i + (s0 + s1 + s2 + s3 + s4 + s5 + s6 + s7).len()) == s0 + s1 + s2 + s3 + s4
            + s5 + s6 + s7,
    ensures
        b.subrange(i, i + s0.len()) == s0,
        b.subrange(i + s0.len(), i + s0.len() + s1.len()) == s1,
        b.subrange(i + s0.len() + s1.len(), i + s0.len() + s1.len() + s2.len()) == s2,
        b.subrange(
            i + s0.len() + s1.len() + s2.len(),
            i + s0.len() + s1.len() + s2.len() + s3.len(),
        ) == s3,
        b.subrange(
            i + s0.len() + s1.len() + s2.len() + s3.len(),
            i + s0.len() + s1.len() + s2.len() + s3.len() + s4.len(),
        ) == s4,
        b.subrange(
            i + s0.len() + s1.len() + s2.len() + s3.len() + s4.len(),
            i + s0.len() + s1.len() + s2.len() + s3.len() + s4.len() + s5.len(),
        ) == s5,
        b.subrange(
            i + s0.len() + s1.len() + s2.len() + s3.len() + s4.len() + s5.len(),
            i + s0.len() + s1.len() + s2.len() + s3.len() + s4.len() + s5.len() + s6.len(),
        ) == s6,
        b.subrange(
            i + s0.len() + s1.len() + s2.len() + s3.len() + s4.len() + s5.len() + s6.len(),
            i + s0.len() + s1.len() + s2.len() + s3.len() + s4.len() + s5.len() + s6.len()
                + s7.len(),
        ) == s7,
{
    let a1 = s0 + s1;
    let a2 = a1 + s2;
    let a3 = a2 + s3;
    let a4 = a3 + s4;
    let a5 = a4 + s5;
    let a6 = a5 + s6;
    lemma_concat_split(b, i, a6, s7);
    lemma_concat_split(b, i, a5, s6);
    lemma_concat_split(b, i, a4, s5);
    lemma_concat_split(b, i, a3, s4);
    lemma_concat_split(b, i, a2, s3);
    lemma_concat_split(b, i, a1, s2);
    lemma_concat_split(b, i, s0, s1);
}

} // verus!
