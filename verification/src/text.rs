//! Conversion between byte sequences and strings.
//!
//! The wire codecs work on UTF-8 bytes; this module holds the one
//! trusted conversion back from bytes to an owned `String`, specified
//! with vstd's UTF-8 model.

use vstd::prelude::*;
use vstd::slice::slice_index_get;
use vstd::utf8::{encode_utf8, encode_utf8_decode_utf8, valid_utf8};

verus! {

/// Compare two string slices by their UTF-8 bytes.
pub fn str_eq(a: &str, b: &str) -> (r: bool)
    ensures
        r == (a@ == b@),
{
    proof {
        encode_utf8_decode_utf8(a@);
        encode_utf8_decode_utf8(b@);
    }
    let ab = a.as_bytes();
    let bb = b.as_bytes();
    let n = ab.len();
    if n != bb.len() {
        return false;
    }
    let mut t: usize = 0;
    while t < n
        invariant
            0 <= t <= n,
            n == ab@.len() == bb@.len(),
            ab@ == encode_utf8(a@),
            bb@ == encode_utf8(b@),
            forall|k: int| 0 <= k < t ==> ab@[k] == bb@[k],
        decreases n - t,
    {
        if *slice_index_get(ab, t) != *slice_index_get(bb, t) {
            proof {
                encode_utf8_decode_utf8(a@);
                encode_utf8_decode_utf8(b@);
            }
            return false;
        }
        t += 1;
    }
    proof {
        assert(ab@ =~= bb@);
        encode_utf8_decode_utf8(a@);
        encode_utf8_decode_utf8(b@);
    }
    true
}

/// Relies on std's `String::from_utf8`: it succeeds exactly on valid
/// UTF-8 input and returns the string whose byte representation is
/// that input (std documents it as the inverse of `into_bytes`).
#[verifier::external_body]
pub fn bytes_to_string(v: &[u8]) -> (r: Option<String>)
    ensures
        match r {
            Some(s) => valid_utf8(v@) && encode_utf8(s@) == v@,
            None => !valid_utf8(v@),
        },
{
    match std::string::String::from_utf8(v.to_vec()) {
        Ok(s) => Some(s),
        Err(_) => None,
    }
}

/// Decimal digit characters of `n`, most significant first.
pub open spec fn spec_dec_chars(n: nat) -> Seq<char>
    decreases n,
{
    if n < 10 {
        seq![spec_digit_char(n)]
    } else {
        spec_dec_chars(n / 10).push(spec_digit_char(n % 10))
    }
}

pub open spec fn spec_digit_char(d: nat) -> char {
    if d == 0 {
        '0'
    } else if d == 1 {
        '1'
    } else if d == 2 {
        '2'
    } else if d == 3 {
        '3'
    } else if d == 4 {
        '4'
    } else if d == 5 {
        '5'
    } else if d == 6 {
        '6'
    } else if d == 7 {
        '7'
    } else if d == 8 {
        '8'
    } else {
        '9'
    }
}

fn digit_str(d: u64) -> (r: &'static str)
    requires
        d < 10,
    ensures
        r@ =~= seq![spec_digit_char(d as nat)],
{
    proof {
        reveal_strlit("0");
        reveal_strlit("1");
        reveal_strlit("2");
        reveal_strlit("3");
        reveal_strlit("4");
        reveal_strlit("5");
        reveal_strlit("6");
        reveal_strlit("7");
        reveal_strlit("8");
        reveal_strlit("9");
    }
    if d == 0 {
        "0"
    } else if d == 1 {
        "1"
    } else if d == 2 {
        "2"
    } else if d == 3 {
        "3"
    } else if d == 4 {
        "4"
    } else if d == 5 {
        "5"
    } else if d == 6 {
        "6"
    } else if d == 7 {
        "7"
    } else if d == 8 {
        "8"
    } else {
        "9"
    }
}

fn push_dec_chars(s: &mut String, n: u64)
    ensures
        final(s)@ =~= old(s)@ + spec_dec_chars(n as nat),
    decreases n,
{
    if n < 10 {
        s.append(digit_str(n));
        assert(s@ =~= old(s)@ + spec_dec_chars(n as nat));
    } else {
        push_dec_chars(s, n / 10);
        s.append(digit_str(n % 10));
        assert(s@ =~= old(s)@ + spec_dec_chars(n as nat));
    }
}

/// The decimal representation of `n` as a string.
pub fn u64_to_string(n: u64) -> (r: String)
    ensures
        r@ == spec_dec_chars(n as nat),
{
    let mut s = String::new();
    push_dec_chars(&mut s, n);
    proof {
        assert(s@ =~= spec_dec_chars(n as nat));
    }
    s
}

} // verus!
