//! Size comparison of the two encodings.
//!
//! For any PCA whose operation strings are shorter than 256 UTF-8
//! bytes, the CBOR encoding is at most as long as the JSON encoding:
//! CBOR arrays carry no field names and a canonical head costs no
//! more than JSON's quotes, keys, and separators.  Byte-string fields
//! (keys, signatures) make CBOR strictly smaller, since JSON spends
//! two hex characters per byte.

use vstd::prelude::*;
use vstd::utf8::encode_utf8;
use crate::binding::{spec_cbor_bentry, spec_cbor_bentries, spec_cbor_binding, spec_json_bentry,
    spec_json_bentry_items, spec_json_binding, BindingEntryV};
use crate::cbor;
use crate::json;
use crate::pca::{spec_cbor_executor_id, spec_cbor_executor, spec_cbor_prev_executor,
    spec_cbor_provenance, spec_cbor_opt_uint, spec_cbor_temporal, spec_cbor_constraints,
    spec_cbor_pca_payload, spec_cbor_pca, spec_json_executor_id, spec_json_executor,
    spec_json_prev_executor, spec_json_provenance, spec_json_opt_uint, spec_json_temporal,
    spec_json_constraints, spec_json_pca_payload, spec_json_pca, spec_pca_env, Constraints,
    ExecutorIdV, ExecutorV, PcaPayloadV, PcaV, PrevExecutorV, ProvenanceV, TemporalConstraints};
use crate::envelope::spec_env_enc;

verus! {

/// `10^k`.
pub open spec fn pow10(k: nat) -> nat
    decreases k,
{
    if k == 0 {
        1
    } else {
        10 * pow10((k - 1) as nat)
    }
}

proof fn lemma_pow10_values()
    ensures
        pow10(1) == 10,
        pow10(2) == 100,
        pow10(4) == 10000,
        pow10(9) == 1000000000,
{
    assert(pow10(1) == 10 * pow10(0));
    assert(pow10(2) == 10 * pow10(1));
    assert(pow10(3) == 10 * pow10(2));
    assert(pow10(4) == 10 * pow10(3));
    assert(pow10(5) == 10 * pow10(4));
    assert(pow10(6) == 10 * pow10(5));
    assert(pow10(7) == 10 * pow10(6));
    assert(pow10(8) == 10 * pow10(7));
    assert(pow10(9) == 10 * pow10(8));
}

proof fn lemma_pow10_pos(k: nat)
    ensures
        pow10(k) >= 1,
    decreases k,
{
    if k > 0 {
        lemma_pow10_pos((k - 1) as nat);
    }
}

proof fn lemma_dec_digits_min_len(n: nat, k: nat)
    requires
        n >= pow10(k),
    ensures
        json::dec_digits(n).len() >= k + 1,
    decreases k,
{
    json::lemma_dec_digits_wf(n);
    if k > 0 {
        assert(pow10(k) == 10 * pow10((k - 1) as nat));
        lemma_pow10_pos((k - 1) as nat);
        assert(n >= 10);
        assert(n / 10 >= pow10((k - 1) as nat)) by (nonlinear_arith)
            requires
                n >= 10 * pow10((k - 1) as nat),
        ;
        lemma_dec_digits_min_len(n / 10, (k - 1) as nat);
    }
}

/// A canonical integer head never beats the decimal digits: the CBOR
/// integer is at most as long as the JSON one.
proof fn lemma_head_le_digits(n: nat)
    requires
        cbor::fits_u64(n),
    ensures
        cbor::spec_enc_uint(n).len() <= json::dec_digits(n).len(),
{
    cbor::lemma_head_len(0, n);
    json::lemma_dec_digits_wf(n);
    lemma_pow10_values();
    cbor::lemma_be_bytes_len(n, 1);
    cbor::lemma_be_bytes_len(n, 2);
    cbor::lemma_be_bytes_len(n, 4);
    cbor::lemma_be_bytes_len(n, 8);
    if n < 24 {
    } else if n < 256 {
        lemma_dec_digits_min_len(n, 1);
    } else if n < 65536 {
        lemma_dec_digits_min_len(n, 2);
    } else if n < 4294967296 {
        lemma_dec_digits_min_len(n, 4);
    } else {
        lemma_dec_digits_min_len(n, 9);
    }
}

/// CBOR text is at most 9 bytes over the raw UTF-8; JSON text is at
/// least 2 over it.
proof fn lemma_text_bounds(s: Seq<char>)
    ensures
        cbor::spec_enc_text(s).len() <= 9 + encode_utf8(s).len(),
        json::spec_jstring(s).len() >= 2 + encode_utf8(s).len(),
        encode_utf8(s).len() < 256 ==> cbor::spec_enc_text(s).len() <= json::spec_jstring(s).len(),
{
    cbor::lemma_head_len(3, encode_utf8(s).len());
    json::lemma_escape_len(encode_utf8(s));
}

/// CBOR bytes cost at most 9 over the raw bytes; JSON hex costs 2
/// plus two characters per byte.
proof fn lemma_bytes_bounds(d: Seq<u8>)
    ensures
        cbor::spec_enc_bytes(d).len() <= 9 + d.len(),
        json::spec_jhex(d).len() == 2 + 2 * d.len(),
{
    cbor::lemma_head_len(2, d.len());
    json::lemma_hex_len(d);
}

/// Exact lengths of the fixed JSON key fragments.
proof fn lemma_key_lens()
    ensures
        encode_utf8("{\"service\":"@).len() == 11,
        encode_utf8("{\"id\":"@).len() == 6,
        encode_utf8(",\"binding\":"@).len() == 11,
        encode_utf8(",\"public_key\":"@).len() == 14,
        encode_utf8(",\"key_type\":"@).len() == 12,
        encode_utf8("{\"public_key\":"@).len() == 14,
        encode_utf8("{\"cat_kid\":"@).len() == 11,
        encode_utf8(",\"cat_sig\":"@).len() == 11,
        encode_utf8(",\"executor_kid\":"@).len() == 16,
        encode_utf8(",\"executor_sig\":"@).len() == 16,
        encode_utf8("{\"iat\":"@).len() == 7,
        encode_utf8(",\"exp\":"@).len() == 7,
        encode_utf8(",\"nbf\":"@).len() == 7,
        encode_utf8("{\"temporal\":"@).len() == 12,
        encode_utf8("{\"hop\":"@).len() == 7,
        encode_utf8(",\"p_0\":"@).len() == 7,
        encode_utf8(",\"ops\":"@).len() == 7,
        encode_utf8(",\"executor\":"@).len() == 12,
        encode_utf8(",\"prev_executor\":"@).len() == 17,
        encode_utf8(",\"provenance\":"@).len() == 14,
        encode_utf8(",\"constraints\":"@).len() == 15,
        encode_utf8("{\"name\":"@).len() == 8,
        encode_utf8(",\"value\":"@).len() == 9,
        encode_utf8("{\"issuer_id\":"@).len() == 13,
        encode_utf8(",\"alg\":\"EdDSA\",\"issuer_sig\":"@).len() == 28,
        encode_utf8(",\"payload\":"@).len() == 11,
{
    reveal_strlit("{\"service\":");
    reveal_strlit("{\"id\":");
    reveal_strlit(",\"binding\":");
    reveal_strlit(",\"public_key\":");
    reveal_strlit(",\"key_type\":");
    reveal_strlit("{\"public_key\":");
    reveal_strlit("{\"cat_kid\":");
    reveal_strlit(",\"cat_sig\":");
    reveal_strlit(",\"executor_kid\":");
    reveal_strlit(",\"executor_sig\":");
    reveal_strlit("{\"iat\":");
    reveal_strlit(",\"exp\":");
    reveal_strlit(",\"nbf\":");
    reveal_strlit("{\"temporal\":");
    reveal_strlit("{\"hop\":");
    reveal_strlit(",\"p_0\":");
    reveal_strlit(",\"ops\":");
    reveal_strlit(",\"executor\":");
    reveal_strlit(",\"prev_executor\":");
    reveal_strlit(",\"provenance\":");
    reveal_strlit(",\"constraints\":");
    reveal_strlit("{\"name\":");
    reveal_strlit(",\"value\":");
    reveal_strlit("{\"issuer_id\":");
    reveal_strlit(",\"alg\":\"EdDSA\",\"issuer_sig\":");
    reveal_strlit(",\"payload\":");
    vstd::utf8::is_ascii_chars_encode_utf8("{\"service\":"@);
    vstd::utf8::is_ascii_chars_encode_utf8("{\"id\":"@);
    vstd::utf8::is_ascii_chars_encode_utf8(",\"binding\":"@);
    vstd::utf8::is_ascii_chars_encode_utf8(",\"public_key\":"@);
    vstd::utf8::is_ascii_chars_encode_utf8(",\"key_type\":"@);
    vstd::utf8::is_ascii_chars_encode_utf8("{\"public_key\":"@);
    vstd::utf8::is_ascii_chars_encode_utf8("{\"cat_kid\":"@);
    vstd::utf8::is_ascii_chars_encode_utf8(",\"cat_sig\":"@);
    vstd::utf8::is_ascii_chars_encode_utf8(",\"executor_kid\":"@);
    vstd::utf8::is_ascii_chars_encode_utf8(",\"executor_sig\":"@);
    vstd::utf8::is_ascii_chars_encode_utf8("{\"iat\":"@);
    vstd::utf8::is_ascii_chars_encode_utf8(",\"exp\":"@);
    vstd::utf8::is_ascii_chars_encode_utf8(",\"nbf\":"@);
    vstd::utf8::is_ascii_chars_encode_utf8("{\"temporal\":"@);
    vstd::utf8::is_ascii_chars_encode_utf8("{\"hop\":"@);
    vstd::utf8::is_ascii_chars_encode_utf8(",\"p_0\":"@);
    vstd::utf8::is_ascii_chars_encode_utf8(",\"ops\":"@);
    vstd::utf8::is_ascii_chars_encode_utf8(",\"executor\":"@);
    vstd::utf8::is_ascii_chars_encode_utf8(",\"prev_executor\":"@);
    vstd::utf8::is_ascii_chars_encode_utf8(",\"provenance\":"@);
    vstd::utf8::is_ascii_chars_encode_utf8(",\"constraints\":"@);
    vstd::utf8::is_ascii_chars_encode_utf8("{\"name\":"@);
    vstd::utf8::is_ascii_chars_encode_utf8(",\"value\":"@);
    vstd::utf8::is_ascii_chars_encode_utf8("{\"issuer_id\":"@);
    vstd::utf8::is_ascii_chars_encode_utf8(",\"alg\":\"EdDSA\",\"issuer_sig\":"@);
    vstd::utf8::is_ascii_chars_encode_utf8(",\"payload\":"@);
}

proof fn lemma_size_executor_id(e: ExecutorIdV)
    ensures
        spec_cbor_executor_id(e).len() <= spec_json_executor_id(e).len(),
{
    lemma_key_lens();
    cbor::lemma_head_len(4, 1);
    lemma_text_bounds(e.service);
}

proof fn lemma_size_bentry(e: BindingEntryV)
    ensures
        spec_cbor_bentry(e).len() + 3 <= spec_json_bentry(e).len(),
{
    lemma_key_lens();
    cbor::lemma_head_len(4, 2);
    lemma_text_bounds(e.name);
    lemma_text_bounds(e.value);
    json::lemma_escape_len(encode_utf8(e.name));
    json::lemma_escape_len(encode_utf8(e.value));
}

proof fn lemma_size_bentries(es: Seq<BindingEntryV>)
    ensures
        spec_cbor_bentries(es).len() <= spec_json_bentry_items(es).len(),
    decreases es.len(),
{
    if es.len() == 0 {
    } else if es.len() == 1 {
        lemma_size_bentry(es[0]);
        assert(spec_cbor_bentries(es.drop_first()).len() == 0);
    } else {
        lemma_size_bentry(es[0]);
        lemma_size_bentries(es.drop_first());
    }
}

proof fn lemma_size_binding(es: Seq<BindingEntryV>)
    requires
        cbor::fits_u64(es.len()),
    ensures
        spec_cbor_binding(es).len() <= spec_json_binding(es).len(),
{
    cbor::lemma_head_len(4, es.len());
    lemma_size_bentries(es);
    if es.len() < 24 {
    } else {
        // the head is at most 9 bytes and at least 23 entries each
        // save 3 bytes over their JSON form
        lemma_size_bentries_slack(es);
    }
}

/// With at least one entry, every entry saves at least 3 bytes, so
/// the total saving covers any head.
proof fn lemma_size_bentries_slack(es: Seq<BindingEntryV>)
    ensures
        spec_cbor_bentries(es).len() + 3 * es.len() <= spec_json_bentry_items(es).len()
            + es.len(),
    decreases es.len(),
{
    if es.len() == 0 {
    } else if es.len() == 1 {
        lemma_size_bentry(es[0]);
        assert(spec_cbor_bentries(es.drop_first()).len() == 0);
    } else {
        lemma_size_bentry(es[0]);
        lemma_size_bentries_slack(es.drop_first());
    }
}

proof fn lemma_size_prev_executor(p: PrevExecutorV)
    ensures
        spec_cbor_prev_executor(p).len() <= spec_json_prev_executor(p).len(),
{
    lemma_key_lens();
    cbor::lemma_head_len(4, 2);
    lemma_bytes_bounds(p.public_key);
    lemma_text_bounds(p.key_type);
}

proof fn lemma_size_provenance(p: ProvenanceV)
    ensures
        spec_cbor_provenance(p).len() <= spec_json_provenance(p).len(),
{
    lemma_key_lens();
    cbor::lemma_head_len(4, 4);
    lemma_text_bounds(p.cat_kid);
    lemma_bytes_bounds(p.cat_sig);
    lemma_text_bounds(p.executor_kid);
    lemma_bytes_bounds(p.executor_sig);
}

proof fn lemma_size_opt_uint(o: Option<u64>)
    ensures
        spec_cbor_opt_uint(o).len() <= spec_json_opt_uint(o).len(),
{
    match o {
        None => {
        },
        Some(n) => {
            lemma_head_le_digits(n as nat);
        },
    }
}

proof fn lemma_size_temporal(t: TemporalConstraints)
    ensures
        spec_cbor_temporal(t).len() <= spec_json_temporal(t).len(),
{
    lemma_key_lens();
    cbor::lemma_head_len(4, 3);
    lemma_size_opt_uint(t.iat);
    lemma_size_opt_uint(t.exp);
    lemma_size_opt_uint(t.nbf);
}

proof fn lemma_size_constraints(c: Constraints)
    ensures
        spec_cbor_constraints(c).len() <= spec_json_constraints(c).len(),
{
    lemma_key_lens();
    cbor::lemma_head_len(4, 1);
    match c.temporal {
        Some(t) => lemma_size_temporal(t),
        None => {
        },
    }
}

proof fn lemma_size_executor(e: ExecutorV)
    requires
        cbor::fits_u64(e.binding.len()),
    ensures
        spec_cbor_executor(e).len() <= spec_json_executor(e).len(),
{
    lemma_key_lens();
    cbor::lemma_head_len(4, 4);
    lemma_size_executor_id(e.id);
    lemma_size_binding(e.binding);
    lemma_bytes_bounds(e.public_key);
    lemma_text_bounds(e.key_type);
}

/// Every operation string is shorter than 256 UTF-8 bytes.  Without
/// this bound an operation list of many long strings can make the
/// CBOR form longer than the JSON form, since CBOR length heads grow
/// while JSON gains only one separator per entry.
pub open spec fn ops_short(ss: Seq<Seq<char>>) -> bool {
    forall|i: int| 0 <= i < ss.len() ==> encode_utf8(#[trigger] ss[i]).len() < 256
}

proof fn lemma_size_texts(ss: Seq<Seq<char>>)
    requires
        ops_short(ss),
    ensures
        cbor::spec_enc_texts(ss).len() + (if ss.len() > 0 {
            ss.len() - 1
        } else {
            0
        }) <= json::spec_jstr_items(ss).len(),
    decreases ss.len(),
{
    if ss.len() == 0 {
    } else if ss.len() == 1 {
        lemma_text_bounds(ss[0]);
        assert(cbor::spec_enc_texts(ss.drop_first()).len() == 0);
    } else {
        lemma_text_bounds(ss[0]);
        assert forall|i: int| 0 <= i < ss.drop_first().len() implies encode_utf8(
            #[trigger] ss.drop_first()[i],
        ).len() < 256 by {
            assert(ss.drop_first()[i] == ss[i + 1]);
        }
        lemma_size_texts(ss.drop_first());
    }
}

proof fn lemma_size_text_array(ss: Seq<Seq<char>>)
    requires
        ops_short(ss),
        cbor::fits_u64(ss.len()),
    ensures
        cbor::spec_enc_text_array(ss).len() <= json::spec_jstr_array(ss).len(),
{
    cbor::lemma_head_len(4, ss.len());
    lemma_size_texts(ss);
}

/// The operation strings of `p` are all shorter than 256 UTF-8
/// bytes.
pub open spec fn payload_ops_short(p: PcaPayloadV) -> bool {
    ops_short(p.ops)
}

proof fn lemma_size_pca_payload(p: PcaPayloadV)
    requires
        payload_ops_short(p),
        cbor::fits_u64(p.ops.len()),
        cbor::fits_u64(p.executor.binding.len()),
    ensures
        spec_cbor_pca_payload(p).len() <= spec_json_pca_payload(p).len(),
{
    lemma_key_lens();
    cbor::lemma_head_len(4, 7);
    lemma_head_le_digits(p.hop as nat);
    lemma_text_bounds(p.p_0);
    lemma_size_text_array(p.ops);
    lemma_size_executor(p.executor);
    match p.prev_executor {
        Some(x) => lemma_size_prev_executor(x),
        None => {
        },
    }
    match p.provenance {
        Some(x) => lemma_size_provenance(x),
        None => {
        },
    }
    match p.constraints {
        Some(c) => lemma_size_constraints(c),
        None => {
        },
    }
}

/// For any PCA whose operation strings are shorter than 256 UTF-8
/// bytes, the CBOR encoding is at most as long as the JSON encoding.
#[verifier::rlimit(100)]
#[verifier::spinoff_prover]
pub proof fn lemma_cbor_le_json(v: PcaV)
    requires
        payload_ops_short(v.payload),
        cbor::fits_u64(v.payload.ops.len()),
        cbor::fits_u64(v.payload.executor.binding.len()),
    ensures
        spec_cbor_pca(v).len() <= spec_json_pca(v).len(),
{
    lemma_key_lens();
    lemma_size_pca_payload(v.payload);
    let pc = spec_cbor_pca_payload(v.payload);
    let pj = spec_json_pca_payload(v.payload);
    let env = spec_pca_env(v);
    assert(spec_cbor_pca(v).len() == cbor::spec_enc_array_header(4).len()
        + cbor::spec_enc_text(env.kid).len() + cbor::spec_enc_text("EdDSA"@).len()
        + cbor::spec_enc_bytes(env.signature).len() + cbor::spec_enc_bytes(env.payload).len());
    cbor::lemma_head_len(4, 4);
    lemma_text_bounds(v.issuer_id);
    assert(cbor::spec_enc_text("EdDSA"@).len() <= 15) by {
        reveal_strlit("EdDSA");
        vstd::utf8::is_ascii_chars_encode_utf8("EdDSA"@);
        cbor::lemma_head_len(3, encode_utf8("EdDSA"@).len());
    }
    lemma_bytes_bounds(v.issuer_sig);
    cbor::lemma_head_len(2, pc.len());
    assert(cbor::spec_enc_bytes(env.payload).len() <= 9 + pc.len());
    assert(spec_json_pca(v).len() == 13 + json::spec_jstring(v.issuer_id).len() + 28
        + json::spec_jhex(v.issuer_sig).len() + 11 + pj.len() + 1);
}

} // verus!
