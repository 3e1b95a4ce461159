//! PCA (Provenance Causal Authority) token model.
//!
//! A PCA is a signed statement of the authority held by the current
//! executor in a chain: the hop index, the immutable origin subject
//! `p_0`, the granted operations, the executor identity, optional
//! back-links to the signers of the previous hop, and optional
//! temporal constraints.
//!
//! Payloads have two byte encodings produced from the same schema:
//! canonical CBOR (records as arrays of fields in declaration order)
//! and JSON (records as objects with fixed keys).  Both are proved to
//! round-trip exactly.

use vstd::prelude::*;
use vstd::utf8::encode_utf8;
use crate::binding::{binding_fits, spec_cbor_binding, spec_parse_cbor_binding, push_cbor_binding,
    parse_cbor_binding, spec_json_binding, spec_parse_json_binding, push_json_binding,
    parse_json_binding, lemma_parse_cbor_binding_of_enc, lemma_parse_json_binding_of_enc,
    BindingEntryV, ExecutorBinding};
use crate::cbor;
use crate::cbor::{fits_u64, lemma_concat_split, lemma_fits_u64_pow256, texts_fit};
use crate::envelope;
use crate::envelope::{SignedEnvelope, SignedEnvelopeV, SigningAlgorithm, spec_env_enc,
    spec_env_dec, lemma_parse_env_of_enc, KeyRing, spec_open_ok, open_envelope};
use crate::json;
use crate::PicError;

verus! {

/// Executor ID: the service name a workload runs under.
#[derive(Debug, Clone, PartialEq)]
pub struct ExecutorId {
    pub service: String,
}

pub ghost struct ExecutorIdV {
    pub service: Seq<char>,
}

impl View for ExecutorId {
    type V = ExecutorIdV;

    open spec fn view(&self) -> ExecutorIdV {
        ExecutorIdV { service: self.service@ }
    }
}

/// Executor with cryptographic identity: who holds authority at a
/// hop, with its attribute binding and public key.
#[derive(Debug, Clone, PartialEq)]
pub struct Executor {
    pub id: ExecutorId,
    pub binding: ExecutorBinding,
    pub public_key: Vec<u8>,
    pub key_type: String,
}

pub ghost struct ExecutorV {
    pub id: ExecutorIdV,
    pub binding: Seq<BindingEntryV>,
    pub public_key: Seq<u8>,
    pub key_type: Seq<char>,
}

impl View for Executor {
    type V = ExecutorV;

    open spec fn view(&self) -> ExecutorV {
        ExecutorV {
            id: self.id@,
            binding: self.binding@,
            public_key: self.public_key@,
            key_type: self.key_type@,
        }
    }
}

/// The executor value used when a continuation request names no
/// successor executor: no attributes and no key material.
pub open spec fn spec_empty_executor() -> ExecutorV {
    ExecutorV {
        id: ExecutorIdV { service: Seq::empty() },
        binding: Seq::empty(),
        public_key: Seq::empty(),
        key_type: Seq::empty(),
    }
}

impl Executor {
    /// An executor with no attributes and no key material, used when
    /// a continuation request names no successor executor.
    pub fn empty() -> (r: Executor)
        ensures
            r@ == spec_empty_executor(),
    {
        let r = Executor {
            id: ExecutorId { service: String::new() },
            binding: ExecutorBinding::new(),
            public_key: Vec::new(),
            key_type: String::new(),
        };
        proof {
            assert(r@.id.service =~= Seq::<char>::empty());
            assert(r@.binding =~= Seq::<crate::binding::BindingEntryV>::empty());
            assert(r@.public_key =~= Seq::<u8>::empty());
            assert(r@.key_type =~= Seq::<char>::empty());
        }
        r
    }
}

/// Previous executor reference, for continuity verification.
#[derive(Debug, Clone, PartialEq)]
pub struct PrevExecutor {
    pub public_key: Vec<u8>,
    pub key_type: String,
}

pub ghost struct PrevExecutorV {
    pub public_key: Seq<u8>,
    pub key_type: Seq<char>,
}

impl View for PrevExecutor {
    type V = PrevExecutorV;

    open spec fn view(&self) -> PrevExecutorV {
        PrevExecutorV { public_key: self.public_key@, key_type: self.key_type@ }
    }
}

/// Provenance back-link: the key identifiers and signature bytes of
/// the authority that signed the predecessor PCA and of the executor
/// that signed the continuation request leading to this PCA.
#[derive(Debug, Clone, PartialEq)]
pub struct Provenance {
    pub cat_kid: String,
    pub cat_sig: Vec<u8>,
    pub executor_kid: String,
    pub executor_sig: Vec<u8>,
}

pub ghost struct ProvenanceV {
    pub cat_kid: Seq<char>,
    pub cat_sig: Seq<u8>,
    pub executor_kid: Seq<char>,
    pub executor_sig: Seq<u8>,
}

impl View for Provenance {
    type V = ProvenanceV;

    open spec fn view(&self) -> ProvenanceV {
        ProvenanceV {
            cat_kid: self.cat_kid@,
            cat_sig: self.cat_sig@,
            executor_kid: self.executor_kid@,
            executor_sig: self.executor_sig@,
        }
    }
}

/// Temporal window: issued-at, expires-at, not-before, as seconds
/// since the Unix epoch.
#[derive(Debug, Clone, Copy, PartialEq, Eq, Structural)]
pub struct TemporalConstraints {
    pub iat: Option<u64>,
    pub exp: Option<u64>,
    pub nbf: Option<u64>,
}

/// Constraints attached to a hop; the temporal window is the only
/// kind in use.
#[derive(Debug, Clone, Copy, PartialEq, Eq, Structural)]
pub struct Constraints {
    pub temporal: Option<TemporalConstraints>,
}

/// PCA payload: the unsigned token body.
#[derive(Debug, Clone, PartialEq)]
pub struct PcaPayload {
    pub hop: u32,
    pub p_0: String,
    pub ops: Vec<String>,
    pub executor: Executor,
    pub prev_executor: Option<PrevExecutor>,
    pub provenance: Option<Provenance>,
    pub constraints: Option<Constraints>,
}

pub ghost struct PcaPayloadV {
    pub hop: u32,
    pub p_0: Seq<char>,
    pub ops: Seq<Seq<char>>,
    pub executor: ExecutorV,
    pub prev_executor: Option<PrevExecutorV>,
    pub provenance: Option<ProvenanceV>,
    pub constraints: Option<Constraints>,
}

impl View for PcaPayload {
    type V = PcaPayloadV;

    open spec fn view(&self) -> PcaPayloadV {
        PcaPayloadV {
            hop: self.hop,
            p_0: self.p_0@,
            ops: self.ops.deep_view(),
            executor: self.executor@,
            prev_executor: match self.prev_executor {
                Some(p) => Some(p@),
                None => None,
            },
            provenance: match self.provenance {
                Some(p) => Some(p@),
                None => None,
            },
            constraints: self.constraints,
        }
    }
}

/// Complete PCA: the payload together with the issuing authority's
/// key identifier and signature, as carried by a signed envelope.
#[derive(Debug, Clone, PartialEq)]
pub struct Pca {
    pub issuer_id: String,
    pub issuer_sig: Vec<u8>,
    pub payload: PcaPayload,
}

pub ghost struct PcaV {
    pub issuer_id: Seq<char>,
    pub issuer_sig: Seq<u8>,
    pub payload: PcaPayloadV,
}

impl View for Pca {
    type V = PcaV;

    open spec fn view(&self) -> PcaV {
        PcaV { issuer_id: self.issuer_id@, issuer_sig: self.issuer_sig@, payload: self.payload@ }
    }
}

// ---------------------------------------------------------------------------
// Length conditions under which the codecs are exact
// ---------------------------------------------------------------------------

pub open spec fn executor_fits(e: ExecutorV) -> bool {
    &&& fits_u64(encode_utf8(e.id.service).len())
    &&& binding_fits(e.binding)
    &&& fits_u64(e.public_key.len())
    &&& fits_u64(encode_utf8(e.key_type).len())
}

pub open spec fn prev_executor_fits(p: PrevExecutorV) -> bool {
    fits_u64(p.public_key.len()) && fits_u64(encode_utf8(p.key_type).len())
}

pub open spec fn provenance_fits(p: ProvenanceV) -> bool {
    &&& fits_u64(encode_utf8(p.cat_kid).len())
    &&& fits_u64(p.cat_sig.len())
    &&& fits_u64(encode_utf8(p.executor_kid).len())
    &&& fits_u64(p.executor_sig.len())
}

pub open spec fn pca_payload_fits(p: PcaPayloadV) -> bool {
    &&& fits_u64(encode_utf8(p.p_0).len())
    &&& fits_u64(p.ops.len())
    &&& texts_fit(p.ops)
    &&& executor_fits(p.executor)
    &&& match p.prev_executor {
        Some(x) => prev_executor_fits(x),
        None => true,
    }
    &&& match p.provenance {
        Some(x) => provenance_fits(x),
        None => true,
    }
}

pub open spec fn pca_fits(v: PcaV) -> bool {
    &&& fits_u64(encode_utf8(v.issuer_id).len())
    &&& fits_u64(v.issuer_sig.len())
    &&& pca_payload_fits(v.payload)
    &&& fits_u64(spec_cbor_pca_payload(v.payload).len())
}

// ---------------------------------------------------------------------------
// CBOR encoding
// ---------------------------------------------------------------------------

pub open spec fn spec_cbor_executor_id(e: ExecutorIdV) -> Seq<u8> {
    cbor::spec_enc_array_header(1) + cbor::spec_enc_text(e.service)
}

pub open spec fn spec_cbor_executor(e: ExecutorV) -> Seq<u8> {
    cbor::spec_enc_array_header(4) + spec_cbor_executor_id(e.id) + spec_cbor_binding(e.binding)
        + cbor::spec_enc_bytes(e.public_key) + cbor::spec_enc_text(e.key_type)
}

pub open spec fn spec_cbor_prev_executor(p: PrevExecutorV) -> Seq<u8> {
    cbor::spec_enc_array_header(2) + cbor::spec_enc_bytes(p.public_key) + cbor::spec_enc_text(
        p.key_type,
    )
}

pub open spec fn spec_cbor_provenance(p: ProvenanceV) -> Seq<u8> {
    cbor::spec_enc_array_header(4) + cbor::spec_enc_text(p.cat_kid) + cbor::spec_enc_bytes(
        p.cat_sig,
    ) + cbor::spec_enc_text(p.executor_kid) + cbor::spec_enc_bytes(p.executor_sig)
}

pub open spec fn spec_cbor_opt_uint(o: Option<u64>) -> Seq<u8> {
    match o {
        Some(n) => cbor::spec_enc_uint(n as nat),
        None => cbor::spec_enc_null(),
    }
}

pub open spec fn spec_cbor_temporal(t: TemporalConstraints) -> Seq<u8> {
    cbor::spec_enc_array_header(3) + spec_cbor_opt_uint(t.iat) + spec_cbor_opt_uint(t.exp)
        + spec_cbor_opt_uint(t.nbf)
}

pub open spec fn spec_cbor_constraints(c: Constraints) -> Seq<u8> {
    cbor::spec_enc_array_header(1) + (match c.temporal {
        Some(t) => spec_cbor_temporal(t),
        None => cbor::spec_enc_null(),
    })
}

pub open spec fn spec_cbor_pca_payload(p: PcaPayloadV) -> Seq<u8> {
    cbor::spec_enc_array_header(7) + cbor::spec_enc_uint(p.hop as nat) + cbor::spec_enc_text(p.p_0)
        + cbor::spec_enc_text_array(p.ops) + spec_cbor_executor(p.executor) + (match p
        .prev_executor {
        Some(x) => spec_cbor_prev_executor(x),
        None => cbor::spec_enc_null(),
    }) + (match p.provenance {
        Some(x) => spec_cbor_provenance(x),
        None => cbor::spec_enc_null(),
    }) + (match p.constraints {
        Some(c) => spec_cbor_constraints(c),
        None => cbor::spec_enc_null(),
    })
}

/// The envelope view that carries a PCA on the wire.
pub open spec fn spec_pca_env(v: PcaV) -> SignedEnvelopeV {
    SignedEnvelopeV {
        kid: v.issuer_id,
        alg: SigningAlgorithm::EdDSA,
        signature: v.issuer_sig,
        payload: spec_cbor_pca_payload(v.payload),
    }
}

/// CBOR encoding of a complete PCA: an envelope whose payload bytes
/// are the CBOR encoding of the payload.
pub open spec fn spec_cbor_pca(v: PcaV) -> Seq<u8> {
    spec_env_enc(spec_pca_env(v))
}

// ---------------------------------------------------------------------------
// CBOR parsing
// ---------------------------------------------------------------------------

pub open spec fn spec_parse_cbor_executor_id(b: Seq<u8>, i: int) -> Option<(ExecutorIdV, int)> {
    match cbor::spec_parse_array_header(b, i) {
        Some((c, j)) => if c == 1 {
            match cbor::spec_parse_text(b, j) {
                Some((s, j2)) => Some((ExecutorIdV { service: s }, j2)),
                None => None,
            }
        } else {
            None
        },
        None => None,
    }
}

pub open spec fn spec_parse_cbor_executor(b: Seq<u8>, i: int) -> Option<(ExecutorV, int)> {
    match cbor::spec_parse_array_header(b, i) {
        Some((c, j)) => if c == 4 {
            match spec_parse_cbor_executor_id(b, j) {
                Some((id, j2)) => match spec_parse_cbor_binding(b, j2) {
                    Some((bd, j3)) => match cbor::spec_parse_bytes(b, j3) {
                        Some((pk, j4)) => match cbor::spec_parse_text(b, j4) {
                            Some((kt, j5)) => Some(
                                (
                                    ExecutorV {
                                        id,
                                        binding: bd,
                                        public_key: pk,
                                        key_type: kt,
                                    },
                                    j5,
                                ),
                            ),
                            None => None,
                        },
                        None => None,
                    },
                    None => None,
                },
                None => None,
            }
        } else {
            None
        },
        None => None,
    }
}

pub open spec fn spec_parse_cbor_prev_executor(b: Seq<u8>, i: int) -> Option<(PrevExecutorV, int)> {
    match cbor::spec_parse_array_header(b, i) {
        Some((c, j)) => if c == 2 {
            match cbor::spec_parse_bytes(b, j) {
                Some((pk, j2)) => match cbor::spec_parse_text(b, j2) {
                    Some((kt, j3)) => Some((PrevExecutorV { public_key: pk, key_type: kt }, j3)),
                    None => None,
                },
                None => None,
            }
        } else {
            None
        },
        None => None,
    }
}

pub open spec fn spec_parse_cbor_provenance(b: Seq<u8>, i: int) -> Option<(ProvenanceV, int)> {
    match cbor::spec_parse_array_header(b, i) {
        Some((c, j)) => if c == 4 {
            match cbor::spec_parse_text(b, j) {
                Some((ck, j2)) => match cbor::spec_parse_bytes(b, j2) {
                    Some((cs, j3)) => match cbor::spec_parse_text(b, j3) {
                        Some((ek, j4)) => match cbor::spec_parse_bytes(b, j4) {
                            Some((es, j5)) => Some(
                                (
                                    ProvenanceV {
                                        cat_kid: ck,
                                        cat_sig: cs,
                                        executor_kid: ek,
                                        executor_sig: es,
                                    },
                                    j5,
                                ),
                            ),
                            None => None,
                        },
                        None => None,
                    },
                    None => None,
                },
                None => None,
            }
        } else {
            None
        },
        None => None,
    }
}

pub open spec fn spec_parse_cbor_opt_uint(b: Seq<u8>, i: int) -> Option<(Option<u64>, int)> {
    if cbor::spec_at_null(b, i) {
        Some((None, i + 1))
    } else {
        match cbor::spec_parse_uint(b, i) {
            Some((n, j)) => if n < 0x1_0000_0000_0000_0000 {
                Some((Some(n as u64), j))
            } else {
                None
            },
            None => None,
        }
    }
}

pub open spec fn spec_parse_cbor_temporal(b: Seq<u8>, i: int) -> Option<
    (TemporalConstraints, int),
> {
    match cbor::spec_parse_array_header(b, i) {
        Some((c, j)) => if c == 3 {
            match spec_parse_cbor_opt_uint(b, j) {
                Some((iat, j2)) => match spec_parse_cbor_opt_uint(b, j2) {
                    Some((exp, j3)) => match spec_parse_cbor_opt_uint(b, j3) {
                        Some((nbf, j4)) => Some((TemporalConstraints { iat, exp, nbf }, j4)),
                        None => None,
                    },
                    None => None,
                },
                None => None,
            }
        } else {
            None
        },
        None => None,
    }
}

pub open spec fn spec_parse_cbor_constraints(b: Seq<u8>, i: int) -> Option<(Constraints, int)> {
    match cbor::spec_parse_array_header(b, i) {
        Some((c, j)) => if c == 1 {
            if cbor::spec_at_null(b, j) {
                Some((Constraints { temporal: None }, j + 1))
            } else {
                match spec_parse_cbor_temporal(b, j) {
                    Some((t, j2)) => Some((Constraints { temporal: Some(t) }, j2)),
                    None => None,
                }
            }
        } else {
            None
        },
        None => None,
    }
}

pub open spec fn spec_parse_cbor_pca_payload(b: Seq<u8>, i: int) -> Option<(PcaPayloadV, int)> {
    match cbor::spec_parse_array_header(b, i) {
        Some((c, j)) => if c == 7 {
            match cbor::spec_parse_uint(b, j) {
                Some((hop, j2)) => if hop < 0x1_0000_0000 {
                    match cbor::spec_parse_text(b, j2) {
                        Some((p0, j3)) => match cbor::spec_parse_text_array(b, j3) {
                            Some((ops, j4)) => match spec_parse_cbor_executor(b, j4) {
                                Some((ex, j5)) => match spec_parse_cbor_opt_prev(b, j5) {
                                    Some((pe, j6)) => match spec_parse_cbor_opt_prov(b, j6) {
                                        Some((pv, j7)) => match spec_parse_cbor_opt_constraints(
                                            b,
                                            j7,
                                        ) {
                                            Some((cn, j8)) => Some(
                                                (
                                                    PcaPayloadV {
                                                        hop: hop as u32,
                                                        p_0: p0,
                                                        ops,
                                                        executor: ex,
                                                        prev_executor: pe,
                                                        provenance: pv,
                                                        constraints: cn,
                                                    },
                                                    j8,
                                                ),
                                            ),
                                            None => None,
                                        },
                                        None => None,
                                    },
                                    None => None,
                                },
                                None => None,
                            },
                            None => None,
                        },
                        None => None,
                    }
                } else {
                    None
                },
                None => None,
            }
        } else {
            None
        },
        None => None,
    }
}

pub open spec fn spec_parse_cbor_opt_prev(b: Seq<u8>, i: int) -> Option<
    (Option<PrevExecutorV>, int),
> {
    if cbor::spec_at_null(b, i) {
        Some((None, i + 1))
    } else {
        match spec_parse_cbor_prev_executor(b, i) {
            Some((x, j)) => Some((Some(x), j)),
            None => None,
        }
    }
}

pub open spec fn spec_parse_cbor_opt_prov(b: Seq<u8>, i: int) -> Option<(Option<ProvenanceV>, int)> {
    if cbor::spec_at_null(b, i) {
        Some((None, i + 1))
    } else {
        match spec_parse_cbor_provenance(b, i) {
            Some((x, j)) => Some((Some(x), j)),
            None => None,
        }
    }
}

pub open spec fn spec_parse_cbor_opt_constraints(b: Seq<u8>, i: int) -> Option<
    (Option<Constraints>, int),
> {
    if cbor::spec_at_null(b, i) {
        Some((None, i + 1))
    } else {
        match spec_parse_cbor_constraints(b, i) {
            Some((x, j)) => Some((Some(x), j)),
            None => None,
        }
    }
}

/// Decode a whole byte string as one PCA payload.
pub open spec fn spec_cbor_pca_payload_dec(b: Seq<u8>) -> Option<PcaPayloadV> {
    match spec_parse_cbor_pca_payload(b, 0) {
        Some((p, j)) => if j == b.len() {
            Some(p)
        } else {
            None
        },
        None => None,
    }
}

/// Decode a whole byte string as one complete PCA.
pub open spec fn spec_cbor_pca_dec(b: Seq<u8>) -> Option<PcaV> {
    match spec_env_dec(b) {
        Some(env) => if env.alg == SigningAlgorithm::EdDSA {
            match spec_cbor_pca_payload_dec(env.payload) {
                Some(p) => Some(PcaV { issuer_id: env.kid, issuer_sig: env.signature, payload: p }),
                None => None,
            }
        } else {
            None
        },
        None => None,
    }
}

// ---------------------------------------------------------------------------
// CBOR: parse-of-encode lemmas
// ---------------------------------------------------------------------------

pub proof fn lemma_parse_cbor_executor_id_of_enc(b: Seq<u8>, i: int, e: ExecutorIdV)
    requires
        fits_u64(encode_utf8(e.service).len()),
        0 <= i,
        i + spec_cbor_executor_id(e).len() <= b.len(),
        b.subrange(i, i + spec_cbor_executor_id(e).len()) == spec_cbor_executor_id(e),
    ensures
        spec_parse_cbor_executor_id(b, i) == Some((e, i + spec_cbor_executor_id(e).len())),
{
    let h = cbor::spec_enc_array_header(1);
    let t = cbor::spec_enc_text(e.service);
    lemma_concat_split(b, i, h, t);
    cbor::lemma_pow256_values();
    cbor::lemma_parse_array_header_of_enc(b, i, 1);
    lemma_fits_u64_pow256(encode_utf8(e.service).len());
    cbor::lemma_parse_text_of_enc(b, i + h.len(), e.service);
    assert(ExecutorIdV { service: e.service } == e);
}

pub proof fn lemma_parse_cbor_executor_of_enc(b: Seq<u8>, i: int, e: ExecutorV)
    requires
        executor_fits(e),
        0 <= i,
        i + spec_cbor_executor(e).len() <= b.len(),
        b.subrange(i, i + spec_cbor_executor(e).len()) == spec_cbor_executor(e),
    ensures
        spec_parse_cbor_executor(b, i) == Some((e, i + spec_cbor_executor(e).len())),
{
    let h = cbor::spec_enc_array_header(4);
    let f1 = spec_cbor_executor_id(e.id);
    let f2 = spec_cbor_binding(e.binding);
    let f3 = cbor::spec_enc_bytes(e.public_key);
    let f4 = cbor::spec_enc_text(e.key_type);
    assert(spec_cbor_executor(e) =~= h + (f1 + (f2 + (f3 + f4))));
    lemma_concat_split(b, i, h, f1 + (f2 + (f3 + f4)));
    cbor::lemma_pow256_values();
    cbor::lemma_parse_array_header_of_enc(b, i, 4);
    let p1 = i + h.len();
    lemma_concat_split(b, p1, f1, f2 + (f3 + f4));
    lemma_parse_cbor_executor_id_of_enc(b, p1, e.id);
    let p2 = p1 + f1.len();
    lemma_concat_split(b, p2, f2, f3 + f4);
    lemma_parse_cbor_binding_of_enc(b, p2, e.binding);
    let p3 = p2 + f2.len();
    lemma_concat_split(b, p3, f3, f4);
    lemma_fits_u64_pow256(e.public_key.len());
    cbor::lemma_parse_bytes_of_enc(b, p3, e.public_key);
    let p4 = p3 + f3.len();
    lemma_fits_u64_pow256(encode_utf8(e.key_type).len());
    cbor::lemma_parse_text_of_enc(b, p4, e.key_type);
    assert(ExecutorV { id: e.id, binding: e.binding, public_key: e.public_key, key_type: e.key_type }
        == e);
}

pub proof fn lemma_parse_cbor_prev_executor_of_enc(b: Seq<u8>, i: int, p: PrevExecutorV)
    requires
        prev_executor_fits(p),
        0 <= i,
        i + spec_cbor_prev_executor(p).len() <= b.len(),
        b.subrange(i, i + spec_cbor_prev_executor(p).len()) == spec_cbor_prev_executor(p),
    ensures
        spec_parse_cbor_prev_executor(b, i) == Some((p, i + spec_cbor_prev_executor(p).len())),
{
    let h = cbor::spec_enc_array_header(2);
    let f1 = cbor::spec_enc_bytes(p.public_key);
    let f2 = cbor::spec_enc_text(p.key_type);
    assert(spec_cbor_prev_executor(p) =~= h + (f1 + f2));
    lemma_concat_split(b, i, h, f1 + f2);
    cbor::lemma_pow256_values();
    cbor::lemma_parse_array_header_of_enc(b, i, 2);
    let p1 = i + h.len();
    lemma_concat_split(b, p1, f1, f2);
    lemma_fits_u64_pow256(p.public_key.len());
    cbor::lemma_parse_bytes_of_enc(b, p1, p.public_key);
    lemma_fits_u64_pow256(encode_utf8(p.key_type).len());
    cbor::lemma_parse_text_of_enc(b, p1 + f1.len(), p.key_type);
    assert(PrevExecutorV { public_key: p.public_key, key_type: p.key_type } == p);
}

pub proof fn lemma_parse_cbor_provenance_of_enc(b: Seq<u8>, i: int, p: ProvenanceV)
    requires
        provenance_fits(p),
        0 <= i,
        i + spec_cbor_provenance(p).len() <= b.len(),
        b.subrange(i, i + spec_cbor_provenance(p).len()) == spec_cbor_provenance(p),
    ensures
        spec_parse_cbor_provenance(b, i) == Some((p, i + spec_cbor_provenance(p).len())),
{
    let h = cbor::spec_enc_array_header(4);
    let f1 = cbor::spec_enc_text(p.cat_kid);
    let f2 = cbor::spec_enc_bytes(p.cat_sig);
    let f3 = cbor::spec_enc_text(p.executor_kid);
    let f4 = cbor::spec_enc_bytes(p.executor_sig);
    assert(spec_cbor_provenance(p) =~= h + (f1 + (f2 + (f3 + f4))));
    lemma_concat_split(b, i, h, f1 + (f2 + (f3 + f4)));
    cbor::lemma_pow256_values();
    cbor::lemma_parse_array_header_of_enc(b, i, 4);
    let p1 = i + h.len();
    lemma_concat_split(b, p1, f1, f2 + (f3 + f4));
    lemma_fits_u64_pow256(encode_utf8(p.cat_kid).len());
    cbor::lemma_parse_text_of_enc(b, p1, p.cat_kid);
    let p2 = p1 + f1.len();
    lemma_concat_split(b, p2, f2, f3 + f4);
    lemma_fits_u64_pow256(p.cat_sig.len());
    cbor::lemma_parse_bytes_of_enc(b, p2, p.cat_sig);
    let p3 = p2 + f2.len();
    lemma_concat_split(b, p3, f3, f4);
    lemma_fits_u64_pow256(encode_utf8(p.executor_kid).len());
    cbor::lemma_parse_text_of_enc(b, p3, p.executor_kid);
    let p4 = p3 + f3.len();
    lemma_fits_u64_pow256(p.executor_sig.len());
    cbor::lemma_parse_bytes_of_enc(b, p4, p.executor_sig);
    assert(ProvenanceV {
        cat_kid: p.cat_kid,
        cat_sig: p.cat_sig,
        executor_kid: p.executor_kid,
        executor_sig: p.executor_sig,
    } == p);
}

pub proof fn lemma_parse_cbor_opt_uint_of_enc(b: Seq<u8>, i: int, o: Option<u64>)
    requires
        0 <= i,
        i + spec_cbor_opt_uint(o).len() <= b.len(),
        b.subrange(i, i + spec_cbor_opt_uint(o).len()) == spec_cbor_opt_uint(o),
    ensures
        spec_parse_cbor_opt_uint(b, i) == Some((o, i + spec_cbor_opt_uint(o).len())),
{
    cbor::lemma_pow256_values();
    match o {
        None => {
            assert(b[i] == spec_cbor_opt_uint(o)[0]);
        },
        Some(n) => {
            cbor::lemma_head_first_byte(0, n as nat);
            assert(b[i] == spec_cbor_opt_uint(o)[0]);
            assert(!cbor::spec_at_null(b, i));
            cbor::lemma_parse_uint_of_enc(b, i, n as nat);
        },
    }
}

pub proof fn lemma_parse_cbor_temporal_of_enc(b: Seq<u8>, i: int, t: TemporalConstraints)
    requires
        0 <= i,
        i + spec_cbor_temporal(t).len() <= b.len(),
        b.subrange(i, i + spec_cbor_temporal(t).len()) == spec_cbor_temporal(t),
    ensures
        spec_parse_cbor_temporal(b, i) == Some((t, i + spec_cbor_temporal(t).len())),
{
    let h = cbor::spec_enc_array_header(3);
    let f1 = spec_cbor_opt_uint(t.iat);
    let f2 = spec_cbor_opt_uint(t.exp);
    let f3 = spec_cbor_opt_uint(t.nbf);
    assert(spec_cbor_temporal(t) =~= h + (f1 + (f2 + f3)));
    lemma_concat_split(b, i, h, f1 + (f2 + f3));
    cbor::lemma_pow256_values();
    cbor::lemma_parse_array_header_of_enc(b, i, 3);
    let p1 = i + h.len();
    lemma_concat_split(b, p1, f1, f2 + f3);
    lemma_parse_cbor_opt_uint_of_enc(b, p1, t.iat);
    let p2 = p1 + f1.len();
    lemma_concat_split(b, p2, f2, f3);
    lemma_parse_cbor_opt_uint_of_enc(b, p2, t.exp);
    lemma_parse_cbor_opt_uint_of_enc(b, p2 + f2.len(), t.nbf);
    assert(TemporalConstraints { iat: t.iat, exp: t.exp, nbf: t.nbf } == t);
}

pub proof fn lemma_parse_cbor_constraints_of_enc(b: Seq<u8>, i: int, c: Constraints)
    requires
        0 <= i,
        i + spec_cbor_constraints(c).len() <= b.len(),
        b.subrange(i, i + spec_cbor_constraints(c).len()) == spec_cbor_constraints(c),
    ensures
        spec_parse_cbor_constraints(b, i) == Some((c, i + spec_cbor_constraints(c).len())),
{
    let h = cbor::spec_enc_array_header(1);
    let f1 = match c.temporal {
        Some(t) => spec_cbor_temporal(t),
        None => cbor::spec_enc_null(),
    };
    assert(spec_cbor_constraints(c) =~= h + f1);
    lemma_concat_split(b, i, h, f1);
    cbor::lemma_pow256_values();
    cbor::lemma_parse_array_header_of_enc(b, i, 1);
    let p1 = i + h.len();
    match c.temporal {
        None => {
            assert(b[p1] == f1[0]);
            assert(Constraints { temporal: None } == c);
        },
        Some(t) => {
            cbor::lemma_head_first_byte(4, 3);
            assert(b[p1] == f1[0]);
            assert(!cbor::spec_at_null(b, p1));
            lemma_parse_cbor_temporal_of_enc(b, p1, t);
            assert(Constraints { temporal: Some(t) } == c);
        },
    }
}

#[verifier::rlimit(100)]
#[verifier::spinoff_prover]
pub proof fn lemma_parse_cbor_pca_payload_of_enc(b: Seq<u8>, i: int, p: PcaPayloadV)
    requires
        pca_payload_fits(p),
        0 <= i,
        i + spec_cbor_pca_payload(p).len() <= b.len(),
        b.subrange(i, i + spec_cbor_pca_payload(p).len()) == spec_cbor_pca_payload(p),
    ensures
        spec_parse_cbor_pca_payload(b, i) == Some((p, i + spec_cbor_pca_payload(p).len())),
{
    let h = cbor::spec_enc_array_header(7);
    let f1 = cbor::spec_enc_uint(p.hop as nat);
    let f2 = cbor::spec_enc_text(p.p_0);
    let f3 = cbor::spec_enc_text_array(p.ops);
    let f4 = spec_cbor_executor(p.executor);
    let f5 = match p.prev_executor {
        Some(x) => spec_cbor_prev_executor(x),
        None => cbor::spec_enc_null(),
    };
    let f6 = match p.provenance {
        Some(x) => spec_cbor_provenance(x),
        None => cbor::spec_enc_null(),
    };
    let f7 = match p.constraints {
        Some(c) => spec_cbor_constraints(c),
        None => cbor::spec_enc_null(),
    };
    assert(spec_cbor_pca_payload(p) == h + f1 + f2 + f3 + f4 + f5 + f6 + f7);
    cbor::lemma_concat_split8(b, i, h, f1, f2, f3, f4, f5, f6, f7);
    cbor::lemma_pow256_values();
    cbor::lemma_parse_array_header_of_enc(b, i, 7);
    let p1 = i + h.len();
    cbor::lemma_parse_uint_of_enc(b, p1, p.hop as nat);
    let p2 = p1 + f1.len();
    lemma_fits_u64_pow256(encode_utf8(p.p_0).len());
    cbor::lemma_parse_text_of_enc(b, p2, p.p_0);
    let p3 = p2 + f2.len();
    cbor::lemma_parse_text_array_of_enc(b, p3, p.ops);
    let p4 = p3 + f3.len();
    lemma_parse_cbor_executor_of_enc(b, p4, p.executor);
    let p5 = p4 + f4.len();
    match p.prev_executor {
        None => {
            assert(b[p5] == f5[0]);
        },
        Some(x) => {
            cbor::lemma_head_first_byte(4, 2);
            assert(b[p5] == f5[0]);
            assert(!cbor::spec_at_null(b, p5));
            lemma_parse_cbor_prev_executor_of_enc(b, p5, x);
        },
    }
    let p6 = p5 + f5.len();
    match p.provenance {
        None => {
            assert(b[p6] == f6[0]);
        },
        Some(x) => {
            cbor::lemma_head_first_byte(4, 4);
            assert(b[p6] == f6[0]);
            assert(!cbor::spec_at_null(b, p6));
            lemma_parse_cbor_provenance_of_enc(b, p6, x);
        },
    }
    let p7 = p6 + f6.len();
    match p.constraints {
        None => {
            assert(b[p7] == f7[0]);
        },
        Some(c) => {
            cbor::lemma_head_first_byte(4, 1);
            assert(b[p7] == f7[0]);
            assert(!cbor::spec_at_null(b, p7));
            lemma_parse_cbor_constraints_of_enc(b, p7, c);
        },
    }
    assert(PcaPayloadV {
        hop: (p.hop as nat) as u32,
        p_0: p.p_0,
        ops: p.ops,
        executor: p.executor,
        prev_executor: p.prev_executor,
        provenance: p.provenance,
        constraints: p.constraints,
    } == p);
}

// ---------------------------------------------------------------------------
// CBOR: executable encoders and parsers
// ---------------------------------------------------------------------------

fn push_cbor_executor_id(out: &mut Vec<u8>, e: &ExecutorId)
    ensures
        final(out)@ =~= old(out)@ + spec_cbor_executor_id(e@),
{
    cbor::push_array_header(out, 1);
    cbor::push_text(out, e.service.as_str());
    assert(out@ =~= old(out)@ + spec_cbor_executor_id(e@));
}

fn parse_cbor_executor_id(b: &[u8], i: usize) -> (r: Option<(ExecutorId, usize)>)
    ensures
        match r {
            Some((e, j)) => {
                &&& spec_parse_cbor_executor_id(b@, i as int) == Some((e@, j as int))
                &&& i < j <= b@.len()
            },
            None => spec_parse_cbor_executor_id(b@, i as int) is None,
        },
{
    let (c, j) = match cbor::parse_array_header(b, i) {
        Some(x) => x,
        None => {
            return None;
        },
    };
    if c != 1 {
        return None;
    }
    let (s, j2) = match cbor::parse_text(b, j) {
        Some(x) => x,
        None => {
            return None;
        },
    };
    Some((ExecutorId { service: s }, j2))
}

pub fn push_cbor_executor(out: &mut Vec<u8>, e: &Executor)
    ensures
        final(out)@ =~= old(out)@ + spec_cbor_executor(e@),
{
    cbor::push_array_header(out, 4);
    push_cbor_executor_id(out, &e.id);
    push_cbor_binding(out, &e.binding);
    cbor::push_bytes(out, e.public_key.as_slice());
    cbor::push_text(out, e.key_type.as_str());
    assert(out@ =~= old(out)@ + spec_cbor_executor(e@));
}

pub fn parse_cbor_executor(b: &[u8], i: usize) -> (r: Option<(Executor, usize)>)
    ensures
        match r {
            Some((e, j)) => {
                &&& spec_parse_cbor_executor(b@, i as int) == Some((e@, j as int))
                &&& i < j <= b@.len()
            },
            None => spec_parse_cbor_executor(b@, i as int) is None,
        },
{
    let (c, j) = match cbor::parse_array_header(b, i) {
        Some(x) => x,
        None => {
            return None;
        },
    };
    if c != 4 {
        return None;
    }
    let (id, j2) = match parse_cbor_executor_id(b, j) {
        Some(x) => x,
        None => {
            return None;
        },
    };
    let (bd, j3) = match parse_cbor_binding(b, j2) {
        Some(x) => x,
        None => {
            return None;
        },
    };
    let (pk, j4) = match cbor::parse_bytes(b, j3) {
        Some(x) => x,
        None => {
            return None;
        },
    };
    let (kt, j5) = match cbor::parse_text(b, j4) {
        Some(x) => x,
        None => {
            return None;
        },
    };
    Some((Executor { id, binding: bd, public_key: pk, key_type: kt }, j5))
}

fn push_cbor_prev_executor(out: &mut Vec<u8>, p: &PrevExecutor)
    ensures
        final(out)@ =~= old(out)@ + spec_cbor_prev_executor(p@),
{
    cbor::push_array_header(out, 2);
    cbor::push_bytes(out, p.public_key.as_slice());
    cbor::push_text(out, p.key_type.as_str());
    assert(out@ =~= old(out)@ + spec_cbor_prev_executor(p@));
}

fn parse_cbor_prev_executor(b: &[u8], i: usize) -> (r: Option<(PrevExecutor, usize)>)
    ensures
        match r {
            Some((p, j)) => {
                &&& spec_parse_cbor_prev_executor(b@, i as int) == Some((p@, j as int))
                &&& i < j <= b@.len()
            },
            None => spec_parse_cbor_prev_executor(b@, i as int) is None,
        },
{
    let (c, j) = match cbor::parse_array_header(b, i) {
        Some(x) => x,
        None => {
            return None;
        },
    };
    if c != 2 {
        return None;
    }
    let (pk, j2) = match cbor::parse_bytes(b, j) {
        Some(x) => x,
        None => {
            return None;
        },
    };
    let (kt, j3) = match cbor::parse_text(b, j2) {
        Some(x) => x,
        None => {
            return None;
        },
    };
    Some((PrevExecutor { public_key: pk, key_type: kt }, j3))
}

fn push_cbor_provenance(out: &mut Vec<u8>, p: &Provenance)
    ensures
        final(out)@ =~= old(out)@ + spec_cbor_provenance(p@),
{
    cbor::push_array_header(out, 4);
    cbor::push_text(out, p.cat_kid.as_str());
    cbor::push_bytes(out, p.cat_sig.as_slice());
    cbor::push_text(out, p.executor_kid.as_str());
    cbor::push_bytes(out, p.executor_sig.as_slice());
    assert(out@ =~= old(out)@ + spec_cbor_provenance(p@));
}

fn parse_cbor_provenance(b: &[u8], i: usize) -> (r: Option<(Provenance, usize)>)
    ensures
        match r {
            Some((p, j)) => {
                &&& spec_parse_cbor_provenance(b@, i as int) == Some((p@, j as int))
                &&& i < j <= b@.len()
            },
            None => spec_parse_cbor_provenance(b@, i as int) is None,
        },
{
    let (c, j) = match cbor::parse_array_header(b, i) {
        Some(x) => x,
        None => {
            return None;
        },
    };
    if c != 4 {
        return None;
    }
    let (ck, j2) = match cbor::parse_text(b, j) {
        Some(x) => x,
        None => {
            return None;
        },
    };
    let (cs, j3) = match cbor::parse_bytes(b, j2) {
        Some(x) => x,
        None => {
            return None;
        },
    };
    let (ek, j4) = match cbor::parse_text(b, j3) {
        Some(x) => x,
        None => {
            return None;
        },
    };
    let (es, j5) = match cbor::parse_bytes(b, j4) {
        Some(x) => x,
        None => {
            return None;
        },
    };
    Some((Provenance { cat_kid: ck, cat_sig: cs, executor_kid: ek, executor_sig: es }, j5))
}

fn push_cbor_opt_uint(out: &mut Vec<u8>, o: &Option<u64>)
    ensures
        final(out)@ =~= old(out)@ + spec_cbor_opt_uint(*o),
{
    match o {
        Some(n) => cbor::push_uint(out, *n),
        None => cbor::push_null(out),
    }
}

fn parse_cbor_opt_uint(b: &[u8], i: usize) -> (r: Option<(Option<u64>, usize)>)
    ensures
        match r {
            Some((o, j)) => {
                &&& spec_parse_cbor_opt_uint(b@, i as int) == Some((o, j as int))
                &&& i < j <= b@.len()
            },
            None => spec_parse_cbor_opt_uint(b@, i as int) is None,
        },
{
    let n = b.len();
    if cbor::at_null(b, i) {
        return Some((None, i + 1));
    }
    match cbor::parse_uint(b, i) {
        Some((n, j)) => Some((Some(n), j)),
        None => None,
    }
}

fn push_cbor_temporal(out: &mut Vec<u8>, t: &TemporalConstraints)
    ensures
        final(out)@ =~= old(out)@ + spec_cbor_temporal(*t),
{
    cbor::push_array_header(out, 3);
    push_cbor_opt_uint(out, &t.iat);
    push_cbor_opt_uint(out, &t.exp);
    push_cbor_opt_uint(out, &t.nbf);
    assert(out@ =~= old(out)@ + spec_cbor_temporal(*t));
}

fn parse_cbor_temporal(b: &[u8], i: usize) -> (r: Option<(TemporalConstraints, usize)>)
    ensures
        match r {
            Some((t, j)) => {
                &&& spec_parse_cbor_temporal(b@, i as int) == Some((t, j as int))
                &&& i < j <= b@.len()
            },
            None => spec_parse_cbor_temporal(b@, i as int) is None,
        },
{
    let (c, j) = match cbor::parse_array_header(b, i) {
        Some(x) => x,
        None => {
            return None;
        },
    };
    if c != 3 {
        return None;
    }
    let (iat, j2) = match parse_cbor_opt_uint(b, j) {
        Some(x) => x,
        None => {
            return None;
        },
    };
    let (exp, j3) = match parse_cbor_opt_uint(b, j2) {
        Some(x) => x,
        None => {
            return None;
        },
    };
    let (nbf, j4) = match parse_cbor_opt_uint(b, j3) {
        Some(x) => x,
        None => {
            return None;
        },
    };
    Some((TemporalConstraints { iat, exp, nbf }, j4))
}

pub fn push_cbor_constraints(out: &mut Vec<u8>, c: &Constraints)
    ensures
        final(out)@ =~= old(out)@ + spec_cbor_constraints(*c),
{
    cbor::push_array_header(out, 1);
    match &c.temporal {
        Some(t) => push_cbor_temporal(out, t),
        None => cbor::push_null(out),
    }
    assert(out@ =~= old(out)@ + spec_cbor_constraints(*c));
}

pub fn parse_cbor_constraints(b: &[u8], i: usize) -> (r: Option<(Constraints, usize)>)
    ensures
        match r {
            Some((c, j)) => {
                &&& spec_parse_cbor_constraints(b@, i as int) == Some((c, j as int))
                &&& i < j <= b@.len()
            },
            None => spec_parse_cbor_constraints(b@, i as int) is None,
        },
{
    let (c, j) = match cbor::parse_array_header(b, i) {
        Some(x) => x,
        None => {
            return None;
        },
    };
    if c != 1 {
        return None;
    }
    let n = b.len();
    if cbor::at_null(b, j) {
        return Some((Constraints { temporal: None }, j + 1));
    }
    match parse_cbor_temporal(b, j) {
        Some((t, j2)) => Some((Constraints { temporal: Some(t) }, j2)),
        None => None,
    }
}

/// Encode a PCA payload onto `out` in its CBOR form.
#[verifier::rlimit(80)]
pub fn push_cbor_pca_payload(out: &mut Vec<u8>, p: &PcaPayload)
    ensures
        final(out)@ =~= old(out)@ + spec_cbor_pca_payload(p@),
{
    cbor::push_array_header(out, 7);
    cbor::push_uint(out, p.hop as u64);
    cbor::push_text(out, p.p_0.as_str());
    cbor::push_text_array(out, &p.ops);
    push_cbor_executor(out, &p.executor);
    match &p.prev_executor {
        Some(x) => push_cbor_prev_executor(out, x),
        None => cbor::push_null(out),
    }
    match &p.provenance {
        Some(x) => push_cbor_provenance(out, x),
        None => cbor::push_null(out),
    }
    match &p.constraints {
        Some(c) => push_cbor_constraints(out, c),
        None => cbor::push_null(out),
    }
    assert(out@ =~= old(out)@ + spec_cbor_pca_payload(p@));
}

/// Parse a PCA payload at index `i` of its CBOR form.
#[verifier::rlimit(80)]
pub fn parse_cbor_pca_payload(b: &[u8], i: usize) -> (r: Option<(PcaPayload, usize)>)
    ensures
        match r {
            Some((p, j)) => {
                &&& spec_parse_cbor_pca_payload(b@, i as int) == Some((p@, j as int))
                &&& i < j <= b@.len()
            },
            None => spec_parse_cbor_pca_payload(b@, i as int) is None,
        },
{
    let n = b.len();
    let (c, j) = match cbor::parse_array_header(b, i) {
        Some(x) => x,
        None => {
            return None;
        },
    };
    if c != 7 {
        return None;
    }
    let (hop64, j2) = match cbor::parse_uint(b, j) {
        Some(x) => x,
        None => {
            return None;
        },
    };
    if hop64 >= 4294967296 {
        return None;
    }
    let (p0, j3) = match cbor::parse_text(b, j2) {
        Some(x) => x,
        None => {
            return None;
        },
    };
    let (ops, j4) = match cbor::parse_text_array(b, j3) {
        Some(x) => x,
        None => {
            return None;
        },
    };
    let (ex, j5) = match parse_cbor_executor(b, j4) {
        Some(x) => x,
        None => {
            return None;
        },
    };
    let (pe, j6): (Option<PrevExecutor>, usize) = if cbor::at_null(b, j5) {
        (None, j5 + 1)
    } else {
        match parse_cbor_prev_executor(b, j5) {
            Some((x, jx)) => (Some(x), jx),
            None => {
                return None;
            },
        }
    };
    let (pv, j7): (Option<Provenance>, usize) = if cbor::at_null(b, j6) {
        (None, j6 + 1)
    } else {
        match parse_cbor_provenance(b, j6) {
            Some((x, jx)) => (Some(x), jx),
            None => {
                return None;
            },
        }
    };
    let (cn, j8): (Option<Constraints>, usize) = if cbor::at_null(b, j7) {
        (None, j7 + 1)
    } else {
        match parse_cbor_constraints(b, j7) {
            Some((x, jx)) => (Some(x), jx),
            None => {
                return None;
            },
        }
    };
    Some(
        (
            PcaPayload {
                hop: hop64 as u32,
                p_0: p0,
                ops,
                executor: ex,
                prev_executor: pe,
                provenance: pv,
                constraints: cn,
            },
            j8,
        ),
    )
}

// ---------------------------------------------------------------------------
// JSON encoding
// ---------------------------------------------------------------------------

pub open spec fn spec_json_executor_id(e: ExecutorIdV) -> Seq<u8> {
    encode_utf8("{\"service\":"@) + json::spec_jstring(e.service) + seq![0x7du8]
}

pub open spec fn spec_json_executor(e: ExecutorV) -> Seq<u8> {
    encode_utf8("{\"id\":"@) + spec_json_executor_id(e.id) + encode_utf8(",\"binding\":"@)
        + spec_json_binding(e.binding) + encode_utf8(",\"public_key\":"@) + json::spec_jhex(
        e.public_key,
    ) + encode_utf8(",\"key_type\":"@) + json::spec_jstring(e.key_type) + seq![0x7du8]
}

pub open spec fn spec_json_prev_executor(p: PrevExecutorV) -> Seq<u8> {
    encode_utf8("{\"public_key\":"@) + json::spec_jhex(p.public_key) + encode_utf8(
        ",\"key_type\":"@,
    ) + json::spec_jstring(p.key_type) + seq![0x7du8]
}

pub open spec fn spec_json_provenance(p: ProvenanceV) -> Seq<u8> {
    encode_utf8("{\"cat_kid\":"@) + json::spec_jstring(p.cat_kid) + encode_utf8(",\"cat_sig\":"@)
        + json::spec_jhex(p.cat_sig) + encode_utf8(",\"executor_kid\":"@) + json::spec_jstring(
        p.executor_kid,
    ) + encode_utf8(",\"executor_sig\":"@) + json::spec_jhex(p.executor_sig) + seq![0x7du8]
}

pub open spec fn spec_json_opt_uint(o: Option<u64>) -> Seq<u8> {
    match o {
        Some(n) => json::dec_digits(n as nat),
        None => json::spec_jnull(),
    }
}

pub open spec fn spec_json_temporal(t: TemporalConstraints) -> Seq<u8> {
    encode_utf8("{\"iat\":"@) + spec_json_opt_uint(t.iat) + encode_utf8(",\"exp\":"@)
        + spec_json_opt_uint(t.exp) + encode_utf8(",\"nbf\":"@) + spec_json_opt_uint(t.nbf)
        + seq![0x7du8]
}

pub open spec fn spec_json_constraints(c: Constraints) -> Seq<u8> {
    encode_utf8("{\"temporal\":"@) + (match c.temporal {
        Some(t) => spec_json_temporal(t),
        None => json::spec_jnull(),
    }) + seq![0x7du8]
}

/// The first four payload fields (`hop`, `p_0`, `ops`, `executor`).
pub open spec fn spec_json_pca_payload_front(p: PcaPayloadV) -> Seq<u8> {
    encode_utf8("{\"hop\":"@) + json::dec_digits(p.hop as nat) + encode_utf8(",\"p_0\":"@)
        + json::spec_jstring(p.p_0) + encode_utf8(",\"ops\":"@) + json::spec_jstr_array(p.ops)
        + encode_utf8(",\"executor\":"@) + spec_json_executor(p.executor)
}

/// The optional payload fields and the closing brace.
pub open spec fn spec_json_pca_payload_back(p: PcaPayloadV) -> Seq<u8> {
    encode_utf8(",\"prev_executor\":"@) + (match p.prev_executor {
        Some(x) => spec_json_prev_executor(x),
        None => json::spec_jnull(),
    }) + encode_utf8(",\"provenance\":"@) + (match p.provenance {
        Some(x) => spec_json_provenance(x),
        None => json::spec_jnull(),
    }) + encode_utf8(",\"constraints\":"@) + (match p.constraints {
        Some(c) => spec_json_constraints(c),
        None => json::spec_jnull(),
    }) + seq![0x7du8]
}

pub open spec fn spec_json_pca_payload(p: PcaPayloadV) -> Seq<u8> {
    spec_json_pca_payload_front(p) + spec_json_pca_payload_back(p)
}

pub open spec fn spec_json_pca(v: PcaV) -> Seq<u8> {
    encode_utf8("{\"issuer_id\":"@) + json::spec_jstring(v.issuer_id) + encode_utf8(
        ",\"alg\":\"EdDSA\",\"issuer_sig\":"@,
    ) + json::spec_jhex(v.issuer_sig) + encode_utf8(",\"payload\":"@) + spec_json_pca_payload(
        v.payload,
    ) + seq![0x7du8]
}

/// Shapes and first bytes of the fixed JSON key fragments.
pub proof fn lemma_pca_json_keys()
    ensures
        encode_utf8("{\"service\":"@)[0] == 0x7b && encode_utf8("{\"service\":"@).len() >= 1,
        encode_utf8("{\"id\":"@)[0] == 0x7b && encode_utf8("{\"id\":"@).len() >= 1,
        encode_utf8("{\"public_key\":"@)[0] == 0x7b && encode_utf8("{\"public_key\":"@).len() >= 1,
        encode_utf8("{\"cat_kid\":"@)[0] == 0x7b && encode_utf8("{\"cat_kid\":"@).len() >= 1,
        encode_utf8("{\"iat\":"@)[0] == 0x7b && encode_utf8("{\"iat\":"@).len() >= 1,
        encode_utf8("{\"temporal\":"@)[0] == 0x7b && encode_utf8("{\"temporal\":"@).len() >= 1,
        encode_utf8("{\"hop\":"@)[0] == 0x7b && encode_utf8("{\"hop\":"@).len() >= 1,
        encode_utf8("{\"issuer_id\":"@)[0] == 0x7b && encode_utf8("{\"issuer_id\":"@).len() >= 1,
        encode_utf8(",\"binding\":"@)[0] == 0x2c && encode_utf8(",\"binding\":"@).len() >= 1,
        encode_utf8(",\"public_key\":"@)[0] == 0x2c && encode_utf8(",\"public_key\":"@).len() >= 1,
        encode_utf8(",\"key_type\":"@)[0] == 0x2c && encode_utf8(",\"key_type\":"@).len() >= 1,
        encode_utf8(",\"cat_sig\":"@)[0] == 0x2c && encode_utf8(",\"cat_sig\":"@).len() >= 1,
        encode_utf8(",\"executor_kid\":"@)[0] == 0x2c && encode_utf8(",\"executor_kid\":"@).len()
            >= 1,
        encode_utf8(",\"executor_sig\":"@)[0] == 0x2c && encode_utf8(",\"executor_sig\":"@).len()
            >= 1,
        encode_utf8(",\"exp\":"@)[0] == 0x2c && encode_utf8(",\"exp\":"@).len() >= 1,
        encode_utf8(",\"nbf\":"@)[0] == 0x2c && encode_utf8(",\"nbf\":"@).len() >= 1,
        encode_utf8(",\"p_0\":"@)[0] == 0x2c && encode_utf8(",\"p_0\":"@).len() >= 1,
        encode_utf8(",\"ops\":"@)[0] == 0x2c && encode_utf8(",\"ops\":"@).len() >= 1,
        encode_utf8(",\"executor\":"@)[0] == 0x2c && encode_utf8(",\"executor\":"@).len() >= 1,
        encode_utf8(",\"prev_executor\":"@)[0] == 0x2c && encode_utf8(
            ",\"prev_executor\":"@,
        ).len() >= 1,
        encode_utf8(",\"provenance\":"@)[0] == 0x2c && encode_utf8(",\"provenance\":"@).len() >= 1,
        encode_utf8(",\"constraints\":"@)[0] == 0x2c && encode_utf8(",\"constraints\":"@).len()
            >= 1,
        encode_utf8(",\"alg\":\"EdDSA\",\"issuer_sig\":"@)[0] == 0x2c && encode_utf8(
            ",\"alg\":\"EdDSA\",\"issuer_sig\":"@,
        ).len() >= 1,
        encode_utf8(",\"payload\":"@)[0] == 0x2c && encode_utf8(",\"payload\":"@).len() >= 1,
{
    reveal_strlit("{\"service\":");
    reveal_strlit("{\"id\":");
    reveal_strlit("{\"public_key\":");
    reveal_strlit("{\"cat_kid\":");
    reveal_strlit("{\"iat\":");
    reveal_strlit("{\"temporal\":");
    reveal_strlit("{\"hop\":");
    reveal_strlit("{\"issuer_id\":");
    reveal_strlit(",\"binding\":");
    reveal_strlit(",\"public_key\":");
    reveal_strlit(",\"key_type\":");
    reveal_strlit(",\"cat_sig\":");
    reveal_strlit(",\"executor_kid\":");
    reveal_strlit(",\"executor_sig\":");
    reveal_strlit(",\"exp\":");
    reveal_strlit(",\"nbf\":");
    reveal_strlit(",\"p_0\":");
    reveal_strlit(",\"ops\":");
    reveal_strlit(",\"executor\":");
    reveal_strlit(",\"prev_executor\":");
    reveal_strlit(",\"provenance\":");
    reveal_strlit(",\"constraints\":");
    reveal_strlit(",\"alg\":\"EdDSA\",\"issuer_sig\":");
    reveal_strlit(",\"payload\":");
    vstd::utf8::is_ascii_chars_encode_utf8("{\"service\":"@);
    vstd::utf8::is_ascii_chars_encode_utf8("{\"id\":"@);
    vstd::utf8::is_ascii_chars_encode_utf8("{\"public_key\":"@);
    vstd::utf8::is_ascii_chars_encode_utf8("{\"cat_kid\":"@);
    vstd::utf8::is_ascii_chars_encode_utf8("{\"iat\":"@);
    vstd::utf8::is_ascii_chars_encode_utf8("{\"temporal\":"@);
    vstd::utf8::is_ascii_chars_encode_utf8("{\"hop\":"@);
    vstd::utf8::is_ascii_chars_encode_utf8("{\"issuer_id\":"@);
    vstd::utf8::is_ascii_chars_encode_utf8(",\"binding\":"@);
    vstd::utf8::is_ascii_chars_encode_utf8(",\"public_key\":"@);
    vstd::utf8::is_ascii_chars_encode_utf8(",\"key_type\":"@);
    vstd::utf8::is_ascii_chars_encode_utf8(",\"cat_sig\":"@);
    vstd::utf8::is_ascii_chars_encode_utf8(",\"executor_kid\":"@);
    vstd::utf8::is_ascii_chars_encode_utf8(",\"executor_sig\":"@);
    vstd::utf8::is_ascii_chars_encode_utf8(",\"exp\":"@);
    vstd::utf8::is_ascii_chars_encode_utf8(",\"nbf\":"@);
    vstd::utf8::is_ascii_chars_encode_utf8(",\"p_0\":"@);
    vstd::utf8::is_ascii_chars_encode_utf8(",\"ops\":"@);
    vstd::utf8::is_ascii_chars_encode_utf8(",\"executor\":"@);
    vstd::utf8::is_ascii_chars_encode_utf8(",\"prev_executor\":"@);
    vstd::utf8::is_ascii_chars_encode_utf8(",\"provenance\":"@);
    vstd::utf8::is_ascii_chars_encode_utf8(",\"constraints\":"@);
    vstd::utf8::is_ascii_chars_encode_utf8(",\"alg\":\"EdDSA\",\"issuer_sig\":"@);
    vstd::utf8::is_ascii_chars_encode_utf8(",\"payload\":"@);
}

// ---------------------------------------------------------------------------
// JSON parsing
// ---------------------------------------------------------------------------

pub open spec fn spec_parse_json_executor_id(b: Seq<u8>, i: int) -> Option<(ExecutorIdV, int)> {
    match json::spec_expect(b, i, encode_utf8("{\"service\":"@)) {
        Some(j) => match json::spec_parse_jstring(b, j) {
            Some((sv, j2)) => match json::spec_expect(b, j2, seq![0x7du8]) {
                Some(j3) => Some((ExecutorIdV { service: sv }, j3)),
                None => None,
            },
            None => None,
        },
        None => None,
    }
}

pub open spec fn spec_parse_json_executor(b: Seq<u8>, i: int) -> Option<(ExecutorV, int)> {
    match json::spec_expect(b, i, encode_utf8("{\"id\":"@)) {
        Some(j) => match spec_parse_json_executor_id(b, j) {
            Some((id, j2)) => match json::spec_expect(b, j2, encode_utf8(",\"binding\":"@)) {
                Some(j3) => match spec_parse_json_binding(b, j3) {
                    Some((bd, j4)) => match json::spec_expect(
                        b,
                        j4,
                        encode_utf8(",\"public_key\":"@),
                    ) {
                        Some(j5) => match json::spec_parse_jhex(b, j5) {
                            Some((pk, j6)) => match json::spec_expect(
                                b,
                                j6,
                                encode_utf8(",\"key_type\":"@),
                            ) {
                                Some(j7) => match json::spec_parse_jstring(b, j7) {
                                    Some((kt, j8)) => match json::spec_expect(
                                        b,
                                        j8,
                                        seq![0x7du8],
                                    ) {
                                        Some(j9) => Some(
                                            (
                                                ExecutorV {
                                                    id,
                                                    binding: bd,
                                                    public_key: pk,
                                                    key_type: kt,
                                                },
                                                j9,
                                            ),
                                        ),
                                        None => None,
                                    },
                                    None => None,
                                },
                                None => None,
                            },
                            None => None,
                        },
                        None => None,
                    },
                    None => None,
                },
                None => None,
            },
            None => None,
        },
        None => None,
    }
}

pub open spec fn spec_parse_json_prev_executor(b: Seq<u8>, i: int) -> Option<(PrevExecutorV, int)> {
    match json::spec_expect(b, i, encode_utf8("{\"public_key\":"@)) {
        Some(j) => match json::spec_parse_jhex(b, j) {
            Some((pk, j2)) => match json::spec_expect(b, j2, encode_utf8(",\"key_type\":"@)) {
                Some(j3) => match json::spec_parse_jstring(b, j3) {
                    Some((kt, j4)) => match json::spec_expect(b, j4, seq![0x7du8]) {
                        Some(j5) => Some((PrevExecutorV { public_key: pk, key_type: kt }, j5)),
                        None => None,
                    },
                    None => None,
                },
                None => None,
            },
            None => None,
        },
        None => None,
    }
}

pub open spec fn spec_parse_json_provenance(b: Seq<u8>, i: int) -> Option<(ProvenanceV, int)> {
    match json::spec_expect(b, i, encode_utf8("{\"cat_kid\":"@)) {
        Some(j) => match json::spec_parse_jstring(b, j) {
            Some((ck, j2)) => match json::spec_expect(b, j2, encode_utf8(",\"cat_sig\":"@)) {
                Some(j3) => match json::spec_parse_jhex(b, j3) {
                    Some((cs, j4)) => match json::spec_expect(
                        b,
                        j4,
                        encode_utf8(",\"executor_kid\":"@),
                    ) {
                        Some(j5) => match json::spec_parse_jstring(b, j5) {
                            Some((ek, j6)) => match json::spec_expect(
                                b,
                                j6,
                                encode_utf8(",\"executor_sig\":"@),
                            ) {
                                Some(j7) => match json::spec_parse_jhex(b, j7) {
                                    Some((es, j8)) => match json::spec_expect(
                                        b,
                                        j8,
                                        seq![0x7du8],
                                    ) {
                                        Some(j9) => Some(
                                            (
                                                ProvenanceV {
                                                    cat_kid: ck,
                                                    cat_sig: cs,
                                                    executor_kid: ek,
                                                    executor_sig: es,
                                                },
                                                j9,
                                            ),
                                        ),
                                        None => None,
                                    },
                                    None => None,
                                },
                                None => None,
                            },
                            None => None,
                        },
                        None => None,
                    },
                    None => None,
                },
                None => None,
            },
            None => None,
        },
        None => None,
    }
}

pub open spec fn spec_parse_json_opt_uint(b: Seq<u8>, i: int) -> Option<(Option<u64>, int)> {
    if json::spec_at_jnull(b, i) {
        Some((None, i + 4))
    } else {
        match json::spec_parse_dec(b, i) {
            Some((n, j)) => Some((Some(n as u64), j)),
            None => None,
        }
    }
}

pub open spec fn spec_parse_json_temporal(b: Seq<u8>, i: int) -> Option<(TemporalConstraints, int)> {
    match json::spec_expect(b, i, encode_utf8("{\"iat\":"@)) {
        Some(j) => match spec_parse_json_opt_uint(b, j) {
            Some((iat, j2)) => match json::spec_expect(b, j2, encode_utf8(",\"exp\":"@)) {
                Some(j3) => match spec_parse_json_opt_uint(b, j3) {
                    Some((exp, j4)) => match json::spec_expect(b, j4, encode_utf8(",\"nbf\":"@)) {
                        Some(j5) => match spec_parse_json_opt_uint(b, j5) {
                            Some((nbf, j6)) => match json::spec_expect(b, j6, seq![0x7du8]) {
                                Some(j7) => Some((TemporalConstraints { iat, exp, nbf }, j7)),
                                None => None,
                            },
                            None => None,
                        },
                        None => None,
                    },
                    None => None,
                },
                None => None,
            },
            None => None,
        },
        None => None,
    }
}

pub open spec fn spec_parse_json_constraints(b: Seq<u8>, i: int) -> Option<(Constraints, int)> {
    match json::spec_expect(b, i, encode_utf8("{\"temporal\":"@)) {
        Some(j) => {
            let inner: Option<(Option<TemporalConstraints>, int)> = if json::spec_at_jnull(b, j) {
                Some((None, j + 4))
            } else {
                match spec_parse_json_temporal(b, j) {
                    Some((t, j2)) => Some((Some(t), j2)),
                    None => None,
                }
            };
            match inner {
                Some((t, j2)) => match json::spec_expect(b, j2, seq![0x7du8]) {
                    Some(j3) => Some((Constraints { temporal: t }, j3)),
                    None => None,
                },
                None => None,
            }
        },
        None => None,
    }
}

pub open spec fn spec_parse_json_opt_prev(b: Seq<u8>, i: int) -> Option<
    (Option<PrevExecutorV>, int),
> {
    if json::spec_at_jnull(b, i) {
        Some((None, i + 4))
    } else {
        match spec_parse_json_prev_executor(b, i) {
            Some((x, j)) => Some((Some(x), j)),
            None => None,
        }
    }
}

pub open spec fn spec_parse_json_opt_prov(b: Seq<u8>, i: int) -> Option<(Option<ProvenanceV>, int)> {
    if json::spec_at_jnull(b, i) {
        Some((None, i + 4))
    } else {
        match spec_parse_json_provenance(b, i) {
            Some((x, j)) => Some((Some(x), j)),
            None => None,
        }
    }
}

pub open spec fn spec_parse_json_opt_constraints(b: Seq<u8>, i: int) -> Option<
    (Option<Constraints>, int),
> {
    if json::spec_at_jnull(b, i) {
        Some((None, i + 4))
    } else {
        match spec_parse_json_constraints(b, i) {
            Some((x, j)) => Some((Some(x), j)),
            None => None,
        }
    }
}

pub open spec fn spec_parse_json_pca_payload(b: Seq<u8>, i: int) -> Option<(PcaPayloadV, int)> {
    match json::spec_expect(b, i, encode_utf8("{\"hop\":"@)) {
        Some(j) => match json::spec_parse_dec(b, j) {
            Some((hop, j2)) => if hop < 0x1_0000_0000 {
                match json::spec_expect(b, j2, encode_utf8(",\"p_0\":"@)) {
                    Some(j3) => match json::spec_parse_jstring(b, j3) {
                        Some((p0, j4)) => match json::spec_expect(b, j4, encode_utf8(",\"ops\":"@)) {
                            Some(j5) => match json::spec_parse_jstr_array(b, j5) {
                                Some((ops, j6)) => match json::spec_expect(
                                    b,
                                    j6,
                                    encode_utf8(",\"executor\":"@),
                                ) {
                                    Some(j7) => match spec_parse_json_executor(b, j7) {
                                        Some((ex, j8)) => match json::spec_expect(
                                            b,
                                            j8,
                                            encode_utf8(",\"prev_executor\":"@),
                                        ) {
                                            Some(j9) => match spec_parse_json_opt_prev(b, j9) {
                                                Some((pe, j10)) => match json::spec_expect(
                                                    b,
                                                    j10,
                                                    encode_utf8(",\"provenance\":"@),
                                                ) {
                                                    Some(j11) => match spec_parse_json_opt_prov(
                                                        b,
                                                        j11,
                                                    ) {
                                                        Some((pv, j12)) => match json::spec_expect(
                                                            b,
                                                            j12,
                                                            encode_utf8(",\"constraints\":"@),
                                                        ) {
                                                            Some(j13) => match
                                                                spec_parse_json_opt_constraints(
                                                                b,
                                                                j13,
                                                            ) {
                                                                Some((cn, j14)) => match
                                                                    json::spec_expect(
                                                                    b,
                                                                    j14,
                                                                    seq![0x7du8],
                                                                ) {
                                                                    Some(j15) => Some(
                                                                        (
                                                                            PcaPayloadV {
                                                                                hop: hop as u32,
                                                                                p_0: p0,
                                                                                ops,
                                                                                executor: ex,
                                                                                prev_executor: pe,
                                                                                provenance: pv,
                                                                                constraints: cn,
                                                                            },
                                                                            j15,
                                                                        ),
                                                                    ),
                                                                    None => None,
                                                                },
                                                                None => None,
                                                            },
                                                            None => None,
                                                        },
                                                        None => None,
                                                    },
                                                    None => None,
                                                },
                                                None => None,
                                            },
                                            None => None,
                                        },
                                        None => None,
                                    },
                                    None => None,
                                },
                                None => None,
                            },
                            None => None,
                        },
                        None => None,
                    },
                    None => None,
                }
            } else {
                None
            },
            None => None,
        },
        None => None,
    }
}

pub open spec fn spec_parse_json_pca(b: Seq<u8>, i: int) -> Option<(PcaV, int)> {
    match json::spec_expect(b, i, encode_utf8("{\"issuer_id\":"@)) {
        Some(j) => match json::spec_parse_jstring(b, j) {
            Some((kid, j2)) => match json::spec_expect(
                b,
                j2,
                encode_utf8(",\"alg\":\"EdDSA\",\"issuer_sig\":"@),
            ) {
                Some(j3) => match json::spec_parse_jhex(b, j3) {
                    Some((sig, j4)) => match json::spec_expect(
                        b,
                        j4,
                        encode_utf8(",\"payload\":"@),
                    ) {
                        Some(j5) => match spec_parse_json_pca_payload(b, j5) {
                            Some((pl, j6)) => match json::spec_expect(b, j6, seq![0x7du8]) {
                                Some(j7) => Some(
                                    (PcaV { issuer_id: kid, issuer_sig: sig, payload: pl }, j7),
                                ),
                                None => None,
                            },
                            None => None,
                        },
                        None => None,
                    },
                    None => None,
                },
                None => None,
            },
            None => None,
        },
        None => None,
    }
}

/// Decode a whole byte string as one PCA in JSON form.
pub open spec fn spec_json_pca_dec(b: Seq<u8>) -> Option<PcaV> {
    match spec_parse_json_pca(b, 0) {
        Some((v, j)) => if j == b.len() {
            Some(v)
        } else {
            None
        },
        None => None,
    }
}

// ---------------------------------------------------------------------------
// JSON: parse-of-encode lemmas
// ---------------------------------------------------------------------------

pub proof fn lemma_parse_json_executor_id_of_enc(b: Seq<u8>, i: int, e: ExecutorIdV)
    requires
        0 <= i,
        i + spec_json_executor_id(e).len() <= b.len(),
        b.subrange(i, i + spec_json_executor_id(e).len()) == spec_json_executor_id(e),
    ensures
        spec_parse_json_executor_id(b, i) == Some((e, i + spec_json_executor_id(e).len())),
{
    let k1 = encode_utf8("{\"service\":"@);
    let v1 = json::spec_jstring(e.service);
    let cl = seq![0x7du8];
    assert(spec_json_executor_id(e) == k1 + v1 + cl);
    lemma_concat_split(b, i, k1 + v1, cl);
    lemma_concat_split(b, i, k1, v1);
    json::lemma_parse_jstring_of_enc(b, i + k1.len(), e.service);
    assert(ExecutorIdV { service: e.service } == e);
}

pub proof fn lemma_parse_json_executor_of_enc(b: Seq<u8>, i: int, e: ExecutorV)
    requires
        0 <= i,
        i + spec_json_executor(e).len() <= b.len(),
        b.subrange(i, i + spec_json_executor(e).len()) == spec_json_executor(e),
    ensures
        spec_parse_json_executor(b, i) == Some((e, i + spec_json_executor(e).len())),
{
    let k1 = encode_utf8("{\"id\":"@);
    let v1 = spec_json_executor_id(e.id);
    let k2 = encode_utf8(",\"binding\":"@);
    let v2 = spec_json_binding(e.binding);
    let k3 = encode_utf8(",\"public_key\":"@);
    let v3 = json::spec_jhex(e.public_key);
    let k4 = encode_utf8(",\"key_type\":"@);
    let v4 = json::spec_jstring(e.key_type);
    let cl = seq![0x7du8];
    assert(spec_json_executor(e) == k1 + v1 + k2 + v2 + k3 + v3 + k4 + (v4 + cl)) by {
        assert(spec_json_executor(e) =~= k1 + v1 + k2 + v2 + k3 + v3 + k4 + (v4 + cl));
    }
    cbor::lemma_concat_split8(b, i, k1, v1, k2, v2, k3, v3, k4, v4 + cl);
    let p1 = i + k1.len();
    lemma_parse_json_executor_id_of_enc(b, p1, e.id);
    let p2 = p1 + v1.len() + k2.len();
    lemma_parse_json_binding_of_enc(b, p2, e.binding);
    let p3 = p2 + v2.len() + k3.len();
    json::lemma_parse_jhex_of_enc(b, p3, e.public_key);
    let p4 = p3 + v3.len() + k4.len();
    lemma_concat_split(b, p4, v4, cl);
    json::lemma_parse_jstring_of_enc(b, p4, e.key_type);
    assert(ExecutorV { id: e.id, binding: e.binding, public_key: e.public_key, key_type: e.key_type }
        == e);
}

pub proof fn lemma_parse_json_prev_executor_of_enc(b: Seq<u8>, i: int, p: PrevExecutorV)
    requires
        0 <= i,
        i + spec_json_prev_executor(p).len() <= b.len(),
        b.subrange(i, i + spec_json_prev_executor(p).len()) == spec_json_prev_executor(p),
    ensures
        spec_parse_json_prev_executor(b, i) == Some((p, i + spec_json_prev_executor(p).len())),
{
    let k1 = encode_utf8("{\"public_key\":"@);
    let v1 = json::spec_jhex(p.public_key);
    let k2 = encode_utf8(",\"key_type\":"@);
    let v2 = json::spec_jstring(p.key_type);
    let cl = seq![0x7du8];
    assert(spec_json_prev_executor(p) == k1 + v1 + k2 + (v2 + cl)) by {
        assert(spec_json_prev_executor(p) =~= k1 + v1 + k2 + (v2 + cl));
    }
    cbor::lemma_concat_split8(
        b,
        i,
        k1,
        v1,
        k2,
        v2 + cl,
        Seq::empty(),
        Seq::empty(),
        Seq::empty(),
        Seq::empty(),
    );
    let p1 = i + k1.len();
    json::lemma_parse_jhex_of_enc(b, p1, p.public_key);
    let p2 = p1 + v1.len() + k2.len();
    lemma_concat_split(b, p2, v2, cl);
    json::lemma_parse_jstring_of_enc(b, p2, p.key_type);
    assert(PrevExecutorV { public_key: p.public_key, key_type: p.key_type } == p);
}

pub proof fn lemma_parse_json_provenance_of_enc(b: Seq<u8>, i: int, p: ProvenanceV)
    requires
        0 <= i,
        i + spec_json_provenance(p).len() <= b.len(),
        b.subrange(i, i + spec_json_provenance(p).len()) == spec_json_provenance(p),
    ensures
        spec_parse_json_provenance(b, i) == Some((p, i + spec_json_provenance(p).len())),
{
    let k1 = encode_utf8("{\"cat_kid\":"@);
    let v1 = json::spec_jstring(p.cat_kid);
    let k2 = encode_utf8(",\"cat_sig\":"@);
    let v2 = json::spec_jhex(p.cat_sig);
    let k3 = encode_utf8(",\"executor_kid\":"@);
    let v3 = json::spec_jstring(p.executor_kid);
    let k4 = encode_utf8(",\"executor_sig\":"@);
    let v4 = json::spec_jhex(p.executor_sig);
    let cl = seq![0x7du8];
    assert(spec_json_provenance(p) == k1 + v1 + k2 + v2 + k3 + v3 + k4 + (v4 + cl)) by {
        assert(spec_json_provenance(p) =~= k1 + v1 + k2 + v2 + k3 + v3 + k4 + (v4 + cl));
    }
    cbor::lemma_concat_split8(b, i, k1, v1, k2, v2, k3, v3, k4, v4 + cl);
    let p1 = i + k1.len();
    json::lemma_parse_jstring_of_enc(b, p1, p.cat_kid);
    let p2 = p1 + v1.len() + k2.len();
    json::lemma_parse_jhex_of_enc(b, p2, p.cat_sig);
    let p3 = p2 + v2.len() + k3.len();
    json::lemma_parse_jstring_of_enc(b, p3, p.executor_kid);
    let p4 = p3 + v3.len() + k4.len();
    lemma_concat_split(b, p4, v4, cl);
    json::lemma_parse_jhex_of_enc(b, p4, p.executor_sig);
    assert(ProvenanceV {
        cat_kid: p.cat_kid,
        cat_sig: p.cat_sig,
        executor_kid: p.executor_kid,
        executor_sig: p.executor_sig,
    } == p);
}

/// `o`'s token parses exactly, provided the byte after it is not a
/// decimal digit (the number token is scan-delimited).
pub proof fn lemma_parse_json_opt_uint_of_enc(b: Seq<u8>, i: int, o: Option<u64>)
    requires
        0 <= i,
        i + spec_json_opt_uint(o).len() <= b.len(),
        b.subrange(i, i + spec_json_opt_uint(o).len()) == spec_json_opt_uint(o),
        i + spec_json_opt_uint(o).len() == b.len() || !json::is_digit(
            b[i + spec_json_opt_uint(o).len()],
        ),
    ensures
        spec_parse_json_opt_uint(b, i) == Some((o, i + spec_json_opt_uint(o).len())),
{
    match o {
        None => {
            assert(json::spec_at_jnull(b, i)) by {
                assert(b.subrange(i, i + 4) =~= json::spec_jnull());
            }
        },
        Some(n) => {
            json::lemma_dec_digits_wf(n as nat);
            assert(b[i] == json::dec_digits(n as nat)[0]);
            assert(json::is_digit(b[i]));
            assert(!json::spec_at_jnull(b, i)) by {
                if json::spec_at_jnull(b, i) {
                    assert(b.subrange(i, i + 4)[0] == json::spec_jnull()[0]);
                }
            }
            json::lemma_parse_dec_of_enc(b, i, n as nat);
        },
    }
}

pub proof fn lemma_parse_json_temporal_of_enc(b: Seq<u8>, i: int, t: TemporalConstraints)
    requires
        0 <= i,
        i + spec_json_temporal(t).len() <= b.len(),
        b.subrange(i, i + spec_json_temporal(t).len()) == spec_json_temporal(t),
    ensures
        spec_parse_json_temporal(b, i) == Some((t, i + spec_json_temporal(t).len())),
{
    lemma_pca_json_keys();
    let k1 = encode_utf8("{\"iat\":"@);
    let v1 = spec_json_opt_uint(t.iat);
    let k2 = encode_utf8(",\"exp\":"@);
    let v2 = spec_json_opt_uint(t.exp);
    let k3 = encode_utf8(",\"nbf\":"@);
    let v3 = spec_json_opt_uint(t.nbf);
    let cl = seq![0x7du8];
    assert(spec_json_temporal(t) == k1 + v1 + k2 + v2 + k3 + v3 + cl) by {
        assert(spec_json_temporal(t) =~= k1 + v1 + k2 + v2 + k3 + v3 + cl);
    }
    cbor::lemma_concat_split8(b, i, k1, v1, k2, v2, k3, v3, cl, Seq::empty());
    let p1 = i + k1.len();
    assert(b[p1 + v1.len()] == k2[0]);
    lemma_parse_json_opt_uint_of_enc(b, p1, t.iat);
    let p2 = p1 + v1.len() + k2.len();
    assert(b[p2 + v2.len()] == k3[0]);
    lemma_parse_json_opt_uint_of_enc(b, p2, t.exp);
    let p3 = p2 + v2.len() + k3.len();
    assert(b[p3 + v3.len()] == cl[0]);
    lemma_parse_json_opt_uint_of_enc(b, p3, t.nbf);
    assert(TemporalConstraints { iat: t.iat, exp: t.exp, nbf: t.nbf } == t);
}

pub proof fn lemma_parse_json_constraints_of_enc(b: Seq<u8>, i: int, c: Constraints)
    requires
        0 <= i,
        i + spec_json_constraints(c).len() <= b.len(),
        b.subrange(i, i + spec_json_constraints(c).len()) == spec_json_constraints(c),
    ensures
        spec_parse_json_constraints(b, i) == Some((c, i + spec_json_constraints(c).len())),
{
    lemma_pca_json_keys();
    let k1 = encode_utf8("{\"temporal\":"@);
    let v1 = match c.temporal {
        Some(t) => spec_json_temporal(t),
        None => json::spec_jnull(),
    };
    let cl = seq![0x7du8];
    assert(spec_json_constraints(c) == k1 + v1 + cl);
    lemma_concat_split(b, i, k1 + v1, cl);
    lemma_concat_split(b, i, k1, v1);
    let p1 = i + k1.len();
    match c.temporal {
        None => {
            assert(json::spec_at_jnull(b, p1)) by {
                assert(b.subrange(p1, p1 + 4) =~= json::spec_jnull());
            }
        },
        Some(t) => {
            assert(b[p1] == v1[0]);
            assert(v1[0] == 0x7b);
            assert(!json::spec_at_jnull(b, p1)) by {
                if json::spec_at_jnull(b, p1) {
                    assert(b.subrange(p1, p1 + 4)[0] == json::spec_jnull()[0]);
                }
            }
            lemma_parse_json_temporal_of_enc(b, p1, t);
        },
    }
}

proof fn lemma_json_payload_split(p: PcaPayloadV)
    ensures
        spec_json_pca_payload(p) == spec_json_pca_payload_front(p) + spec_json_pca_payload_back(p),
{
}

#[verifier::spinoff_prover]
proof fn lemma_parse_json_payload_front(b: Seq<u8>, i: int, p: PcaPayloadV)
    requires
        0 <= i,
        i + spec_json_pca_payload_front(p).len() + 1 <= b.len(),
        b.subrange(i, i + spec_json_pca_payload_front(p).len()) == spec_json_pca_payload_front(p),
        b[i + spec_json_pca_payload_front(p).len()] == 0x2c,
    ensures
        ({
            let k1 = encode_utf8("{\"hop\":"@);
            let v1 = json::dec_digits(p.hop as nat);
            let k2 = encode_utf8(",\"p_0\":"@);
            let v2 = json::spec_jstring(p.p_0);
            let k3 = encode_utf8(",\"ops\":"@);
            let v3 = json::spec_jstr_array(p.ops);
            let k4 = encode_utf8(",\"executor\":"@);
            let v4 = spec_json_executor(p.executor);
            let p1 = i + k1.len();
            let p2 = p1 + v1.len() + k2.len();
            let p3 = p2 + v2.len() + k3.len();
            let p4 = p3 + v3.len() + k4.len();
            &&& json::spec_expect(b, i, k1) == Some(p1)
            &&& json::spec_parse_dec(b, p1) == Some((p.hop as nat, p1 + v1.len()))
            &&& json::spec_expect(b, p1 + v1.len(), k2) == Some(p2)
            &&& json::spec_parse_jstring(b, p2) == Some((p.p_0, p2 + v2.len()))
            &&& json::spec_expect(b, p2 + v2.len(), k3) == Some(p3)
            &&& json::spec_parse_jstr_array(b, p3) == Some((p.ops, p3 + v3.len()))
            &&& json::spec_expect(b, p3 + v3.len(), k4) == Some(p4)
            &&& spec_parse_json_executor(b, p4) == Some((p.executor, p4 + v4.len()))
            &&& p4 + v4.len() == i + spec_json_pca_payload_front(p).len()
        }),
{
    lemma_pca_json_keys();
    let k1 = encode_utf8("{\"hop\":"@);
    let v1 = json::dec_digits(p.hop as nat);
    let k2 = encode_utf8(",\"p_0\":"@);
    let v2 = json::spec_jstring(p.p_0);
    let k3 = encode_utf8(",\"ops\":"@);
    let v3 = json::spec_jstr_array(p.ops);
    let k4 = encode_utf8(",\"executor\":"@);
    let v4 = spec_json_executor(p.executor);
    assert(spec_json_pca_payload_front(p) == k1 + v1 + k2 + v2 + k3 + v3 + k4 + v4);
    cbor::lemma_concat_split8(b, i, k1, v1, k2, v2, k3, v3, k4, v4);
    let p1 = i + k1.len();
    json::lemma_dec_digits_wf(p.hop as nat);
    assert(b[p1 + v1.len()] == k2[0]);
    json::lemma_parse_dec_of_enc(b, p1, p.hop as nat);
    let p2 = p1 + v1.len() + k2.len();
    json::lemma_parse_jstring_of_enc(b, p2, p.p_0);
    let p3 = p2 + v2.len() + k3.len();
    json::lemma_parse_jstr_array_of_enc(b, p3, p.ops);
    let p4 = p3 + v3.len() + k4.len();
    lemma_parse_json_executor_of_enc(b, p4, p.executor);
}

#[verifier::rlimit(100)]
#[verifier::spinoff_prover]
proof fn lemma_parse_json_payload_back(b: Seq<u8>, i: int, p: PcaPayloadV)
    requires
        0 <= i,
        i + spec_json_pca_payload_back(p).len() <= b.len(),
        b.subrange(i, i + spec_json_pca_payload_back(p).len()) == spec_json_pca_payload_back(p),
    ensures
        ({
            let k5 = encode_utf8(",\"prev_executor\":"@);
            let v5 = match p.prev_executor {
                Some(x) => spec_json_prev_executor(x),
                None => json::spec_jnull(),
            };
            let k6 = encode_utf8(",\"provenance\":"@);
            let v6 = match p.provenance {
                Some(x) => spec_json_provenance(x),
                None => json::spec_jnull(),
            };
            let k7 = encode_utf8(",\"constraints\":"@);
            let v7 = match p.constraints {
                Some(c) => spec_json_constraints(c),
                None => json::spec_jnull(),
            };
            let q5 = i + k5.len();
            let q6 = q5 + v5.len() + k6.len();
            let q7 = q6 + v6.len() + k7.len();
            &&& json::spec_expect(b, i, k5) == Some(q5)
            &&& spec_parse_json_opt_prev(b, q5) == Some((p.prev_executor, q5 + v5.len()))
            &&& json::spec_expect(b, q5 + v5.len(), k6) == Some(q6)
            &&& spec_parse_json_opt_prov(b, q6) == Some((p.provenance, q6 + v6.len()))
            &&& json::spec_expect(b, q6 + v6.len(), k7) == Some(q7)
            &&& spec_parse_json_opt_constraints(b, q7) == Some((p.constraints, q7 + v7.len()))
            &&& json::spec_expect(b, q7 + v7.len(), seq![0x7du8]) == Some(
                i + spec_json_pca_payload_back(p).len(),
            )
        }),
{
    lemma_pca_json_keys();
    let k5 = encode_utf8(",\"prev_executor\":"@);
    let v5 = match p.prev_executor {
        Some(x) => spec_json_prev_executor(x),
        None => json::spec_jnull(),
    };
    let k6 = encode_utf8(",\"provenance\":"@);
    let v6 = match p.provenance {
        Some(x) => spec_json_provenance(x),
        None => json::spec_jnull(),
    };
    let k7 = encode_utf8(",\"constraints\":"@);
    let v7 = match p.constraints {
        Some(c) => spec_json_constraints(c),
        None => json::spec_jnull(),
    };
    let cl = seq![0x7du8];
    assert(spec_json_pca_payload_back(p) == k5 + v5 + k6 + v6 + k7 + v7 + cl);
    cbor::lemma_concat_split8(b, i, k5, v5, k6, v6, k7, v7, cl, Seq::empty());
    let q5 = i + k5.len();
    match p.prev_executor {
        None => {
            assert(json::spec_at_jnull(b, q5)) by {
                assert(b.subrange(q5, q5 + 4) =~= json::spec_jnull());
            }
        },
        Some(x) => {
            assert(b[q5] == v5[0]);
            assert(v5[0] == 0x7b);
            assert(!json::spec_at_jnull(b, q5)) by {
                if json::spec_at_jnull(b, q5) {
                    assert(b.subrange(q5, q5 + 4)[0] == json::spec_jnull()[0]);
                }
            }
            lemma_parse_json_prev_executor_of_enc(b, q5, x);
        },
    }
    let q6 = q5 + v5.len() + k6.len();
    match p.provenance {
        None => {
            assert(json::spec_at_jnull(b, q6)) by {
                assert(b.subrange(q6, q6 + 4) =~= json::spec_jnull());
            }
        },
        Some(x) => {
            assert(b[q6] == v6[0]);
            assert(v6[0] == 0x7b);
            assert(!json::spec_at_jnull(b, q6)) by {
                if json::spec_at_jnull(b, q6) {
                    assert(b.subrange(q6, q6 + 4)[0] == json::spec_jnull()[0]);
                }
            }
            lemma_parse_json_provenance_of_enc(b, q6, x);
        },
    }
    let q7 = q6 + v6.len() + k7.len();
    match p.constraints {
        None => {
            assert(json::spec_at_jnull(b, q7)) by {
                assert(b.subrange(q7, q7 + 4) =~= json::spec_jnull());
            }
        },
        Some(c) => {
            assert(b[q7] == v7[0]);
            assert(v7[0] == 0x7b);
            assert(!json::spec_at_jnull(b, q7)) by {
                if json::spec_at_jnull(b, q7) {
                    assert(b.subrange(q7, q7 + 4)[0] == json::spec_jnull()[0]);
                }
            }
            lemma_parse_json_constraints_of_enc(b, q7, c);
        },
    }
}

#[verifier::rlimit(100)]
#[verifier::spinoff_prover]
pub proof fn lemma_parse_json_pca_payload_of_enc(b: Seq<u8>, i: int, p: PcaPayloadV)
    requires
        0 <= i,
        i + spec_json_pca_payload(p).len() <= b.len(),
        b.subrange(i, i + spec_json_pca_payload(p).len()) == spec_json_pca_payload(p),
    ensures
        spec_parse_json_pca_payload(b, i) == Some((p, i + spec_json_pca_payload(p).len())),
{
    lemma_json_payload_split(p);
    let fa = spec_json_pca_payload_front(p);
    let fb = spec_json_pca_payload_back(p);
    lemma_concat_split(b, i, fa, fb);
    let m = i + fa.len();
    assert(b[m] == fb[0]) by {
        assert(b.subrange(m, m + fb.len())[0] == fb[0]);
    }
    assert(fb[0] == 0x2c) by {
        lemma_pca_json_keys();
        assert(fb[0] == encode_utf8(",\"prev_executor\":"@)[0]);
    }
    lemma_parse_json_payload_front(b, i, p);
    lemma_parse_json_payload_back(b, m, p);
    assert(PcaPayloadV {
        hop: ((p.hop as nat) as u32),
        p_0: p.p_0,
        ops: p.ops,
        executor: p.executor,
        prev_executor: p.prev_executor,
        provenance: p.provenance,
        constraints: p.constraints,
    } == p);
}

#[verifier::rlimit(100)]
#[verifier::spinoff_prover]
pub proof fn lemma_parse_json_pca_of_enc(b: Seq<u8>, i: int, v: PcaV)
    requires
        0 <= i,
        i + spec_json_pca(v).len() <= b.len(),
        b.subrange(i, i + spec_json_pca(v).len()) == spec_json_pca(v),
    ensures
        spec_parse_json_pca(b, i) == Some((v, i + spec_json_pca(v).len())),
{
    let k1 = encode_utf8("{\"issuer_id\":"@);
    let v1 = json::spec_jstring(v.issuer_id);
    let k2 = encode_utf8(",\"alg\":\"EdDSA\",\"issuer_sig\":"@);
    let v2 = json::spec_jhex(v.issuer_sig);
    let k3 = encode_utf8(",\"payload\":"@);
    let v3 = spec_json_pca_payload(v.payload);
    let cl = seq![0x7du8];
    assert(spec_json_pca(v) == k1 + v1 + k2 + v2 + k3 + v3 + cl) by {
        assert(spec_json_pca(v) =~= k1 + v1 + k2 + v2 + k3 + v3 + cl);
    }
    cbor::lemma_concat_split8(b, i, k1, v1, k2, v2, k3, v3, cl, Seq::empty());
    let p1 = i + k1.len();
    json::lemma_parse_jstring_of_enc(b, p1, v.issuer_id);
    let p2 = p1 + v1.len() + k2.len();
    json::lemma_parse_jhex_of_enc(b, p2, v.issuer_sig);
    let p3 = p2 + v2.len() + k3.len();
    lemma_parse_json_pca_payload_of_enc(b, p3, v.payload);
    assert(PcaV { issuer_id: v.issuer_id, issuer_sig: v.issuer_sig, payload: v.payload } == v);
}

// ---------------------------------------------------------------------------
// The emitted JSON is valid UTF-8
// ---------------------------------------------------------------------------

pub proof fn lemma_json_executor_id_valid(e: ExecutorIdV)
    ensures
        vstd::utf8::valid_utf8(spec_json_executor_id(e)),
{
    vstd::utf8::encode_utf8_valid_utf8("{\"service\":"@);
    json::lemma_jstring_valid_utf8(e.service);
    json::lemma_ascii_valid_utf8(seq![0x7du8]);
    vstd::utf8::valid_utf8_concat(encode_utf8("{\"service\":"@), json::spec_jstring(e.service));
    vstd::utf8::valid_utf8_concat(
        encode_utf8("{\"service\":"@) + json::spec_jstring(e.service),
        seq![0x7du8],
    );
}

pub proof fn lemma_json_executor_valid(e: ExecutorV)
    ensures
        vstd::utf8::valid_utf8(spec_json_executor(e)),
{
    vstd::utf8::encode_utf8_valid_utf8("{\"id\":"@);
    vstd::utf8::encode_utf8_valid_utf8(",\"binding\":"@);
    vstd::utf8::encode_utf8_valid_utf8(",\"public_key\":"@);
    vstd::utf8::encode_utf8_valid_utf8(",\"key_type\":"@);
    lemma_json_executor_id_valid(e.id);
    crate::binding::lemma_json_binding_valid_utf8(e.binding);
    json::lemma_jhex_valid_utf8(e.public_key);
    json::lemma_jstring_valid_utf8(e.key_type);
    json::lemma_ascii_valid_utf8(seq![0x7du8]);
    json::lemma_valid_concat8(
        encode_utf8("{\"id\":"@),
        spec_json_executor_id(e.id),
        encode_utf8(",\"binding\":"@),
        spec_json_binding(e.binding),
        encode_utf8(",\"public_key\":"@),
        json::spec_jhex(e.public_key),
        encode_utf8(",\"key_type\":"@),
        json::spec_jstring(e.key_type),
    );
    vstd::utf8::valid_utf8_concat(
        encode_utf8("{\"id\":"@) + spec_json_executor_id(e.id) + encode_utf8(",\"binding\":"@)
            + spec_json_binding(e.binding) + encode_utf8(",\"public_key\":"@) + json::spec_jhex(
            e.public_key,
        ) + encode_utf8(",\"key_type\":"@) + json::spec_jstring(e.key_type),
        seq![0x7du8],
    );
}

pub proof fn lemma_json_prev_executor_valid(p: PrevExecutorV)
    ensures
        vstd::utf8::valid_utf8(spec_json_prev_executor(p)),
{
    vstd::utf8::encode_utf8_valid_utf8("{\"public_key\":"@);
    vstd::utf8::encode_utf8_valid_utf8(",\"key_type\":"@);
    json::lemma_jhex_valid_utf8(p.public_key);
    json::lemma_jstring_valid_utf8(p.key_type);
    json::lemma_ascii_valid_utf8(seq![0x7du8]);
    json::lemma_empty_valid_utf8();
    json::lemma_valid_concat8(
        encode_utf8("{\"public_key\":"@),
        json::spec_jhex(p.public_key),
        encode_utf8(",\"key_type\":"@),
        json::spec_jstring(p.key_type),
        seq![0x7du8],
        Seq::empty(),
        Seq::empty(),
        Seq::empty(),
    );
    assert(spec_json_prev_executor(p) =~= encode_utf8("{\"public_key\":"@) + json::spec_jhex(
        p.public_key,
    ) + encode_utf8(",\"key_type\":"@) + json::spec_jstring(p.key_type) + seq![0x7du8]);
}

pub proof fn lemma_json_provenance_valid(p: ProvenanceV)
    ensures
        vstd::utf8::valid_utf8(spec_json_provenance(p)),
{
    vstd::utf8::encode_utf8_valid_utf8("{\"cat_kid\":"@);
    vstd::utf8::encode_utf8_valid_utf8(",\"cat_sig\":"@);
    vstd::utf8::encode_utf8_valid_utf8(",\"executor_kid\":"@);
    vstd::utf8::encode_utf8_valid_utf8(",\"executor_sig\":"@);
    json::lemma_jstring_valid_utf8(p.cat_kid);
    json::lemma_jhex_valid_utf8(p.cat_sig);
    json::lemma_jstring_valid_utf8(p.executor_kid);
    json::lemma_jhex_valid_utf8(p.executor_sig);
    json::lemma_ascii_valid_utf8(seq![0x7du8]);
    json::lemma_valid_concat8(
        encode_utf8("{\"cat_kid\":"@),
        json::spec_jstring(p.cat_kid),
        encode_utf8(",\"cat_sig\":"@),
        json::spec_jhex(p.cat_sig),
        encode_utf8(",\"executor_kid\":"@),
        json::spec_jstring(p.executor_kid),
        encode_utf8(",\"executor_sig\":"@),
        json::spec_jhex(p.executor_sig),
    );
    vstd::utf8::valid_utf8_concat(
        encode_utf8("{\"cat_kid\":"@) + json::spec_jstring(p.cat_kid) + encode_utf8(
            ",\"cat_sig\":"@,
        ) + json::spec_jhex(p.cat_sig) + encode_utf8(",\"executor_kid\":"@) + json::spec_jstring(
            p.executor_kid,
        ) + encode_utf8(",\"executor_sig\":"@) + json::spec_jhex(p.executor_sig),
        seq![0x7du8],
    );
}

pub proof fn lemma_json_opt_uint_valid(o: Option<u64>)
    ensures
        vstd::utf8::valid_utf8(spec_json_opt_uint(o)),
{
    match o {
        Some(n) => json::lemma_dec_valid_utf8(n as nat),
        None => json::lemma_jnull_valid_utf8(),
    }
}

pub proof fn lemma_json_temporal_valid(t: TemporalConstraints)
    ensures
        vstd::utf8::valid_utf8(spec_json_temporal(t)),
{
    vstd::utf8::encode_utf8_valid_utf8("{\"iat\":"@);
    vstd::utf8::encode_utf8_valid_utf8(",\"exp\":"@);
    vstd::utf8::encode_utf8_valid_utf8(",\"nbf\":"@);
    lemma_json_opt_uint_valid(t.iat);
    lemma_json_opt_uint_valid(t.exp);
    lemma_json_opt_uint_valid(t.nbf);
    json::lemma_ascii_valid_utf8(seq![0x7du8]);
    json::lemma_empty_valid_utf8();
    json::lemma_valid_concat8(
        encode_utf8("{\"iat\":"@),
        spec_json_opt_uint(t.iat),
        encode_utf8(",\"exp\":"@),
        spec_json_opt_uint(t.exp),
        encode_utf8(",\"nbf\":"@),
        spec_json_opt_uint(t.nbf),
        seq![0x7du8],
        Seq::empty(),
    );
    assert(spec_json_temporal(t) =~= encode_utf8("{\"iat\":"@) + spec_json_opt_uint(t.iat)
        + encode_utf8(",\"exp\":"@) + spec_json_opt_uint(t.exp) + encode_utf8(",\"nbf\":"@)
        + spec_json_opt_uint(t.nbf) + seq![0x7du8]);
}

pub proof fn lemma_json_constraints_valid(c: Constraints)
    ensures
        vstd::utf8::valid_utf8(spec_json_constraints(c)),
{
    vstd::utf8::encode_utf8_valid_utf8("{\"temporal\":"@);
    match c.temporal {
        Some(t) => lemma_json_temporal_valid(t),
        None => json::lemma_jnull_valid_utf8(),
    }
    json::lemma_ascii_valid_utf8(seq![0x7du8]);
    let v = match c.temporal {
        Some(t) => spec_json_temporal(t),
        None => json::spec_jnull(),
    };
    vstd::utf8::valid_utf8_concat(encode_utf8("{\"temporal\":"@), v);
    vstd::utf8::valid_utf8_concat(encode_utf8("{\"temporal\":"@) + v, seq![0x7du8]);
}

pub proof fn lemma_json_pca_payload_valid(p: PcaPayloadV)
    ensures
        vstd::utf8::valid_utf8(spec_json_pca_payload(p)),
{
    vstd::utf8::encode_utf8_valid_utf8("{\"hop\":"@);
    vstd::utf8::encode_utf8_valid_utf8(",\"p_0\":"@);
    vstd::utf8::encode_utf8_valid_utf8(",\"ops\":"@);
    vstd::utf8::encode_utf8_valid_utf8(",\"executor\":"@);
    vstd::utf8::encode_utf8_valid_utf8(",\"prev_executor\":"@);
    vstd::utf8::encode_utf8_valid_utf8(",\"provenance\":"@);
    vstd::utf8::encode_utf8_valid_utf8(",\"constraints\":"@);
    json::lemma_dec_valid_utf8(p.hop as nat);
    json::lemma_jstring_valid_utf8(p.p_0);
    json::lemma_jstr_array_valid_utf8(p.ops);
    lemma_json_executor_valid(p.executor);
    let v5 = match p.prev_executor {
        Some(x) => spec_json_prev_executor(x),
        None => json::spec_jnull(),
    };
    let v6 = match p.provenance {
        Some(x) => spec_json_provenance(x),
        None => json::spec_jnull(),
    };
    let v7 = match p.constraints {
        Some(c) => spec_json_constraints(c),
        None => json::spec_jnull(),
    };
    match p.prev_executor {
        Some(x) => lemma_json_prev_executor_valid(x),
        None => json::lemma_jnull_valid_utf8(),
    }
    match p.provenance {
        Some(x) => lemma_json_provenance_valid(x),
        None => json::lemma_jnull_valid_utf8(),
    }
    match p.constraints {
        Some(c) => lemma_json_constraints_valid(c),
        None => json::lemma_jnull_valid_utf8(),
    }
    json::lemma_ascii_valid_utf8(seq![0x7du8]);
    json::lemma_empty_valid_utf8();
    json::lemma_valid_concat8(
        encode_utf8("{\"hop\":"@),
        json::dec_digits(p.hop as nat),
        encode_utf8(",\"p_0\":"@),
        json::spec_jstring(p.p_0),
        encode_utf8(",\"ops\":"@),
        json::spec_jstr_array(p.ops),
        encode_utf8(",\"executor\":"@),
        spec_json_executor(p.executor),
    );
    json::lemma_valid_concat8(
        encode_utf8(",\"prev_executor\":"@),
        v5,
        encode_utf8(",\"provenance\":"@),
        v6,
        encode_utf8(",\"constraints\":"@),
        v7,
        seq![0x7du8],
        Seq::empty(),
    );
    assert(vstd::utf8::valid_utf8(spec_json_pca_payload_back(p))) by {
        assert(spec_json_pca_payload_back(p) =~= encode_utf8(",\"prev_executor\":"@) + v5
            + encode_utf8(",\"provenance\":"@) + v6 + encode_utf8(",\"constraints\":"@) + v7
            + seq![0x7du8]);
    }
    vstd::utf8::valid_utf8_concat(spec_json_pca_payload_front(p), spec_json_pca_payload_back(p));
}

pub proof fn lemma_json_pca_valid(v: PcaV)
    ensures
        vstd::utf8::valid_utf8(spec_json_pca(v)),
{
    vstd::utf8::encode_utf8_valid_utf8("{\"issuer_id\":"@);
    vstd::utf8::encode_utf8_valid_utf8(",\"alg\":\"EdDSA\",\"issuer_sig\":"@);
    vstd::utf8::encode_utf8_valid_utf8(",\"payload\":"@);
    json::lemma_jstring_valid_utf8(v.issuer_id);
    json::lemma_jhex_valid_utf8(v.issuer_sig);
    lemma_json_pca_payload_valid(v.payload);
    json::lemma_ascii_valid_utf8(seq![0x7du8]);
    json::lemma_empty_valid_utf8();
    json::lemma_valid_concat8(
        encode_utf8("{\"issuer_id\":"@),
        json::spec_jstring(v.issuer_id),
        encode_utf8(",\"alg\":\"EdDSA\",\"issuer_sig\":"@),
        json::spec_jhex(v.issuer_sig),
        encode_utf8(",\"payload\":"@),
        spec_json_pca_payload(v.payload),
        seq![0x7du8],
        Seq::empty(),
    );
    assert(spec_json_pca(v) =~= encode_utf8("{\"issuer_id\":"@) + json::spec_jstring(v.issuer_id)
        + encode_utf8(",\"alg\":\"EdDSA\",\"issuer_sig\":"@) + json::spec_jhex(v.issuer_sig)
        + encode_utf8(",\"payload\":"@) + spec_json_pca_payload(v.payload) + seq![0x7du8]);
}

// ---------------------------------------------------------------------------
// JSON: executable encoders and parsers
// ---------------------------------------------------------------------------

fn push_json_executor_id(out: &mut Vec<u8>, e: &ExecutorId)
    ensures
        final(out)@ =~= old(out)@ + spec_json_executor_id(e@),
{
    out.extend_from_slice(("{\"service\":").as_bytes());
    json::push_jstring(out, e.service.as_str());
    out.push(0x7d);
    assert(out@ =~= old(out)@ + spec_json_executor_id(e@));
}

fn parse_json_executor_id(b: &[u8], i: usize) -> (r: Option<(ExecutorId, usize)>)
    ensures
        match r {
            Some((e, j)) => {
                &&& spec_parse_json_executor_id(b@, i as int) == Some((e@, j as int))
                &&& i <= j <= b@.len()
            },
            None => spec_parse_json_executor_id(b@, i as int) is None,
        },
{
    let j = match json::expect_lit(b, i, ("{\"service\":").as_bytes()) {
        Some(x) => x,
        None => {
            return None;
        },
    };
    let (sv, j2) = match json::parse_jstring(b, j) {
        Some(x) => x,
        None => {
            return None;
        },
    };
    let j3 = match json::expect_lit(b, j2, ("}").as_bytes()) {
        Some(x) => x,
        None => {
            proof {
                lemma_close_brace_lit();
            }
            return None;
        },
    };
    proof {
        lemma_close_brace_lit();
    }
    Some((ExecutorId { service: sv }, j3))
}

/// The one-byte literal `}` is the closing-brace byte.
proof fn lemma_close_brace_lit()
    ensures
        encode_utf8("}"@) =~= seq![0x7du8],
{
    reveal_strlit("}");
    vstd::utf8::is_ascii_chars_encode_utf8("}"@);
}

#[verifier::rlimit(100)]
pub fn push_json_executor(out: &mut Vec<u8>, e: &Executor)
    ensures
        final(out)@ =~= old(out)@ + spec_json_executor(e@),
{
    out.extend_from_slice(("{\"id\":").as_bytes());
    push_json_executor_id(out, &e.id);
    out.extend_from_slice((",\"binding\":").as_bytes());
    push_json_binding(out, &e.binding);
    out.extend_from_slice((",\"public_key\":").as_bytes());
    json::push_jhex(out, e.public_key.as_slice());
    out.extend_from_slice((",\"key_type\":").as_bytes());
    json::push_jstring(out, e.key_type.as_str());
    out.push(0x7d);
    assert(out@ =~= old(out)@ + spec_json_executor(e@));
}

pub fn parse_json_executor(b: &[u8], i: usize) -> (r: Option<(Executor, usize)>)
    ensures
        match r {
            Some((e, j)) => {
                &&& spec_parse_json_executor(b@, i as int) == Some((e@, j as int))
                &&& i <= j <= b@.len()
            },
            None => spec_parse_json_executor(b@, i as int) is None,
        },
{
    let j = match json::expect_lit(b, i, ("{\"id\":").as_bytes()) {
        Some(x) => x,
        None => {
            return None;
        },
    };
    let (id, j2) = match parse_json_executor_id(b, j) {
        Some(x) => x,
        None => {
            return None;
        },
    };
    let j3 = match json::expect_lit(b, j2, (",\"binding\":").as_bytes()) {
        Some(x) => x,
        None => {
            return None;
        },
    };
    let (bd, j4) = match parse_json_binding(b, j3) {
        Some(x) => x,
        None => {
            return None;
        },
    };
    let j5 = match json::expect_lit(b, j4, (",\"public_key\":").as_bytes()) {
        Some(x) => x,
        None => {
            return None;
        },
    };
    let (pk, j6) = match json::parse_jhex(b, j5) {
        Some(x) => x,
        None => {
            return None;
        },
    };
    let j7 = match json::expect_lit(b, j6, (",\"key_type\":").as_bytes()) {
        Some(x) => x,
        None => {
            return None;
        },
    };
    let (kt, j8) = match json::parse_jstring(b, j7) {
        Some(x) => x,
        None => {
            return None;
        },
    };
    let j9 = match json::expect_lit(b, j8, ("}").as_bytes()) {
        Some(x) => x,
        None => {
            proof {
                lemma_close_brace_lit();
            }
            return None;
        },
    };
    proof {
        lemma_close_brace_lit();
    }
    Some((Executor { id, binding: bd, public_key: pk, key_type: kt }, j9))
}

fn push_json_prev_executor(out: &mut Vec<u8>, p: &PrevExecutor)
    ensures
        final(out)@ =~= old(out)@ + spec_json_prev_executor(p@),
{
    out.extend_from_slice(("{\"public_key\":").as_bytes());
    json::push_jhex(out, p.public_key.as_slice());
    out.extend_from_slice((",\"key_type\":").as_bytes());
    json::push_jstring(out, p.key_type.as_str());
    out.push(0x7d);
    assert(out@ =~= old(out)@ + spec_json_prev_executor(p@));
}

fn parse_json_prev_executor(b: &[u8], i: usize) -> (r: Option<(PrevExecutor, usize)>)
    ensures
        match r {
            Some((p, j)) => {
                &&& spec_parse_json_prev_executor(b@, i as int) == Some((p@, j as int))
                &&& i <= j <= b@.len()
            },
            None => spec_parse_json_prev_executor(b@, i as int) is None,
        },
{
    let j = match json::expect_lit(b, i, ("{\"public_key\":").as_bytes()) {
        Some(x) => x,
        None => {
            return None;
        },
    };
    let (pk, j2) = match json::parse_jhex(b, j) {
        Some(x) => x,
        None => {
            return None;
        },
    };
    let j3 = match json::expect_lit(b, j2, (",\"key_type\":").as_bytes()) {
        Some(x) => x,
        None => {
            return None;
        },
    };
    let (kt, j4) = match json::parse_jstring(b, j3) {
        Some(x) => x,
        None => {
            return None;
        },
    };
    let j5 = match json::expect_lit(b, j4, ("}").as_bytes()) {
        Some(x) => x,
        None => {
            proof {
                lemma_close_brace_lit();
            }
            return None;
        },
    };
    proof {
        lemma_close_brace_lit();
    }
    Some((PrevExecutor { public_key: pk, key_type: kt }, j5))
}

#[verifier::rlimit(100)]
fn push_json_provenance(out: &mut Vec<u8>, p: &Provenance)
    ensures
        final(out)@ =~= old(out)@ + spec_json_provenance(p@),
{
    out.extend_from_slice(("{\"cat_kid\":").as_bytes());
    json::push_jstring(out, p.cat_kid.as_str());
    out.extend_from_slice((",\"cat_sig\":").as_bytes());
    json::push_jhex(out, p.cat_sig.as_slice());
    out.extend_from_slice((",\"executor_kid\":").as_bytes());
    json::push_jstring(out, p.executor_kid.as_str());
    out.extend_from_slice((",\"executor_sig\":").as_bytes());
    json::push_jhex(out, p.executor_sig.as_slice());
    out.push(0x7d);
    assert(out@ =~= old(out)@ + spec_json_provenance(p@));
}

fn parse_json_provenance(b: &[u8], i: usize) -> (r: Option<(Provenance, usize)>)
    ensures
        match r {
            Some((p, j)) => {
                &&& spec_parse_json_provenance(b@, i as int) == Some((p@, j as int))
                &&& i <= j <= b@.len()
            },
            None => spec_parse_json_provenance(b@, i as int) is None,
        },
{
    let j = match json::expect_lit(b, i, ("{\"cat_kid\":").as_bytes()) {
        Some(x) => x,
        None => {
            return None;
        },
    };
    let (ck, j2) = match json::parse_jstring(b, j) {
        Some(x) => x,
        None => {
            return None;
        },
    };
    let j3 = match json::expect_lit(b, j2, (",\"cat_sig\":").as_bytes()) {
        Some(x) => x,
        None => {
            return None;
        },
    };
    let (cs, j4) = match json::parse_jhex(b, j3) {
        Some(x) => x,
        None => {
            return None;
        },
    };
    let j5 = match json::expect_lit(b, j4, (",\"executor_kid\":").as_bytes()) {
        Some(x) => x,
        None => {
            return None;
        },
    };
    let (ek, j6) = match json::parse_jstring(b, j5) {
        Some(x) => x,
        None => {
            return None;
        },
    };
    let j7 = match json::expect_lit(b, j6, (",\"executor_sig\":").as_bytes()) {
        Some(x) => x,
        None => {
            return None;
        },
    };
    let (es, j8) = match json::parse_jhex(b, j7) {
        Some(x) => x,
        None => {
            return None;
        },
    };
    let j9 = match json::expect_lit(b, j8, ("}").as_bytes()) {
        Some(x) => x,
        None => {
            proof {
                lemma_close_brace_lit();
            }
            return None;
        },
    };
    proof {
        lemma_close_brace_lit();
    }
    Some((Provenance { cat_kid: ck, cat_sig: cs, executor_kid: ek, executor_sig: es }, j9))
}

fn push_json_opt_uint(out: &mut Vec<u8>, o: &Option<u64>)
    ensures
        final(out)@ =~= old(out)@ + spec_json_opt_uint(*o),
{
    match o {
        Some(n) => json::push_dec(out, *n),
        None => json::push_jnull(out),
    }
}

fn parse_json_opt_uint(b: &[u8], i: usize) -> (r: Option<(Option<u64>, usize)>)
    ensures
        match r {
            Some((o, j)) => {
                &&& spec_parse_json_opt_uint(b@, i as int) == Some((o, j as int))
                &&& i < j <= b@.len()
            },
            None => spec_parse_json_opt_uint(b@, i as int) is None,
        },
{
    let n = b.len();
    if json::at_jnull(b, i) {
        return Some((None, i + 4));
    }
    match json::parse_dec(b, i) {
        Some((v, j)) => Some((Some(v), j)),
        None => None,
    }
}

fn push_json_temporal(out: &mut Vec<u8>, t: &TemporalConstraints)
    ensures
        final(out)@ =~= old(out)@ + spec_json_temporal(*t),
{
    out.extend_from_slice(("{\"iat\":").as_bytes());
    push_json_opt_uint(out, &t.iat);
    out.extend_from_slice((",\"exp\":").as_bytes());
    push_json_opt_uint(out, &t.exp);
    out.extend_from_slice((",\"nbf\":").as_bytes());
    push_json_opt_uint(out, &t.nbf);
    out.push(0x7d);
    assert(out@ =~= old(out)@ + spec_json_temporal(*t));
}

fn parse_json_temporal(b: &[u8], i: usize) -> (r: Option<(TemporalConstraints, usize)>)
    ensures
        match r {
            Some((t, j)) => {
                &&& spec_parse_json_temporal(b@, i as int) == Some((t, j as int))
                &&& i <= j <= b@.len()
            },
            None => spec_parse_json_temporal(b@, i as int) is None,
        },
{
    let j = match json::expect_lit(b, i, ("{\"iat\":").as_bytes()) {
        Some(x) => x,
        None => {
            return None;
        },
    };
    let (iat, j2) = match parse_json_opt_uint(b, j) {
        Some(x) => x,
        None => {
            return None;
        },
    };
    let j3 = match json::expect_lit(b, j2, (",\"exp\":").as_bytes()) {
        Some(x) => x,
        None => {
            return None;
        },
    };
    let (exp, j4) = match parse_json_opt_uint(b, j3) {
        Some(x) => x,
        None => {
            return None;
        },
    };
    let j5 = match json::expect_lit(b, j4, (",\"nbf\":").as_bytes()) {
        Some(x) => x,
        None => {
            return None;
        },
    };
    let (nbf, j6) = match parse_json_opt_uint(b, j5) {
        Some(x) => x,
        None => {
            return None;
        },
    };
    let j7 = match json::expect_lit(b, j6, ("}").as_bytes()) {
        Some(x) => x,
        None => {
            proof {
                lemma_close_brace_lit();
            }
            return None;
        },
    };
    proof {
        lemma_close_brace_lit();
    }
    Some((TemporalConstraints { iat, exp, nbf }, j7))
}

pub fn push_json_constraints(out: &mut Vec<u8>, c: &Constraints)
    ensures
        final(out)@ =~= old(out)@ + spec_json_constraints(*c),
{
    out.extend_from_slice(("{\"temporal\":").as_bytes());
    match &c.temporal {
        Some(t) => push_json_temporal(out, t),
        None => json::push_jnull(out),
    }
    out.push(0x7d);
    assert(out@ =~= old(out)@ + spec_json_constraints(*c));
}

pub fn parse_json_constraints(b: &[u8], i: usize) -> (r: Option<(Constraints, usize)>)
    ensures
        match r {
            Some((c, j)) => {
                &&& spec_parse_json_constraints(b@, i as int) == Some((c, j as int))
                &&& i <= j <= b@.len()
            },
            None => spec_parse_json_constraints(b@, i as int) is None,
        },
{
    let n = b.len();
    let j = match json::expect_lit(b, i, ("{\"temporal\":").as_bytes()) {
        Some(x) => x,
        None => {
            return None;
        },
    };
    let (t, j2): (Option<TemporalConstraints>, usize) = if json::at_jnull(b, j) {
        (None, j + 4)
    } else {
        match parse_json_temporal(b, j) {
            Some((x, jx)) => (Some(x), jx),
            None => {
                return None;
            },
        }
    };
    let j3 = match json::expect_lit(b, j2, ("}").as_bytes()) {
        Some(x) => x,
        None => {
            proof {
                lemma_close_brace_lit();
            }
            return None;
        },
    };
    proof {
        lemma_close_brace_lit();
    }
    Some((Constraints { temporal: t }, j3))
}

#[verifier::rlimit(100)]
fn push_json_payload_front(out: &mut Vec<u8>, p: &PcaPayload)
    ensures
        final(out)@ =~= old(out)@ + spec_json_pca_payload_front(p@),
{
    out.extend_from_slice(("{\"hop\":").as_bytes());
    json::push_dec(out, p.hop as u64);
    out.extend_from_slice((",\"p_0\":").as_bytes());
    json::push_jstring(out, p.p_0.as_str());
    out.extend_from_slice((",\"ops\":").as_bytes());
    json::push_jstr_array(out, &p.ops);
    out.extend_from_slice((",\"executor\":").as_bytes());
    push_json_executor(out, &p.executor);
    assert(out@ =~= old(out)@ + spec_json_pca_payload_front(p@));
}

#[verifier::rlimit(100)]
fn push_json_payload_back(out: &mut Vec<u8>, p: &PcaPayload)
    ensures
        final(out)@ =~= old(out)@ + spec_json_pca_payload_back(p@),
{
    out.extend_from_slice((",\"prev_executor\":").as_bytes());
    match &p.prev_executor {
        Some(x) => push_json_prev_executor(out, x),
        None => json::push_jnull(out),
    }
    out.extend_from_slice((",\"provenance\":").as_bytes());
    match &p.provenance {
        Some(x) => push_json_provenance(out, x),
        None => json::push_jnull(out),
    }
    out.extend_from_slice((",\"constraints\":").as_bytes());
    match &p.constraints {
        Some(c) => push_json_constraints(out, c),
        None => json::push_jnull(out),
    }
    out.push(0x7d);
    assert(out@ =~= old(out)@ + spec_json_pca_payload_back(p@));
}

/// Encode a PCA payload onto `out` in its JSON form.
pub fn push_json_pca_payload(out: &mut Vec<u8>, p: &PcaPayload)
    ensures
        final(out)@ =~= old(out)@ + spec_json_pca_payload(p@),
{
    push_json_payload_front(out, p);
    push_json_payload_back(out, p);
    assert(out@ =~= old(out)@ + spec_json_pca_payload(p@));
}

/// Parse a PCA payload at index `i` of its JSON form.
#[verifier::rlimit(100)]
pub fn parse_json_pca_payload(b: &[u8], i: usize) -> (r: Option<(PcaPayload, usize)>)
    ensures
        match r {
            Some((p, j)) => {
                &&& spec_parse_json_pca_payload(b@, i as int) == Some((p@, j as int))
                &&& i <= j <= b@.len()
            },
            None => spec_parse_json_pca_payload(b@, i as int) is None,
        },
{
    let n = b.len();
    let j = match json::expect_lit(b, i, ("{\"hop\":").as_bytes()) {
        Some(x) => x,
        None => {
            return None;
        },
    };
    let (hop64, j2) = match json::parse_dec(b, j) {
        Some(x) => x,
        None => {
            return None;
        },
    };
    if hop64 >= 4294967296 {
        return None;
    }
    let j3 = match json::expect_lit(b, j2, (",\"p_0\":").as_bytes()) {
        Some(x) => x,
        None => {
            return None;
        },
    };
    let (p0, j4) = match json::parse_jstring(b, j3) {
        Some(x) => x,
        None => {
            return None;
        },
    };
    let j5 = match json::expect_lit(b, j4, (",\"ops\":").as_bytes()) {
        Some(x) => x,
        None => {
            return None;
        },
    };
    let (ops, j6) = match json::parse_jstr_array(b, j5) {
        Some(x) => x,
        None => {
            return None;
        },
    };
    let j7 = match json::expect_lit(b, j6, (",\"executor\":").as_bytes()) {
        Some(x) => x,
        None => {
            return None;
        },
    };
    let (ex, j8) = match parse_json_executor(b, j7) {
        Some(x) => x,
        None => {
            return None;
        },
    };
    let j9 = match json::expect_lit(b, j8, (",\"prev_executor\":").as_bytes()) {
        Some(x) => x,
        None => {
            return None;
        },
    };
    let (pe, j10): (Option<PrevExecutor>, usize) = if json::at_jnull(b, j9) {
        (None, j9 + 4)
    } else {
        match parse_json_prev_executor(b, j9) {
            Some((x, jx)) => (Some(x), jx),
            None => {
                return None;
            },
        }
    };
    let j11 = match json::expect_lit(b, j10, (",\"provenance\":").as_bytes()) {
        Some(x) => x,
        None => {
            return None;
        },
    };
    let (pv, j12): (Option<Provenance>, usize) = if json::at_jnull(b, j11) {
        (None, j11 + 4)
    } else {
        match parse_json_provenance(b, j11) {
            Some((x, jx)) => (Some(x), jx),
            None => {
                return None;
            },
        }
    };
    let j13 = match json::expect_lit(b, j12, (",\"constraints\":").as_bytes()) {
        Some(x) => x,
        None => {
            return None;
        },
    };
    let (cn, j14): (Option<Constraints>, usize) = if json::at_jnull(b, j13) {
        (None, j13 + 4)
    } else {
        match parse_json_constraints(b, j13) {
            Some((x, jx)) => (Some(x), jx),
            None => {
                return None;
            },
        }
    };
    let j15 = match json::expect_lit(b, j14, ("}").as_bytes()) {
        Some(x) => x,
        None => {
            proof {
                lemma_close_brace_lit();
            }
            return None;
        },
    };
    proof {
        lemma_close_brace_lit();
    }
    Some(
        (
            PcaPayload {
                hop: hop64 as u32,
                p_0: p0,
                ops,
                executor: ex,
                prev_executor: pe,
                provenance: pv,
                constraints: cn,
            },
            j15,
        ),
    )
}

// ---------------------------------------------------------------------------
// Public wire API and round-trip laws
// ---------------------------------------------------------------------------

impl Pca {
    /// Encode this PCA to its CBOR wire form: a signed envelope whose
    /// payload bytes are the CBOR encoding of the payload.
    pub fn to_cbor(&self) -> (r: Vec<u8>)
        ensures
            r@ == spec_cbor_pca(self@),
    {
        let mut pb: Vec<u8> = Vec::new();
        push_cbor_pca_payload(&mut pb, &self.payload);
        let env = SignedEnvelope {
            kid: self.issuer_id.clone(),
            alg: SigningAlgorithm::EdDSA,
            signature: vstd::slice::slice_to_vec(self.issuer_sig.as_slice()),
            payload: pb,
        };
        let r = env.encode();
        proof {
            assert(env@ == spec_pca_env(self@));
        }
        r
    }

    /// Decode a whole byte string as one PCA, without verifying the
    /// signature.
    pub fn from_cbor(b: &[u8]) -> (r: Result<Pca, PicError>)
        ensures
            match r {
                Ok(p) => spec_cbor_pca_dec(b@) == Some(p@),
                Err(e) => spec_cbor_pca_dec(b@) is None && e matches PicError::MalformedEnvelope,
            },
    {
        let env = match SignedEnvelope::decode(b) {
            Some(v) => v,
            None => {
                return Err(PicError::MalformedEnvelope);
            },
        };
        let (p, j) = match parse_cbor_pca_payload(env.payload.as_slice(), 0) {
            Some(x) => x,
            None => {
                return Err(PicError::MalformedEnvelope);
            },
        };
        if j != env.payload.len() {
            return Err(PicError::MalformedEnvelope);
        }
        Ok(Pca { issuer_id: env.kid, issuer_sig: env.signature, payload: p })
    }

    /// Parse a PCA and verify its envelope signature against the key
    /// resolved for its key identifier.
    pub fn verify_and_decode(b: &[u8], ring: &KeyRing) -> (r: Result<Pca, PicError>)
        ensures
            r is Ok <==> spec_open_ok(b@, ring@) && spec_cbor_pca_dec(b@) is Some,
            match r {
                Ok(p) => spec_cbor_pca_dec(b@) == Some(p@),
                Err(e) => {
                    &&& (e matches PicError::MalformedEnvelope || e
                        matches PicError::SignatureInvalid)
                    &&& (e matches PicError::SignatureInvalid ==> spec_env_dec(b@) is Some
                        && !spec_open_ok(b@, ring@))
                },
            },
    {
        let env = match open_envelope(b, ring) {
            Ok(v) => v,
            Err(e) => {
                return Err(e);
            },
        };
        let (p, j) = match parse_cbor_pca_payload(env.payload.as_slice(), 0) {
            Some(x) => x,
            None => {
                return Err(PicError::MalformedEnvelope);
            },
        };
        if j != env.payload.len() {
            return Err(PicError::MalformedEnvelope);
        }
        Ok(Pca { issuer_id: env.kid, issuer_sig: env.signature, payload: p })
    }

    /// Parse a PCA without any signature verification.  The caller
    /// must not treat the result as authoritative for authorization
    /// decisions.
    pub fn decode_unverified(b: &[u8]) -> (r: Result<Pca, PicError>)
        ensures
            match r {
                Ok(p) => spec_cbor_pca_dec(b@) == Some(p@),
                Err(e) => spec_cbor_pca_dec(b@) is None && e matches PicError::MalformedEnvelope,
            },
    {
        Pca::from_cbor(b)
    }

    /// Encode this PCA to its JSON diagnostic form.
    pub fn to_json(&self) -> (r: String)
        ensures
            encode_utf8(r@) == spec_json_pca(self@),
    {
        let mut out: Vec<u8> = Vec::new();
        out.extend_from_slice(("{\"issuer_id\":").as_bytes());
        json::push_jstring(&mut out, self.issuer_id.as_str());
        out.extend_from_slice((",\"alg\":\"EdDSA\",\"issuer_sig\":").as_bytes());
        json::push_jhex(&mut out, self.issuer_sig.as_slice());
        out.extend_from_slice((",\"payload\":").as_bytes());
        push_json_pca_payload(&mut out, &self.payload);
        out.push(0x7d);
        proof {
            assert(out@ =~= spec_json_pca(self@));
        }
        match crate::text::bytes_to_string(out.as_slice()) {
            Some(s) => s,
            None => {
                proof {
                    lemma_json_pca_valid(self@);
                    assert(false);
                }
                String::new()
            },
        }
    }

    /// Decode a whole JSON string as one PCA.
    pub fn from_json(s: &str) -> (r: Result<Pca, PicError>)
        ensures
            match r {
                Ok(p) => spec_json_pca_dec(encode_utf8(s@)) == Some(p@),
                Err(e) => spec_json_pca_dec(encode_utf8(s@)) is None && e
                    matches PicError::MalformedEnvelope,
            },
    {
        let b: &[u8] = s.as_bytes();
        let j = match json::expect_lit(b, 0, ("{\"issuer_id\":").as_bytes()) {
            Some(x) => x,
            None => {
                return Err(PicError::MalformedEnvelope);
            },
        };
        let (kid, j2) = match json::parse_jstring(b, j) {
            Some(x) => x,
            None => {
                return Err(PicError::MalformedEnvelope);
            },
        };
        let j3 = match json::expect_lit(b, j2, (",\"alg\":\"EdDSA\",\"issuer_sig\":").as_bytes()) {
            Some(x) => x,
            None => {
                return Err(PicError::MalformedEnvelope);
            },
        };
        let (sig, j4) = match json::parse_jhex(b, j3) {
            Some(x) => x,
            None => {
                return Err(PicError::MalformedEnvelope);
            },
        };
        let j5 = match json::expect_lit(b, j4, (",\"payload\":").as_bytes()) {
            Some(x) => x,
            None => {
                return Err(PicError::MalformedEnvelope);
            },
        };
        let (pl, j6) = match parse_json_pca_payload(b, j5) {
            Some(x) => x,
            None => {
                return Err(PicError::MalformedEnvelope);
            },
        };
        let j7 = match json::expect_lit(b, j6, ("}").as_bytes()) {
            Some(x) => x,
            None => {
                proof {
                    lemma_close_brace_lit();
                }
                return Err(PicError::MalformedEnvelope);
            },
        };
        proof {
            lemma_close_brace_lit();
        }
        if j7 != b.len() {
            return Err(PicError::MalformedEnvelope);
        }
        Ok(Pca { issuer_id: kid, issuer_sig: sig, payload: pl })
    }
}

/// Round-trip law, CBOR: decoding the encoding of any PCA whose
/// fields fit the canonical heads yields the PCA itself.
pub proof fn lemma_cbor_pca_round_trip(v: PcaV)
    requires
        pca_fits(v),
    ensures
        spec_cbor_pca_dec(spec_cbor_pca(v)) == Some(v),
{
    let env = spec_pca_env(v);
    let benc = spec_env_enc(env);
    assert(benc.subrange(0, benc.len() as int) =~= benc);
    lemma_parse_env_of_enc(benc, 0, env);
    assert(spec_env_dec(benc) == Some(env));
    let pb = spec_cbor_pca_payload(v.payload);
    assert(pb.subrange(0, pb.len() as int) =~= pb);
    lemma_parse_cbor_pca_payload_of_enc(pb, 0, v.payload);
    assert(spec_cbor_pca_payload_dec(pb) == Some(v.payload));
    assert(PcaV { issuer_id: env.kid, issuer_sig: env.signature, payload: v.payload } == v);
}

/// Round-trip law, JSON: decoding the encoding of any PCA yields the
/// PCA itself.
pub proof fn lemma_json_pca_round_trip(v: PcaV)
    ensures
        spec_json_pca_dec(spec_json_pca(v)) == Some(v),
{
    let benc = spec_json_pca(v);
    assert(benc.subrange(0, benc.len() as int) =~= benc);
    lemma_parse_json_pca_of_enc(benc, 0, v);
}

// ---------------------------------------------------------------------------
// Observing that runtime values fit the canonical heads
// ---------------------------------------------------------------------------

/// Record that a runtime string's UTF-8 length fits a canonical head
/// (every in-memory string is at most `usize::MAX` bytes).
pub fn note_string_fits(s: &str)
    ensures
        fits_u64(encode_utf8(s@).len()),
{
    let b: &[u8] = s.as_bytes();
    let _n = b.len();
}

/// Record that a binding's entries fit the canonical heads.
pub fn note_binding_fits(eb: &ExecutorBinding)
    ensures
        binding_fits(eb@),
{
    let n = eb.entries.len();
    let mut t: usize = 0;
    while t < n
        invariant
            0 <= t <= n,
            n == eb.entries@.len(),
            forall|k: int| 0 <= k < t ==> crate::binding::bentry_fits(#[trigger] eb@[k]),
        decreases n - t,
    {
        note_string_fits(eb.entries[t].name.as_str());
        note_string_fits(eb.entries[t].value.as_str());
        proof {
            assert(eb@[t as int] == eb.entries@[t as int]@);
        }
        t += 1;
    }
}

/// Record that an operations list fits the canonical heads.
pub fn note_ops_fit(ops: &Vec<String>)
    ensures
        fits_u64(ops.deep_view().len()),
        texts_fit(ops.deep_view()),
{
    let n = ops.len();
    let mut t: usize = 0;
    while t < n
        invariant
            0 <= t <= n,
            n == ops@.len(),
            forall|k: int|
                0 <= k < t ==> fits_u64(encode_utf8(#[trigger] ops.deep_view()[k]).len()),
        decreases n - t,
    {
        note_string_fits(ops[t].as_str());
        proof {
            assert(ops.deep_view()[t as int] == ops@[t as int]@);
        }
        t += 1;
    }
}

/// Record that an executor's fields fit the canonical heads.
pub fn note_executor_fits(e: &Executor)
    ensures
        executor_fits(e@),
{
    note_string_fits(e.id.service.as_str());
    note_binding_fits(&e.binding);
    let _ = e.public_key.len();
    note_string_fits(e.key_type.as_str());
}

/// Record that a PCA payload's fields fit the canonical heads.
pub fn note_pca_payload_fits(p: &PcaPayload)
    ensures
        pca_payload_fits(p@),
{
    note_string_fits(p.p_0.as_str());
    note_ops_fit(&p.ops);
    note_executor_fits(&p.executor);
    match &p.prev_executor {
        Some(x) => {
            let _ = x.public_key.len();
            note_string_fits(x.key_type.as_str());
        },
        None => {},
    }
    match &p.provenance {
        Some(x) => {
            note_string_fits(x.cat_kid.as_str());
            let _ = x.cat_sig.len();
            note_string_fits(x.executor_kid.as_str());
            let _ = x.executor_sig.len();
        },
        None => {},
    }
}

/// Record that a complete PCA fits the canonical heads, including
/// the length of its encoded payload.
pub fn note_pca_fits(p: &Pca)
    ensures
        pca_fits(p@),
{
    note_string_fits(p.issuer_id.as_str());
    let _ = p.issuer_sig.len();
    note_pca_payload_fits(&p.payload);
    let mut pb: Vec<u8> = Vec::new();
    push_cbor_pca_payload(&mut pb, &p.payload);
    let _ = pb.len();
}

} // verus!
