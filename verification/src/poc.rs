//! PoC (Proof of Continuity) token model and builder.
//!
//! A PoC is the continuation request an executor sends to the Causal
//! Authority: the raw signed bytes of the predecessor PCA (so the
//! authority can re-verify it independently), the requested successor
//! shape (candidate operations, executor, constraints), and zero or
//! more named attestations for the pluggable verifier.

use vstd::prelude::*;
use vstd::utf8::encode_utf8;
use crate::cbor;
use crate::json;
use crate::cbor::{fits_u64, lemma_concat_split, lemma_fits_u64_pow256, lemma_subrange_within,
    texts_fit};
use crate::envelope::{SignedEnvelope, SignedEnvelopeV, SigningAlgorithm, spec_env_enc,
    spec_env_dec, lemma_parse_env_of_enc};
use crate::pca::{Executor, ExecutorV, Constraints, executor_fits, spec_cbor_executor,
    spec_parse_cbor_executor, spec_cbor_constraints, spec_parse_cbor_constraints,
    lemma_parse_cbor_executor_of_enc, lemma_parse_cbor_constraints_of_enc};
use crate::PicError;

verus! {

/// One named attestation: an opaque byte blob for the authority's
/// pluggable verifier.
#[derive(Debug, Clone, PartialEq)]
pub struct Attestation {
    pub name: String,
    pub bytes: Vec<u8>,
}

pub ghost struct AttestationV {
    pub name: Seq<char>,
    pub bytes: Seq<u8>,
}

impl View for Attestation {
    type V = AttestationV;

    open spec fn view(&self) -> AttestationV {
        AttestationV { name: self.name@, bytes: self.bytes@ }
    }
}

/// Element-wise view of a sequence of attestations.
pub open spec fn attestations_view(xs: Seq<Attestation>) -> Seq<AttestationV> {
    xs.map_values(|a: Attestation| a@)
}

/// The requested next-hop shape.  A `p_0` of `None` asks to inherit
/// the predecessor's origin subject.
#[derive(Debug, Clone, PartialEq)]
pub struct Successor {
    pub p_0: Option<String>,
    pub ops: Vec<String>,
    pub executor: Option<Executor>,
    pub constraints: Option<Constraints>,
}

pub ghost struct SuccessorV {
    pub p_0: Option<Seq<char>>,
    pub ops: Seq<Seq<char>>,
    pub executor: Option<ExecutorV>,
    pub constraints: Option<Constraints>,
}

impl View for Successor {
    type V = SuccessorV;

    open spec fn view(&self) -> SuccessorV {
        SuccessorV {
            p_0: match self.p_0 {
                Some(ref s) => Some(s@),
                None => None,
            },
            ops: self.ops.deep_view(),
            executor: match self.executor {
                Some(ref e) => Some(e@),
                None => None,
            },
            constraints: self.constraints,
        }
    }
}

/// PoC payload: the unsigned continuation request body.
#[derive(Debug, Clone, PartialEq)]
pub struct PocPayload {
    pub predecessor: Vec<u8>,
    pub successor: Successor,
    pub attestations: Vec<Attestation>,
}

pub ghost struct PocPayloadV {
    pub predecessor: Seq<u8>,
    pub successor: SuccessorV,
    pub attestations: Seq<AttestationV>,
}

impl View for PocPayload {
    type V = PocPayloadV;

    open spec fn view(&self) -> PocPayloadV {
        PocPayloadV {
            predecessor: self.predecessor@,
            successor: self.successor@,
            attestations: attestations_view(self.attestations@),
        }
    }
}

/// Complete signed PoC: payload with the executor's key identifier
/// and signature, carried by a signed envelope.
#[derive(Debug, Clone, PartialEq)]
pub struct Poc {
    pub kid: String,
    pub signature: Vec<u8>,
    pub payload: PocPayload,
}

pub ghost struct PocV {
    pub kid: Seq<char>,
    pub signature: Seq<u8>,
    pub payload: PocPayloadV,
}

impl View for Poc {
    type V = PocV;

    open spec fn view(&self) -> PocV {
        PocV { kid: self.kid@, signature: self.signature@, payload: self.payload@ }
    }
}

// ---------------------------------------------------------------------------
// Length conditions
// ---------------------------------------------------------------------------

pub open spec fn attestation_fits(a: AttestationV) -> bool {
    fits_u64(encode_utf8(a.name).len()) && fits_u64(a.bytes.len())
}

pub open spec fn attestations_fit(xs: Seq<AttestationV>) -> bool {
    fits_u64(xs.len()) && forall|m: int| 0 <= m < xs.len() ==> attestation_fits(#[trigger] xs[m])
}

pub open spec fn successor_fits(s: SuccessorV) -> bool {
    &&& match s.p_0 {
        Some(p) => fits_u64(encode_utf8(p).len()),
        None => true,
    }
    &&& fits_u64(s.ops.len())
    &&& texts_fit(s.ops)
    &&& match s.executor {
        Some(e) => executor_fits(e),
        None => true,
    }
}

pub open spec fn poc_payload_fits(p: PocPayloadV) -> bool {
    &&& fits_u64(p.predecessor.len())
    &&& successor_fits(p.successor)
    &&& attestations_fit(p.attestations)
}

pub open spec fn poc_fits(v: PocV) -> bool {
    &&& fits_u64(encode_utf8(v.kid).len())
    &&& fits_u64(v.signature.len())
    &&& poc_payload_fits(v.payload)
    &&& fits_u64(spec_cbor_poc_payload(v.payload).len())
}

// ---------------------------------------------------------------------------
// CBOR encoding
// ---------------------------------------------------------------------------

pub open spec fn spec_cbor_attestation(a: AttestationV) -> Seq<u8> {
    cbor::spec_enc_array_header(2) + cbor::spec_enc_text(a.name) + cbor::spec_enc_bytes(a.bytes)
}

pub open spec fn spec_cbor_attestations_items(xs: Seq<AttestationV>) -> Seq<u8>
    decreases xs.len(),
{
    if xs.len() == 0 {
        Seq::empty()
    } else {
        spec_cbor_attestation(xs[0]) + spec_cbor_attestations_items(xs.drop_first())
    }
}

pub open spec fn spec_cbor_attestations(xs: Seq<AttestationV>) -> Seq<u8> {
    cbor::spec_enc_array_header(xs.len()) + spec_cbor_attestations_items(xs)
}

pub open spec fn spec_cbor_successor(s: SuccessorV) -> Seq<u8> {
    cbor::spec_enc_array_header(4) + (match s.p_0 {
        Some(p) => cbor::spec_enc_text(p),
        None => cbor::spec_enc_null(),
    }) + cbor::spec_enc_text_array(s.ops) + (match s.executor {
        Some(e) => spec_cbor_executor(e),
        None => cbor::spec_enc_null(),
    }) + (match s.constraints {
        Some(c) => spec_cbor_constraints(c),
        None => cbor::spec_enc_null(),
    })
}

pub open spec fn spec_cbor_poc_payload(p: PocPayloadV) -> Seq<u8> {
    cbor::spec_enc_array_header(3) + cbor::spec_enc_bytes(p.predecessor) + spec_cbor_successor(
        p.successor,
    ) + spec_cbor_attestations(p.attestations)
}

/// The envelope view that carries a PoC on the wire.
pub open spec fn spec_poc_env(v: PocV) -> SignedEnvelopeV {
    SignedEnvelopeV {
        kid: v.kid,
        alg: SigningAlgorithm::EdDSA,
        signature: v.signature,
        payload: spec_cbor_poc_payload(v.payload),
    }
}

pub open spec fn spec_cbor_poc(v: PocV) -> Seq<u8> {
    spec_env_enc(spec_poc_env(v))
}

// ---------------------------------------------------------------------------
// CBOR parsing
// ---------------------------------------------------------------------------

pub open spec fn spec_parse_cbor_attestation(b: Seq<u8>, i: int) -> Option<(AttestationV, int)> {
    match cbor::spec_parse_array_header(b, i) {
        Some((c, j)) => if c == 2 {
            match cbor::spec_parse_text(b, j) {
                Some((nm, j2)) => match cbor::spec_parse_bytes(b, j2) {
                    Some((bs, j3)) => Some((AttestationV { name: nm, bytes: bs }, j3)),
                    None => None,
                },
                None => None,
            }
        } else {
            None
        },
        None => None,
    }
}

pub open spec fn spec_parse_cbor_attestation_items(b: Seq<u8>, i: int, count: nat) -> Option<
    (Seq<AttestationV>, int),
>
    decreases count,
{
    if count == 0 {
        Some((Seq::empty(), i))
    } else {
        match spec_parse_cbor_attestation(b, i) {
            Some((a, j)) => match spec_parse_cbor_attestation_items(b, j, (count - 1) as nat) {
                Some((xs, j2)) => Some((seq![a] + xs, j2)),
                None => None,
            },
            None => None,
        }
    }
}

pub open spec fn spec_parse_cbor_attestations(b: Seq<u8>, i: int) -> Option<
    (Seq<AttestationV>, int),
> {
    match cbor::spec_parse_array_header(b, i) {
        Some((c, j)) => spec_parse_cbor_attestation_items(b, j, c),
        None => None,
    }
}

pub open spec fn spec_parse_cbor_successor(b: Seq<u8>, i: int) -> Option<(SuccessorV, int)> {
    match cbor::spec_parse_array_header(b, i) {
        Some((c, j)) => if c == 4 {
            let p0r: Option<(Option<Seq<char>>, int)> = if cbor::spec_at_null(b, j) {
                Some((None, j + 1))
            } else {
                match cbor::spec_parse_text(b, j) {
                    Some((p, j2)) => Some((Some(p), j2)),
                    None => None,
                }
            };
            match p0r {
                Some((p0, j2)) => match cbor::spec_parse_text_array(b, j2) {
                    Some((ops, j3)) => {
                        let exr: Option<(Option<ExecutorV>, int)> = if cbor::spec_at_null(b, j3) {
                            Some((None, j3 + 1))
                        } else {
                            match spec_parse_cbor_executor(b, j3) {
                                Some((e, j4)) => Some((Some(e), j4)),
                                None => None,
                            }
                        };
                        match exr {
                            Some((ex, j4)) => {
                                let cnr: Option<(Option<Constraints>, int)> = if cbor::spec_at_null(
                                    b,
                                    j4,
                                ) {
                                    Some((None, j4 + 1))
                                } else {
                                    match spec_parse_cbor_constraints(b, j4) {
                                        Some((c2, j5)) => Some((Some(c2), j5)),
                                        None => None,
                                    }
                                };
                                match cnr {
                                    Some((cn, j5)) => Some(
                                        (
                                            SuccessorV {
                                                p_0: p0,
                                                ops,
                                                executor: ex,
                                                constraints: cn,
                                            },
                                            j5,
                                        ),
                                    ),
                                    None => None,
                                }
                            },
                            None => None,
                        }
                    },
                    None => None,
                },
                None => None,
            }
        } else {
            None
        },
        None => None,
    }
}

pub open spec fn spec_parse_cbor_poc_payload(b: Seq<u8>, i: int) -> Option<(PocPayloadV, int)> {
    match cbor::spec_parse_array_header(b, i) {
        Some((c, j)) => if c == 3 {
            match cbor::spec_parse_bytes(b, j) {
                Some((pred, j2)) => match spec_parse_cbor_successor(b, j2) {
                    Some((suc, j3)) => match spec_parse_cbor_attestations(b, j3) {
                        Some((ats, j4)) => Some(
                            (PocPayloadV { predecessor: pred, successor: suc, attestations: ats },
                            j4),
                        ),
                        None => None,
                    },
                    None => None,
                },
                None => None,
            }
        } else {
            None
        },
        None => None,
    }
}

pub open spec fn spec_cbor_poc_payload_dec(b: Seq<u8>) -> Option<PocPayloadV> {
    match spec_parse_cbor_poc_payload(b, 0) {
        Some((p, j)) => if j == b.len() {
            Some(p)
        } else {
            None
        },
        None => None,
    }
}

pub open spec fn spec_cbor_poc_dec(b: Seq<u8>) -> Option<PocV> {
    match spec_env_dec(b) {
        Some(env) => if env.alg == SigningAlgorithm::EdDSA {
            match spec_cbor_poc_payload_dec(env.payload) {
                Some(p) => Some(PocV { kid: env.kid, signature: env.signature, payload: p }),
                None => None,
            }
        } else {
            None
        },
        None => None,
    }
}

// ---------------------------------------------------------------------------
// Parse-of-encode lemmas
// ---------------------------------------------------------------------------

pub proof fn lemma_parse_cbor_attestation_of_enc(b: Seq<u8>, i: int, a: AttestationV)
    requires
        attestation_fits(a),
        0 <= i,
        i + spec_cbor_attestation(a).len() <= b.len(),
        b.subrange(i, i + spec_cbor_attestation(a).len()) == spec_cbor_attestation(a),
    ensures
        spec_parse_cbor_attestation(b, i) == Some((a, i + spec_cbor_attestation(a).len())),
{
    let h = cbor::spec_enc_array_header(2);
    let f1 = cbor::spec_enc_text(a.name);
    let f2 = cbor::spec_enc_bytes(a.bytes);
    assert(spec_cbor_attestation(a) =~= h + (f1 + f2));
    lemma_concat_split(b, i, h, f1 + f2);
    cbor::lemma_pow256_values();
    cbor::lemma_parse_array_header_of_enc(b, i, 2);
    let p1 = i + h.len();
    lemma_concat_split(b, p1, f1, f2);
    lemma_fits_u64_pow256(encode_utf8(a.name).len());
    cbor::lemma_parse_text_of_enc(b, p1, a.name);
    lemma_fits_u64_pow256(a.bytes.len());
    cbor::lemma_parse_bytes_of_enc(b, p1 + f1.len(), a.bytes);
    assert(AttestationV { name: a.name, bytes: a.bytes } == a);
}

pub proof fn lemma_parse_cbor_attestation_items_of_enc(b: Seq<u8>, i: int, xs: Seq<AttestationV>)
    requires
        attestations_fit(xs),
        0 <= i,
        i + spec_cbor_attestations_items(xs).len() <= b.len(),
        b.subrange(i, i + spec_cbor_attestations_items(xs).len()) == spec_cbor_attestations_items(
            xs,
        ),
    ensures
        spec_parse_cbor_attestation_items(b, i, xs.len()) == Some(
            (xs, i + spec_cbor_attestations_items(xs).len()),
        ),
    decreases xs.len(),
{
    if xs.len() == 0 {
        assert(b.subrange(i, i) =~= Seq::<u8>::empty());
    } else {
        let e0 = spec_cbor_attestation(xs[0]);
        let rest = spec_cbor_attestations_items(xs.drop_first());
        assert(spec_cbor_attestations_items(xs) == e0 + rest);
        lemma_concat_split(b, i, e0, rest);
        lemma_parse_cbor_attestation_of_enc(b, i, xs[0]);
        assert forall|m: int| 0 <= m < xs.drop_first().len() implies attestation_fits(
            #[trigger] xs.drop_first()[m],
        ) by {
            assert(xs.drop_first()[m] == xs[m + 1]);
        }
        lemma_parse_cbor_attestation_items_of_enc(b, i + e0.len(), xs.drop_first());
        assert(seq![xs[0]] + xs.drop_first() =~= xs);
    }
}

pub proof fn lemma_parse_cbor_attestations_of_enc(b: Seq<u8>, i: int, xs: Seq<AttestationV>)
    requires
        attestations_fit(xs),
        0 <= i,
        i + spec_cbor_attestations(xs).len() <= b.len(),
        b.subrange(i, i + spec_cbor_attestations(xs).len()) == spec_cbor_attestations(xs),
    ensures
        spec_parse_cbor_attestations(b, i) == Some((xs, i + spec_cbor_attestations(xs).len())),
{
    let h = cbor::spec_enc_array_header(xs.len());
    lemma_concat_split(b, i, h, spec_cbor_attestations_items(xs));
    lemma_fits_u64_pow256(xs.len());
    cbor::lemma_parse_array_header_of_enc(b, i, xs.len());
    lemma_parse_cbor_attestation_items_of_enc(b, i + h.len(), xs);
}

#[verifier::rlimit(100)]
#[verifier::spinoff_prover]
pub proof fn lemma_parse_cbor_successor_of_enc(b: Seq<u8>, i: int, s: SuccessorV)
    requires
        successor_fits(s),
        0 <= i,
        i + spec_cbor_successor(s).len() <= b.len(),
        b.subrange(i, i + spec_cbor_successor(s).len()) == spec_cbor_successor(s),
    ensures
        spec_parse_cbor_successor(b, i) == Some((s, i + spec_cbor_successor(s).len())),
{
    let h = cbor::spec_enc_array_header(4);
    let f1 = match s.p_0 {
        Some(p) => cbor::spec_enc_text(p),
        None => cbor::spec_enc_null(),
    };
    let f2 = cbor::spec_enc_text_array(s.ops);
    let f3 = match s.executor {
        Some(e) => spec_cbor_executor(e),
        None => cbor::spec_enc_null(),
    };
    let f4 = match s.constraints {
        Some(c) => spec_cbor_constraints(c),
        None => cbor::spec_enc_null(),
    };
    assert(spec_cbor_successor(s) == h + f1 + f2 + f3 + f4);
    cbor::lemma_concat_split8(
        b,
        i,
        h,
        f1,
        f2,
        f3,
        f4,
        Seq::empty(),
        Seq::empty(),
        Seq::empty(),
    );
    cbor::lemma_pow256_values();
    cbor::lemma_parse_array_header_of_enc(b, i, 4);
    let p1 = i + h.len();
    match s.p_0 {
        None => {
            assert(b[p1] == f1[0]);
        },
        Some(p) => {
            lemma_fits_u64_pow256(encode_utf8(p).len());
            cbor::lemma_head_first_byte(3, encode_utf8(p).len());
            assert(b[p1] == f1[0]);
            assert(!cbor::spec_at_null(b, p1));
            cbor::lemma_parse_text_of_enc(b, p1, p);
        },
    }
    let p2 = p1 + f1.len();
    cbor::lemma_parse_text_array_of_enc(b, p2, s.ops);
    let p3 = p2 + f2.len();
    match s.executor {
        None => {
            assert(b[p3] == f3[0]);
        },
        Some(e) => {
            cbor::lemma_head_first_byte(4, 4);
            assert(b[p3] == f3[0]);
            assert(!cbor::spec_at_null(b, p3));
            lemma_parse_cbor_executor_of_enc(b, p3, e);
        },
    }
    let p4 = p3 + f3.len();
    match s.constraints {
        None => {
            assert(b[p4] == f4[0]);
        },
        Some(c) => {
            cbor::lemma_head_first_byte(4, 1);
            assert(b[p4] == f4[0]);
            assert(!cbor::spec_at_null(b, p4));
            lemma_parse_cbor_constraints_of_enc(b, p4, c);
        },
    }
    assert(SuccessorV { p_0: s.p_0, ops: s.ops, executor: s.executor, constraints: s.constraints }
        == s);
}

#[verifier::rlimit(100)]
pub proof fn lemma_parse_cbor_poc_payload_of_enc(b: Seq<u8>, i: int, p: PocPayloadV)
    requires
        poc_payload_fits(p),
        0 <= i,
        i + spec_cbor_poc_payload(p).len() <= b.len(),
        b.subrange(i, i + spec_cbor_poc_payload(p).len()) == spec_cbor_poc_payload(p),
    ensures
        spec_parse_cbor_poc_payload(b, i) == Some((p, i + spec_cbor_poc_payload(p).len())),
{
    let h = cbor::spec_enc_array_header(3);
    let f1 = cbor::spec_enc_bytes(p.predecessor);
    let f2 = spec_cbor_successor(p.successor);
    let f3 = spec_cbor_attestations(p.attestations);
    assert(spec_cbor_poc_payload(p) == h + f1 + f2 + f3);
    cbor::lemma_concat_split8(
        b,
        i,
        h,
        f1,
        f2,
        f3,
        Seq::empty(),
        Seq::empty(),
        Seq::empty(),
        Seq::empty(),
    );
    cbor::lemma_pow256_values();
    cbor::lemma_parse_array_header_of_enc(b, i, 3);
    let p1 = i + h.len();
    lemma_fits_u64_pow256(p.predecessor.len());
    cbor::lemma_parse_bytes_of_enc(b, p1, p.predecessor);
    let p2 = p1 + f1.len();
    lemma_parse_cbor_successor_of_enc(b, p2, p.successor);
    let p3 = p2 + f2.len();
    lemma_parse_cbor_attestations_of_enc(b, p3, p.attestations);
    assert(PocPayloadV {
        predecessor: p.predecessor,
        successor: p.successor,
        attestations: p.attestations,
    } == p);
}

// ---------------------------------------------------------------------------
// Executable encoders and parsers
// ---------------------------------------------------------------------------

fn push_cbor_attestation(out: &mut Vec<u8>, a: &Attestation)
    ensures
        final(out)@ =~= old(out)@ + spec_cbor_attestation(a@),
{
    cbor::push_array_header(out, 2);
    cbor::push_text(out, a.name.as_str());
    cbor::push_bytes(out, a.bytes.as_slice());
    assert(out@ =~= old(out)@ + spec_cbor_attestation(a@));
}

fn parse_cbor_attestation(b: &[u8], i: usize) -> (r: Option<(Attestation, usize)>)
    ensures
        match r {
            Some((a, j)) => {
                &&& spec_parse_cbor_attestation(b@, i as int) == Some((a@, j as int))
                &&& i < j <= b@.len()
            },
            None => spec_parse_cbor_attestation(b@, i as int) is None,
        },
{
    let (c, j) = match cbor::parse_array_header(b, i) {
        Some(x) => x,
        None => {
            return None;
        },
    };
    if c != 2 {
        return None;
    }
    let (nm, j2) = match cbor::parse_text(b, j) {
        Some(x) => x,
        None => {
            return None;
        },
    };
    let (bs, j3) = match cbor::parse_bytes(b, j2) {
        Some(x) => x,
        None => {
            return None;
        },
    };
    Some((Attestation { name: nm, bytes: bs }, j3))
}

proof fn lemma_cbor_attestation_items_app(a: Seq<AttestationV>, c: Seq<AttestationV>)
    ensures
        spec_cbor_attestations_items(a + c) =~= spec_cbor_attestations_items(a)
            + spec_cbor_attestations_items(c),
    decreases a.len(),
{
    if a.len() == 0 {
        assert(a + c =~= c);
        assert(spec_cbor_attestations_items(a) =~= Seq::<u8>::empty());
    } else {
        assert((a + c).drop_first() =~= a.drop_first() + c);
        assert((a + c)[0] == a[0]);
        lemma_cbor_attestation_items_app(a.drop_first(), c);
    }
}

fn push_cbor_attestations(out: &mut Vec<u8>, xs: &Vec<Attestation>)
    ensures
        final(out)@ =~= old(out)@ + spec_cbor_attestations(attestations_view(xs@)),
{
    cbor::push_array_header(out, xs.len() as u64);
    let n = xs.len();
    let mut t: usize = 0;
    while t < n
        invariant
            0 <= t <= n,
            n == xs@.len(),
            out@ =~= old(out)@ + cbor::spec_enc_array_header(attestations_view(xs@).len())
                + spec_cbor_attestations_items(attestations_view(xs@).take(t as int)),
        decreases n - t,
    {
        push_cbor_attestation(out, &xs[t]);
        proof {
            let dv = attestations_view(xs@);
            assert(dv.take(t + 1) =~= dv.take(t as int) + seq![dv[t as int]]);
            lemma_cbor_attestation_items_app(dv.take(t as int), seq![dv[t as int]]);
            let single = seq![dv[t as int]];
            assert(single.drop_first() =~= Seq::<AttestationV>::empty());
            assert(spec_cbor_attestations_items(single.drop_first()) =~= Seq::<u8>::empty());
            assert(spec_cbor_attestations_items(single) =~= spec_cbor_attestation(dv[t as int]));
            assert(dv[t as int] == xs@[t as int]@);
            assert(out@ =~= old(out)@ + cbor::spec_enc_array_header(dv.len())
                + spec_cbor_attestations_items(dv.take(t + 1)));
        }
        t += 1;
    }
    proof {
        let dv = attestations_view(xs@);
        assert(dv.take(n as int) =~= dv);
        assert(out@ =~= old(out)@ + spec_cbor_attestations(dv));
    }
}

fn parse_cbor_attestations(b: &[u8], i: usize) -> (r: Option<(Vec<Attestation>, usize)>)
    ensures
        match r {
            Some((xs, j)) => {
                &&& spec_parse_cbor_attestations(b@, i as int) == Some(
                    (attestations_view(xs@), j as int),
                )
                &&& i < j <= b@.len()
            },
            None => spec_parse_cbor_attestations(b@, i as int) is None,
        },
{
    let n = b.len();
    let (count, mut cur) = match cbor::parse_array_header(b, i) {
        Some(x) => x,
        None => {
            return None;
        },
    };
    let mut acc: Vec<Attestation> = Vec::new();
    let mut t: u64 = 0;
    proof {
        assert(attestations_view(acc@) =~= Seq::<AttestationV>::empty());
        assert forall|xs: Seq<AttestationV>, j2: int|
            spec_parse_cbor_attestation_items(b@, cur as int, count as nat) == Some(
                (xs, j2),
            ) implies spec_parse_cbor_attestations(b@, i as int) == Some(
            (attestations_view(acc@) + xs, j2),
        ) by {
            assert(attestations_view(acc@) + xs =~= xs);
        }
    }
    while t < count
        invariant
            0 <= t <= count,
            i < cur <= n <= usize::MAX,
            n == b@.len(),
            forall|xs: Seq<AttestationV>, j2: int|
                spec_parse_cbor_attestation_items(b@, cur as int, (count - t) as nat) == Some(
                    (xs, j2),
                ) ==> spec_parse_cbor_attestations(b@, i as int) == Some(
                    (attestations_view(acc@) + xs, j2),
                ),
            spec_parse_cbor_attestation_items(b@, cur as int, (count - t) as nat) is None
                ==> spec_parse_cbor_attestations(b@, i as int) is None,
        decreases count - t,
    {
        let (a, j) = match parse_cbor_attestation(b, cur) {
            Some(x) => x,
            None => {
                return None;
            },
        };
        let ghost pre = attestations_view(acc@);
        proof {
            let av = a@;
            assert forall|xs: Seq<AttestationV>, j2: int|
                spec_parse_cbor_attestation_items(b@, j as int, (count - (t + 1)) as nat) == Some(
                    (xs, j2),
                ) implies spec_parse_cbor_attestations(b@, i as int) == Some(
                (pre.push(av) + xs, j2),
            ) by {
                assert(spec_parse_cbor_attestation_items(b@, cur as int, (count - t) as nat)
                    == Some((seq![av] + xs, j2)));
                assert(pre + (seq![av] + xs) =~= pre.push(av) + xs);
            }
        }
        acc.push(a);
        cur = j;
        t += 1;
        proof {
            assert(attestations_view(acc@) =~= pre.push(acc@.last()@));
        }
    }
    proof {
        assert(attestations_view(acc@) + Seq::<AttestationV>::empty() =~= attestations_view(acc@));
    }
    Some((acc, cur))
}

#[verifier::rlimit(100)]
fn push_cbor_successor(out: &mut Vec<u8>, s: &Successor)
    ensures
        final(out)@ =~= old(out)@ + spec_cbor_successor(s@),
{
    cbor::push_array_header(out, 4);
    match &s.p_0 {
        Some(p) => cbor::push_text(out, p.as_str()),
        None => cbor::push_null(out),
    }
    cbor::push_text_array(out, &s.ops);
    match &s.executor {
        Some(e) => crate::pca::push_cbor_executor(out, e),
        None => cbor::push_null(out),
    }
    match &s.constraints {
        Some(c) => crate::pca::push_cbor_constraints(out, c),
        None => cbor::push_null(out),
    }
    assert(out@ =~= old(out)@ + spec_cbor_successor(s@));
}

fn parse_cbor_successor(b: &[u8], i: usize) -> (r: Option<(Successor, usize)>)
    ensures
        match r {
            Some((s, j)) => {
                &&& spec_parse_cbor_successor(b@, i as int) == Some((s@, j as int))
                &&& i < j <= b@.len()
            },
            None => spec_parse_cbor_successor(b@, i as int) is None,
        },
{
    let n = b.len();
    let (c, j) = match cbor::parse_array_header(b, i) {
        Some(x) => x,
        None => {
            return None;
        },
    };
    if c != 4 {
        return None;
    }
    let (p0, j2): (Option<String>, usize) = if cbor::at_null(b, j) {
        (None, j + 1)
    } else {
        match cbor::parse_text(b, j) {
            Some((p, jx)) => (Some(p), jx),
            None => {
                return None;
            },
        }
    };
    let (ops, j3) = match cbor::parse_text_array(b, j2) {
        Some(x) => x,
        None => {
            return None;
        },
    };
    let (ex, j4): (Option<Executor>, usize) = if cbor::at_null(b, j3) {
        (None, j3 + 1)
    } else {
        match crate::pca::parse_cbor_executor(b, j3) {
            Some((e, jx)) => (Some(e), jx),
            None => {
                return None;
            },
        }
    };
    let (cn, j5): (Option<Constraints>, usize) = if cbor::at_null(b, j4) {
        (None, j4 + 1)
    } else {
        match crate::pca::parse_cbor_constraints(b, j4) {
            Some((c2, jx)) => (Some(c2), jx),
            None => {
                return None;
            },
        }
    };
    Some((Successor { p_0: p0, ops, executor: ex, constraints: cn }, j5))
}

/// Encode a PoC payload onto `out` in its CBOR form.
pub fn push_cbor_poc_payload(out: &mut Vec<u8>, p: &PocPayload)
    ensures
        final(out)@ =~= old(out)@ + spec_cbor_poc_payload(p@),
{
    cbor::push_array_header(out, 3);
    cbor::push_bytes(out, p.predecessor.as_slice());
    push_cbor_successor(out, &p.successor);
    push_cbor_attestations(out, &p.attestations);
    assert(out@ =~= old(out)@ + spec_cbor_poc_payload(p@));
}

/// Parse a PoC payload at index `i` of its CBOR form.
pub fn parse_cbor_poc_payload(b: &[u8], i: usize) -> (r: Option<(PocPayload, usize)>)
    ensures
        match r {
            Some((p, j)) => {
                &&& spec_parse_cbor_poc_payload(b@, i as int) == Some((p@, j as int))
                &&& i < j <= b@.len()
            },
            None => spec_parse_cbor_poc_payload(b@, i as int) is None,
        },
{
    let (c, j) = match cbor::parse_array_header(b, i) {
        Some(x) => x,
        None => {
            return None;
        },
    };
    if c != 3 {
        return None;
    }
    let (pred, j2) = match cbor::parse_bytes(b, j) {
        Some(x) => x,
        None => {
            return None;
        },
    };
    let (suc, j3) = match parse_cbor_successor(b, j2) {
        Some(x) => x,
        None => {
            return None;
        },
    };
    let (ats, j4) = match parse_cbor_attestations(b, j3) {
        Some(x) => x,
        None => {
            return None;
        },
    };
    Some((PocPayload { predecessor: pred, successor: suc, attestations: ats }, j4))
}

impl Poc {
    /// Encode this PoC to its CBOR wire form.
    pub fn to_cbor(&self) -> (r: Vec<u8>)
        ensures
            r@ == spec_cbor_poc(self@),
    {
        let mut pb: Vec<u8> = Vec::new();
        push_cbor_poc_payload(&mut pb, &self.payload);
        let env = SignedEnvelope {
            kid: self.kid.clone(),
            alg: SigningAlgorithm::EdDSA,
            signature: vstd::slice::slice_to_vec(self.signature.as_slice()),
            payload: pb,
        };
        let r = env.encode();
        proof {
            assert(env@ == spec_poc_env(self@));
        }
        r
    }

    /// Decode a whole byte string as one PoC, without verifying the
    /// signature.
    pub fn from_cbor(b: &[u8]) -> (r: Result<Poc, PicError>)
        ensures
            match r {
                Ok(p) => spec_cbor_poc_dec(b@) == Some(p@),
                Err(e) => spec_cbor_poc_dec(b@) is None && e matches PicError::MalformedEnvelope,
            },
    {
        let env = match SignedEnvelope::decode(b) {
            Some(v) => v,
            None => {
                return Err(PicError::MalformedEnvelope);
            },
        };
        let (p, j) = match parse_cbor_poc_payload(env.payload.as_slice(), 0) {
            Some(x) => x,
            None => {
                return Err(PicError::MalformedEnvelope);
            },
        };
        if j != env.payload.len() {
            return Err(PicError::MalformedEnvelope);
        }
        Ok(Poc { kid: env.kid, signature: env.signature, payload: p })
    }
}

/// Round-trip law, CBOR: decoding the encoding of any PoC whose
/// fields fit the canonical heads yields the PoC itself.
pub proof fn lemma_cbor_poc_round_trip(v: PocV)
    requires
        poc_fits(v),
    ensures
        spec_cbor_poc_dec(spec_cbor_poc(v)) == Some(v),
{
    let env = spec_poc_env(v);
    let benc = spec_env_enc(env);
    assert(benc.subrange(0, benc.len() as int) =~= benc);
    lemma_parse_env_of_enc(benc, 0, env);
    assert(spec_env_dec(benc) == Some(env));
    let pb = spec_cbor_poc_payload(v.payload);
    assert(pb.subrange(0, pb.len() as int) =~= pb);
    lemma_parse_cbor_poc_payload_of_enc(pb, 0, v.payload);
    assert(spec_cbor_poc_payload_dec(pb) == Some(v.payload));
    assert(PocV { kid: env.kid, signature: env.signature, payload: v.payload } == v);
}

// ---------------------------------------------------------------------------
// Builder
// ---------------------------------------------------------------------------

/// Fluent construction of a `PocPayload` from a predecessor PCA's raw
/// envelope bytes.  The builder performs no verification; it only
/// assembles a well-formed continuation request.
#[derive(Debug, Clone)]
pub struct PocBuilder {
    pub predecessor: Vec<u8>,
    pub ops: Option<Vec<String>>,
    pub p_0: Option<String>,
    pub executor: Option<Executor>,
    pub constraints: Option<Constraints>,
    pub attestations: Vec<Attestation>,
}

impl PocBuilder {
    /// Start a request extending the given predecessor envelope
    /// bytes.
    pub fn new(predecessor: Vec<u8>) -> (r: Self)
        ensures
            r.predecessor@ == predecessor@,
            r.ops is None,
            r.p_0 is None,
            r.executor is None,
            r.constraints is None,
            r.attestations@.len() == 0,
    {
        PocBuilder {
            predecessor,
            ops: None,
            p_0: None,
            executor: None,
            constraints: None,
            attestations: Vec::new(),
        }
    }

    /// Set the candidate operation set.  An empty set is legal and
    /// represents full attenuation to no authority.
    pub fn ops(self, ops: Vec<String>) -> (r: Self)
        ensures
            r == (PocBuilder { ops: Some(ops), ..self }),
    {
        PocBuilder { ops: Some(ops), ..self }
    }

    /// Claim an explicit origin subject for the successor; left
    /// unset, the predecessor's subject is inherited.
    pub fn subject(self, p_0: String) -> (r: Self)
        ensures
            r == (PocBuilder { p_0: Some(p_0), ..self }),
    {
        PocBuilder { p_0: Some(p_0), ..self }
    }

    /// Set the candidate executor binding for the successor.
    pub fn executor(self, executor: Executor) -> (r: Self)
        ensures
            r == (PocBuilder { executor: Some(executor), ..self }),
    {
        PocBuilder { executor: Some(executor), ..self }
    }

    /// Set candidate constraints for the successor.
    pub fn constraints(self, constraints: Constraints) -> (r: Self)
        ensures
            r == (PocBuilder { constraints: Some(constraints), ..self }),
    {
        PocBuilder { constraints: Some(constraints), ..self }
    }

    /// Attach a named attestation.
    pub fn attestation(self, name: &str, bytes: Vec<u8>) -> (r: Self)
        ensures
            r.predecessor == self.predecessor,
            r.ops == self.ops,
            r.p_0 == self.p_0,
            r.executor == self.executor,
            r.constraints == self.constraints,
            attestations_view(r.attestations@) == attestations_view(self.attestations@).push(
                AttestationV { name: name@, bytes: bytes@ },
            ),
    {
        let mut attestations = self.attestations;
        let ghost pre = attestations_view(attestations@);
        attestations.push(Attestation { name: name.to_owned(), bytes });
        proof {
            assert(attestations_view(attestations@) =~= pre.push(attestations@.last()@));
        }
        PocBuilder {
            predecessor: self.predecessor,
            ops: self.ops,
            p_0: self.p_0,
            executor: self.executor,
            constraints: self.constraints,
            attestations,
        }
    }

    /// Assemble the request.  Fails with `IncompleteRequest` exactly
    /// when the operation set was never provided.
    pub fn build(self) -> (r: Result<PocPayload, PicError>)
        ensures
            self.ops is Some <==> r is Ok,
            match r {
                Ok(p) => {
                    &&& p.predecessor@ == self.predecessor@
                    &&& Some(p.successor.ops) == self.ops
                    &&& p.successor.p_0 == self.p_0
                    &&& p.successor.executor == self.executor
                    &&& p.successor.constraints == self.constraints
                    &&& p.attestations == self.attestations
                },
                Err(e) => e matches PicError::IncompleteRequest,
            },
    {
        match self.ops {
            Some(ops) => Ok(
                PocPayload {
                    predecessor: self.predecessor,
                    successor: Successor {
                        p_0: self.p_0,
                        ops,
                        executor: self.executor,
                        constraints: self.constraints,
                    },
                    attestations: self.attestations,
                },
            ),
            None => Err(PicError::IncompleteRequest),
        }
    }
}

/// Record that a PoC payload's fields fit the canonical heads.
pub fn note_poc_payload_fits(p: &PocPayload)
    ensures
        poc_payload_fits(p@),
{
    let _ = p.predecessor.len();
    match &p.successor.p_0 {
        Some(q) => crate::pca::note_string_fits(q.as_str()),
        None => {},
    }
    crate::pca::note_ops_fit(&p.successor.ops);
    match &p.successor.executor {
        Some(e) => crate::pca::note_executor_fits(e),
        None => {},
    }
    let n = p.attestations.len();
    let mut t: usize = 0;
    while t < n
        invariant
            0 <= t <= n,
            n == p.attestations@.len(),
            forall|k: int|
                0 <= k < t ==> attestation_fits(#[trigger] attestations_view(p.attestations@)[k]),
        decreases n - t,
    {
        crate::pca::note_string_fits(p.attestations[t].name.as_str());
        let _ = p.attestations[t].bytes.len();
        proof {
            assert(attestations_view(p.attestations@)[t as int] == p.attestations@[t as int]@);
        }
        t += 1;
    }
}

// ---------------------------------------------------------------------------
// JSON encoding
// ---------------------------------------------------------------------------

pub open spec fn spec_json_attestation(a: AttestationV) -> Seq<u8> {
    encode_utf8("{\"name\":"@) + json::spec_jstring(a.name) + encode_utf8(",\"bytes\":"@)
        + json::spec_jhex(a.bytes) + seq![0x7du8]
}

/// The comma-separated items of the attestation array.
pub open spec fn spec_json_attestation_items(xs: Seq<AttestationV>) -> Seq<u8>
    decreases xs.len(),
{
    if xs.len() == 0 {
        Seq::empty()
    } else if xs.len() == 1 {
        spec_json_attestation(xs[0])
    } else {
        spec_json_attestation(xs[0]) + seq![0x2cu8] + spec_json_attestation_items(xs.drop_first())
    }
}

pub open spec fn spec_json_attestations(xs: Seq<AttestationV>) -> Seq<u8> {
    seq![0x5bu8] + spec_json_attestation_items(xs) + seq![0x5du8]
}

/// The first two successor fields (`p_0`, `ops`).
pub open spec fn spec_json_successor_front(s: SuccessorV) -> Seq<u8> {
    encode_utf8("{\"p_0\":"@) + (match s.p_0 {
        Some(p) => json::spec_jstring(p),
        None => json::spec_jnull(),
    }) + encode_utf8(",\"ops\":"@) + json::spec_jstr_array(s.ops)
}

/// The last two successor fields and the closing brace.
pub open spec fn spec_json_successor_back(s: SuccessorV) -> Seq<u8> {
    encode_utf8(",\"executor\":"@) + (match s.executor {
        Some(e) => crate::pca::spec_json_executor(e),
        None => json::spec_jnull(),
    }) + encode_utf8(",\"constraints\":"@) + (match s.constraints {
        Some(c) => crate::pca::spec_json_constraints(c),
        None => json::spec_jnull(),
    }) + seq![0x7du8]
}

pub open spec fn spec_json_successor(s: SuccessorV) -> Seq<u8> {
    spec_json_successor_front(s) + spec_json_successor_back(s)
}

pub open spec fn spec_json_poc_payload(p: PocPayloadV) -> Seq<u8> {
    encode_utf8("{\"predecessor\":"@) + json::spec_jhex(p.predecessor) + encode_utf8(
        ",\"successor\":"@,
    ) + spec_json_successor(p.successor) + encode_utf8(",\"attestations\":"@)
        + spec_json_attestations(p.attestations) + seq![0x7du8]
}

pub open spec fn spec_json_poc(v: PocV) -> Seq<u8> {
    encode_utf8("{\"kid\":"@) + json::spec_jstring(v.kid) + encode_utf8(
        ",\"alg\":\"EdDSA\",\"signature\":"@,
    ) + json::spec_jhex(v.signature) + encode_utf8(",\"payload\":"@) + spec_json_poc_payload(
        v.payload,
    ) + seq![0x7du8]
}

/// Shapes and first bytes of the fixed JSON key fragments of a PoC.
pub proof fn lemma_poc_json_keys()
    ensures
        encode_utf8("{\"name\":"@)[0] == 0x7b && encode_utf8("{\"name\":"@).len() >= 1,
        encode_utf8(",\"bytes\":"@)[0] == 0x2c && encode_utf8(",\"bytes\":"@).len() >= 1,
        encode_utf8("{\"p_0\":"@)[0] == 0x7b && encode_utf8("{\"p_0\":"@).len() >= 1,
        encode_utf8("{\"predecessor\":"@)[0] == 0x7b && encode_utf8("{\"predecessor\":"@).len()
            >= 1,
        encode_utf8(",\"successor\":"@)[0] == 0x2c && encode_utf8(",\"successor\":"@).len() >= 1,
        encode_utf8(",\"attestations\":"@)[0] == 0x2c && encode_utf8(
            ",\"attestations\":"@,
        ).len() >= 1,
        encode_utf8("{\"kid\":"@)[0] == 0x7b && encode_utf8("{\"kid\":"@).len() >= 1,
        encode_utf8(",\"alg\":\"EdDSA\",\"signature\":"@)[0] == 0x2c && encode_utf8(
            ",\"alg\":\"EdDSA\",\"signature\":"@,
        ).len() >= 1,
{
    reveal_strlit("{\"name\":");
    reveal_strlit(",\"bytes\":");
    reveal_strlit("{\"p_0\":");
    reveal_strlit("{\"predecessor\":");
    reveal_strlit(",\"successor\":");
    reveal_strlit(",\"attestations\":");
    reveal_strlit("{\"kid\":");
    reveal_strlit(",\"alg\":\"EdDSA\",\"signature\":");
    vstd::utf8::is_ascii_chars_encode_utf8("{\"name\":"@);
    vstd::utf8::is_ascii_chars_encode_utf8(",\"bytes\":"@);
    vstd::utf8::is_ascii_chars_encode_utf8("{\"p_0\":"@);
    vstd::utf8::is_ascii_chars_encode_utf8("{\"predecessor\":"@);
    vstd::utf8::is_ascii_chars_encode_utf8(",\"successor\":"@);
    vstd::utf8::is_ascii_chars_encode_utf8(",\"attestations\":"@);
    vstd::utf8::is_ascii_chars_encode_utf8("{\"kid\":"@);
    vstd::utf8::is_ascii_chars_encode_utf8(",\"alg\":\"EdDSA\",\"signature\":"@);
}

// ---------------------------------------------------------------------------
// JSON parsing
// ---------------------------------------------------------------------------

pub open spec fn spec_parse_json_attestation(b: Seq<u8>, i: int) -> Option<(AttestationV, int)> {
    match json::spec_expect(b, i, encode_utf8("{\"name\":"@)) {
        Some(j) => match json::spec_parse_jstring(b, j) {
            Some((nm, j2)) => match json::spec_expect(b, j2, encode_utf8(",\"bytes\":"@)) {
                Some(j3) => match json::spec_parse_jhex(b, j3) {
                    Some((bs, j4)) => match json::spec_expect(b, j4, seq![0x7du8]) {
                        Some(j5) => Some((AttestationV { name: nm, bytes: bs }, j5)),
                        None => None,
                    },
                    None => None,
                },
                None => None,
            },
            None => None,
        },
        None => None,
    }
}

pub open spec fn spec_parse_json_attestation_items(b: Seq<u8>, i: int) -> Option<
    (Seq<AttestationV>, int),
>
    decreases b.len() - i,
{
    match spec_parse_json_attestation(b, i) {
        Some((a, j)) => if i < j && j < b.len() {
            if b[j] == 0x2c {
                match spec_parse_json_attestation_items(b, j + 1) {
                    Some((xs, j2)) => Some((seq![a] + xs, j2)),
                    None => None,
                }
            } else if b[j] == 0x5d {
                Some((seq![a], j + 1))
            } else {
                None
            }
        } else {
            None
        },
        None => None,
    }
}

pub open spec fn spec_parse_json_attestations(b: Seq<u8>, i: int) -> Option<
    (Seq<AttestationV>, int),
> {
    if 0 <= i && i + 1 < b.len() && b[i] == 0x5b && b[i + 1] == 0x5d {
        Some((Seq::empty(), i + 2))
    } else if 0 <= i < b.len() && b[i] == 0x5b {
        spec_parse_json_attestation_items(b, i + 1)
    } else {
        None
    }
}

pub open spec fn spec_parse_json_successor(b: Seq<u8>, i: int) -> Option<(SuccessorV, int)> {
    match json::spec_expect(b, i, encode_utf8("{\"p_0\":"@)) {
        Some(j) => {
            let p0r: Option<(Option<Seq<char>>, int)> = if json::spec_at_jnull(b, j) {
                Some((None, j + 4))
            } else {
                match json::spec_parse_jstring(b, j) {
                    Some((p, j2)) => Some((Some(p), j2)),
                    None => None,
                }
            };
            match p0r {
                Some((p0, j2)) => match json::spec_expect(b, j2, encode_utf8(",\"ops\":"@)) {
                    Some(j3) => match json::spec_parse_jstr_array(b, j3) {
                        Some((ops, j4)) => match json::spec_expect(
                            b,
                            j4,
                            encode_utf8(",\"executor\":"@),
                        ) {
                            Some(j5) => {
                                let exr: Option<(Option<ExecutorV>, int)> = if json::spec_at_jnull(
                                    b,
                                    j5,
                                ) {
                                    Some((None, j5 + 4))
                                } else {
                                    match crate::pca::spec_parse_json_executor(b, j5) {
                                        Some((e, j6)) => Some((Some(e), j6)),
                                        None => None,
                                    }
                                };
                                match exr {
                                    Some((ex, j6)) => match json::spec_expect(
                                        b,
                                        j6,
                                        encode_utf8(",\"constraints\":"@),
                                    ) {
                                        Some(j7) => {
                                            let cnr: Option<(Option<Constraints>, int)> = if
                                                json::spec_at_jnull(b, j7) {
                                                Some((None, j7 + 4))
                                            } else {
                                                match crate::pca::spec_parse_json_constraints(
                                                    b,
                                                    j7,
                                                ) {
                                                    Some((c, j8)) => Some((Some(c), j8)),
                                                    None => None,
                                                }
                                            };
                                            match cnr {
                                                Some((cn, j8)) => match json::spec_expect(
                                                    b,
                                                    j8,
                                                    seq![0x7du8],
                                                ) {
                                                    Some(j9) => Some(
                                                        (
                                                            SuccessorV {
                                                                p_0: p0,
                                                                ops,
                                                                executor: ex,
                                                                constraints: cn,
                                                            },
                                                            j9,
                                                        ),
                                                    ),
                                                    None => None,
                                                },
                                                None => None,
                                            }
                                        },
                                        None => None,
                                    },
                                    None => None,
                                }
                            },
                            None => None,
                        },
                        None => None,
                    },
                    None => None,
                },
                None => None,
            }
        },
        None => None,
    }
}

pub open spec fn spec_parse_json_poc_payload(b: Seq<u8>, i: int) -> Option<(PocPayloadV, int)> {
    match json::spec_expect(b, i, encode_utf8("{\"predecessor\":"@)) {
        Some(j) => match json::spec_parse_jhex(b, j) {
            Some((pred, j2)) => match json::spec_expect(b, j2, encode_utf8(",\"successor\":"@)) {
                Some(j3) => match spec_parse_json_successor(b, j3) {
                    Some((suc, j4)) => match json::spec_expect(
                        b,
                        j4,
                        encode_utf8(",\"attestations\":"@),
                    ) {
                        Some(j5) => match spec_parse_json_attestations(b, j5) {
                            Some((ats, j6)) => match json::spec_expect(b, j6, seq![0x7du8]) {
                                Some(j7) => Some(
                                    (
                                        PocPayloadV {
                                            predecessor: pred,
                                            successor: suc,
                                            attestations: ats,
                                        },
                                        j7,
                                    ),
                                ),
                                None => None,
                            },
                            None => None,
                        },
                        None => None,
                    },
                    None => None,
                },
                None => None,
            },
            None => None,
        },
        None => None,
    }
}

pub open spec fn spec_parse_json_poc(b: Seq<u8>, i: int) -> Option<(PocV, int)> {
    match json::spec_expect(b, i, encode_utf8("{\"kid\":"@)) {
        Some(j) => match json::spec_parse_jstring(b, j) {
            Some((kid, j2)) => match json::spec_expect(
                b,
                j2,
                encode_utf8(",\"alg\":\"EdDSA\",\"signature\":"@),
            ) {
                Some(j3) => match json::spec_parse_jhex(b, j3) {
                    Some((sig, j4)) => match json::spec_expect(
                        b,
                        j4,
                        encode_utf8(",\"payload\":"@),
                    ) {
                        Some(j5) => match spec_parse_json_poc_payload(b, j5) {
                            Some((pl, j6)) => match json::spec_expect(b, j6, seq![0x7du8]) {
                                Some(j7) => Some(
                                    (PocV { kid, signature: sig, payload: pl }, j7),
                                ),
                                None => None,
                            },
                            None => None,
                        },
                        None => None,
                    },
                    None => None,
                },
                None => None,
            },
            None => None,
        },
        None => None,
    }
}

/// Decode a whole byte string as one PoC in JSON form.
pub open spec fn spec_json_poc_dec(b: Seq<u8>) -> Option<PocV> {
    match spec_parse_json_poc(b, 0) {
        Some((v, j)) => if j == b.len() {
            Some(v)
        } else {
            None
        },
        None => None,
    }
}

// ---------------------------------------------------------------------------
// JSON: parse-of-encode lemmas
// ---------------------------------------------------------------------------

pub proof fn lemma_parse_json_attestation_of_enc(b: Seq<u8>, i: int, a: AttestationV)
    requires
        0 <= i,
        i + spec_json_attestation(a).len() <= b.len(),
        b.subrange(i, i + spec_json_attestation(a).len()) == spec_json_attestation(a),
    ensures
        spec_parse_json_attestation(b, i) == Some((a, i + spec_json_attestation(a).len())),
{
    let k1 = encode_utf8("{\"name\":"@);
    let v1 = json::spec_jstring(a.name);
    let k2 = encode_utf8(",\"bytes\":"@);
    let v2 = json::spec_jhex(a.bytes);
    let cl = seq![0x7du8];
    assert(spec_json_attestation(a) == k1 + v1 + k2 + (v2 + cl)) by {
        assert(spec_json_attestation(a) =~= k1 + v1 + k2 + (v2 + cl));
    }
    cbor::lemma_concat_split8(
        b,
        i,
        k1,
        v1,
        k2,
        v2 + cl,
        Seq::empty(),
        Seq::empty(),
        Seq::empty(),
        Seq::empty(),
    );
    let p1 = i + k1.len();
    json::lemma_parse_jstring_of_enc(b, p1, a.name);
    let p2 = p1 + v1.len() + k2.len();
    lemma_concat_split(b, p2, v2, cl);
    json::lemma_parse_jhex_of_enc(b, p2, a.bytes);
    assert(AttestationV { name: a.name, bytes: a.bytes } == a);
}

pub proof fn lemma_parse_json_attestation_items_of_enc(b: Seq<u8>, i: int, xs: Seq<AttestationV>)
    requires
        xs.len() >= 1,
        0 <= i,
        i + spec_json_attestation_items(xs).len() + 1 <= b.len(),
        b.subrange(i, i + spec_json_attestation_items(xs).len() + 1)
            == spec_json_attestation_items(xs) + seq![0x5du8],
    ensures
        spec_parse_json_attestation_items(b, i) == Some(
            (xs, i + spec_json_attestation_items(xs).len() + 1),
        ),
    decreases xs.len(),
{
    let tok = spec_json_attestation(xs[0]);
    if xs.len() == 1 {
        lemma_concat_split(b, i, tok, seq![0x5du8]);
        lemma_parse_json_attestation_of_enc(b, i, xs[0]);
        let j = i + tok.len();
        assert(b[j] == b.subrange(j, j + 1)[0]);
        assert(b[j] == 0x5d);
        assert(seq![xs[0]] =~= xs);
    } else {
        let rest = spec_json_attestation_items(xs.drop_first());
        assert(spec_json_attestation_items(xs) == tok + seq![0x2cu8] + rest);
        let tail = seq![0x2cu8] + rest + seq![0x5du8];
        assert(spec_json_attestation_items(xs) + seq![0x5du8] =~= tok + tail);
        lemma_concat_split(b, i, tok, tail);
        lemma_parse_json_attestation_of_enc(b, i, xs[0]);
        let j = i + tok.len();
        assert(b[j] == b.subrange(j, j + tail.len())[0]);
        assert(b[j] == 0x2c);
        lemma_subrange_within(b, j, tail.len() as int, 1, tail.len() as int);
        assert(tail.subrange(1, tail.len() as int) =~= rest + seq![0x5du8]);
        assert(b.subrange(j + 1, j + 1 + rest.len() + 1) =~= rest + seq![0x5du8]);
        lemma_parse_json_attestation_items_of_enc(b, j + 1, xs.drop_first());
        assert(seq![xs[0]] + xs.drop_first() =~= xs);
    }
}

pub proof fn lemma_parse_json_attestations_of_enc(b: Seq<u8>, i: int, xs: Seq<AttestationV>)
    requires
        0 <= i,
        i + spec_json_attestations(xs).len() <= b.len(),
        b.subrange(i, i + spec_json_attestations(xs).len()) == spec_json_attestations(xs),
    ensures
        spec_parse_json_attestations(b, i) == Some((xs, i + spec_json_attestations(xs).len())),
{
    let w = spec_json_attestations(xs);
    assert(b[i] == w[0]);
    if xs.len() == 0 {
        assert(w =~= seq![0x5bu8, 0x5du8]);
        assert(b[i + 1] == w[1]);
    } else {
        assert(b[i + 1] == w[1]);
        assert(w[1] == spec_json_attestation_items(xs)[0]);
        assert(spec_json_attestation_items(xs)[0] == spec_json_attestation(xs[0])[0]);
        assert(spec_json_attestation(xs[0])[0] == encode_utf8("{\"name\":"@)[0]) by {
            lemma_poc_json_keys();
        }
        assert(b[i + 1] != 0x5d) by {
            lemma_poc_json_keys();
        }
        lemma_subrange_within(b, i, w.len() as int, 1, w.len() as int);
        assert(w.subrange(1, w.len() as int) =~= spec_json_attestation_items(xs) + seq![0x5du8]);
        assert(b.subrange(i + 1, i + 1 + spec_json_attestation_items(xs).len() + 1)
            =~= spec_json_attestation_items(xs) + seq![0x5du8]);
        lemma_parse_json_attestation_items_of_enc(b, i + 1, xs);
    }
}

#[verifier::rlimit(100)]
#[verifier::spinoff_prover]
proof fn lemma_parse_json_successor_front(b: Seq<u8>, i: int, s: SuccessorV)
    requires
        0 <= i,
        i + spec_json_successor_front(s).len() <= b.len(),
        b.subrange(i, i + spec_json_successor_front(s).len()) == spec_json_successor_front(s),
    ensures
        ({
            let k1 = encode_utf8("{\"p_0\":"@);
            let v1 = match s.p_0 {
                Some(p) => json::spec_jstring(p),
                None => json::spec_jnull(),
            };
            let k2 = encode_utf8(",\"ops\":"@);
            let v2 = json::spec_jstr_array(s.ops);
            let p1 = i + k1.len();
            let p2 = p1 + v1.len() + k2.len();
            &&& json::spec_expect(b, i, k1) == Some(p1)
            &&& (json::spec_at_jnull(b, p1) <==> s.p_0 is None)
            &&& (s.p_0 matches Some(p) ==> json::spec_parse_jstring(b, p1) == Some(
                (p, p1 + v1.len()),
            ))
            &&& (s.p_0 is None ==> p1 + 4 == p1 + v1.len())
            &&& json::spec_expect(b, p1 + v1.len(), k2) == Some(p2)
            &&& json::spec_parse_jstr_array(b, p2) == Some((s.ops, p2 + v2.len()))
            &&& p2 + v2.len() == i + spec_json_successor_front(s).len()
        }),
{
    lemma_poc_json_keys();
    crate::pca::lemma_pca_json_keys();
    let k1 = encode_utf8("{\"p_0\":"@);
    let v1 = match s.p_0 {
        Some(p) => json::spec_jstring(p),
        None => json::spec_jnull(),
    };
    let k2 = encode_utf8(",\"ops\":"@);
    let v2 = json::spec_jstr_array(s.ops);
    assert(spec_json_successor_front(s) == k1 + v1 + k2 + v2);
    cbor::lemma_concat_split8(
        b,
        i,
        k1,
        v1,
        k2,
        v2,
        Seq::empty(),
        Seq::empty(),
        Seq::empty(),
        Seq::empty(),
    );
    let p1 = i + k1.len();
    match s.p_0 {
        None => {
            assert(json::spec_at_jnull(b, p1)) by {
                assert(b.subrange(p1, p1 + 4) =~= json::spec_jnull());
            }
        },
        Some(p) => {
            assert(b[p1] == v1[0]);
            assert(v1[0] == 0x22);
            assert(!json::spec_at_jnull(b, p1)) by {
                if json::spec_at_jnull(b, p1) {
                    assert(b.subrange(p1, p1 + 4)[0] == json::spec_jnull()[0]);
                }
            }
            json::lemma_parse_jstring_of_enc(b, p1, p);
        },
    }
    let p2 = p1 + v1.len() + k2.len();
    json::lemma_parse_jstr_array_of_enc(b, p2, s.ops);
}

#[verifier::rlimit(100)]
#[verifier::spinoff_prover]
proof fn lemma_parse_json_successor_back(b: Seq<u8>, i: int, s: SuccessorV)
    requires
        0 <= i,
        i + spec_json_successor_back(s).len() <= b.len(),
        b.subrange(i, i + spec_json_successor_back(s).len()) == spec_json_successor_back(s),
    ensures
        ({
            let k3 = encode_utf8(",\"executor\":"@);
            let v3 = match s.executor {
                Some(e) => crate::pca::spec_json_executor(e),
                None => json::spec_jnull(),
            };
            let k4 = encode_utf8(",\"constraints\":"@);
            let v4 = match s.constraints {
                Some(c) => crate::pca::spec_json_constraints(c),
                None => json::spec_jnull(),
            };
            let p3 = i + k3.len();
            let p4 = p3 + v3.len() + k4.len();
            &&& json::spec_expect(b, i, k3) == Some(p3)
            &&& (json::spec_at_jnull(b, p3) <==> s.executor is None)
            &&& (s.executor matches Some(e) ==> crate::pca::spec_parse_json_executor(b, p3)
                == Some((e, p3 + v3.len())))
            &&& (s.executor is None ==> p3 + 4 == p3 + v3.len())
            &&& json::spec_expect(b, p3 + v3.len(), k4) == Some(p4)
            &&& (json::spec_at_jnull(b, p4) <==> s.constraints is None)
            &&& (s.constraints matches Some(c) ==> crate::pca::spec_parse_json_constraints(b, p4)
                == Some((c, p4 + v4.len())))
            &&& (s.constraints is None ==> p4 + 4 == p4 + v4.len())
            &&& json::spec_expect(b, p4 + v4.len(), seq![0x7du8]) == Some(
                i + spec_json_successor_back(s).len(),
            )
        }),
{
    lemma_poc_json_keys();
    crate::pca::lemma_pca_json_keys();
    let k3 = encode_utf8(",\"executor\":"@);
    let v3 = match s.executor {
        Some(e) => crate::pca::spec_json_executor(e),
        None => json::spec_jnull(),
    };
    let k4 = encode_utf8(",\"constraints\":"@);
    let v4 = match s.constraints {
        Some(c) => crate::pca::spec_json_constraints(c),
        None => json::spec_jnull(),
    };
    let cl = seq![0x7du8];
    assert(spec_json_successor_back(s) == k3 + v3 + k4 + v4 + cl);
    cbor::lemma_concat_split8(
        b,
        i,
        k3,
        v3,
        k4,
        v4,
        cl,
        Seq::empty(),
        Seq::empty(),
        Seq::empty(),
    );
    let p3 = i + k3.len();
    match s.executor {
        None => {
            assert(json::spec_at_jnull(b, p3)) by {
                assert(b.subrange(p3, p3 + 4) =~= json::spec_jnull());
            }
        },
        Some(e) => {
            assert(b[p3] == v3[0]);
            assert(v3[0] == 0x7b);
            assert(!json::spec_at_jnull(b, p3)) by {
                if json::spec_at_jnull(b, p3) {
                    assert(b.subrange(p3, p3 + 4)[0] == json::spec_jnull()[0]);
                }
            }
            crate::pca::lemma_parse_json_executor_of_enc(b, p3, e);
        },
    }
    let p4 = p3 + v3.len() + k4.len();
    match s.constraints {
        None => {
            assert(json::spec_at_jnull(b, p4)) by {
                assert(b.subrange(p4, p4 + 4) =~= json::spec_jnull());
            }
        },
        Some(c) => {
            assert(b[p4] == v4[0]);
            assert(v4[0] == 0x7b);
            assert(!json::spec_at_jnull(b, p4)) by {
                if json::spec_at_jnull(b, p4) {
                    assert(b.subrange(p4, p4 + 4)[0] == json::spec_jnull()[0]);
                }
            }
            crate::pca::lemma_parse_json_constraints_of_enc(b, p4, c);
        },
    }
}

#[verifier::rlimit(100)]
#[verifier::spinoff_prover]
pub proof fn lemma_parse_json_successor_of_enc(b: Seq<u8>, i: int, s: SuccessorV)
    requires
        0 <= i,
        i + spec_json_successor(s).len() <= b.len(),
        b.subrange(i, i + spec_json_successor(s).len()) == spec_json_successor(s),
    ensures
        spec_parse_json_successor(b, i) == Some((s, i + spec_json_successor(s).len())),
{
    let fa = spec_json_successor_front(s);
    let fb = spec_json_successor_back(s);
    lemma_concat_split(b, i, fa, fb);
    lemma_parse_json_successor_front(b, i, s);
    lemma_parse_json_successor_back(b, i + fa.len(), s);
    assert(SuccessorV { p_0: s.p_0, ops: s.ops, executor: s.executor, constraints: s.constraints }
        == s);
}

#[verifier::rlimit(100)]
#[verifier::spinoff_prover]
pub proof fn lemma_parse_json_poc_payload_of_enc(b: Seq<u8>, i: int, p: PocPayloadV)
    requires
        0 <= i,
        i + spec_json_poc_payload(p).len() <= b.len(),
        b.subrange(i, i + spec_json_poc_payload(p).len()) == spec_json_poc_payload(p),
    ensures
        spec_parse_json_poc_payload(b, i) == Some((p, i + spec_json_poc_payload(p).len())),
{
    let k1 = encode_utf8("{\"predecessor\":"@);
    let v1 = json::spec_jhex(p.predecessor);
    let k2 = encode_utf8(",\"successor\":"@);
    let v2 = spec_json_successor(p.successor);
    let k3 = encode_utf8(",\"attestations\":"@);
    let v3 = spec_json_attestations(p.attestations);
    let cl = seq![0x7du8];
    assert(spec_json_poc_payload(p) == k1 + v1 + k2 + v2 + k3 + (v3 + cl)) by {
        assert(spec_json_poc_payload(p) =~= k1 + v1 + k2 + v2 + k3 + (v3 + cl));
    }
    cbor::lemma_concat_split8(
        b,
        i,
        k1,
        v1,
        k2,
        v2,
        k3,
        v3 + cl,
        Seq::empty(),
        Seq::empty(),
    );
    let p1 = i + k1.len();
    json::lemma_parse_jhex_of_enc(b, p1, p.predecessor);
    let p2 = p1 + v1.len() + k2.len();
    lemma_parse_json_successor_of_enc(b, p2, p.successor);
    let p3 = p2 + v2.len() + k3.len();
    lemma_concat_split(b, p3, v3, cl);
    lemma_parse_json_attestations_of_enc(b, p3, p.attestations);
    assert(PocPayloadV {
        predecessor: p.predecessor,
        successor: p.successor,
        attestations: p.attestations,
    } == p);
}

#[verifier::rlimit(100)]
#[verifier::spinoff_prover]
pub proof fn lemma_parse_json_poc_of_enc(b: Seq<u8>, i: int, v: PocV)
    requires
        0 <= i,
        i + spec_json_poc(v).len() <= b.len(),
        b.subrange(i, i + spec_json_poc(v).len()) == spec_json_poc(v),
    ensures
        spec_parse_json_poc(b, i) == Some((v, i + spec_json_poc(v).len())),
{
    let k1 = encode_utf8("{\"kid\":"@);
    let v1 = json::spec_jstring(v.kid);
    let k2 = encode_utf8(",\"alg\":\"EdDSA\",\"signature\":"@);
    let v2 = json::spec_jhex(v.signature);
    let k3 = encode_utf8(",\"payload\":"@);
    let v3 = spec_json_poc_payload(v.payload);
    let cl = seq![0x7du8];
    assert(spec_json_poc(v) == k1 + v1 + k2 + v2 + k3 + v3 + cl) by {
        assert(spec_json_poc(v) =~= k1 + v1 + k2 + v2 + k3 + v3 + cl);
    }
    cbor::lemma_concat_split8(b, i, k1, v1, k2, v2, k3, v3, cl, Seq::empty());
    let p1 = i + k1.len();
    json::lemma_parse_jstring_of_enc(b, p1, v.kid);
    let p2 = p1 + v1.len() + k2.len();
    json::lemma_parse_jhex_of_enc(b, p2, v.signature);
    let p3 = p2 + v2.len() + k3.len();
    lemma_parse_json_poc_payload_of_enc(b, p3, v.payload);
    assert(PocV { kid: v.kid, signature: v.signature, payload: v.payload } == v);
}

/// Round-trip law, JSON: decoding the encoding of any PoC yields the
/// PoC itself.
pub proof fn lemma_json_poc_round_trip(v: PocV)
    ensures
        spec_json_poc_dec(spec_json_poc(v)) == Some(v),
{
    let benc = spec_json_poc(v);
    assert(benc.subrange(0, benc.len() as int) =~= benc);
    lemma_parse_json_poc_of_enc(benc, 0, v);
}

// ---------------------------------------------------------------------------
// JSON: validity of the emitted bytes
// ---------------------------------------------------------------------------

proof fn lemma_json_attestation_valid(a: AttestationV)
    ensures
        vstd::utf8::valid_utf8(spec_json_attestation(a)),
{
    vstd::utf8::encode_utf8_valid_utf8("{\"name\":"@);
    vstd::utf8::encode_utf8_valid_utf8(",\"bytes\":"@);
    json::lemma_jstring_valid_utf8(a.name);
    json::lemma_jhex_valid_utf8(a.bytes);
    json::lemma_ascii_valid_utf8(seq![0x7du8]);
    json::lemma_empty_valid_utf8();
    json::lemma_valid_concat8(
        encode_utf8("{\"name\":"@),
        json::spec_jstring(a.name),
        encode_utf8(",\"bytes\":"@),
        json::spec_jhex(a.bytes),
        seq![0x7du8],
        Seq::empty(),
        Seq::empty(),
        Seq::empty(),
    );
    assert(spec_json_attestation(a) =~= encode_utf8("{\"name\":"@) + json::spec_jstring(a.name)
        + encode_utf8(",\"bytes\":"@) + json::spec_jhex(a.bytes) + seq![0x7du8]);
}

proof fn lemma_json_attestation_items_valid(xs: Seq<AttestationV>)
    ensures
        vstd::utf8::valid_utf8(spec_json_attestation_items(xs)),
    decreases xs.len(),
{
    if xs.len() == 0 {
        assert(spec_json_attestation_items(xs) =~= Seq::<u8>::empty());
        json::lemma_empty_valid_utf8();
    } else if xs.len() == 1 {
        lemma_json_attestation_valid(xs[0]);
    } else {
        lemma_json_attestation_valid(xs[0]);
        lemma_json_attestation_items_valid(xs.drop_first());
        json::lemma_ascii_valid_utf8(seq![0x2cu8]);
        vstd::utf8::valid_utf8_concat(spec_json_attestation(xs[0]), seq![0x2cu8]);
        vstd::utf8::valid_utf8_concat(
            spec_json_attestation(xs[0]) + seq![0x2cu8],
            spec_json_attestation_items(xs.drop_first()),
        );
    }
}

proof fn lemma_json_attestations_valid(xs: Seq<AttestationV>)
    ensures
        vstd::utf8::valid_utf8(spec_json_attestations(xs)),
{
    lemma_json_attestation_items_valid(xs);
    json::lemma_ascii_valid_utf8(seq![0x5bu8]);
    json::lemma_ascii_valid_utf8(seq![0x5du8]);
    vstd::utf8::valid_utf8_concat(seq![0x5bu8], spec_json_attestation_items(xs));
    vstd::utf8::valid_utf8_concat(seq![0x5bu8] + spec_json_attestation_items(xs), seq![0x5du8]);
}

proof fn lemma_json_successor_valid(s: SuccessorV)
    ensures
        vstd::utf8::valid_utf8(spec_json_successor(s)),
{
    vstd::utf8::encode_utf8_valid_utf8("{\"p_0\":"@);
    vstd::utf8::encode_utf8_valid_utf8(",\"ops\":"@);
    vstd::utf8::encode_utf8_valid_utf8(",\"executor\":"@);
    vstd::utf8::encode_utf8_valid_utf8(",\"constraints\":"@);
    let v1 = match s.p_0 {
        Some(p) => json::spec_jstring(p),
        None => json::spec_jnull(),
    };
    let v3 = match s.executor {
        Some(e) => crate::pca::spec_json_executor(e),
        None => json::spec_jnull(),
    };
    let v4 = match s.constraints {
        Some(c) => crate::pca::spec_json_constraints(c),
        None => json::spec_jnull(),
    };
    match s.p_0 {
        Some(p) => json::lemma_jstring_valid_utf8(p),
        None => json::lemma_jnull_valid_utf8(),
    }
    json::lemma_jstr_array_valid_utf8(s.ops);
    match s.executor {
        Some(e) => crate::pca::lemma_json_executor_valid(e),
        None => json::lemma_jnull_valid_utf8(),
    }
    match s.constraints {
        Some(c) => crate::pca::lemma_json_constraints_valid(c),
        None => json::lemma_jnull_valid_utf8(),
    }
    json::lemma_ascii_valid_utf8(seq![0x7du8]);
    json::lemma_empty_valid_utf8();
    json::lemma_valid_concat8(
        encode_utf8("{\"p_0\":"@),
        v1,
        encode_utf8(",\"ops\":"@),
        json::spec_jstr_array(s.ops),
        Seq::empty(),
        Seq::empty(),
        Seq::empty(),
        Seq::empty(),
    );
    assert(vstd::utf8::valid_utf8(spec_json_successor_front(s))) by {
        assert(spec_json_successor_front(s) =~= encode_utf8("{\"p_0\":"@) + v1 + encode_utf8(
            ",\"ops\":"@,
        ) + json::spec_jstr_array(s.ops));
    }
    json::lemma_valid_concat8(
        encode_utf8(",\"executor\":"@),
        v3,
        encode_utf8(",\"constraints\":"@),
        v4,
        seq![0x7du8],
        Seq::empty(),
        Seq::empty(),
        Seq::empty(),
    );
    assert(vstd::utf8::valid_utf8(spec_json_successor_back(s))) by {
        assert(spec_json_successor_back(s) =~= encode_utf8(",\"executor\":"@) + v3 + encode_utf8(
            ",\"constraints\":"@,
        ) + v4 + seq![0x7du8]);
    }
    vstd::utf8::valid_utf8_concat(spec_json_successor_front(s), spec_json_successor_back(s));
}

proof fn lemma_json_poc_payload_valid(p: PocPayloadV)
    ensures
        vstd::utf8::valid_utf8(spec_json_poc_payload(p)),
{
    vstd::utf8::encode_utf8_valid_utf8("{\"predecessor\":"@);
    vstd::utf8::encode_utf8_valid_utf8(",\"successor\":"@);
    vstd::utf8::encode_utf8_valid_utf8(",\"attestations\":"@);
    json::lemma_jhex_valid_utf8(p.predecessor);
    lemma_json_successor_valid(p.successor);
    lemma_json_attestations_valid(p.attestations);
    json::lemma_ascii_valid_utf8(seq![0x7du8]);
    json::lemma_empty_valid_utf8();
    json::lemma_valid_concat8(
        encode_utf8("{\"predecessor\":"@),
        json::spec_jhex(p.predecessor),
        encode_utf8(",\"successor\":"@),
        spec_json_successor(p.successor),
        encode_utf8(",\"attestations\":"@),
        spec_json_attestations(p.attestations),
        seq![0x7du8],
        Seq::empty(),
    );
    assert(spec_json_poc_payload(p) =~= encode_utf8("{\"predecessor\":"@) + json::spec_jhex(
        p.predecessor,
    ) + encode_utf8(",\"successor\":"@) + spec_json_successor(p.successor) + encode_utf8(
        ",\"attestations\":"@,
    ) + spec_json_attestations(p.attestations) + seq![0x7du8]);
}

proof fn lemma_json_poc_valid(v: PocV)
    ensures
        vstd::utf8::valid_utf8(spec_json_poc(v)),
{
    vstd::utf8::encode_utf8_valid_utf8("{\"kid\":"@);
    vstd::utf8::encode_utf8_valid_utf8(",\"alg\":\"EdDSA\",\"signature\":"@);
    vstd::utf8::encode_utf8_valid_utf8(",\"payload\":"@);
    json::lemma_jstring_valid_utf8(v.kid);
    json::lemma_jhex_valid_utf8(v.signature);
    lemma_json_poc_payload_valid(v.payload);
    json::lemma_ascii_valid_utf8(seq![0x7du8]);
    json::lemma_empty_valid_utf8();
    json::lemma_valid_concat8(
        encode_utf8("{\"kid\":"@),
        json::spec_jstring(v.kid),
        encode_utf8(",\"alg\":\"EdDSA\",\"signature\":"@),
        json::spec_jhex(v.signature),
        encode_utf8(",\"payload\":"@),
        spec_json_poc_payload(v.payload),
        seq![0x7du8],
        Seq::empty(),
    );
    assert(spec_json_poc(v) =~= encode_utf8("{\"kid\":"@) + json::spec_jstring(v.kid)
        + encode_utf8(",\"alg\":\"EdDSA\",\"signature\":"@) + json::spec_jhex(v.signature)
        + encode_utf8(",\"payload\":"@) + spec_json_poc_payload(v.payload) + seq![0x7du8]);
}

// ---------------------------------------------------------------------------
// JSON: executable encoders and parsers
// ---------------------------------------------------------------------------

proof fn lemma_poc_close_brace()
    ensures
        encode_utf8("}"@) =~= seq![0x7du8],
{
    reveal_strlit("}");
    vstd::utf8::is_ascii_chars_encode_utf8("}"@);
}

fn push_json_attestation(out: &mut Vec<u8>, a: &Attestation)
    ensures
        final(out)@ =~= old(out)@ + spec_json_attestation(a@),
{
    out.extend_from_slice(("{\"name\":").as_bytes());
    json::push_jstring(out, a.name.as_str());
    out.extend_from_slice((",\"bytes\":").as_bytes());
    json::push_jhex(out, a.bytes.as_slice());
    out.push(0x7d);
    assert(out@ =~= old(out)@ + spec_json_attestation(a@));
}

fn parse_json_attestation(b: &[u8], i: usize) -> (r: Option<(Attestation, usize)>)
    ensures
        match r {
            Some((a, j)) => {
                &&& spec_parse_json_attestation(b@, i as int) == Some((a@, j as int))
                &&& i <= j <= b@.len()
            },
            None => spec_parse_json_attestation(b@, i as int) is None,
        },
{
    let j = match json::expect_lit(b, i, ("{\"name\":").as_bytes()) {
        Some(x) => x,
        None => {
            return None;
        },
    };
    let (nm, j2) = match json::parse_jstring(b, j) {
        Some(x) => x,
        None => {
            return None;
        },
    };
    let j3 = match json::expect_lit(b, j2, (",\"bytes\":").as_bytes()) {
        Some(x) => x,
        None => {
            return None;
        },
    };
    let (bs, j4) = match json::parse_jhex(b, j3) {
        Some(x) => x,
        None => {
            return None;
        },
    };
    let j5 = match json::expect_lit(b, j4, ("}").as_bytes()) {
        Some(x) => x,
        None => {
            proof {
                lemma_poc_close_brace();
            }
            return None;
        },
    };
    proof {
        lemma_poc_close_brace();
    }
    Some((Attestation { name: nm, bytes: bs }, j5))
}

proof fn lemma_json_attestation_items_push(a: Seq<AttestationV>, x: AttestationV)
    ensures
        spec_json_attestation_items(a.push(x)) =~= if a.len() == 0 {
            spec_json_attestation(x)
        } else {
            spec_json_attestation_items(a) + seq![0x2cu8] + spec_json_attestation(x)
        },
    decreases a.len(),
{
    let p = a.push(x);
    if a.len() == 0 {
        assert(p.len() == 1);
        assert(p[0] == x);
    } else {
        assert(p.len() >= 2);
        assert(p[0] == a[0]);
        assert(p.drop_first() =~= a.drop_first().push(x));
        lemma_json_attestation_items_push(a.drop_first(), x);
        if a.len() == 1 {
            assert(spec_json_attestation_items(a) =~= spec_json_attestation(a[0]));
        }
    }
}

fn push_json_attestations(out: &mut Vec<u8>, xs: &Vec<Attestation>)
    ensures
        final(out)@ =~= old(out)@ + spec_json_attestations(attestations_view(xs@)),
{
    out.push(0x5b);
    let n = xs.len();
    let mut t: usize = 0;
    while t < n
        invariant
            0 <= t <= n,
            n == xs@.len(),
            out@ =~= old(out)@ + seq![0x5bu8] + spec_json_attestation_items(
                attestations_view(xs@).take(t as int),
            ),
        decreases n - t,
    {
        if t > 0 {
            out.push(0x2c);
        }
        push_json_attestation(out, &xs[t]);
        proof {
            let dv = attestations_view(xs@);
            assert(dv.take(t + 1) =~= dv.take(t as int).push(dv[t as int]));
            lemma_json_attestation_items_push(dv.take(t as int), dv[t as int]);
            assert(dv[t as int] == xs@[t as int]@);
            assert(out@ =~= old(out)@ + seq![0x5bu8] + spec_json_attestation_items(
                dv.take(t + 1),
            ));
        }
        t += 1;
    }
    out.push(0x5d);
    proof {
        let dv = attestations_view(xs@);
        assert(dv.take(n as int) =~= dv);
        assert(out@ =~= old(out)@ + spec_json_attestations(dv));
    }
}

fn parse_json_attestations(b: &[u8], i: usize) -> (r: Option<(Vec<Attestation>, usize)>)
    ensures
        match r {
            Some((xs, j)) => {
                &&& spec_parse_json_attestations(b@, i as int) == Some(
                    (attestations_view(xs@), j as int),
                )
                &&& i < j <= b@.len()
            },
            None => spec_parse_json_attestations(b@, i as int) is None,
        },
{
    let n = b.len();
    if i >= n || *vstd::slice::slice_index_get(b, i) != 0x5b {
        return None;
    }
    if i + 1 < n && *vstd::slice::slice_index_get(b, i + 1) == 0x5d {
        let empty: Vec<Attestation> = Vec::new();
        proof {
            assert(attestations_view(empty@) =~= Seq::<AttestationV>::empty());
        }
        return Some((empty, i + 2));
    }
    let mut acc: Vec<Attestation> = Vec::new();
    let mut cur: usize = i + 1;
    proof {
        assert(attestations_view(acc@) =~= Seq::<AttestationV>::empty());
        assert forall|xs: Seq<AttestationV>, j2: int|
            spec_parse_json_attestation_items(b@, cur as int) == Some(
                (xs, j2),
            ) implies spec_parse_json_attestations(b@, i as int) == Some(
            (attestations_view(acc@) + xs, j2),
        ) by {
            assert(attestations_view(acc@) + xs =~= xs);
        }
    }
    loop
        invariant
            i < cur <= n <= usize::MAX,
            n == b@.len(),
            forall|xs: Seq<AttestationV>, j2: int|
                spec_parse_json_attestation_items(b@, cur as int) == Some((xs, j2))
                    ==> spec_parse_json_attestations(b@, i as int) == Some(
                    (attestations_view(acc@) + xs, j2),
                ),
            spec_parse_json_attestation_items(b@, cur as int) is None
                ==> spec_parse_json_attestations(b@, i as int) is None,
        decreases n - cur,
    {
        let (a, j) = match parse_json_attestation(b, cur) {
            Some(x) => x,
            None => {
                return None;
            },
        };
        if j <= cur || j >= n {
            return None;
        }
        let sep = *vstd::slice::slice_index_get(b, j);
        let ghost pre = attestations_view(acc@);
        if sep == 0x5d {
            proof {
                assert(spec_parse_json_attestation_items(b@, cur as int) == Some(
                    (seq![a@], j + 1),
                ));
                assert(pre + seq![a@] =~= pre.push(a@));
            }
            acc.push(a);
            proof {
                assert(attestations_view(acc@) =~= pre.push(acc@.last()@));
            }
            return Some((acc, j + 1));
        }
        if sep != 0x2c {
            return None;
        }
        proof {
            assert forall|xs: Seq<AttestationV>, j2: int|
                spec_parse_json_attestation_items(b@, j + 1) == Some(
                    (xs, j2),
                ) implies spec_parse_json_attestations(b@, i as int) == Some(
                (pre.push(a@) + xs, j2),
            ) by {
                assert(spec_parse_json_attestation_items(b@, cur as int) == Some(
                    (seq![a@] + xs, j2),
                ));
                assert(pre + (seq![a@] + xs) =~= pre.push(a@) + xs);
            }
        }
        acc.push(a);
        cur = j + 1;
        proof {
            assert(attestations_view(acc@) =~= pre.push(acc@.last()@));
        }
    }
}

#[verifier::rlimit(100)]
fn push_json_successor(out: &mut Vec<u8>, s: &Successor)
    ensures
        final(out)@ =~= old(out)@ + spec_json_successor(s@),
{
    out.extend_from_slice(("{\"p_0\":").as_bytes());
    match &s.p_0 {
        Some(p) => json::push_jstring(out, p.as_str()),
        None => json::push_jnull(out),
    }
    out.extend_from_slice((",\"ops\":").as_bytes());
    json::push_jstr_array(out, &s.ops);
    assert(out@ =~= old(out)@ + spec_json_successor_front(s@));
    out.extend_from_slice((",\"executor\":").as_bytes());
    match &s.executor {
        Some(e) => crate::pca::push_json_executor(out, e),
        None => json::push_jnull(out),
    }
    out.extend_from_slice((",\"constraints\":").as_bytes());
    match &s.constraints {
        Some(c) => crate::pca::push_json_constraints(out, c),
        None => json::push_jnull(out),
    }
    out.push(0x7d);
    assert(out@ =~= old(out)@ + spec_json_successor_front(s@) + spec_json_successor_back(s@));
}

#[verifier::rlimit(100)]
fn parse_json_successor(b: &[u8], i: usize) -> (r: Option<(Successor, usize)>)
    ensures
        match r {
            Some((s, j)) => {
                &&& spec_parse_json_successor(b@, i as int) == Some((s@, j as int))
                &&& i <= j <= b@.len()
            },
            None => spec_parse_json_successor(b@, i as int) is None,
        },
{
    let n = b.len();
    let j = match json::expect_lit(b, i, ("{\"p_0\":").as_bytes()) {
        Some(x) => x,
        None => {
            return None;
        },
    };
    let (p0, j2): (Option<String>, usize) = if json::at_jnull(b, j) {
        (None, j + 4)
    } else {
        match json::parse_jstring(b, j) {
            Some((p, jx)) => (Some(p), jx),
            None => {
                return None;
            },
        }
    };
    let j3 = match json::expect_lit(b, j2, (",\"ops\":").as_bytes()) {
        Some(x) => x,
        None => {
            return None;
        },
    };
    let (ops, j4) = match json::parse_jstr_array(b, j3) {
        Some(x) => x,
        None => {
            return None;
        },
    };
    let j5 = match json::expect_lit(b, j4, (",\"executor\":").as_bytes()) {
        Some(x) => x,
        None => {
            return None;
        },
    };
    let (ex, j6): (Option<Executor>, usize) = if json::at_jnull(b, j5) {
        (None, j5 + 4)
    } else {
        match crate::pca::parse_json_executor(b, j5) {
            Some((e, jx)) => (Some(e), jx),
            None => {
                return None;
            },
        }
    };
    let j7 = match json::expect_lit(b, j6, (",\"constraints\":").as_bytes()) {
        Some(x) => x,
        None => {
            return None;
        },
    };
    let (cn, j8): (Option<Constraints>, usize) = if json::at_jnull(b, j7) {
        (None, j7 + 4)
    } else {
        match crate::pca::parse_json_constraints(b, j7) {
            Some((c, jx)) => (Some(c), jx),
            None => {
                return None;
            },
        }
    };
    let j9 = match json::expect_lit(b, j8, ("}").as_bytes()) {
        Some(x) => x,
        None => {
            proof {
                lemma_poc_close_brace();
            }
            return None;
        },
    };
    proof {
        lemma_poc_close_brace();
    }
    Some((Successor { p_0: p0, ops, executor: ex, constraints: cn }, j9))
}

impl Poc {
    /// Encode this PoC to its JSON diagnostic form.
    pub fn to_json(&self) -> (r: String)
        ensures
            encode_utf8(r@) == spec_json_poc(self@),
    {
        let mut out: Vec<u8> = Vec::new();
        out.extend_from_slice(("{\"kid\":").as_bytes());
        json::push_jstring(&mut out, self.kid.as_str());
        out.extend_from_slice((",\"alg\":\"EdDSA\",\"signature\":").as_bytes());
        json::push_jhex(&mut out, self.signature.as_slice());
        out.extend_from_slice((",\"payload\":").as_bytes());
        out.extend_from_slice(("{\"predecessor\":").as_bytes());
        json::push_jhex(&mut out, self.payload.predecessor.as_slice());
        out.extend_from_slice((",\"successor\":").as_bytes());
        push_json_successor(&mut out, &self.payload.successor);
        out.extend_from_slice((",\"attestations\":").as_bytes());
        push_json_attestations(&mut out, &self.payload.attestations);
        out.push(0x7d);
        out.push(0x7d);
        proof {
            assert(out@ =~= spec_json_poc(self@));
        }
        match crate::text::bytes_to_string(out.as_slice()) {
            Some(s) => s,
            None => {
                proof {
                    lemma_json_poc_valid(self@);
                    assert(false);
                }
                String::new()
            },
        }
    }

    /// Decode a whole JSON string as one PoC.
    pub fn from_json(s: &str) -> (r: Result<Poc, PicError>)
        ensures
            match r {
                Ok(p) => spec_json_poc_dec(encode_utf8(s@)) == Some(p@),
                Err(e) => spec_json_poc_dec(encode_utf8(s@)) is None && e
                    matches PicError::MalformedEnvelope,
            },
    {
        let b: &[u8] = s.as_bytes();
        let j = match json::expect_lit(b, 0, ("{\"kid\":").as_bytes()) {
            Some(x) => x,
            None => {
                return Err(PicError::MalformedEnvelope);
            },
        };
        let (kid, j2) = match json::parse_jstring(b, j) {
            Some(x) => x,
            None => {
                return Err(PicError::MalformedEnvelope);
            },
        };
        let j3 = match json::expect_lit(b, j2, (",\"alg\":\"EdDSA\",\"signature\":").as_bytes()) {
            Some(x) => x,
            None => {
                return Err(PicError::MalformedEnvelope);
            },
        };
        let (sig, j4) = match json::parse_jhex(b, j3) {
            Some(x) => x,
            None => {
                return Err(PicError::MalformedEnvelope);
            },
        };
        let j5 = match json::expect_lit(b, j4, (",\"payload\":").as_bytes()) {
            Some(x) => x,
            None => {
                return Err(PicError::MalformedEnvelope);
            },
        };
        let j6 = match json::expect_lit(b, j5, ("{\"predecessor\":").as_bytes()) {
            Some(x) => x,
            None => {
                return Err(PicError::MalformedEnvelope);
            },
        };
        let (pred, j7) = match json::parse_jhex(b, j6) {
            Some(x) => x,
            None => {
                return Err(PicError::MalformedEnvelope);
            },
        };
        let j8 = match json::expect_lit(b, j7, (",\"successor\":").as_bytes()) {
            Some(x) => x,
            None => {
                return Err(PicError::MalformedEnvelope);
            },
        };
        let (suc, j9) = match parse_json_successor(b, j8) {
            Some(x) => x,
            None => {
                return Err(PicError::MalformedEnvelope);
            },
        };
        let j10 = match json::expect_lit(b, j9, (",\"attestations\":").as_bytes()) {
            Some(x) => x,
            None => {
                return Err(PicError::MalformedEnvelope);
            },
        };
        let (ats, j11) = match parse_json_attestations(b, j10) {
            Some(x) => x,
            None => {
                return Err(PicError::MalformedEnvelope);
            },
        };
        let j12 = match json::expect_lit(b, j11, ("}").as_bytes()) {
            Some(x) => x,
            None => {
                proof {
                    lemma_poc_close_brace();
                }
                return Err(PicError::MalformedEnvelope);
            },
        };
        let j13 = match json::expect_lit(b, j12, ("}").as_bytes()) {
            Some(x) => x,
            None => {
                proof {
                    lemma_poc_close_brace();
                }
                return Err(PicError::MalformedEnvelope);
            },
        };
        proof {
            lemma_poc_close_brace();
        }
        if j13 != b.len() {
            return Err(PicError::MalformedEnvelope);
        }
        Ok(
            Poc {
                kid,
                signature: sig,
                payload: PocPayload { predecessor: pred, successor: suc, attestations: ats },
            },
        )
    }
}

} // verus!
