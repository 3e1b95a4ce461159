//! The Causal Authority service (CAT): verifies continuation
//! requests and mints the next PCA, enforcing the central safety
//! invariant of the system — authority is monotonically non-increasing
//! along any chain, by construction.
//!
//! The service state (signing key, key identifier, trusted executor
//! keys, attestation verifier) is set once at construction and never
//! mutated, so a service value may be shared read-only between
//! independent chains.

use vstd::prelude::*;
use crate::binding::BindingEntryV;
use crate::crypto::{ed_generate_seed, ed_pk_of, ed_public_key, ed_sig_of, ed_sign, ed_verifies,
    now_unix};
use crate::envelope::{KeyRing, KeyEntryV, SignedEnvelope, SignedEnvelopeV, spec_env_dec,
    spec_ring_lookup};
use crate::pca::{Constraints, Executor, ExecutorV, Pca, PcaPayload, PcaPayloadV, PcaV,
    PrevExecutor, PrevExecutorV, Provenance, ProvenanceV, push_cbor_pca_payload,
    parse_cbor_pca_payload, spec_cbor_pca_payload, spec_cbor_pca_payload_dec, spec_empty_executor};
use crate::poc::{Attestation, AttestationV, PocPayload, PocPayloadV, SuccessorV,
    parse_cbor_poc_payload, spec_cbor_poc_payload_dec, attestations_view};
use crate::text::str_eq;
use crate::PicError;

verus! {

// ---------------------------------------------------------------------------
// Operation-set containment
// ---------------------------------------------------------------------------

/// `x` occurs by value among `ops`.
pub open spec fn spec_ops_contain(ops: Seq<Seq<char>>, x: Seq<char>) -> bool {
    exists|i: int| 0 <= i < ops.len() && ops[i] == x
}

/// Every operation of `a` occurs by value in `b`: the monotonicity
/// relation on authority sets.
pub open spec fn spec_ops_subset(a: Seq<Seq<char>>, b: Seq<Seq<char>>) -> bool {
    forall|i: int| 0 <= i < a.len() ==> spec_ops_contain(b, #[trigger] a[i])
}

/// Containment is transitive, so authority can only shrink along a
/// chain of subset steps.
pub proof fn lemma_ops_subset_transitive(a: Seq<Seq<char>>, b: Seq<Seq<char>>, c: Seq<Seq<char>>)
    requires
        spec_ops_subset(a, b),
        spec_ops_subset(b, c),
    ensures
        spec_ops_subset(a, c),
{
    assert forall|i: int| 0 <= i < a.len() implies spec_ops_contain(c, #[trigger] a[i]) by {
        assert(spec_ops_contain(b, a[i]));
        let j = choose|j: int| 0 <= j < b.len() && b[j] == a[i];
        assert(spec_ops_contain(c, b[j]));
    }
}

/// Check that every operation in `a` occurs in `b`.
pub fn ops_is_subset(a: &Vec<String>, b: &Vec<String>) -> (r: bool)
    ensures
        r == spec_ops_subset(a.deep_view(), b.deep_view()),
{
    let n = a.len();
    let m = b.len();
    let mut i: usize = 0;
    while i < n
        invariant
            0 <= i <= n,
            n == a@.len(),
            m == b@.len(),
            forall|k: int|
                0 <= k < i ==> spec_ops_contain(b.deep_view(), #[trigger] a.deep_view()[k]),
        decreases n - i,
    {
        let mut found = false;
        let mut j: usize = 0;
        while j < m
            invariant
                0 <= j <= m,
                m == b@.len(),
                n == a@.len(),
                i < n,
                found == exists|k: int| 0 <= k < j && b.deep_view()[k] == a.deep_view()[i as int],
            decreases m - j,
        {
            if str_eq(b[j].as_str(), a[i].as_str()) {
                proof {
                    assert(b.deep_view()[j as int] == a.deep_view()[i as int]);
                }
                found = true;
            }
            j += 1;
        }
        if !found {
            proof {
                assert(!spec_ops_contain(b.deep_view(), a.deep_view()[i as int]));
            }
            return false;
        }
        i += 1;
    }
    true
}

// ---------------------------------------------------------------------------
// Temporal check
// ---------------------------------------------------------------------------

/// Whether the temporal window of `c` admits the instant `now`: not
/// at or past the expiry, and not before the not-before bound.
pub open spec fn spec_temporal_ok(c: Option<Constraints>, now: u64) -> bool {
    match c {
        None => true,
        Some(cs) => match cs.temporal {
            None => true,
            Some(t) => (match t.exp {
                Some(e) => now < e,
                None => true,
            }) && (match t.nbf {
                Some(nb) => now >= nb,
                None => true,
            }),
        },
    }
}

/// Evaluate the temporal window against `now`.
pub fn temporal_ok(c: &Option<Constraints>, now: u64) -> (r: bool)
    ensures
        r == spec_temporal_ok(*c, now),
{
    match c {
        None => true,
        Some(cs) => match cs.temporal {
            None => true,
            Some(t) => {
                let exp_ok = match t.exp {
                    Some(e) => now < e,
                    None => true,
                };
                let nbf_ok = match t.nbf {
                    Some(nb) => now >= nb,
                    None => true,
                };
                exp_ok && nbf_ok
            },
        },
    }
}

// ---------------------------------------------------------------------------
// Pluggable attestation verification
// ---------------------------------------------------------------------------

/// The capability interface for attestation verification: given an
/// attestation name, its bytes, and the candidate executor binding,
/// decide validity.  The exec method must agree with the spec-level
/// verdict `ok`.
pub trait AttestationVerifier: Sized {
    /// The verdict this verifier gives, as a mathematical function.
    spec fn ok(&self, name: Seq<char>, bytes: Seq<u8>, binding: Seq<BindingEntryV>) -> bool;

    /// Evaluate the verdict.
    fn check(&self, name: &str, bytes: &Vec<u8>, binding: &crate::binding::ExecutorBinding) -> (r:
        bool)
        ensures
            r == self.ok(name@, bytes@, binding@),
    ;
}

/// A verifier that accepts exactly the attestations registered with
/// it, by name and exact bytes, regardless of binding.
pub struct RegisteredAttestationVerifier {
    pub accepted: Vec<Attestation>,
}

impl AttestationVerifier for RegisteredAttestationVerifier {
    open spec fn ok(&self, name: Seq<char>, bytes: Seq<u8>, binding: Seq<BindingEntryV>) -> bool {
        exists|i: int|
            0 <= i < self.accepted@.len() && (#[trigger] self.accepted@[i])@.name == name
                && self.accepted@[i]@.bytes == bytes
    }

    fn check(&self, name: &str, bytes: &Vec<u8>, binding: &crate::binding::ExecutorBinding) -> (r:
        bool)
    {
        let n = self.accepted.len();
        let mut i: usize = 0;
        while i < n
            invariant
                0 <= i <= n,
                n == self.accepted@.len(),
                forall|k: int|
                    0 <= k < i ==> !((#[trigger] self.accepted@[k])@.name == name@
                        && self.accepted@[k]@.bytes == bytes@),
            decreases n - i,
        {
            if str_eq(self.accepted[i].name.as_str(), name) && bytes_eq(
                &self.accepted[i].bytes,
                bytes,
            ) {
                return true;
            }
            i += 1;
        }
        false
    }
}

/// Compare two byte vectors for equality.
pub fn bytes_eq(a: &Vec<u8>, b: &Vec<u8>) -> (r: bool)
    ensures
        r == (a@ == b@),
{
    let n = a.len();
    if n != b.len() {
        return false;
    }
    let mut t: usize = 0;
    while t < n
        invariant
            0 <= t <= n,
            n == a@.len() == b@.len(),
            forall|k: int| 0 <= k < t ==> a@[k] == b@[k],
        decreases n - t,
    {
        if a[t] != b[t] {
            return false;
        }
        t += 1;
    }
    proof {
        assert(a@ =~= b@);
    }
    true
}

/// The binding against which attestations are checked: the candidate
/// executor's, or the empty binding when none was named.
pub open spec fn spec_successor_binding(s: SuccessorV) -> Seq<BindingEntryV> {
    match s.executor {
        Some(e) => e.binding,
        None => Seq::empty(),
    }
}

/// All attestations of the request pass the verifier.
pub open spec fn spec_attestations_ok<V: AttestationVerifier>(
    v: V,
    ats: Seq<AttestationV>,
    binding: Seq<BindingEntryV>,
) -> bool {
    forall|i: int| 0 <= i < ats.len() ==> v.ok((#[trigger] ats[i]).name, ats[i].bytes, binding)
}

// ---------------------------------------------------------------------------
// The service
// ---------------------------------------------------------------------------

/// The Causal Authority: a signing key with a stable key identifier,
/// the set of executor keys it trusts, and a pluggable attestation
/// verifier.
pub struct CatService<V: AttestationVerifier> {
    pub kid: String,
    pub seed: Vec<u8>,
    pub executor_keys: KeyRing,
    pub verifier: V,
}

// Staged outcome of `advance`, as spec-level functions of the wire
// bytes and the service state.

/// Stage 1: the request envelope.
#[verifier::opaque]
pub open spec fn adv_env(b: Seq<u8>) -> Option<SignedEnvelopeV> {
    spec_env_dec(b)
}

/// Stage 2: the request signature verifies against the executor key
/// resolved for the envelope's key identifier.
#[verifier::opaque]
pub open spec fn adv_sig_ok(b: Seq<u8>, ks: Seq<KeyEntryV>) -> bool {
    match adv_env(b) {
        Some(env) => match spec_ring_lookup(ks, env.kid) {
            Some(pk) => ed_verifies(pk, env.payload, env.signature),
            None => false,
        },
        None => false,
    }
}

/// Stage 3: the request payload.
#[verifier::opaque]
pub open spec fn adv_poc(b: Seq<u8>) -> Option<PocPayloadV> {
    match adv_env(b) {
        Some(env) => spec_cbor_poc_payload_dec(env.payload),
        None => None,
    }
}

/// Stage 4: the embedded predecessor envelope.
#[verifier::opaque]
pub open spec fn adv_penv(b: Seq<u8>) -> Option<SignedEnvelopeV> {
    match adv_poc(b) {
        Some(pp) => spec_env_dec(pp.predecessor),
        None => None,
    }
}

/// The key the predecessor must verify under: the authority's own
/// key for its own key identifier, else a registered executor key.
pub open spec fn adv_pred_key(
    kid: Seq<char>,
    seed: Seq<u8>,
    ks: Seq<KeyEntryV>,
    penv_kid: Seq<char>,
) -> Option<Seq<u8>> {
    if penv_kid == kid {
        Some(ed_pk_of(seed))
    } else {
        spec_ring_lookup(ks, penv_kid)
    }
}

/// Stage 5: the predecessor envelope verifies.
#[verifier::opaque]
pub open spec fn adv_pred_sig_ok(
    b: Seq<u8>,
    kid: Seq<char>,
    seed: Seq<u8>,
    ks: Seq<KeyEntryV>,
) -> bool {
    match adv_penv(b) {
        Some(pe) => match adv_pred_key(kid, seed, ks, pe.kid) {
            Some(pk) => ed_verifies(pk, pe.payload, pe.signature),
            None => false,
        },
        None => false,
    }
}

/// Stage 6: the predecessor payload.
#[verifier::opaque]
pub open spec fn adv_pred(b: Seq<u8>) -> Option<PcaPayloadV> {
    match adv_penv(b) {
        Some(pe) => spec_cbor_pca_payload_dec(pe.payload),
        None => None,
    }
}

/// The origin-immutability condition: an explicitly claimed successor
/// subject must equal the predecessor's.
pub open spec fn adv_origin_ok(poc: PocPayloadV, pred: PcaPayloadV) -> bool {
    match poc.successor.p_0 {
        Some(q) => q == pred.p_0,
        None => true,
    }
}

/// The payload of the PCA minted on success.
#[verifier::opaque]
pub open spec fn adv_minted(b: Seq<u8>) -> PcaPayloadV
    recommends
        adv_poc(b) is Some,
        adv_penv(b) is Some,
        adv_pred(b) is Some,
{
    let poc = adv_poc(b).unwrap();
    let penv = adv_penv(b).unwrap();
    let pred = adv_pred(b).unwrap();
    let env = adv_env(b).unwrap();
    PcaPayloadV {
        hop: (pred.hop + 1) as u32,
        p_0: pred.p_0,
        ops: poc.successor.ops,
        executor: match poc.successor.executor {
            Some(e) => e,
            None => spec_empty_executor(),
        },
        prev_executor: Some(
            PrevExecutorV {
                public_key: pred.executor.public_key,
                key_type: pred.executor.key_type,
            },
        ),
        provenance: Some(
            ProvenanceV {
                cat_kid: penv.kid,
                cat_sig: penv.signature,
                executor_kid: env.kid,
                executor_sig: env.signature,
            },
        ),
        constraints: match poc.successor.constraints {
            Some(c) => Some(c),
            None => pred.constraints,
        },
    }
}

/// All conditions under which `advance` mints, in checking order.
#[verifier::opaque]
pub open spec fn adv_ok<V: AttestationVerifier>(
    cat: CatService<V>,
    b: Seq<u8>,
    now: u64,
) -> bool {
    &&& adv_env(b) is Some
    &&& adv_sig_ok(b, cat.executor_keys@)
    &&& adv_poc(b) is Some
    &&& adv_penv(b) is Some
    &&& adv_pred_sig_ok(b, cat.kid@, cat.seed@, cat.executor_keys@)
    &&& adv_pred(b) is Some
    &&& spec_ops_subset(adv_poc(b).unwrap().successor.ops, adv_pred(b).unwrap().ops)
    &&& adv_origin_ok(adv_poc(b).unwrap(), adv_pred(b).unwrap())
    &&& spec_temporal_ok(adv_pred(b).unwrap().constraints, now)
    &&& spec_temporal_ok(adv_poc(b).unwrap().successor.constraints, now)
    &&& spec_attestations_ok(
        cat.verifier,
        adv_poc(b).unwrap().attestations,
        spec_successor_binding(adv_poc(b).unwrap().successor),
    )
    &&& adv_pred(b).unwrap().hop < 0xffff_ffff
}

impl<V: AttestationVerifier> CatService<V> {
    /// The service invariant: a well-formed Ed25519 secret key.
    pub open spec fn wf(&self) -> bool {
        self.seed@.len() == 32
    }

    /// Build a service from explicit key material.
    pub fn new(kid: String, seed: Vec<u8>, executor_keys: KeyRing, verifier: V) -> (r: Self)
        requires
            seed@.len() == 32,
        ensures
            r.wf(),
            r.kid@ == kid@,
            r.seed@ == seed@,
            r.executor_keys@ == executor_keys@,
            r.verifier == verifier,
    {
        CatService { kid, seed, executor_keys, verifier }
    }

    /// Build a service with a freshly generated signing key.
    pub fn generate(kid: String, executor_keys: KeyRing, verifier: V) -> (r: Self)
        ensures
            r.wf(),
            r.kid@ == kid@,
            r.executor_keys@ == executor_keys@,
            r.verifier == verifier,
    {
        let seed = ed_generate_seed();
        CatService { kid, seed, executor_keys, verifier }
    }

    /// The service's key identifier.
    pub fn kid(&self) -> (r: &str)
        ensures
            r@ == self.kid@,
    {
        self.kid.as_str()
    }

    /// The service's public verification key.
    pub fn public_key(&self) -> (r: Vec<u8>)
        requires
            self.wf(),
        ensures
            r@ == ed_pk_of(self.seed@),
    {
        ed_public_key(self.seed.as_slice())
    }

    /// Mint the origin PCA of a new chain: hop 0, no provenance, the
    /// given subject, authority set, executor, and constraints.
    pub fn mint_origin(
        &self,
        subject: &str,
        ops: Vec<String>,
        executor: Executor,
        constraints: Option<Constraints>,
    ) -> (r: Pca)
        requires
            self.wf(),
        ensures
            r@.payload == (PcaPayloadV {
                hop: 0,
                p_0: subject@,
                ops: ops.deep_view(),
                executor: executor@,
                prev_executor: None,
                provenance: None,
                constraints: constraints,
            }),
            r@.issuer_id == self.kid@,
            r@.issuer_sig == ed_sig_of(self.seed@, spec_cbor_pca_payload(r@.payload)),
            ed_verifies(ed_pk_of(self.seed@), spec_cbor_pca_payload(r@.payload), r@.issuer_sig),
    {
        let payload = PcaPayload {
            hop: 0,
            p_0: subject.to_owned(),
            ops,
            executor,
            prev_executor: None,
            provenance: None,
            constraints,
        };
        let mut pb: Vec<u8> = Vec::new();
        push_cbor_pca_payload(&mut pb, &payload);
        let sig = ed_sign(self.seed.as_slice(), pb.as_slice());
        Pca { issuer_id: self.kid.clone(), issuer_sig: sig, payload }
    }

    /// Stages 1 to 4 of `advance_at`: parse the request, verify its
    /// signature, and independently parse and verify the embedded
    /// predecessor.
    fn open_request(&self, poc_bytes: &[u8]) -> (r: Result<
        (SignedEnvelope, PocPayload, SignedEnvelope, PcaPayload),
        PicError,
    >)
        requires
            self.wf(),
        ensures
            match r {
                Ok((env, poc, penv, pred)) => {
                    &&& adv_env(poc_bytes@) == Some(env@)
                    &&& adv_sig_ok(poc_bytes@, self.executor_keys@)
                    &&& adv_poc(poc_bytes@) == Some(poc@)
                    &&& adv_penv(poc_bytes@) == Some(penv@)
                    &&& adv_pred_sig_ok(poc_bytes@, self.kid@, self.seed@, self.executor_keys@)
                    &&& adv_pred(poc_bytes@) == Some(pred@)
                },
                Err(e) => {
                    &&& !(adv_env(poc_bytes@) is Some && adv_sig_ok(
                        poc_bytes@,
                        self.executor_keys@,
                    ) && adv_poc(poc_bytes@) is Some && adv_penv(poc_bytes@) is Some
                        && adv_pred_sig_ok(poc_bytes@, self.kid@, self.seed@, self.executor_keys@)
                        && adv_pred(poc_bytes@) is Some)
                    &&& (adv_env(poc_bytes@) is None ==> e matches PicError::MalformedEnvelope)
                    &&& (adv_env(poc_bytes@) is Some && !adv_sig_ok(
                        poc_bytes@,
                        self.executor_keys@,
                    ) ==> e matches PicError::SignatureInvalid)
                    &&& (adv_env(poc_bytes@) is Some && adv_sig_ok(poc_bytes@, self.executor_keys@)
                        && adv_poc(poc_bytes@) is None ==> e matches PicError::MalformedEnvelope)
                    &&& (adv_sig_ok(poc_bytes@, self.executor_keys@) && adv_poc(poc_bytes@) is Some
                        && (adv_penv(poc_bytes@) is None || !adv_pred_sig_ok(
                        poc_bytes@,
                        self.kid@,
                        self.seed@,
                        self.executor_keys@,
                    ) || adv_pred(poc_bytes@) is None) ==> e
                        matches PicError::PredecessorInvalid)
                    &&& (e matches PicError::MalformedEnvelope || e
                        matches PicError::SignatureInvalid || e
                        matches PicError::PredecessorInvalid)
                },
            },
    {
        proof {
            reveal(adv_env);
            reveal(adv_sig_ok);
            reveal(adv_poc);
            reveal(adv_penv);
            reveal(adv_pred_sig_ok);
            reveal(adv_pred);
        }
        let env = match SignedEnvelope::decode(poc_bytes) {
            Some(v) => v,
            None => {
                return Err(PicError::MalformedEnvelope);
            },
        };
        let pk = match self.executor_keys.resolve(env.kid.as_str()) {
            Some(k) => k,
            None => {
                return Err(PicError::SignatureInvalid);
            },
        };
        if !env.verify_with(pk.as_slice()) {
            return Err(PicError::SignatureInvalid);
        }
        let (poc, pend) = match parse_cbor_poc_payload(env.payload.as_slice(), 0) {
            Some(x) => x,
            None => {
                return Err(PicError::MalformedEnvelope);
            },
        };
        if pend != env.payload.len() {
            return Err(PicError::MalformedEnvelope);
        }
        let penv = match SignedEnvelope::decode(poc.predecessor.as_slice()) {
            Some(v) => v,
            None => {
                return Err(PicError::PredecessorInvalid);
            },
        };
        let pred_ok = if str_eq(penv.kid.as_str(), self.kid.as_str()) {
            let own = ed_public_key(self.seed.as_slice());
            penv.verify_with(own.as_slice())
        } else {
            match self.executor_keys.resolve(penv.kid.as_str()) {
                Some(k) => penv.verify_with(k.as_slice()),
                None => false,
            }
        };
        if !pred_ok {
            return Err(PicError::PredecessorInvalid);
        }
        let (pred, dend) = match parse_cbor_pca_payload(penv.payload.as_slice(), 0) {
            Some(x) => x,
            None => {
                return Err(PicError::PredecessorInvalid);
            },
        };
        if dend != penv.payload.len() {
            return Err(PicError::PredecessorInvalid);
        }
        Ok((env, poc, penv, pred))
    }

    /// The first attestation of `ats` the verifier rejects against
    /// `binding`, if any.
    fn failing_attestation(
        verifier: &V,
        ats: &Vec<Attestation>,
        binding: &crate::binding::ExecutorBinding,
    ) -> (r: Option<String>)
        ensures
            match r {
                None => spec_attestations_ok(*verifier, attestations_view(ats@), binding@),
                Some(nm) => exists|i: int|
                    0 <= i < attestations_view(ats@).len() && (#[trigger] attestations_view(
                        ats@,
                    )[i]).name == nm@ && !verifier.ok(
                        attestations_view(ats@)[i].name,
                        attestations_view(ats@)[i].bytes,
                        binding@,
                    ),
            },
    {
        let nats = ats.len();
        let mut ai: usize = 0;
        while ai < nats
            invariant
                0 <= ai <= nats,
                nats == ats@.len(),
                forall|k: int|
                    0 <= k < ai ==> verifier.ok(
                        (#[trigger] attestations_view(ats@)[k]).name,
                        attestations_view(ats@)[k].bytes,
                        binding@,
                    ),
            decreases nats - ai,
        {
            let a = &ats[ai];
            if !verifier.check(a.name.as_str(), &a.bytes, binding) {
                proof {
                    assert(attestations_view(ats@)[ai as int] == a@);
                }
                return Some(a.name.clone());
            }
            proof {
                assert(attestations_view(ats@)[ai as int] == a@);
            }
            ai += 1;
        }
        None
    }

    /// Advance a chain at the instant `now`: verify the continuation
    /// request, enforce monotonicity, origin immutability, temporal
    /// and contextual constraints, and mint the next PCA.
    #[verifier::rlimit(100)]
    #[verifier::spinoff_prover]
    pub fn advance_at(&self, poc_bytes: &[u8], now: u64) -> (r: Result<Pca, PicError>)
        requires
            self.wf(),
        ensures
            r is Ok <==> adv_ok(*self, poc_bytes@, now),
            match r {
                Ok(p) => {
                    &&& p@.payload == adv_minted(poc_bytes@)
                    &&& p@.issuer_id == self.kid@
                    &&& p@.issuer_sig == ed_sig_of(
                        self.seed@,
                        spec_cbor_pca_payload(p@.payload),
                    )
                    &&& ed_verifies(
                        ed_pk_of(self.seed@),
                        spec_cbor_pca_payload(p@.payload),
                        p@.issuer_sig,
                    )
                },
                Err(e) => {
                    &&& (adv_env(poc_bytes@) is None ==> e matches PicError::MalformedEnvelope)
                    &&& (adv_env(poc_bytes@) is Some && !adv_sig_ok(
                        poc_bytes@,
                        self.executor_keys@,
                    ) ==> e matches PicError::SignatureInvalid)
                    &&& (adv_env(poc_bytes@) is Some && adv_sig_ok(poc_bytes@, self.executor_keys@)
                        && adv_poc(poc_bytes@) is None ==> e matches PicError::MalformedEnvelope)
                    &&& (adv_sig_ok(poc_bytes@, self.executor_keys@) && adv_poc(poc_bytes@) is Some
                        && (adv_penv(poc_bytes@) is None || !adv_pred_sig_ok(
                        poc_bytes@,
                        self.kid@,
                        self.seed@,
                        self.executor_keys@,
                    ) || adv_pred(poc_bytes@) is None) ==> e
                        matches PicError::PredecessorInvalid)
                    &&& (adv_sig_ok(poc_bytes@, self.executor_keys@) && adv_poc(poc_bytes@) is Some
                        && adv_pred_sig_ok(poc_bytes@, self.kid@, self.seed@, self.executor_keys@)
                        && adv_pred(poc_bytes@) is Some && !spec_ops_subset(
                        adv_poc(poc_bytes@).unwrap().successor.ops,
                        adv_pred(poc_bytes@).unwrap().ops,
                    ) ==> (e matches PicError::MonotonicityViolation(rc, pc) && rc == adv_poc(
                        poc_bytes@,
                    ).unwrap().successor.ops.len() && pc == adv_pred(
                        poc_bytes@,
                    ).unwrap().ops.len()))
                    &&& (e matches PicError::OriginViolation(from, to) ==> (adv_poc(poc_bytes@)
                        is Some && adv_pred(poc_bytes@) is Some && from@ == adv_pred(
                        poc_bytes@,
                    ).unwrap().p_0 && Some(to@) == adv_poc(poc_bytes@).unwrap().successor.p_0
                        && !adv_origin_ok(
                        adv_poc(poc_bytes@).unwrap(),
                        adv_pred(poc_bytes@).unwrap(),
                    )))
                    &&& (e matches PicError::TemporalViolation ==> (adv_pred(poc_bytes@) is Some
                        && !(spec_temporal_ok(adv_pred(poc_bytes@).unwrap().constraints, now)
                        && spec_temporal_ok(
                        adv_poc(poc_bytes@).unwrap().successor.constraints,
                        now,
                    ))))
                    &&& (e matches PicError::ContextualViolation(nm) ==> (adv_poc(poc_bytes@)
                        is Some && exists|i: int|
                        0 <= i < adv_poc(poc_bytes@).unwrap().attestations.len() && (
                        #[trigger] adv_poc(poc_bytes@).unwrap().attestations[i]).name == nm@
                            && !self.verifier.ok(
                            adv_poc(poc_bytes@).unwrap().attestations[i].name,
                            adv_poc(poc_bytes@).unwrap().attestations[i].bytes,
                            spec_successor_binding(adv_poc(poc_bytes@).unwrap().successor),
                        )))
                },
            },
    {
        proof {
            reveal(adv_ok);
            reveal(adv_minted);
        }
        let (env, poc, penv, pred) = match self.open_request(poc_bytes) {
            Ok(x) => x,
            Err(e) => {
                proof {
                    assert(!adv_ok(*self, poc_bytes@, now));
                    if adv_sig_ok(poc_bytes@, self.executor_keys@) && adv_poc(poc_bytes@) is Some
                        && adv_pred_sig_ok(poc_bytes@, self.kid@, self.seed@, self.executor_keys@)
                        && adv_pred(poc_bytes@) is Some {
                        assert(adv_env(poc_bytes@) is Some) by {
                            reveal(adv_sig_ok);
                        }
                        assert(adv_penv(poc_bytes@) is Some) by {
                            reveal(adv_pred_sig_ok);
                        }
                        assert(false);
                    }
                }
                return Err(e);
            },
        };
        // Monotonicity: requested authority must not exceed the
        // predecessor's.
        if !ops_is_subset(&poc.successor.ops, &pred.ops) {
            return Err(
                PicError::MonotonicityViolation(poc.successor.ops.len(), pred.ops.len()),
            );
        }
        // Origin immutability.
        let origin_bad = match &poc.successor.p_0 {
            Some(q) => !str_eq(q.as_str(), pred.p_0.as_str()),
            None => false,
        };
        if origin_bad {
            return Err(PicError::OriginViolation(pred.p_0, poc.successor.p_0.unwrap()));
        }
        // Temporal constraints: the predecessor's window and any
        // freshly requested window must both admit `now`.
        if !temporal_ok(&pred.constraints, now) || !temporal_ok(&poc.successor.constraints, now) {
            return Err(PicError::TemporalViolation);
        }
        // Attestations, via the pluggable verifier.
        let empty_binding = crate::binding::ExecutorBinding::new();
        let binding: &crate::binding::ExecutorBinding = match &poc.successor.executor {
            Some(e) => &e.binding,
            None => &empty_binding,
        };
        proof {
            match poc.successor.executor {
                Some(ref e) => {
                    assert(binding@ == spec_successor_binding(poc@.successor));
                },
                None => {
                    assert(binding@ =~= spec_successor_binding(poc@.successor));
                },
            }
        }
        match Self::failing_attestation(&self.verifier, &poc.attestations, binding) {
            Some(nm) => {
                proof {
                    assert(adv_poc(poc_bytes@).unwrap() == poc@);
                    assert(adv_poc(poc_bytes@).unwrap().successor.ops == poc.successor.ops.deep_view());
                    assert(spec_ops_subset(
                        adv_poc(poc_bytes@).unwrap().successor.ops,
                        adv_pred(poc_bytes@).unwrap().ops,
                    ));
                    assert(attestations_view(poc.attestations@) == adv_poc(
                        poc_bytes@,
                    ).unwrap().attestations);
                }
                return Err(PicError::ContextualViolation(nm));
            },
            None => {},
        }
        // The hop index must be representable.
        if pred.hop >= 0xffff_ffff {
            return Err(PicError::InvalidBundle(pred.p_0));
        }
        // Assemble, sign, and return the next PCA.
        let executor = match poc.successor.executor {
            Some(e) => e,
            None => Executor::empty(),
        };
        let constraints = match poc.successor.constraints {
            Some(c) => Some(c),
            None => pred.constraints,
        };
        let payload = PcaPayload {
            hop: pred.hop + 1,
            p_0: pred.p_0,
            ops: poc.successor.ops,
            executor,
            prev_executor: Some(
                PrevExecutor {
                    public_key: pred.executor.public_key,
                    key_type: pred.executor.key_type,
                },
            ),
            provenance: Some(
                Provenance {
                    cat_kid: penv.kid,
                    cat_sig: penv.signature,
                    executor_kid: env.kid,
                    executor_sig: env.signature,
                },
            ),
            constraints,
        };
        let mut pb: Vec<u8> = Vec::new();
        push_cbor_pca_payload(&mut pb, &payload);
        let sig = ed_sign(self.seed.as_slice(), pb.as_slice());
        Ok(Pca { issuer_id: self.kid.clone(), issuer_sig: sig, payload })
    }

    /// Advance a chain at the current wall-clock instant.  The exact
    /// temporal verdict depends on the clock; everything else is as
    /// for `advance_at`.
    pub fn advance(&self, poc_bytes: &[u8]) -> (r: Result<Pca, PicError>)
        requires
            self.wf(),
        ensures
            match r {
                Ok(p) => {
                    &&& exists|now: u64| adv_ok(*self, poc_bytes@, now)
                    &&& p@.payload == adv_minted(poc_bytes@)
                    &&& p@.issuer_id == self.kid@
                    &&& p@.issuer_sig == ed_sig_of(
                        self.seed@,
                        spec_cbor_pca_payload(p@.payload),
                    )
                },
                Err(e) => !(forall|now: u64| adv_ok(*self, poc_bytes@, now)),
            },
    {
        let t = now_unix();
        let now: u64 = if t < 0 {
            0
        } else {
            t as u64
        };
        let r = self.advance_at(poc_bytes, now);
        proof {
            reveal(adv_ok);
            match r {
                Ok(_) => {
                    assert(adv_ok(*self, poc_bytes@, now));
                },
                Err(_) => {
                    assert(!adv_ok(*self, poc_bytes@, now));
                },
            }
        }
        r
    }
}

/// Authority monotonicity: whenever `advance` mints, the granted
/// operation set of the new PCA is a subset (by value) of the
/// predecessor's, and the requested set was checked against the
/// predecessor that was independently verified, not against any
/// caller claim.
pub proof fn lemma_advance_monotonic<V: AttestationVerifier>(
    cat: CatService<V>,
    b: Seq<u8>,
    now: u64,
)
    requires
        adv_ok(cat, b, now),
    ensures
        adv_pred(b) is Some,
        spec_ops_subset(adv_minted(b).ops, adv_pred(b).unwrap().ops),
{
    reveal(adv_ok);
    reveal(adv_minted);
}

/// Origin immutability: whenever `advance` mints, the new PCA's
/// origin subject is exactly the verified predecessor's `p_0`, and
/// any explicitly claimed successor subject was equal to it.
pub proof fn lemma_advance_preserves_origin<V: AttestationVerifier>(
    cat: CatService<V>,
    b: Seq<u8>,
    now: u64,
)
    requires
        adv_ok(cat, b, now),
    ensures
        adv_pred(b) is Some,
        adv_minted(b).p_0 == adv_pred(b).unwrap().p_0,
        adv_origin_ok(adv_poc(b).unwrap(), adv_pred(b).unwrap()),
{
    reveal(adv_ok);
    reveal(adv_minted);
}

/// The hop index always advances by one.
pub proof fn lemma_advance_increments_hop<V: AttestationVerifier>(
    cat: CatService<V>,
    b: Seq<u8>,
    now: u64,
)
    requires
        adv_ok(cat, b, now),
    ensures
        adv_pred(b) is Some,
        adv_minted(b).hop == adv_pred(b).unwrap().hop + 1,
{
    reveal(adv_ok);
    reveal(adv_minted);
}

} // verus!
