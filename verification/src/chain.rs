//! The chain coordinator: drives a fixed, ordered list of hops.
//!
//! Hop 0 is minted by the Causal Authority; each subsequent hop
//! builds a continuation request against the inbound PCA, signs it
//! with that hop's key, and submits it.  Any failure aborts the whole
//! chain, surfacing the hop index at which it occurred.  On success
//! the full trail of minted PCAs is returned, and the contract states
//! the two chain invariants: authority only shrinks hop over hop, and
//! the origin subject never changes.

use vstd::prelude::*;
use crate::cat::{AttestationVerifier, CatService, adv_env, adv_sig_ok, adv_poc, adv_penv,
    adv_pred_sig_ok, adv_pred, adv_minted, adv_ok, spec_ops_subset};
use crate::crypto::{ed_pk_of, ed_sig_of, ed_sign, ed_verifies};
use crate::envelope::{spec_ring_lookup, lemma_parse_env_of_enc, env_fits};
use crate::pca::{Constraints, Executor, Pca, note_pca_fits, note_string_fits, pca_fits,
    spec_cbor_pca, spec_cbor_pca_payload, spec_pca_env, lemma_parse_cbor_pca_payload_of_enc};
use crate::poc::{Attestation, Poc, PocPayload, Successor, note_poc_payload_fits,
    push_cbor_poc_payload, spec_cbor_poc_payload, spec_poc_env,
    lemma_parse_cbor_poc_payload_of_enc};
use crate::PicError;

verus! {

/// A request handed from hop to hop: the business content and the
/// inbound PCA bytes (absent at the origin).
#[derive(Debug, Clone)]
pub struct Request {
    pub content: String,
    pub pca_bytes: Option<Vec<u8>>,
}

/// A hop's business result.
#[derive(Debug, Clone)]
pub struct Response {
    pub output_file: String,
    pub data: String,
}

/// What one hop of a chain requests: the executor's key identifier
/// and signing key, the attenuated operation set it asks for, its
/// identity, its attestations, and optional fresh constraints.
#[derive(Debug, Clone)]
pub struct HopSpec {
    pub kid: String,
    pub seed: Vec<u8>,
    pub ops: Vec<String>,
    pub executor: Executor,
    pub attestations: Vec<Attestation>,
    pub constraints: Option<Constraints>,
}

/// The first failure of a chain: the hop at which it occurred and
/// the error.
#[derive(Debug, Clone)]
pub struct ChainError {
    pub hop: usize,
    pub error: PicError,
}

/// A hop spec whose key the authority has registered.
pub open spec fn hop_registered<V: AttestationVerifier>(cat: CatService<V>, h: HopSpec) -> bool {
    &&& h.seed@.len() == 32
    &&& spec_ring_lookup(cat.executor_keys@, h.kid@) == Some(ed_pk_of(h.seed@))
}

/// Build, sign, and submit one hop's continuation request against
/// the current chain head `prev`.
#[verifier::rlimit(100)]
#[verifier::spinoff_prover]
fn chain_step<V: AttestationVerifier>(
    cat: &CatService<V>,
    current_bytes: Vec<u8>,
    prev: &Pca,
    hop: HopSpec,
    now: u64,
) -> (r: Result<Pca, PicError>)
    requires
        cat.wf(),
        hop_registered(*cat, hop),
        current_bytes@ == spec_cbor_pca(prev@),
        pca_fits(prev@),
        prev@.issuer_id == cat.kid@,
        prev@.issuer_sig == ed_sig_of(cat.seed@, spec_cbor_pca_payload(prev@.payload)),
        ed_verifies(
            ed_pk_of(cat.seed@),
            spec_cbor_pca_payload(prev@.payload),
            prev@.issuer_sig,
        ),
    ensures
        match r {
            Ok(pca) => {
                &&& pca@.payload.p_0 == prev@.payload.p_0
                &&& pca@.payload.hop == prev@.payload.hop + 1
                &&& pca@.payload.ops == hop.ops.deep_view()
                &&& spec_ops_subset(pca@.payload.ops, prev@.payload.ops)
                &&& pca@.issuer_id == cat.kid@
                &&& pca@.issuer_sig == ed_sig_of(
                    cat.seed@,
                    spec_cbor_pca_payload(pca@.payload),
                )
                &&& ed_verifies(
                    ed_pk_of(cat.seed@),
                    spec_cbor_pca_payload(pca@.payload),
                    pca@.issuer_sig,
                )
            },
            Err(_) => true,
        },
{
    let poc_payload = PocPayload {
        predecessor: current_bytes,
        successor: Successor {
            p_0: None,
            ops: hop.ops,
            executor: Some(hop.executor),
            constraints: hop.constraints,
        },
        attestations: hop.attestations,
    };
    note_poc_payload_fits(&poc_payload);
    note_string_fits(hop.kid.as_str());
    let mut pb: Vec<u8> = Vec::new();
    push_cbor_poc_payload(&mut pb, &poc_payload);
    let _ = pb.len();
    let sig = ed_sign(hop.seed.as_slice(), pb.as_slice());
    let poc = Poc { kid: hop.kid, signature: sig, payload: poc_payload };
    let poc_bytes = poc.to_cbor();
    proof {
        reveal(adv_env);
        reveal(adv_sig_ok);
        reveal(adv_poc);
        reveal(adv_penv);
        reveal(adv_pred_sig_ok);
        reveal(adv_pred);
        let penvv = spec_poc_env(poc@);
        assert(env_fits(penvv));
        assert(poc_bytes@.subrange(0, poc_bytes@.len() as int) =~= poc_bytes@);
        lemma_parse_env_of_enc(poc_bytes@, 0, penvv);
        assert(adv_env(poc_bytes@) == Some(penvv));
        assert(adv_sig_ok(poc_bytes@, cat.executor_keys@)) by {
            assert(spec_ring_lookup(cat.executor_keys@, penvv.kid) == Some(ed_pk_of(hop.seed@)));
        }
        let pbv = spec_cbor_poc_payload(poc@.payload);
        assert(pbv.subrange(0, pbv.len() as int) =~= pbv);
        lemma_parse_cbor_poc_payload_of_enc(pbv, 0, poc@.payload);
        assert(adv_poc(poc_bytes@) == Some(poc@.payload));
        let predenv = spec_pca_env(prev@);
        assert(env_fits(predenv));
        let predbytes = spec_cbor_pca(prev@);
        assert(poc@.payload.predecessor == predbytes);
        assert(predbytes.subrange(0, predbytes.len() as int) =~= predbytes);
        lemma_parse_env_of_enc(predbytes, 0, predenv);
        assert(adv_penv(poc_bytes@) == Some(predenv));
        assert(adv_pred_sig_ok(poc_bytes@, cat.kid@, cat.seed@, cat.executor_keys@)) by {
            assert(predenv.kid == cat.kid@);
        }
        let predpb = spec_cbor_pca_payload(prev@.payload);
        assert(predpb.subrange(0, predpb.len() as int) =~= predpb);
        lemma_parse_cbor_pca_payload_of_enc(predpb, 0, prev@.payload);
        assert(adv_pred(poc_bytes@) == Some(prev@.payload));
    }
    let r = cat.advance_at(poc_bytes.as_slice(), now);
    proof {
        match r {
            Ok(ref pca) => {
                reveal(adv_ok);
                reveal(adv_minted);
                assert(pca@.payload.p_0 == prev@.payload.p_0);
                assert(pca@.payload.hop == prev@.payload.hop + 1);
                assert(spec_ops_subset(pca@.payload.ops, prev@.payload.ops));
            },
            Err(_) => {},
        }
    }
    r
}

/// Drive a whole chain at the instant `now`: mint the origin PCA for
/// `subject` with `initial_ops`, then advance once per hop in order.
///
/// On success the trail holds one PCA per hop plus the origin, and
/// along it the hop index counts up from zero, the origin subject
/// `p_0` never changes, and every hop's authority is a subset of its
/// predecessor's.
#[verifier::rlimit(100)]
#[verifier::spinoff_prover]
pub fn run_chain<V: AttestationVerifier>(
    cat: &CatService<V>,
    subject: &str,
    initial_ops: Vec<String>,
    origin_executor: Executor,
    constraints: Option<Constraints>,
    hops: Vec<HopSpec>,
    now: u64,
) -> (r: Result<Vec<Pca>, ChainError>)
    requires
        cat.wf(),
        forall|k: int| 0 <= k < hops@.len() ==> hop_registered(*cat, #[trigger] hops@[k]),
    ensures
        match r {
            Ok(trail) => {
                &&& trail@.len() == hops@.len() + 1
                &&& forall|k: int|
                    0 <= k < trail@.len() ==> (#[trigger] trail@[k])@.payload.hop == k
                &&& forall|k: int|
                    0 <= k < trail@.len() ==> (#[trigger] trail@[k])@.payload.p_0 == subject@
                &&& trail@[0]@.payload.ops == initial_ops.deep_view()
                &&& forall|k: int|
                    1 <= k < trail@.len() ==> spec_ops_subset(
                        (#[trigger] trail@[k])@.payload.ops,
                        trail@[k - 1]@.payload.ops,
                    )
                &&& forall|k: int|
                    0 <= k < trail@.len() ==> (#[trigger] trail@[k])@.issuer_id == cat.kid@
            },
            Err(ce) => 1 <= ce.hop <= hops@.len(),
        },
{
    let ghost all_hops = hops@;
    let origin = cat.mint_origin(subject, initial_ops, origin_executor, constraints);
    note_pca_fits(&origin);
    let mut current_bytes = origin.to_cbor();
    let mut trail: Vec<Pca> = Vec::new();
    trail.push(origin);
    let mut rest = hops;
    let mut i: usize = 0;
    let n = rest.len();
    while i < n
        invariant
            0 <= i <= n,
            n == all_hops.len(),
            all_hops == hops@,
            rest@ == all_hops.skip(i as int),
            cat.wf(),
            forall|k: int| 0 <= k < all_hops.len() ==> hop_registered(*cat, #[trigger] all_hops[k]),
            trail@.len() == i + 1,
            forall|k: int| 0 <= k < trail@.len() ==> (#[trigger] trail@[k])@.payload.hop == k,
            forall|k: int|
                0 <= k < trail@.len() ==> (#[trigger] trail@[k])@.payload.p_0 == subject@,
            trail@[0]@.payload.ops == initial_ops.deep_view(),
            forall|k: int|
                1 <= k < trail@.len() ==> spec_ops_subset(
                    (#[trigger] trail@[k])@.payload.ops,
                    trail@[k - 1]@.payload.ops,
                ),
            forall|k: int| 0 <= k < trail@.len() ==> (#[trigger] trail@[k])@.issuer_id == cat.kid@,
            current_bytes@ == spec_cbor_pca(trail@.last()@),
            pca_fits(trail@.last()@),
            trail@.last()@.issuer_sig == ed_sig_of(
                cat.seed@,
                spec_cbor_pca_payload(trail@.last()@.payload),
            ),
            ed_verifies(
                ed_pk_of(cat.seed@),
                spec_cbor_pca_payload(trail@.last()@.payload),
                trail@.last()@.issuer_sig,
            ),
        decreases n - i,
    {
        let hop = rest.remove(0);
        proof {
            assert(hop == all_hops[i as int]);
            assert(rest@ =~= all_hops.skip(i + 1));
            assert(hop_registered(*cat, all_hops[i as int]));
        }
        let prev_idx = trail.len() - 1;
        let ghost prev = trail@.last()@;
        let step = chain_step(cat, current_bytes, &trail[prev_idx], hop, now);
        match step {
            Ok(pca) => {
                note_pca_fits(&pca);
                current_bytes = pca.to_cbor();
                let ghost pre_trail = trail@;
                trail.push(pca);
                proof {
                    assert(trail@.last() == trail@[i + 1]);
                    assert forall|k: int|
                        0 <= k < trail@.len() implies (#[trigger] trail@[k])@.payload.hop
                        == k by {
                        if k < pre_trail.len() {
                            assert(trail@[k] == pre_trail[k]);
                        }
                    }
                    assert forall|k: int|
                        0 <= k < trail@.len() implies (#[trigger] trail@[k])@.payload.p_0
                        == subject@ by {
                        if k < pre_trail.len() {
                            assert(trail@[k] == pre_trail[k]);
                        }
                    }
                    assert forall|k: int|
                        1 <= k < trail@.len() implies spec_ops_subset(
                        (#[trigger] trail@[k])@.payload.ops,
                        trail@[k - 1]@.payload.ops,
                    ) by {
                        if k < pre_trail.len() {
                            assert(trail@[k] == pre_trail[k]);
                            assert(trail@[k - 1] == pre_trail[k - 1]);
                        } else {
                            assert(trail@[k - 1] == pre_trail[k - 1]);
                        }
                    }
                    assert forall|k: int|
                        0 <= k < trail@.len() implies (#[trigger] trail@[k])@.issuer_id
                        == cat.kid@ by {
                        if k < pre_trail.len() {
                            assert(trail@[k] == pre_trail[k]);
                        }
                    }
                    assert(trail@[0] == pre_trail[0]);
                }
            },
            Err(e) => {
                return Err(ChainError { hop: i + 1, error: e });
            },
        }
        i += 1;
    }
    Ok(trail)
}

/// The storage hop's business result: the output path carries a
/// millisecond timestamp and the data echoes the request content.
pub fn storage_response(content: &str, ts: u64) -> (r: Response)
    ensures
        r.output_file@ == "/user/output_"@ + crate::text::spec_dec_chars(ts as nat) + ".txt"@,
        r.data@ == "Processed: "@ + content@,
{
    let mut output_file = ("/user/output_").to_owned();
    let t = crate::text::u64_to_string(ts);
    output_file.append(t.as_str());
    output_file.append(".txt");
    let mut data = ("Processed: ").to_owned();
    data.append(content);
    proof {
        assert(output_file@ =~= "/user/output_"@ + crate::text::spec_dec_chars(ts as nat)
            + ".txt"@);
        assert(data@ =~= "Processed: "@ + content@);
    }
    Response { output_file, data }
}

} // verus!
