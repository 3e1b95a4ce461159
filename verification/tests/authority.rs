//! Tests of the Causal Authority service and the chain coordinator:
//! chain issuance, monotonicity, origin immutability, temporal and
//! contextual checks.

use pic::binding::ExecutorBinding;
use pic::cat::{CatService, RegisteredAttestationVerifier};
use pic::chain::{run_chain, storage_response, HopSpec};
use pic::crypto::{ed_generate_seed, ed_public_key, ed_sign};
use pic::envelope::KeyRing;
use pic::pca::{Constraints, Executor, ExecutorId, Pca, TemporalConstraints};
use pic::poc::{Poc, PocBuilder, PocPayload};
use pic::timing::format_duration;
use pic::PicError;

fn executor_named(service: &str, public_key: Vec<u8>) -> Executor {
    Executor {
        id: ExecutorId { service: service.into() },
        binding: ExecutorBinding::new()
            .with("federation", "sovereign.example")
            .with("namespace", "prod")
            .with("service", service),
        public_key,
        key_type: "Ed25519".into(),
    }
}

struct TestSetup {
    cat: CatService<RegisteredAttestationVerifier>,
    exec_seed: Vec<u8>,
    exec_kid: String,
}

fn setup(accepted: Vec<pic::poc::Attestation>) -> TestSetup {
    let exec_seed = ed_generate_seed();
    let exec_kid = "did:web:executor.example#key-1".to_string();
    let mut ring = KeyRing::new();
    ring.register(exec_kid.clone(), ed_public_key(&exec_seed));
    let cat = CatService::generate(
        "did:web:trustplane.sovereign.example#cat-key".to_string(),
        ring,
        RegisteredAttestationVerifier { accepted },
    );
    TestSetup { cat, exec_seed, exec_kid }
}

fn signed_poc(setup: &TestSetup, payload: PocPayload) -> Vec<u8> {
    let mut pb: Vec<u8> = Vec::new();
    pic::poc::push_cbor_poc_payload(&mut pb, &payload);
    let sig = ed_sign(&setup.exec_seed, &pb);
    Poc { kid: setup.exec_kid.clone(), signature: sig, payload }.to_cbor()
}

#[test]
fn mint_origin_is_hop_zero() {
    let s = setup(vec![]);
    let pk = ed_public_key(&s.exec_seed);
    let pca = s.cat.mint_origin(
        "https://idp.example.com/users/alice",
        vec!["read:/user/*".into(), "write:/user/*".into()],
        executor_named("gateway", pk),
        None,
    );
    assert_eq!(pca.payload.hop, 0);
    assert_eq!(pca.payload.p_0, "https://idp.example.com/users/alice");
    assert!(pca.payload.provenance.is_none());
    assert_eq!(pca.issuer_id, s.cat.kid());
}

#[test]
fn advance_attenuates_and_rejects_widening() {
    // Mint origin with read and write; hop 1 narrows to read and
    // succeeds; hop 2 asks for delete, which was never granted, and
    // must be rejected with a monotonicity violation.
    let s = setup(vec![]);
    let pk = ed_public_key(&s.exec_seed);
    let origin = s.cat.mint_origin(
        "https://idp.example.com/users/alice",
        vec!["read:/user/*".into(), "write:/user/*".into()],
        executor_named("gateway", pk.clone()),
        None,
    );
    let origin_bytes = origin.to_cbor();

    let poc1 = PocBuilder::new(origin_bytes)
        .ops(vec!["read:/user/*".into()])
        .executor(executor_named("archive", pk.clone()))
        .build()
        .unwrap();
    let hop1 = s.cat.advance_at(&signed_poc(&s, poc1), 1_700_000_000).unwrap();
    assert_eq!(hop1.payload.hop, 1);
    assert_eq!(hop1.payload.ops, vec!["read:/user/*".to_string()]);
    assert_eq!(hop1.payload.p_0, "https://idp.example.com/users/alice");
    // the back-link names the authority and the requesting executor
    let prov = hop1.payload.provenance.as_ref().unwrap();
    assert_eq!(prov.cat_kid, s.cat.kid());
    assert_eq!(prov.executor_kid, s.exec_kid);

    let hop1_bytes = hop1.to_cbor();
    let poc2 = PocBuilder::new(hop1_bytes)
        .ops(vec!["read:/user/*".into(), "delete:/user/*".into()])
        .executor(executor_named("storage", pk))
        .build()
        .unwrap();
    let err = s.cat.advance_at(&signed_poc(&s, poc2), 1_700_000_000).unwrap_err();
    match err {
        PicError::MonotonicityViolation(requested, granted) => {
            assert_eq!(requested, 2);
            assert_eq!(granted, 1);
        },
        other => panic!("expected a monotonicity violation, got {:?}", other),
    }
}

#[test]
fn advance_rejects_changed_origin() {
    let s = setup(vec![]);
    let pk = ed_public_key(&s.exec_seed);
    let origin = s.cat.mint_origin(
        "https://idp.example.com/users/alice",
        vec!["read:/user/*".into()],
        executor_named("gateway", pk.clone()),
        None,
    );
    let poc = PocBuilder::new(origin.to_cbor())
        .ops(vec!["read:/user/*".into()])
        .subject("https://idp.example.com/users/mallory".into())
        .executor(executor_named("archive", pk))
        .build()
        .unwrap();
    let err = s.cat.advance_at(&signed_poc(&s, poc), 1_700_000_000).unwrap_err();
    match err {
        PicError::OriginViolation(from, to) => {
            assert_eq!(from, "https://idp.example.com/users/alice");
            assert_eq!(to, "https://idp.example.com/users/mallory");
        },
        other => panic!("expected an origin violation, got {:?}", other),
    }
}

#[test]
fn advance_rejects_tampered_predecessor() {
    // A request whose embedded predecessor fails signature
    // verification must fail and must not mint.
    let s = setup(vec![]);
    let pk = ed_public_key(&s.exec_seed);
    let origin = s.cat.mint_origin(
        "https://idp.example.com/users/alice",
        vec!["read:/user/*".into()],
        executor_named("gateway", pk.clone()),
        None,
    );
    let mut tampered = origin.clone();
    tampered.payload.ops = vec!["read:/user/*".into(), "root:/*".into()];
    let poc = PocBuilder::new(tampered.to_cbor())
        .ops(vec!["root:/*".into()])
        .executor(executor_named("archive", pk))
        .build()
        .unwrap();
    let err = s.cat.advance_at(&signed_poc(&s, poc), 1_700_000_000).unwrap_err();
    assert!(matches!(err, PicError::PredecessorInvalid));
}

#[test]
fn advance_rejects_bad_request_signature() {
    let s = setup(vec![]);
    let pk = ed_public_key(&s.exec_seed);
    let origin = s.cat.mint_origin(
        "https://idp.example.com/users/alice",
        vec!["read:/user/*".into()],
        executor_named("gateway", pk.clone()),
        None,
    );
    let poc = PocBuilder::new(origin.to_cbor())
        .ops(vec!["read:/user/*".into()])
        .executor(executor_named("archive", pk))
        .build()
        .unwrap();
    let mut pb: Vec<u8> = Vec::new();
    pic::poc::push_cbor_poc_payload(&mut pb, &poc);
    // a zero signature does not verify
    let bytes = Poc { kid: s.exec_kid.clone(), signature: vec![0u8; 64], payload: poc }.to_cbor();
    let err = s.cat.advance_at(&bytes, 1_700_000_000).unwrap_err();
    assert!(matches!(err, PicError::SignatureInvalid));
    // an unknown key identifier is refused the same way
    let s2 = setup(vec![]);
    let pk2 = ed_public_key(&s2.exec_seed);
    let origin2 = s2.cat.mint_origin(
        "https://idp.example.com/users/alice",
        vec!["read:/user/*".into()],
        executor_named("gateway", pk2.clone()),
        None,
    );
    let poc2 = PocBuilder::new(origin2.to_cbor())
        .ops(vec!["read:/user/*".into()])
        .executor(executor_named("archive", pk2))
        .build()
        .unwrap();
    let mut pb2: Vec<u8> = Vec::new();
    pic::poc::push_cbor_poc_payload(&mut pb2, &poc2);
    let sig2 = ed_sign(&s2.exec_seed, &pb2);
    let bytes2 = Poc { kid: "unknown#key".to_string(), signature: sig2, payload: poc2 }.to_cbor();
    let err2 = s2.cat.advance_at(&bytes2, 1_700_000_000).unwrap_err();
    assert!(matches!(err2, PicError::SignatureInvalid));
}

#[test]
fn advance_rejects_malformed_bytes() {
    let s = setup(vec![]);
    let err = s.cat.advance_at(&[0xde, 0xad, 0xbe, 0xef], 1_700_000_000).unwrap_err();
    assert!(matches!(err, PicError::MalformedEnvelope));
}

#[test]
fn advance_rejects_expired_chain() {
    // A chain whose expiry lies one second in the past must fail
    // with a temporal violation for any subsequent hop.
    let now: u64 = 1_700_000_000;
    let s = setup(vec![]);
    let pk = ed_public_key(&s.exec_seed);
    let constraints = Constraints {
        temporal: Some(TemporalConstraints { iat: Some(now - 3600), exp: Some(now - 1), nbf: None }),
    };
    let origin = s.cat.mint_origin(
        "https://idp.example.com/users/alice",
        vec!["read:/user/*".into()],
        executor_named("gateway", pk.clone()),
        Some(constraints),
    );
    let poc = PocBuilder::new(origin.to_cbor())
        .ops(vec!["read:/user/*".into()])
        .executor(executor_named("archive", pk))
        .build()
        .unwrap();
    let err = s.cat.advance_at(&signed_poc(&s, poc), now).unwrap_err();
    assert!(matches!(err, PicError::TemporalViolation));
}

#[test]
fn advance_rejects_not_yet_valid() {
    let now: u64 = 1_700_000_000;
    let s = setup(vec![]);
    let pk = ed_public_key(&s.exec_seed);
    let constraints = Constraints {
        temporal: Some(TemporalConstraints { iat: Some(now), exp: None, nbf: Some(now + 60) }),
    };
    let origin = s.cat.mint_origin(
        "https://idp.example.com/users/alice",
        vec!["read:/user/*".into()],
        executor_named("gateway", pk.clone()),
        Some(constraints),
    );
    let poc = PocBuilder::new(origin.to_cbor())
        .ops(vec!["read:/user/*".into()])
        .executor(executor_named("archive", pk))
        .build()
        .unwrap();
    let err = s.cat.advance_at(&signed_poc(&s, poc), now).unwrap_err();
    assert!(matches!(err, PicError::TemporalViolation));
}

#[test]
fn advance_rejects_unknown_attestation() {
    // The verifier has nothing registered, so any attestation fails
    // and the violation names it.
    let s = setup(vec![]);
    let pk = ed_public_key(&s.exec_seed);
    let origin = s.cat.mint_origin(
        "https://idp.example.com/users/alice",
        vec!["read:/user/*".into()],
        executor_named("gateway", pk.clone()),
        None,
    );
    let poc = PocBuilder::new(origin.to_cbor())
        .ops(vec!["read:/user/*".into()])
        .executor(executor_named("archive", pk))
        .attestation("vp", vec![1, 2, 3])
        .build()
        .unwrap();
    let err = s.cat.advance_at(&signed_poc(&s, poc), 1_700_000_000).unwrap_err();
    match err {
        PicError::ContextualViolation(name) => assert_eq!(name, "vp"),
        other => panic!("expected a contextual violation, got {:?}", other),
    }
}

#[test]
fn advance_accepts_registered_attestation() {
    let vp_bytes = vec![9, 9, 9];
    let s = setup(vec![pic::poc::Attestation { name: "vp".into(), bytes: vp_bytes.clone() }]);
    let pk = ed_public_key(&s.exec_seed);
    let origin = s.cat.mint_origin(
        "https://idp.example.com/users/alice",
        vec!["read:/user/*".into()],
        executor_named("gateway", pk.clone()),
        None,
    );
    let poc = PocBuilder::new(origin.to_cbor())
        .ops(vec!["read:/user/*".into()])
        .executor(executor_named("archive", pk))
        .attestation("vp", vp_bytes)
        .build()
        .unwrap();
    let hop1 = s.cat.advance_at(&signed_poc(&s, poc), 1_700_000_000).unwrap();
    assert_eq!(hop1.payload.hop, 1);
}

#[test]
fn builder_requires_ops() {
    let b = PocBuilder::new(vec![1, 2, 3]);
    assert!(matches!(b.build(), Err(PicError::IncompleteRequest)));
    let built = PocBuilder::new(vec![1, 2, 3])
        .ops(vec![])
        .attestation("vp", vec![7])
        .build()
        .unwrap();
    // an empty operation set is legal: full attenuation
    assert!(built.successor.ops.is_empty());
    assert_eq!(built.predecessor, vec![1, 2, 3]);
    assert_eq!(built.attestations.len(), 1);
    assert_eq!(built.attestations[0].name, "vp");
}

#[test]
fn chain_of_three_hops() {
    // Gateway mints the origin; archive then storage each attenuate.
    let exec_seed = ed_generate_seed();
    let exec_kid = "did:web:worker.example#key-1".to_string();
    let pk = ed_public_key(&exec_seed);
    let mut ring = KeyRing::new();
    ring.register(exec_kid.clone(), pk.clone());
    let cat = CatService::generate(
        "did:web:trustplane.sovereign.example#cat-key".to_string(),
        ring,
        RegisteredAttestationVerifier { accepted: vec![] },
    );
    let hops = vec![
        HopSpec {
            kid: exec_kid.clone(),
            seed: exec_seed.clone(),
            ops: vec!["read:/user/*".into(), "write:/user/*".into()],
            executor: executor_named("archive", pk.clone()),
            attestations: vec![],
            constraints: None,
        },
        HopSpec {
            kid: exec_kid.clone(),
            seed: exec_seed.clone(),
            ops: vec!["read:/user/*".into()],
            executor: executor_named("storage", pk.clone()),
            attestations: vec![],
            constraints: None,
        },
    ];
    let trail = run_chain(
        &cat,
        "https://idp.sovereign.example/users/alice",
        vec!["read:/user/*".into(), "write:/user/*".into()],
        executor_named("gateway", pk),
        None,
        hops,
        1_700_000_000,
    )
    .unwrap();
    assert_eq!(trail.len(), 3);
    for (k, pca) in trail.iter().enumerate() {
        assert_eq!(pca.payload.hop as usize, k);
        assert_eq!(pca.payload.p_0, "https://idp.sovereign.example/users/alice");
        assert_eq!(pca.issuer_id, cat.kid());
    }
    assert_eq!(trail[2].payload.ops, vec!["read:/user/*".to_string()]);
    // every minted PCA round-trips through its wire form
    for pca in &trail {
        let decoded = Pca::from_cbor(&pca.to_cbor()).unwrap();
        assert_eq!(pca, &decoded);
    }
}

#[test]
fn chain_reports_failing_hop() {
    let exec_seed = ed_generate_seed();
    let exec_kid = "did:web:worker.example#key-1".to_string();
    let pk = ed_public_key(&exec_seed);
    let mut ring = KeyRing::new();
    ring.register(exec_kid.clone(), pk.clone());
    let cat = CatService::generate(
        "did:web:trustplane.example#cat".to_string(),
        ring,
        RegisteredAttestationVerifier { accepted: vec![] },
    );
    let hops = vec![
        HopSpec {
            kid: exec_kid.clone(),
            seed: exec_seed.clone(),
            ops: vec!["read:/user/*".into()],
            executor: executor_named("archive", pk.clone()),
            attestations: vec![],
            constraints: None,
        },
        HopSpec {
            kid: exec_kid.clone(),
            seed: exec_seed.clone(),
            ops: vec!["write:/user/*".into()],
            executor: executor_named("storage", pk.clone()),
            attestations: vec![],
            constraints: None,
        },
    ];
    let err = run_chain(
        &cat,
        "https://idp.example.com/users/alice",
        vec!["read:/user/*".into()],
        executor_named("gateway", pk),
        None,
        hops,
        1_700_000_000,
    )
    .unwrap_err();
    assert_eq!(err.hop, 2);
    assert!(matches!(err.error, PicError::MonotonicityViolation(1, 1)));
}

#[test]
fn verify_and_decode_catches_tampering() {
    let s = setup(vec![]);
    let mut ring = KeyRing::new();
    ring.register(s.cat.kid().to_string(), s.cat.public_key());
    let pk = ed_public_key(&s.exec_seed);
    let origin = s.cat.mint_origin(
        "https://idp.example.com/users/alice",
        vec!["read:/user/*".into()],
        executor_named("gateway", pk),
        None,
    );
    let good = origin.to_cbor();
    let decoded = Pca::verify_and_decode(&good, &ring).unwrap();
    assert_eq!(decoded, origin);
    let mut tampered = origin.clone();
    tampered.payload.p_0 = "https://idp.example.com/users/mallory".into();
    let bad = tampered.to_cbor();
    assert!(matches!(
        Pca::verify_and_decode(&bad, &ring),
        Err(PicError::SignatureInvalid)
    ));
    // the unverified read path still parses it
    assert!(Pca::decode_unverified(&bad).is_ok());
}

#[test]
fn storage_response_format() {
    let r = storage_response("Hello from Alice", 42);
    assert_eq!(r.output_file, "/user/output_42.txt");
    assert_eq!(r.data, "Processed: Hello from Alice");
}

#[test]
fn format_duration_units() {
    assert_eq!(format_duration(999), "999 ns");
    assert_eq!(format_duration(1_500), "1.50 us");
    assert_eq!(format_duration(2_345_678), "2.34 ms");
    assert_eq!(format_duration(1_500_000_000), "1.50 s");
    assert_eq!(format_duration(0), "0 ns");
}

#[test]
fn poc_cbor_roundtrip() {
    let s = setup(vec![]);
    let pk = ed_public_key(&s.exec_seed);
    let origin = s.cat.mint_origin(
        "https://idp.example.com/users/alice",
        vec!["read:/user/*".into()],
        executor_named("gateway", pk.clone()),
        None,
    );
    let payload = PocBuilder::new(origin.to_cbor())
        .ops(vec!["read:/user/*".into()])
        .executor(executor_named("archive", pk))
        .attestation("vp", vec![1, 2, 3])
        .build()
        .unwrap();
    let bytes = signed_poc(&s, payload);
    let decoded = Poc::from_cbor(&bytes).unwrap();
    assert_eq!(decoded.kid, s.exec_kid);
    assert_eq!(decoded.payload.successor.ops, vec!["read:/user/*".to_string()]);
    assert_eq!(decoded.payload.attestations[0].name, "vp");
    assert_eq!(decoded.to_cbor(), bytes);
}

#[test]
fn poc_json_roundtrip() {
    let s = setup(vec![]);
    let pk = ed_public_key(&s.exec_seed);
    let origin = s.cat.mint_origin(
        "https://idp.example.com/users/alice",
        vec!["read:/user/*".into()],
        executor_named("gateway", pk.clone()),
        None,
    );
    let payload = PocBuilder::new(origin.to_cbor())
        .ops(vec!["read:/user/*".into()])
        .executor(executor_named("archive", pk))
        .attestation("vp", vec![1, 2, 3])
        .build()
        .unwrap();
    let mut pb: Vec<u8> = Vec::new();
    pic::poc::push_cbor_poc_payload(&mut pb, &payload);
    let sig = ed_sign(&s.exec_seed, &pb);
    let poc = Poc { kid: s.exec_kid.clone(), signature: sig, payload };
    let json = poc.to_json();
    let decoded = Poc::from_json(&json).unwrap();
    assert_eq!(poc, decoded);
    // the diagnostic form is real JSON with the expected fields
    let v: serde_json::Value = serde_json::from_str(&json).unwrap();
    assert_eq!(v["kid"], s.exec_kid.as_str());
    assert_eq!(v["payload"]["successor"]["ops"][0], "read:/user/*");
    assert_eq!(v["payload"]["attestations"][0]["name"], "vp");
}
