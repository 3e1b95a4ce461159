//! Tests of the core model: DIDs, authority sets, and the PCA wire
//! codecs.

use pic::binding::ExecutorBinding;
use pic::pca::{Executor, ExecutorId, Pca, PcaPayload, PrevExecutor, Provenance};
use pic::{AuthoritySet, Did, Operation, Privilege, Resource};

#[test]
fn test_did_method() {
    let did = Did::new("did:key:z6MkhaXgBZDvotDkL5257faiztiGiC2QtKLGpbnnEGta2doK".to_string());
    assert_eq!(did.method(), Some("key"));

    let did_web = Did::new("did:web:example.com".to_string());
    assert_eq!(did_web.method(), Some("web"));
}

#[test]
fn test_did_method_none_without_prefix() {
    let not_a_did = Did::new("https://example.com/users/alice".to_string());
    assert_eq!(not_a_did.method(), None);
    let short = Did::new("did".to_string());
    assert_eq!(short.method(), None);
}

#[test]
fn test_authority_subset() {
    let ops_0 = AuthoritySet {
        privileges: vec![
            Privilege {
                operation: Operation("read".into()),
                resource: Resource("*".into()),
            },
            Privilege {
                operation: Operation("write".into()),
                resource: Resource("*".into()),
            },
        ],
    };

    let ops_1 = AuthoritySet {
        privileges: vec![Privilege {
            operation: Operation("read".into()),
            resource: Resource("*".into()),
        }],
    };

    // ops_1 is a subset of ops_0 (monotonicity holds)
    assert!(ops_1.is_subset_of(&ops_0));

    // ops_0 is not a subset of ops_1 (reverse doesn't hold)
    assert!(!ops_0.is_subset_of(&ops_1));
}

#[test]
fn test_empty_authority_is_subset() {
    let empty = AuthoritySet { privileges: vec![] };
    let some = AuthoritySet {
        privileges: vec![Privilege {
            operation: Operation("read".into()),
            resource: Resource("*".into()),
        }],
    };
    assert!(empty.is_subset_of(&some));
    assert!(empty.is_subset_of(&empty));
    assert!(!some.is_subset_of(&empty));
}

fn sample_pca() -> Pca {
    Pca {
        issuer_id: "https://cat.example.com".into(),
        issuer_sig: vec![0u8; 64],
        payload: PcaPayload {
            hop: 2,
            p_0: "https://idp.example.com/users/alice".into(),
            ops: vec!["read:/user/*".into()],
            executor: Executor {
                id: ExecutorId { service: "service-b".into() },
                binding: ExecutorBinding::new(),
                public_key: vec![0u8; 32],
                key_type: "Ed25519".into(),
            },
            prev_executor: Some(PrevExecutor {
                public_key: vec![0u8; 32],
                key_type: "Ed25519".into(),
            }),
            provenance: Some(Provenance {
                cat_kid: "sha256:abc123".into(),
                cat_sig: vec![0u8; 64],
                executor_kid: "sha256:abc123".into(),
                executor_sig: vec![0u8; 64],
            }),
            constraints: None,
        },
    }
}

#[test]
fn test_cbor_roundtrip() {
    let pca = sample_pca();
    let cbor = pca.to_cbor();
    let decoded = Pca::from_cbor(&cbor).unwrap();
    assert_eq!(pca, decoded);
}

#[test]
fn test_json_roundtrip() {
    let pca = sample_pca();
    let json = pca.to_json();
    let decoded = Pca::from_json(&json).unwrap();
    assert_eq!(pca, decoded);
}

#[test]
fn test_cbor_smaller_than_json() {
    let pca = sample_pca();
    let cbor = pca.to_cbor();
    let json = pca.to_json();

    println!("CBOR: {} bytes", cbor.len());
    println!("JSON: {} bytes", json.len());
    println!("Ratio: {:.1}%", (cbor.len() as f64 / json.len() as f64) * 100.0);

    assert!(cbor.len() < json.len());
}

#[test]
fn test_hop_0_no_prev() {
    let pca = Pca {
        issuer_id: "https://cat.example.com".into(),
        issuer_sig: vec![0u8; 64],
        payload: PcaPayload {
            hop: 0,
            p_0: "https://idp.example.com/users/alice".into(),
            ops: vec!["read:/user/*".into(), "write:/user/*".into()],
            executor: Executor {
                id: ExecutorId { service: "gateway".into() },
                binding: ExecutorBinding::new(),
                public_key: vec![0u8; 32],
                key_type: "Ed25519".into(),
            },
            prev_executor: None,
            provenance: None,
            constraints: None,
        },
    };

    let cbor = pca.to_cbor();
    let decoded = Pca::from_cbor(&cbor).unwrap();

    assert_eq!(decoded.payload.hop, 0);
    assert!(decoded.payload.prev_executor.is_none());
}

#[test]
fn test_from_cbor_rejects_garbage() {
    assert!(Pca::from_cbor(&[]).is_err());
    assert!(Pca::from_cbor(&[0xff, 0x00, 0x12]).is_err());
    let pca = sample_pca();
    let mut cbor = pca.to_cbor();
    // trailing garbage is refused
    cbor.push(0x00);
    assert!(Pca::from_cbor(&cbor).is_err());
}

#[test]
fn test_json_is_real_json() {
    let pca = sample_pca();
    let json = pca.to_json();
    let v: serde_json::Value = serde_json::from_str(&json).unwrap();
    assert_eq!(v["issuer_id"], "https://cat.example.com");
    assert_eq!(v["alg"], "EdDSA");
    assert_eq!(v["payload"]["hop"], 2);
    assert_eq!(v["payload"]["p_0"], "https://idp.example.com/users/alice");
    assert_eq!(v["payload"]["ops"][0], "read:/user/*");
    // byte strings are rendered as lowercase hex, two digits per byte
    assert_eq!(v["issuer_sig"].as_str().unwrap().len(), 128);
    assert!(v["payload"]["constraints"].is_null());
}

#[test]
fn test_json_escapes_content() {
    let mut pca = sample_pca();
    pca.payload.p_0 = "quote\" back\\slash\ncontrol".into();
    let json = pca.to_json();
    let v: serde_json::Value = serde_json::from_str(&json).unwrap();
    assert_eq!(v["payload"]["p_0"], "quote\" back\\slash\ncontrol");
    let decoded = Pca::from_json(&json).unwrap();
    assert_eq!(pca, decoded);
}

#[test]
fn test_cbor_is_real_cbor() {
    let pca = sample_pca();
    let cbor = pca.to_cbor();
    let v: ciborium::value::Value = ciborium::from_reader(cbor.as_slice()).unwrap();
    // the envelope is an array [kid, algorithm, signature, payload]
    let arr = v.as_array().unwrap();
    assert_eq!(arr.len(), 4);
    assert_eq!(arr[0].as_text().unwrap(), "https://cat.example.com");
    assert_eq!(arr[1].as_text().unwrap(), "EdDSA");
    assert_eq!(arr[2].as_bytes().unwrap().len(), 64);
    // the payload byte string holds the CBOR-encoded payload record
    let inner: ciborium::value::Value =
        ciborium::from_reader(arr[3].as_bytes().unwrap().as_slice()).unwrap();
    let payload = inner.as_array().unwrap();
    assert_eq!(payload.len(), 7);
    assert_eq!(payload[0].as_integer().unwrap(), 2.into());
    assert_eq!(
        payload[1].as_text().unwrap(),
        "https://idp.example.com/users/alice"
    );
}

#[test]
fn test_binding_last_write_wins() {
    let b = ExecutorBinding::new()
        .with("federation", "sovereign.example")
        .with("namespace", "prod")
        .with("service", "gateway")
        .with("namespace", "staging");
    assert_eq!(b.get("federation").unwrap(), "sovereign.example");
    assert_eq!(b.get("namespace").unwrap(), "staging");
    assert_eq!(b.get("service").unwrap(), "gateway");
    assert!(b.get("missing").is_none());
    // replacement keeps insertion order and does not append
    assert_eq!(b.entries.len(), 3);
    assert_eq!(b.entries[1].name, "namespace");
    assert_eq!(b.entries[1].value, "staging");
}
