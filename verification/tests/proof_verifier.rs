use grant_treasury::digest::{checked_sha256, MAX_DIGEST_INPUT};
use grant_treasury::proof_verifier::{
    BatchOperation, BatchResult, MetadataEntry, Proof, ProofRequest, ProofVerifier,
    VerifierError, ISSUE, REVOKE, VERIFY,
};
use grant_treasury::Identity;

fn entry(key: &str, value: &str) -> MetadataEntry {
    MetadataEntry {
        key: key.as_bytes().to_vec(),
        value: value.as_bytes().to_vec(),
    }
}

fn request(subject: &Identity, proof_type: &str, metadata: Vec<MetadataEntry>) -> ProofRequest {
    ProofRequest {
        subject: subject.clone(),
        proof_type: proof_type.to_string(),
        event_data: b"test event data".to_vec(),
        metadata,
    }
}

fn initialized(admin: &Identity) -> ProofVerifier {
    let mut verifier = ProofVerifier::new();
    verifier.initialize(admin.clone()).unwrap();
    verifier
}

fn hex(bytes: &[u8]) -> String {
    bytes.iter().map(|b| format!("{b:02x}")).collect()
}

#[test]
fn proof_verifier_test_test_initialize() {
    let admin = Identity::new("GADMIN");
    let verifier = initialized(&admin);

    let stored_admin = verifier.get_admin().unwrap();
    assert_eq!(admin, stored_admin);

    let count = verifier.get_proof_count();
    assert_eq!(count, 0);
}

#[test]
fn test_double_initialize_fails() {
    let admin = Identity::new("GADMIN");
    let mut verifier = initialized(&admin);

    let result = verifier.initialize(admin.clone());
    assert!(result.is_err());
    assert_eq!(result, Err(VerifierError::AlreadyInitialized));
}

#[test]
fn proof_verifier_test_test_issue_proof() {
    let admin = Identity::new("GADMIN");
    let mut verifier = initialized(&admin);

    let issuer = Identity::new("GISSUER");
    let subject = Identity::new("GSUBJECT");
    let event_data = b"test event data".to_vec();
    let proof_type = "identity".to_string();

    let metadata = vec![
        entry("purpose", "KYC verification"),
        entry("level", "standard"),
    ];

    let request = ProofRequest {
        subject: subject.clone(),
        proof_type: proof_type.clone(),
        event_data: event_data.clone(),
        metadata: metadata.clone(),
    };

    let proof_id = verifier.issue_proof(issuer.clone(), request, 0).unwrap();
    assert_eq!(proof_id, 1);

    let proof = verifier.get_proof(proof_id).unwrap();
    assert_eq!(proof.id, proof_id);
    assert_eq!(proof.issuer, issuer);
    assert_eq!(proof.subject, subject);
    assert_eq!(proof.proof_type, proof_type);
    assert_eq!(proof.event_data, event_data);
    assert!(!proof.verified);
    assert!(!proof.revoked);
    assert_eq!(proof.metadata, metadata);
}

#[test]
fn proof_verifier_test_test_verify_proof() {
    let admin = Identity::new("GADMIN");
    let mut verifier = initialized(&admin);

    let issuer = Identity::new("GISSUER");
    let subject = Identity::new("GSUBJECT");
    let checker = Identity::new("GVERIFIER");

    let proof_id = verifier
        .issue_proof(
            issuer,
            request(&subject, "identity", vec![entry("purpose", "test")]),
            0,
        )
        .unwrap();

    let result = verifier.verify_proof(&checker, proof_id).unwrap();
    assert!(result);

    let proof = verifier.get_proof(proof_id).unwrap();
    assert!(proof.verified);
}

#[test]
fn test_revoke_proof_by_admin() {
    let admin = Identity::new("GADMIN");
    let mut verifier = initialized(&admin);

    let issuer = Identity::new("GISSUER");
    let subject = Identity::new("GSUBJECT");

    let proof_id = verifier
        .issue_proof(issuer, request(&subject, "identity", vec![]), 0)
        .unwrap();

    verifier.revoke_proof(&admin, proof_id).unwrap();

    let proof = verifier.get_proof(proof_id).unwrap();
    assert!(proof.revoked);
    assert!(!proof.verified);

    let revoked_proofs = verifier.get_revoked_proofs();
    assert_eq!(revoked_proofs.len(), 1);
    assert_eq!(revoked_proofs.get(0).unwrap().id, proof_id);
}

#[test]
fn test_revoke_proof_by_issuer() {
    let admin = Identity::new("GADMIN");
    let mut verifier = initialized(&admin);

    let issuer = Identity::new("GISSUER");
    let subject = Identity::new("GSUBJECT");

    let proof_id = verifier
        .issue_proof(issuer.clone(), request(&subject, "identity", vec![]), 0)
        .unwrap();

    verifier.revoke_proof(&issuer, proof_id).unwrap();

    let proof = verifier.get_proof(proof_id).unwrap();
    assert!(proof.revoked);
}

#[test]
fn test_revoke_proof_unauthorized_fails() {
    let admin = Identity::new("GADMIN");
    let mut verifier = initialized(&admin);

    let issuer = Identity::new("GISSUER");
    let unauthorized = Identity::new("GINTRUDER");
    let subject = Identity::new("GSUBJECT");

    let proof_id = verifier
        .issue_proof(issuer, request(&subject, "identity", vec![]), 0)
        .unwrap();

    let result = verifier.revoke_proof(&unauthorized, proof_id);
    assert!(result.is_err());
    assert_eq!(result, Err(VerifierError::NotAuthorized));
    assert!(!verifier.get_proof(proof_id).unwrap().revoked);
}

#[test]
fn test_batch_operations() {
    let admin = Identity::new("GADMIN");
    let mut verifier = initialized(&admin);

    let operator = Identity::new("GOPERATOR");
    let subject1 = Identity::new("GSUBJECTONE");
    let subject2 = Identity::new("GSUBJECTTWO");

    let request1 = request(&subject1, "identity", vec![]);
    let request2 = request(&subject2, "credential", vec![]);

    let operations = vec![
        BatchOperation {
            operation_type: 1,
            proof_id: None,
            proof_request: Some(request1),
        },
        BatchOperation {
            operation_type: 1,
            proof_id: None,
            proof_request: Some(request2),
        },
    ];

    let results = verifier.batch_operations(&operator, &operations, 0).unwrap();
    assert_eq!(results.len(), 2);
    assert!(results.get(0).unwrap().success);
    assert!(results.get(1).unwrap().success);
    assert!(results.get(0).unwrap().proof_id.is_some());
    assert!(results.get(1).unwrap().proof_id.is_some());

    let proof_id1 = results.get(0).unwrap().proof_id.unwrap();
    let proof_id2 = results.get(1).unwrap().proof_id.unwrap();

    let verify_operations = vec![
        BatchOperation {
            operation_type: 2,
            proof_id: Some(proof_id1),
            proof_request: None,
        },
        BatchOperation {
            operation_type: 2,
            proof_id: Some(proof_id2),
            proof_request: None,
        },
    ];

    let verify_results = verifier
        .batch_operations(&operator, &verify_operations, 0)
        .unwrap();
    assert_eq!(verify_results.len(), 2);
    assert!(verify_results.get(0).unwrap().success);
    assert!(verify_results.get(1).unwrap().success);
}

#[test]
fn proof_verifier_test_test_get_proofs_by_issuer() {
    let admin = Identity::new("GADMIN");
    let mut verifier = initialized(&admin);

    let issuer1 = Identity::new("GISSUERONE");
    let issuer2 = Identity::new("GISSUERTWO");
    let subject = Identity::new("GSUBJECT");

    let asked = request(&subject, "identity", vec![]);

    verifier.issue_proof(issuer1.clone(), asked.clone(), 0).unwrap();
    verifier.issue_proof(issuer2.clone(), asked.clone(), 0).unwrap();
    verifier.issue_proof(issuer1.clone(), asked, 0).unwrap();

    let proofs_issuer1 = verifier.get_proofs_by_issuer(&issuer1);
    assert_eq!(proofs_issuer1.len(), 2);

    let proofs_issuer2 = verifier.get_proofs_by_issuer(&issuer2);
    assert_eq!(proofs_issuer2.len(), 1);
}

#[test]
fn test_get_proofs_by_subject() {
    let admin = Identity::new("GADMIN");
    let mut verifier = initialized(&admin);

    let issuer = Identity::new("GISSUER");
    let subject1 = Identity::new("GSUBJECTONE");
    let subject2 = Identity::new("GSUBJECTTWO");

    let request1 = request(&subject1, "identity", vec![]);
    let request2 = request(&subject2, "credential", vec![]);

    verifier.issue_proof(issuer.clone(), request1.clone(), 0).unwrap();
    verifier.issue_proof(issuer.clone(), request2, 0).unwrap();
    verifier.issue_proof(issuer.clone(), request1, 0).unwrap();

    let proofs_subject1 = verifier.get_proofs_by_subject(&subject1);
    assert_eq!(proofs_subject1.len(), 2);

    let proofs_subject2 = verifier.get_proofs_by_subject(&subject2);
    assert_eq!(proofs_subject2.len(), 1);
}

#[test]
fn test_is_proof_valid() {
    let admin = Identity::new("GADMIN");
    let mut verifier = initialized(&admin);

    let issuer = Identity::new("GISSUER");
    let subject = Identity::new("GSUBJECT");

    let proof_id = verifier
        .issue_proof(issuer, request(&subject, "identity", vec![]), 0)
        .unwrap();

    assert!(verifier.is_proof_valid(proof_id).unwrap());

    verifier.revoke_proof(&admin, proof_id).unwrap();

    assert!(!verifier.is_proof_valid(proof_id).unwrap());
}

#[test]
fn test_update_admin() {
    let admin = Identity::new("GADMIN");
    let mut verifier = initialized(&admin);

    let new_admin = Identity::new("GNEWADMIN");
    verifier.update_admin(&admin, new_admin.clone()).unwrap();

    let stored_admin = verifier.get_admin().unwrap();
    assert_eq!(stored_admin, new_admin);
}

#[test]
fn test_update_admin_unauthorized_fails() {
    let admin = Identity::new("GADMIN");
    let mut verifier = initialized(&admin);

    let unauthorized = Identity::new("GINTRUDER");
    let new_admin = Identity::new("GNEWADMIN");

    let result = verifier.update_admin(&unauthorized, new_admin);
    assert!(result.is_err());
    assert_eq!(result, Err(VerifierError::NotAuthorized));
    assert_eq!(verifier.get_admin(), Some(admin));
}

#[test]
fn test_proof_hash_integrity() {
    let admin = Identity::new("GADMIN");
    let mut verifier = initialized(&admin);

    let issuer = Identity::new("GISSUER");
    let subject = Identity::new("GSUBJECT");

    let metadata = vec![entry("key1", "value1"), entry("key2", "value2")];

    let proof_id = verifier
        .issue_proof(issuer, request(&subject, "identity", metadata), 0)
        .unwrap();
    let proof = verifier.get_proof(proof_id).unwrap();

    // The hash is that of the event followed by keys and values
    let mut hash_input = proof.event_data.clone();
    for entry in proof.metadata.iter() {
        hash_input.extend_from_slice(&entry.key);
        hash_input.extend_from_slice(&entry.value);
    }
    let computed_hash = checked_sha256(&hash_input).unwrap();

    assert_eq!(proof.hash, computed_hash);
    assert_eq!(hash_input, b"test event datakey1value1key2value2".to_vec());
    assert_eq!(
        hex(&proof.hash),
        "29c59fce89d1333d513ebbc4608e0f32f170e1cb71582128c55667dc9e3cfa7e"
    );
}

#[test]
fn proof_verifier_test_test_edge_cases() {
    let admin = Identity::new("GADMIN");
    let mut verifier = initialized(&admin);

    let result = verifier.get_proof(999);
    assert!(result.is_err());
    assert_eq!(result, Err(VerifierError::ProofNotFound));

    let result = verifier.verify_proof(&admin, 999);
    assert!(result.is_err());
    assert_eq!(result, Err(VerifierError::ProofNotFound));

    let result = verifier.revoke_proof(&admin, 999);
    assert!(result.is_err());
    assert_eq!(result, Err(VerifierError::ProofNotFound));
}

#[test]
fn proof_is_issued_with_the_digest_of_what_it_states() {
    let mut verifier = ProofVerifier::new();
    let asked = ProofRequest {
        subject: Identity::new("GSUBJECT"),
        proof_type: "identity".to_string(),
        event_data: b"a".to_vec(),
        metadata: vec![entry("b", "c")],
    };
    let id = verifier.issue_proof(Identity::new("GISSUER"), asked, 42).unwrap();
    let proof = verifier.get_proof(id).unwrap();
    // SHA-256 of "abc"
    assert_eq!(
        hex(&proof.hash),
        "ba7816bf8f01cfea414140de5dae2223b00361a396177a9cb410ff61f20015ad"
    );
    assert_eq!(proof.timestamp, 42);
    assert_eq!(proof.id, 1);
}

#[test]
fn verification_fails_on_a_proof_that_states_something_else() {
    let admin = Identity::new("GADMIN");
    let mut honest = initialized(&admin);
    let subject = Identity::new("GSUBJECT");
    let issuer = Identity::new("GISSUER");
    honest
        .issue_proof(issuer.clone(), request(&subject, "identity", vec![]), 0)
        .unwrap();
    let mut proof = honest.get_proof(1).unwrap();
    proof.event_data = b"another event".to_vec();
    let mut tampered = ProofVerifier::restore(Some(admin.clone()), vec![proof], vec![]).unwrap();
    assert_eq!(tampered.is_proof_valid(1), Ok(false));
    assert_eq!(tampered.verify_proof(&admin, 1), Ok(false));
    assert!(!tampered.get_proof(1).unwrap().verified);

    // Against a digest handed in, only the digest counts
    let digest = honest.get_proof(1).unwrap().hash;
    assert_eq!(tampered.is_proof_valid_against(1, &digest), Ok(true));
    assert_eq!(tampered.is_proof_valid_against(1, &vec![0u8; 32]), Ok(false));
    assert_eq!(
        tampered.is_proof_valid_against(2, &digest),
        Err(VerifierError::ProofNotFound)
    );
    assert_eq!(tampered.verify_proof_against(1, &vec![]), Ok(false));
    assert_eq!(tampered.verify_proof_against(1, &digest), Ok(true));
    assert!(tampered.get_proof(1).unwrap().verified);
}

#[test]
fn revocation_rules() {
    let admin = Identity::new("GADMIN");
    let issuer = Identity::new("GISSUER");
    let subject = Identity::new("GSUBJECT");
    let mut verifier = ProofVerifier::new();
    verifier
        .issue_proof(issuer.clone(), request(&subject, "identity", vec![]), 0)
        .unwrap();
    assert_eq!(
        verifier.revoke_proof(&issuer, 1),
        Err(VerifierError::AdminNotFound)
    );
    assert_eq!(
        verifier.update_admin(&admin, issuer.clone()),
        Err(VerifierError::AdminNotFound)
    );
    // Initializing starts the verifier afresh
    verifier.initialize(admin.clone()).unwrap();
    assert_eq!(verifier.get_proof_count(), 0);
    verifier
        .issue_proof(issuer.clone(), request(&subject, "identity", vec![]), 0)
        .unwrap();
    verifier
        .issue_proof(issuer.clone(), request(&subject, "identity", vec![]), 0)
        .unwrap();
    assert_eq!(verifier.verify_proof(&subject, 2), Ok(true));
    assert_eq!(
        verifier.revoke_proof(&subject, 2),
        Err(VerifierError::NotAuthorized)
    );
    assert_eq!(verifier.revoke_proof(&issuer, 2), Ok(()));
    assert_eq!(
        verifier.revoke_proof(&admin, 2),
        Err(VerifierError::AlreadyRevoked)
    );
    assert_eq!(verifier.revoke_proof(&admin, 1), Ok(()));
    assert_eq!(verifier.get_revoked_ids(), vec![2, 1]);
    let revoked: Vec<u64> = verifier.get_revoked_proofs().iter().map(|p| p.id).collect();
    assert_eq!(revoked, vec![2, 1]);
    let proof = verifier.get_proof(2).unwrap();
    assert!(proof.revoked && !proof.verified);
    // A revoked proof no longer passes
    assert_eq!(verifier.verify_proof(&subject, 2), Ok(false));
    assert!(!verifier.get_proof(2).unwrap().verified);
}

#[test]
fn batch_reports_what_lacks_and_ends_on_what_is_rejected() {
    let admin = Identity::new("GADMIN");
    let operator = Identity::new("GOPERATOR");
    let subject = Identity::new("GSUBJECT");
    let mut verifier = initialized(&admin);
    let failed = |message: &str| BatchResult {
        success: false,
        proof_id: None,
        error: Some(message.to_string()),
    };
    let done = |success: bool, id: u64| BatchResult {
        success,
        proof_id: Some(id),
        error: None,
    };
    let operation = |kind: u32, id: Option<u64>, asked: Option<ProofRequest>| BatchOperation {
        operation_type: kind,
        proof_id: id,
        proof_request: asked,
    };
    let results = verifier
        .batch_operations(
            &operator,
            &vec![
                operation(ISSUE, None, None),
                operation(VERIFY, None, None),
                operation(REVOKE, None, None),
                operation(0, Some(1), None),
                operation(4, None, Some(request(&subject, "identity", vec![]))),
                operation(ISSUE, Some(7), Some(request(&subject, "identity", vec![]))),
                operation(VERIFY, Some(1), None),
                operation(REVOKE, Some(1), None),
                operation(VERIFY, Some(1), None),
            ],
            9,
        )
        .unwrap();
    assert_eq!(
        results,
        vec![
            failed("Missing proof request"),
            failed("Missing proof ID"),
            failed("Missing proof ID"),
            failed("Invalid operation type"),
            failed("Invalid operation type"),
            done(true, 1),
            done(true, 1),
            done(true, 1),
            done(false, 1),
        ]
    );
    let proof = verifier.get_proof(1).unwrap();
    assert_eq!(proof.issuer, operator);
    assert_eq!(proof.timestamp, 9);
    assert!(proof.revoked);

    // A rejected operation ends the batch, and nothing of the batch remains
    let before: Vec<Proof> = verifier.get_proofs();
    for (rejected, error) in [
        (operation(VERIFY, Some(5), None), VerifierError::ProofNotFound),
        (operation(REVOKE, Some(5), None), VerifierError::ProofNotFound),
        (operation(REVOKE, Some(1), None), VerifierError::AlreadyRevoked),
        (
            operation(
                ISSUE,
                None,
                Some(ProofRequest {
                    subject: subject.clone(),
                    proof_type: "identity".to_string(),
                    event_data: vec![0u8; MAX_DIGEST_INPUT + 1],
                    metadata: vec![],
                }),
            ),
            VerifierError::RequestTooLarge,
        ),
    ] {
        let result = verifier.batch_operations(
            &operator,
            &vec![
                operation(ISSUE, None, Some(request(&subject, "credential", vec![]))),
                operation(VERIFY, Some(2), None),
                rejected,
                operation(ISSUE, None, Some(request(&subject, "credential", vec![]))),
            ],
            10,
        );
        assert_eq!(result, Err(error));
        assert_eq!(verifier.get_proofs(), before);
        assert_eq!(verifier.get_revoked_ids(), vec![1]);
    }
    // Revoking another issuer's proof is rejected
    let stranger = Identity::new("GSTRANGER");
    verifier
        .issue_proof(operator.clone(), request(&subject, "identity", vec![]), 0)
        .unwrap();
    assert_eq!(
        verifier.batch_operations(&stranger, &vec![operation(REVOKE, Some(2), None)], 0),
        Err(VerifierError::NotAuthorized)
    );
}

#[test]
fn request_too_large_to_hash_is_rejected() {
    let mut verifier = ProofVerifier::new();
    let subject = Identity::new("GSUBJECT");
    let asked = |event: usize, key: usize, value: usize| ProofRequest {
        subject: subject.clone(),
        proof_type: "identity".to_string(),
        event_data: vec![1u8; event],
        metadata: vec![MetadataEntry {
            key: vec![2u8; key],
            value: vec![3u8; value],
        }],
    };
    assert_eq!(
        verifier.issue_proof(subject.clone(), asked(MAX_DIGEST_INPUT - 1, 1, 1), 0),
        Err(VerifierError::RequestTooLarge)
    );
    assert_eq!(
        verifier.issue_proof(subject.clone(), asked(0, MAX_DIGEST_INPUT, 1), 0),
        Err(VerifierError::RequestTooLarge)
    );
    assert_eq!(verifier.get_proof_count(), 0);
    assert_eq!(
        verifier.issue_proof(subject.clone(), asked(MAX_DIGEST_INPUT - 2, 1, 1), 0),
        Ok(1)
    );
    assert_eq!(verifier.is_proof_valid(1), Ok(true));
}

#[test]
fn restore_checks_the_rule_of_the_verifier() {
    let admin = Identity::new("GADMIN");
    let subject = Identity::new("GSUBJECT");
    let mut verifier = initialized(&admin);
    verifier
        .issue_proof(admin.clone(), request(&subject, "identity", vec![]), 0)
        .unwrap();
    verifier
        .issue_proof(admin.clone(), request(&subject, "identity", vec![]), 0)
        .unwrap();
    verifier.revoke_proof(&admin, 2).unwrap();
    let proofs = verifier.get_proofs();
    let again = ProofVerifier::restore(
        verifier.get_admin(),
        verifier.get_proofs(),
        verifier.get_revoked_ids(),
    )
    .unwrap();
    assert_eq!(again.get_proofs(), proofs);
    assert_eq!(again.get_revoked_ids(), vec![2]);
    assert_eq!(again.get_admin(), Some(admin.clone()));

    // Ids out of order
    let mut swapped = verifier.get_proofs();
    swapped.swap(0, 1);
    assert!(ProofVerifier::restore(None, swapped, vec![]).is_none());
    // A revocation of a proof that is not revoked, or not there
    assert!(ProofVerifier::restore(None, verifier.get_proofs(), vec![1]).is_none());
    assert!(ProofVerifier::restore(None, verifier.get_proofs(), vec![3]).is_none());
    assert!(ProofVerifier::restore(None, verifier.get_proofs(), vec![0]).is_none());
    // A proof too large to hash
    let mut bloated = verifier.get_proofs();
    bloated[0].event_data = vec![0u8; MAX_DIGEST_INPUT + 1];
    assert!(ProofVerifier::restore(None, bloated, vec![2]).is_none());
}
