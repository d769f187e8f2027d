use grant_treasury::privacy::{
    DataField, PrivacySettings, PrivacyVerification, SelectiveDisclosure, ZKProof, PRIVATE,
    PUBLIC, SHARED,
};
use grant_treasury::Identity;

fn who(name: &str) -> Identity {
    Identity::new(name)
}

fn proof_id(n: u8) -> Vec<u8> {
    vec![n; 32]
}

fn settings(visibility: u32, viewers: &[&str], minimization: bool) -> PrivacySettings {
    PrivacySettings {
        visibility,
        allowed_viewers: viewers.iter().map(|v| who(v)).collect(),
        allowed_actions: vec![0, 1],
        require_consent: false,
        data_minimization: minimization,
        encryption_required: false,
    }
}

fn field(name: &str, value: &str) -> DataField {
    DataField {
        name: name.to_string(),
        value: value.as_bytes().to_vec(),
    }
}

fn policy(fields: &[&str]) -> SelectiveDisclosure {
    SelectiveDisclosure {
        disclosed_fields: fields.iter().map(|f| f.to_string()).collect(),
        purpose: "audit".to_string(),
        recipient: who("GAUDITOR"),
        signature: vec![0u8; 64],
    }
}

#[test]
fn proof_without_settings_is_private() {
    let privacy = PrivacyVerification::initialize();
    let found = privacy.get_privacy_settings(&proof_id(1));
    assert_eq!(
        found,
        PrivacySettings {
            visibility: PRIVATE,
            allowed_viewers: vec![],
            allowed_actions: vec![0],
            require_consent: true,
            data_minimization: true,
            encryption_required: true,
        }
    );
    assert_eq!(found, PrivacySettings::default_settings());
    assert!(!privacy.verify_privacy(&proof_id(1), &who("GALICE"), &vec![0]));
    assert_eq!(privacy.settings_count(), 0);
    assert_eq!(privacy.consents_count(), 0);
}

#[test]
fn access_goes_by_visibility() {
    let mut privacy = PrivacyVerification::initialize();
    privacy.set_privacy_settings(&proof_id(1), settings(PUBLIC, &[], true));
    privacy.set_privacy_settings(&proof_id(2), settings(SHARED, &["GALICE", "GBOB"], true));
    privacy.set_privacy_settings(&proof_id(3), settings(PRIVATE, &["GALICE"], true));
    privacy.set_privacy_settings(&proof_id(4), settings(7, &["GALICE"], true));
    assert!(privacy.verify_privacy(&proof_id(1), &who("GEVE"), &vec![0, 1, 2]));
    assert!(privacy.verify_privacy(&proof_id(2), &who("GBOB"), &vec![2]));
    assert!(!privacy.verify_privacy(&proof_id(2), &who("GEVE"), &vec![0]));
    assert!(!privacy.verify_privacy(&proof_id(3), &who("GALICE"), &vec![0]));
    assert!(!privacy.verify_privacy(&proof_id(4), &who("GALICE"), &vec![0]));
    // Settings are replaced, not added to
    privacy.set_privacy_settings(&proof_id(2), settings(SHARED, &["GEVE"], true));
    assert!(privacy.verify_privacy(&proof_id(2), &who("GEVE"), &vec![0]));
    assert!(!privacy.verify_privacy(&proof_id(2), &who("GBOB"), &vec![0]));
    assert_eq!(privacy.settings_count(), 4);
    assert_eq!(privacy.settings_entry(1).0, &proof_id(2));
    assert_eq!(privacy.settings_entry(1).1.allowed_viewers, vec![who("GEVE")]);
    // Ids are told apart byte by byte
    let mut near = proof_id(2);
    near[31] = 3;
    assert_eq!(privacy.get_privacy_settings(&near).visibility, PRIVATE);
    assert!(PrivacyVerification::is_allowed_viewer(
        &vec![who("GALICE")],
        &who("GALICE"),
        &vec![9]
    ));
    assert!(!PrivacyVerification::is_allowed_viewer(&vec![], &who("GALICE"), &vec![]));
}

#[test]
fn disclosure_must_match_the_policy_exactly() {
    let mut privacy = PrivacyVerification::initialize();
    privacy.set_privacy_settings(&proof_id(1), settings(PUBLIC, &[], true));
    let data = vec![field("name", "Ann"), field("age", "41")];
    let requester = who("GAUDITOR");
    assert!(privacy.verify_selective_disclosure(
        &proof_id(1),
        &data,
        &policy(&["age", "name"]),
        &requester
    ));
    // A field named is not disclosed
    assert!(!privacy.verify_selective_disclosure(
        &proof_id(1),
        &data,
        &policy(&["age", "name", "address"]),
        &requester
    ));
    // A field disclosed is not named
    assert!(!privacy.verify_selective_disclosure(
        &proof_id(1),
        &data,
        &policy(&["age"]),
        &requester
    ));
    assert!(privacy.verify_selective_disclosure(&proof_id(1), &vec![], &policy(&[]), &requester));
    // No access, no disclosure
    assert!(!privacy.verify_selective_disclosure(
        &proof_id(2),
        &data,
        &policy(&["age", "name"]),
        &requester
    ));
}

#[test]
fn zk_proof_needs_its_inputs_its_proof_and_its_key() {
    let zk = |proof: &[u8], key: &[u8]| ZKProof {
        proof: proof.to_vec(),
        public_inputs: vec![vec![1, 2], vec![3]],
        verification_key: key.to_vec(),
        circuit_id: "age-over-18".to_string(),
    };
    let inputs = vec![vec![1, 2], vec![3]];
    assert!(PrivacyVerification::verify_zk_proof(&zk(&[9], &[8]), &inputs));
    assert!(!PrivacyVerification::verify_zk_proof(&zk(&[], &[8]), &inputs));
    assert!(!PrivacyVerification::verify_zk_proof(&zk(&[9], &[]), &inputs));
    assert!(!PrivacyVerification::verify_zk_proof(
        &zk(&[9], &[8]),
        &vec![vec![1, 2]]
    ));
    assert!(!PrivacyVerification::verify_zk_proof(
        &zk(&[9], &[8]),
        &vec![vec![1, 2], vec![4]]
    ));
    assert!(!PrivacyVerification::verify_zk_proof(
        &zk(&[9], &[8]),
        &vec![vec![3], vec![1, 2]]
    ));
    assert!(PrivacyVerification::verify_zk_proof_internal(&vec![0], &vec![0]));
    assert!(!PrivacyVerification::verify_zk_proof_internal(&vec![], &vec![]));
}

#[test]
fn consent_is_kept_by_proof() {
    let mut privacy = PrivacyVerification::initialize();
    let (ann, bob) = (who("GANN"), who("GBOB"));
    assert!(!privacy.check_consent(&proof_id(1), &ann, &bob, &vec![]));
    privacy.grant_consent(&proof_id(1), &ann, &bob, vec![0, 2]);
    assert!(privacy.check_consent(&proof_id(1), &ann, &bob, &vec![]));
    assert!(privacy.check_consent(&proof_id(1), &ann, &bob, &vec![2, 0, 2]));
    assert!(!privacy.check_consent(&proof_id(1), &ann, &bob, &vec![0, 1]));
    assert!(!privacy.check_consent(&proof_id(2), &ann, &bob, &vec![0]));
    // Who gave it, and to whom, does not count
    assert!(privacy.check_consent(&proof_id(1), &bob, &ann, &vec![0]));
    // A new grant replaces the old
    privacy.grant_consent(&proof_id(1), &ann, &bob, vec![1]);
    assert!(!privacy.check_consent(&proof_id(1), &ann, &bob, &vec![0]));
    assert!(privacy.check_consent(&proof_id(1), &ann, &bob, &vec![1]));
    assert_eq!(privacy.consents_count(), 1);
    assert_eq!(privacy.consents_entry(0), (&proof_id(1), &vec![1]));
    privacy.grant_consent(&proof_id(2), &ann, &bob, vec![0]);
    privacy.revoke_consent(&proof_id(1), &ann, &bob);
    assert!(!privacy.check_consent(&proof_id(1), &ann, &bob, &vec![]));
    assert!(privacy.check_consent(&proof_id(2), &ann, &bob, &vec![0]));
    privacy.revoke_consent(&proof_id(1), &ann, &bob);
    assert_eq!(privacy.consents_count(), 1);
    // Consents and settings are kept apart
    assert_eq!(privacy.settings_count(), 0);
}

#[test]
fn data_minimization_hands_out_the_essential_fields() {
    let data = || {
        vec![
            field("hash", "abcd"),
            field("subject", "Ann"),
            field("verified", "true"),
            field("id", "1"),
            field("timestamp", "99"),
            field("id", "2"),
        ]
    };
    let stranger = who("GEVE");
    // Without minimization everything is handed out
    assert_eq!(
        PrivacyVerification::apply_data_minimization(
            data(),
            &settings(PRIVATE, &[], false),
            &stranger
        ),
        data()
    );
    assert_eq!(
        PrivacyVerification::apply_data_minimization(
            data(),
            &settings(PRIVATE, &[], true),
            &stranger
        ),
        vec![field("id", "1"), field("timestamp", "99"), field("verified", "true")]
    );
    // The hash goes to everybody if the proof is public, and to allowed viewers
    let with_hash = vec![
        field("id", "1"),
        field("timestamp", "99"),
        field("verified", "true"),
        field("hash", "abcd"),
    ];
    assert_eq!(
        PrivacyVerification::apply_data_minimization(
            data(),
            &settings(PUBLIC, &[], true),
            &stranger
        ),
        with_hash
    );
    assert_eq!(
        PrivacyVerification::apply_data_minimization(
            data(),
            &settings(PRIVATE, &["GEVE"], true),
            &stranger
        ),
        with_hash
    );
    assert_eq!(
        PrivacyVerification::apply_data_minimization(
            vec![field("issuer", "x")],
            &settings(SHARED, &["GBOB"], true),
            &stranger
        ),
        vec![field("issuer", "x")]
    );
    assert_eq!(
        PrivacyVerification::apply_data_minimization(
            vec![],
            &settings(PUBLIC, &[], true),
            &stranger
        ),
        vec![]
    );
}
