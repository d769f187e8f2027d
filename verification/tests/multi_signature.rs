use grant_treasury::hashing::hash_binary;
use grant_treasury::multi_signature::{
    CompletedSignature, MultiSigError, MultiSignatureContract, SignatureRequest, SignatureStatus,
};
use grant_treasury::Identity;

fn who(name: &str) -> Identity {
    Identity::new(name)
}

fn contract_with_signers(required: u32, signers: &[&str]) -> MultiSignatureContract {
    let mut contract = MultiSignatureContract::new(who("GOWNER"), required);
    for signer in signers {
        contract.add_signer(&who("GOWNER"), who(signer)).unwrap();
    }
    contract
}

#[test]
fn rolling_hash_of_known_inputs() {
    assert_eq!(hash_binary(&vec![]), 0);
    assert_eq!(hash_binary(&vec![7]), 7);
    assert_eq!(hash_binary(&vec![1, 2]), 33);
    assert_eq!(hash_binary(&b"abc".to_vec()), (97 * 31 + 98) * 31 + 99);
    // Leading zero bytes do not count
    assert_eq!(hash_binary(&vec![0, 0, 5]), 5);
    // Wraps around at 64 bits
    let long = vec![255u8; 20];
    let mut expected: u64 = 0;
    for byte in &long {
        expected = expected.wrapping_mul(31).wrapping_add(*byte as u64);
    }
    assert_eq!(hash_binary(&long), expected);
    assert_eq!(hash_binary(&long), 6_545_392_176_486_164_160);
}

#[test]
fn only_the_owner_manages_signers() {
    let mut contract = MultiSignatureContract::new(who("GOWNER"), 2);
    assert_eq!(contract.get_owner(), who("GOWNER"));
    assert_eq!(contract.get_required_signatures(), 2);
    assert_eq!(
        contract.add_signer(&who("GALICE"), who("GALICE")),
        Err(MultiSigError::Unauthorized)
    );
    assert_eq!(contract.add_signer(&who("GOWNER"), who("GALICE")), Ok(()));
    assert_eq!(contract.add_signer(&who("GOWNER"), who("GBOB")), Ok(()));
    assert_eq!(
        contract.add_signer(&who("GOWNER"), who("GALICE")),
        Err(MultiSigError::SignerAlreadyExists)
    );
    assert_eq!(contract.get_signers(), vec![who("GALICE"), who("GBOB")]);
    assert_eq!(
        contract.remove_signer(&who("GBOB"), &who("GALICE")),
        Err(MultiSigError::Unauthorized)
    );
    assert_eq!(
        contract.remove_signer(&who("GOWNER"), &who("GCAROL")),
        Err(MultiSigError::SignerNotFound)
    );
    assert_eq!(contract.remove_signer(&who("GOWNER"), &who("GALICE")), Ok(()));
    assert_eq!(contract.get_signers(), vec![who("GBOB")]);
    assert_eq!(
        contract.update_required_signatures(&who("GBOB"), 1),
        Err(MultiSigError::Unauthorized)
    );
    assert_eq!(contract.update_required_signatures(&who("GOWNER"), 1), Ok(()));
    assert_eq!(contract.get_required_signatures(), 1);
}

#[test]
fn request_is_completed_by_enough_signatures_and_then_executed() {
    let mut contract = contract_with_signers(2, &["GALICE", "GBOB", "GCAROL"]);
    let proof = b"proof of attendance".to_vec();
    assert_eq!(
        contract.create_signature_request(&who("GMALLORY"), proof.clone(), "x".to_string(), 100, 1),
        Err(MultiSigError::NotAnAuthorizedSigner)
    );
    let id = contract
        .create_signature_request(&who("GALICE"), proof.clone(), "attendance".to_string(), 100, 1)
        .unwrap();
    assert_eq!(id, 0);
    assert_eq!(
        contract.get_pending_requests(),
        vec![SignatureRequest {
            id: 0,
            creator: who("GALICE"),
            proof_data: proof.clone(),
            description: "attendance".to_string(),
            created_at: 1,
            expires_at: 100,
            status: SignatureStatus::Pending,
            required_signatures: 2,
        }]
    );
    // A later change does not reach the request
    contract.update_required_signatures(&who("GOWNER"), 5).unwrap();

    assert_eq!(
        contract.execute_request(0),
        Err(MultiSigError::NotFullySigned)
    );
    // Signatures whose hashes combine to the hash of the proof
    contract.sign_request(&who("GALICE"), 0, proof.clone(), 10).unwrap();
    let info = contract.get_request_info(0).unwrap();
    assert!(!info.is_fully_signed);
    assert_eq!(info.request.status, SignatureStatus::Pending);
    assert_eq!(info.signatures.len(), 1);
    assert_eq!(info.signers.len(), 3);
    assert_eq!(
        contract.sign_request(&who("GALICE"), 0, proof.clone(), 11),
        Err(MultiSigError::AlreadySigned)
    );
    contract.sign_request(&who("GBOB"), 0, vec![], 100).unwrap();
    let info = contract.get_request_info(0).unwrap();
    assert!(info.is_fully_signed);
    assert_eq!(info.request.status, SignatureStatus::Completed);
    assert_eq!(
        info.signatures,
        vec![
            CompletedSignature {
                request_id: 0,
                signer: who("GALICE"),
                signature: proof.clone(),
                signed_at: 10,
            },
            CompletedSignature {
                request_id: 0,
                signer: who("GBOB"),
                signature: vec![],
                signed_at: 100,
            },
        ]
    );
    assert_eq!(contract.count_signatures_for_request(0), 2);
    assert_eq!(contract.get_pending_requests().len(), 0);
    assert_eq!(
        contract.sign_request(&who("GCAROL"), 0, vec![], 12),
        Err(MultiSigError::RequestNotPending)
    );
    assert_eq!(contract.verify_multi_signature(0), Ok(true));
    assert_eq!(contract.execute_request(0), Ok(proof.clone()));
    assert_eq!(
        contract.get_request_info(0).unwrap().request.status,
        SignatureStatus::Executed
    );
    assert_eq!(
        contract.execute_request(0),
        Err(MultiSigError::NotFullySigned)
    );
}

#[test]
fn signatures_that_do_not_combine_to_the_proof_fail_verification() {
    let mut contract = contract_with_signers(1, &["GALICE"]);
    contract
        .create_signature_request(&who("GALICE"), b"proof".to_vec(), "d".to_string(), 100, 1)
        .unwrap();
    contract
        .sign_request(&who("GALICE"), 0, b"forged".to_vec(), 2)
        .unwrap();
    assert_eq!(contract.verify_multi_signature(0), Ok(false));
    assert_eq!(
        contract.execute_request(0),
        Err(MultiSigError::VerificationFailed)
    );
    assert_eq!(
        contract.get_request_info(0).unwrap().request.status,
        SignatureStatus::Completed
    );
}

#[test]
fn signing_is_refused_in_the_order_of_the_checks() {
    let mut contract = contract_with_signers(3, &["GALICE", "GBOB"]);
    contract
        .create_signature_request(&who("GALICE"), b"p".to_vec(), "d".to_string(), 50, 1)
        .unwrap();
    contract
        .create_signature_request(&who("GBOB"), b"q".to_vec(), "e".to_string(), 50, 1)
        .unwrap();
    assert_eq!(
        contract.sign_request(&who("GMALLORY"), 7, vec![], 99),
        Err(MultiSigError::NotAnAuthorizedSigner)
    );
    assert_eq!(
        contract.sign_request(&who("GALICE"), 2, vec![], 99),
        Err(MultiSigError::InvalidRequestId)
    );
    assert_eq!(
        contract.sign_request(&who("GALICE"), 1, vec![], 51),
        Err(MultiSigError::RequestExpired)
    );
    assert_eq!(contract.sign_request(&who("GALICE"), 1, vec![1], 50), Ok(()));
    assert_eq!(contract.sign_request(&who("GBOB"), 0, vec![2], 50), Ok(()));
    assert_eq!(contract.count_signatures_for_request(0), 1);
    assert_eq!(contract.count_signatures_for_request(1), 1);
    assert_eq!(contract.count_signatures_for_request(2), 0);
    assert_eq!(
        contract.get_signatures_for_request(1)[0].signer,
        who("GALICE")
    );
    // Too few signatures: not verified, and nothing to execute
    assert_eq!(contract.verify_multi_signature(0), Ok(false));
    assert_eq!(
        contract.verify_multi_signature(2),
        Err(MultiSigError::InvalidRequestId)
    );
    assert_eq!(
        contract.execute_request(2),
        Err(MultiSigError::InvalidRequestId)
    );
    assert_eq!(
        contract.get_request_info(2).err(),
        Some(MultiSigError::RequestNotFound)
    );
    assert_eq!(contract.get_pending_requests().len(), 2);
}

#[test]
fn aggregate_of_no_signatures_is_an_error() {
    assert_eq!(
        MultiSignatureContract::verify_aggregated_signature(&vec![1], &vec![]),
        Err(MultiSigError::NoSignaturesProvided)
    );
    let signed = |bytes: &[u8]| CompletedSignature {
        request_id: 0,
        signer: who("GALICE"),
        signature: bytes.to_vec(),
        signed_at: 0,
    };
    // Two equal signatures cancel out
    assert_eq!(
        MultiSignatureContract::verify_aggregated_signature(
            &vec![9],
            &vec![signed(&[4, 4]), signed(&[9]), signed(&[4, 4])]
        ),
        Ok(true)
    );
    assert_eq!(
        MultiSignatureContract::verify_aggregated_signature(
            &vec![9],
            &vec![signed(&[4, 4]), signed(&[9])]
        ),
        Ok(false)
    );
    // A request that requires no signature and has none
    let mut contract = contract_with_signers(0, &["GALICE"]);
    contract
        .create_signature_request(&who("GALICE"), vec![], "d".to_string(), 5, 1)
        .unwrap();
    assert_eq!(
        contract.verify_multi_signature(0),
        Err(MultiSigError::NoSignaturesProvided)
    );
}

#[test]
fn errors_in_words() {
    assert_eq!(MultiSigError::Unauthorized.message(), "Unauthorized");
    assert_eq!(
        MultiSigError::SignerAlreadyExists.message(),
        "Signer already exists"
    );
    assert_eq!(MultiSigError::SignerNotFound.message(), "Signer not found");
    assert_eq!(
        MultiSigError::NotAnAuthorizedSigner.message(),
        "Not an authorized signer"
    );
    assert_eq!(MultiSigError::InvalidRequestId.message(), "Invalid request ID");
    assert_eq!(
        MultiSigError::RequestNotPending.message(),
        "Request is not pending"
    );
    assert_eq!(MultiSigError::RequestExpired.message(), "Request has expired");
    assert_eq!(MultiSigError::AlreadySigned.message(), "Already signed");
    assert_eq!(
        MultiSigError::NotFullySigned.message(),
        "Request is not fully signed"
    );
    assert_eq!(
        MultiSigError::VerificationFailed.message(),
        "Multi-signature verification failed"
    );
    assert_eq!(
        MultiSigError::NoSignaturesProvided.message(),
        "No signatures provided"
    );
    assert_eq!(MultiSigError::RequestNotFound.message(), "Request not found");
}

#[test]
fn restore_checks_the_rule_of_the_contract() {
    let mut contract = contract_with_signers(1, &["GALICE", "GBOB"]);
    contract
        .create_signature_request(&who("GALICE"), b"p".to_vec(), "d".to_string(), 50, 1)
        .unwrap();
    contract.sign_request(&who("GBOB"), 0, b"p".to_vec(), 2).unwrap();
    let again = MultiSignatureContract::restore(
        contract.get_owner(),
        contract.get_required_signatures(),
        contract.get_signers(),
        contract.get_requests(),
        contract.get_completed_signatures(),
    )
    .unwrap();
    assert_eq!(again.get_requests(), contract.get_requests());
    assert_eq!(
        again.get_completed_signatures(),
        contract.get_completed_signatures()
    );
    assert_eq!(again.get_signers(), contract.get_signers());

    // A signer listed twice
    assert!(MultiSignatureContract::restore(
        who("GOWNER"),
        1,
        vec![who("GALICE"), who("GBOB"), who("GALICE")],
        vec![],
        vec![]
    )
    .is_none());
    // A request out of place
    let mut requests = contract.get_requests();
    requests[0].id = 1;
    assert!(
        MultiSignatureContract::restore(who("GOWNER"), 1, vec![], requests, vec![]).is_none()
    );
}
