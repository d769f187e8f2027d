use grant_treasury::digest::{checked_sha256, MAX_DIGEST_INPUT};

fn sha256(data: &Vec<u8>) -> Vec<u8> {
    checked_sha256(data).unwrap()
}

fn hex(bytes: &[u8]) -> String {
    bytes.iter().map(|b| format!("{b:02x}")).collect()
}

#[test]
fn sha256_of_known_inputs() {
    assert_eq!(
        hex(&sha256(&b"abc".to_vec())),
        "ba7816bf8f01cfea414140de5dae2223b00361a396177a9cb410ff61f20015ad"
    );
    assert_eq!(
        hex(&sha256(&Vec::new())),
        "e3b0c44298fc1c149afbf4c8996fb92427ae41e4649b934ca495991b7852b855"
    );
}

#[test]
fn sha256_of_the_longest_input() {
    let longest = vec![0x61u8; MAX_DIGEST_INPUT];
    let digest = checked_sha256(&longest).unwrap();
    assert_eq!(digest.len(), 32);
    assert_eq!(digest, sha256(&longest));
    assert_eq!(checked_sha256(&vec![0u8; MAX_DIGEST_INPUT + 1]), None);
}
