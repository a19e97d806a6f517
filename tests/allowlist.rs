use ledgeracio::allowlist::{compile_allowlist, inspect_allowlist};
use ledgeracio::artifact::{inspect, render, sign, sign_confirmed, verify_artifact, VerifiedAllowlist};
use ledgeracio::canonical::canonicalize;
use ledgeracio::error::LedgerError;
use ledgeracio::keyfile::{public_key_file, read_public, read_secret, secret_key_file};
use ledgeracio::keys::{generate, SigningKeyPair};
use ledgeracio::network::Network;

fn keypair() -> SigningKeyPair {
    SigningKeyPair::from_secret([7u8; 32])
}

fn accounts() -> Vec<[u8; 32]> {
    vec![[1u8; 32], [2u8; 32], [3u8; 32]]
}

fn address(id: [u8; 32], network: Network) -> String {
    render(&vec![id], network).trim_end().to_string()
}

#[test]
fn comment_and_blank_lines_are_skipped() {
    let alice = address([1u8; 32], Network::Polkadot);
    let bob = address([2u8; 32], Network::Polkadot);
    let text = format!("; comment\n  \n{}\n# another\n{}\n", alice, bob);
    assert_eq!(canonicalize(&text, Network::Polkadot), Ok(vec![[1u8; 32], [2u8; 32]]));
}

#[test]
fn surrounding_whitespace_and_crlf_are_ignored() {
    let alice = address([1u8; 32], Network::Kusama);
    let text = format!("\t {} \r\n\r\n", alice);
    assert_eq!(canonicalize(&text, Network::Kusama), Ok(vec![[1u8; 32]]));
}

#[test]
fn empty_text_gives_empty_list() {
    assert_eq!(canonicalize("", Network::Polkadot), Ok(vec![]));
    assert_eq!(canonicalize("# only a comment", Network::Polkadot), Ok(vec![]));
}

#[test]
fn duplicates_and_order_are_kept() {
    let a = address([9u8; 32], Network::Polkadot);
    let b = address([4u8; 32], Network::Polkadot);
    let text = format!("{}\n{}\n{}", a, b, a);
    assert_eq!(
        canonicalize(&text, Network::Polkadot),
        Ok(vec![[9u8; 32], [4u8; 32], [9u8; 32]])
    );
}

#[test]
fn invalid_address_names_its_line() {
    let a = address([1u8; 32], Network::Polkadot);
    let text = format!("# header\n{}\nnot-an-address\n", a);
    assert_eq!(
        canonicalize(&text, Network::Polkadot),
        Err(LedgerError::InvalidAddress { line: 3 })
    );
}

#[test]
fn address_of_other_network_is_a_mismatch() {
    let a = address([1u8; 32], Network::Kusama);
    let text = format!("\n{}\n", a);
    assert_eq!(
        canonicalize(&text, Network::Polkadot),
        Err(LedgerError::NetworkMismatch { expected: 0, found: 2, line: Some(2) })
    );
}

#[test]
fn known_address_is_rendered_and_read() {
    let mut alice = [0u8; 32];
    hex_into("d43593c715fdd31c61141abd04a99fd6822c8558854ccde39a5684e7a56da27d", &mut alice);
    let text = render(&vec![alice], Network::Custom(42));
    assert_eq!(text, "5GrwvaEF5zXb26Fz9rcQpDWS57CtERHpNehXCPcNoHGKutQY\n");
    assert_eq!(canonicalize(&text, Network::Custom(42)), Ok(vec![alice]));
}

fn hex_into(s: &str, out: &mut [u8]) {
    let bytes = hex::decode(s).unwrap();
    out.copy_from_slice(&bytes);
}

#[test]
fn round_trip_through_sign_inspect_and_canonicalize() {
    let kp = keypair();
    for network in [Network::Polkadot, Network::Kusama, Network::Custom(42)] {
        let signed = sign(&accounts(), network, 17, &kp);
        let text = inspect(&signed, network, &kp.public).unwrap();
        assert_eq!(canonicalize(&text, network), Ok(accounts()));
    }
}

#[test]
fn round_trip_of_empty_list() {
    let kp = keypair();
    let signed = sign(&vec![], Network::Polkadot, 0, &kp);
    assert_eq!(signed.len(), 69);
    let text = inspect(&signed, Network::Polkadot, &kp.public).unwrap();
    assert_eq!(text, "");
    assert_eq!(canonicalize(&text, Network::Polkadot), Ok(vec![]));
}

#[test]
fn artifact_layout() {
    let kp = keypair();
    let signed = sign(&accounts(), Network::Kusama, 0x01020304, &kp);
    assert_eq!(signed.len(), 5 + 3 * 32 + 64);
    assert_eq!(&signed[..5], &[2, 4, 3, 2, 1]);
    assert_eq!(&signed[5..37], &[1u8; 32]);
    assert_eq!(&signed[69..101], &[3u8; 32]);
    let v = verify_artifact(&signed, Network::Kusama, &kp.public).unwrap();
    assert_eq!(v, VerifiedAllowlist { nonce: 0x01020304, accounts: accounts() });
}

#[test]
fn signature_is_ed25519_over_payload() {
    let kp = keypair();
    let signed = sign(&accounts(), Network::Polkadot, 5, &kp);
    let n = signed.len();
    let key = ed25519_dalek::VerifyingKey::from_bytes(&kp.public).unwrap();
    let sig = ed25519_dalek::Signature::from_slice(&signed[n - 64..]).unwrap();
    assert!(ed25519_dalek::Verifier::verify(&key, &signed[..n - 64], &sig).is_ok());
}

#[test]
fn every_flipped_bit_is_rejected() {
    let kp = keypair();
    let signed = sign(&vec![[5u8; 32]], Network::Polkadot, 3, &kp);
    for i in 1..signed.len() {
        for bit in 0..8 {
            let mut t = signed.clone();
            t[i] ^= 1 << bit;
            assert_eq!(
                verify_artifact(&t, Network::Polkadot, &kp.public),
                Err(LedgerError::InvalidSignature),
                "byte {} bit {}",
                i,
                bit
            );
        }
    }
}

#[test]
fn kusama_artifact_is_refused_for_polkadot() {
    let kp = keypair();
    let signed = sign(&accounts(), Network::Kusama, 1, &kp);
    assert_eq!(
        inspect(&signed, Network::Polkadot, &kp.public),
        Err(LedgerError::NetworkMismatch { expected: 0, found: 2, line: None })
    );
}

#[test]
fn signing_is_deterministic() {
    let kp = keypair();
    let a = sign(&accounts(), Network::Polkadot, 9, &kp);
    let b = sign(&accounts(), Network::Polkadot, 9, &kp);
    assert_eq!(a, b);
    let c = sign(&accounts(), Network::Polkadot, 10, &kp);
    assert_ne!(a, c);
}

#[test]
fn wrong_public_key_is_invalid_signature() {
    let kp = keypair();
    let other = SigningKeyPair::from_secret([8u8; 32]);
    let signed = sign(&accounts(), Network::Polkadot, 1, &kp);
    assert_eq!(
        verify_artifact(&signed, Network::Polkadot, &other.public),
        Err(LedgerError::InvalidSignature)
    );
}

#[test]
fn short_artifact_is_truncated() {
    let kp = keypair();
    assert_eq!(
        verify_artifact(&[0u8; 68], Network::Polkadot, &kp.public),
        Err(LedgerError::TruncatedArtifact { actual: 68 })
    );
    assert_eq!(
        verify_artifact(&[], Network::Polkadot, &kp.public),
        Err(LedgerError::TruncatedArtifact { actual: 0 })
    );
}

#[test]
fn partial_account_is_malformed() {
    let kp = keypair();
    let mut payload = vec![0u8, 1, 0, 0, 0];
    payload.extend_from_slice(&[6u8; 33]);
    let key = ed25519_dalek::SigningKey::from_bytes(&kp.secret);
    let sig = ed25519_dalek::Signer::sign(&key, &payload);
    payload.extend_from_slice(&sig.to_bytes());
    assert_eq!(
        verify_artifact(&payload, Network::Polkadot, &kp.public),
        Err(LedgerError::MalformedPayload)
    );
}

#[test]
fn confirmed_signing_checks_the_public_key() {
    let kp = keypair();
    let other = SigningKeyPair::from_secret([8u8; 32]);
    assert_eq!(
        sign_confirmed(&accounts(), Network::Polkadot, 1, &kp, &other.public),
        Err(LedgerError::KeyMismatch)
    );
    assert_eq!(
        sign_confirmed(&accounts(), Network::Polkadot, 1, &kp, &kp.public),
        Ok(sign(&accounts(), Network::Polkadot, 1, &kp))
    );
}

#[test]
fn public_key_follows_the_standard_vector() {
    let mut secret = [0u8; 32];
    hex_into("9d61b19deffd5a60ba844af492ec2cc44449c5697b326919703bac031cae7f60", &mut secret);
    let kp = SigningKeyPair::from_secret(secret);
    assert_eq!(
        hex::encode(kp.public),
        "d75a980182b10ab7d54bfed3c964073a0ee172f3daa62325af021a68f707511a"
    );
}

#[test]
fn generated_keys_are_consistent() {
    let kp = generate().unwrap();
    assert_eq!(SigningKeyPair::from_secret(kp.secret).public, kp.public);
    let other = generate().unwrap();
    assert_ne!(kp.secret, other.secret);
}

#[test]
fn secret_key_file_layout_and_round_trip() {
    let kp = keypair();
    let file = secret_key_file(&kp, Network::Kusama);
    assert_eq!(file.len(), 88);
    assert_eq!(&file[..21], b"Ledgeracio Secret Key");
    assert_eq!(&file[21..24], &[1, 0, 2]);
    assert_eq!(&file[24..56], &kp.secret);
    assert_eq!(&file[56..88], &kp.public);
    assert_eq!(read_secret(&file), Ok((kp, Network::Kusama)));
}

#[test]
fn secret_key_file_of_wrong_length() {
    let file = secret_key_file(&keypair(), Network::Polkadot);
    assert_eq!(
        read_secret(&file[..87]),
        Err(LedgerError::BadKeyLength { expected: 88, actual: 87 })
    );
    let mut longer = file.clone();
    longer.push(0);
    assert_eq!(
        read_secret(&longer),
        Err(LedgerError::BadKeyLength { expected: 88, actual: 89 })
    );
    assert_eq!(read_secret(&[]), Err(LedgerError::BadKeyLength { expected: 88, actual: 0 }));
}

#[test]
fn secret_key_file_checks() {
    let kp = keypair();
    let file = secret_key_file(&kp, Network::Polkadot);
    let mut bad_magic = file.clone();
    bad_magic[0] = b'l';
    assert_eq!(read_secret(&bad_magic), Err(LedgerError::InvalidMagic));
    let mut bad_version = file.clone();
    bad_version[21] = 2;
    assert_eq!(
        read_secret(&bad_version),
        Err(LedgerError::UnsupportedVersion { found: Some(2) })
    );
    let mut swapped = file.clone();
    swapped[56..88].copy_from_slice(&SigningKeyPair::from_secret([8u8; 32]).public);
    assert_eq!(read_secret(&swapped), Err(LedgerError::KeyMismatch));
}

#[test]
fn public_key_file_text() {
    let text = public_key_file(&[0u8; 32], Network::Polkadot).unwrap();
    assert_eq!(
        text,
        "Ledgeracio version 1 public key for network Polkadot\nAAAAAAAAAAAAAAAAAAAAAAAAAAAAAAAAAAAAAAAAAAA=\n"
    );
    assert_eq!(public_key_file(&[0u8; 32], Network::Custom(42)), Err(LedgerError::UnknownNetwork));
}

#[test]
fn public_key_file_round_trip() {
    let kp = keypair();
    let text = public_key_file(&kp.public, Network::Kusama).unwrap();
    assert_eq!(read_public(&text), Ok((kp.public, Network::Kusama)));
    let upper = text.replace("Kusama", "KUSAMA");
    assert_eq!(read_public(&upper), Ok((kp.public, Network::Kusama)));
}

#[test]
fn public_key_file_checks() {
    let kp = keypair();
    let text = public_key_file(&kp.public, Network::Polkadot).unwrap();
    assert_eq!(
        read_public(&text.replace("version 1", "version 2")),
        Err(LedgerError::UnsupportedVersion { found: None })
    );
    assert_eq!(
        read_public(&text.replace("Polkadot", "Westend")),
        Err(LedgerError::UnknownNetwork)
    );
    assert_eq!(read_public(&text.replace("version 1", "version 01")), Err(LedgerError::InvalidKeyEncoding));
    assert_eq!(read_public(&text[..text.len() - 1]), Err(LedgerError::InvalidKeyEncoding));
    assert_eq!(read_public(""), Err(LedgerError::InvalidKeyEncoding));
}

#[test]
fn polkadot_scenario_end_to_end() {
    let kp = generate().unwrap();
    let secret_file = secret_key_file(&kp, Network::Polkadot);
    let public_file = public_key_file(&kp.public, Network::Polkadot).unwrap();
    let alice = address([1u8; 32], Network::Polkadot);
    let bob = address([2u8; 32], Network::Polkadot);
    let text = format!("{}\n{}\n", alice, bob);
    let artifact = compile_allowlist(&text, &secret_file, Network::Polkadot, 1).unwrap();
    let lines = inspect_allowlist(&artifact, &public_file).unwrap();
    assert_eq!(lines, format!("{}\n{}\n", alice, bob));
    assert_eq!(
        inspect(&artifact, Network::Kusama, &kp.public),
        Err(LedgerError::NetworkMismatch { expected: 2, found: 0, line: None })
    );
}

#[test]
fn compiling_with_a_key_of_another_network() {
    let kp = keypair();
    let secret_file = secret_key_file(&kp, Network::Kusama);
    assert_eq!(
        compile_allowlist("", &secret_file, Network::Polkadot, 1),
        Err(LedgerError::NetworkMismatch { expected: 0, found: 2, line: None })
    );
}

#[test]
fn network_bytes() {
    assert_eq!(Network::Polkadot.to_byte(), 0);
    assert_eq!(Network::Kusama.to_byte(), 2);
    assert_eq!(Network::from_byte(2), Network::Kusama);
    assert_eq!(Network::from_byte(7), Network::Custom(7));
    assert_eq!(Network::Kusama.name(), Some("Kusama"));
    assert_eq!(Network::Custom(7).name(), None);
}

#[test]
fn well_known_polkadot_addresses() {
    let mut alice = [0u8; 32];
    let mut bob = [0u8; 32];
    hex_into("d43593c715fdd31c61141abd04a99fd6822c8558854ccde39a5684e7a56da27d", &mut alice);
    hex_into("8eaf04151687736326c9fea17e25fc5287613693c912909cb226aa4794f26a48", &mut bob);
    let text = "; comment\n  \n15oF4uVJwmo4TdGW7VfQxNLavjCXviqxT9S1MgbjMNHr6Sp5\n# another\n14E5nqKAp3oAJcmzgZhUD2RcptBeUBScxKHgJKU4HPNcKVf3\n";
    assert_eq!(canonicalize(text, Network::Polkadot), Ok(vec![alice, bob]));
}

#[test]
fn secret_key_file_with_undecodable_public_key() {
    let kp = keypair();
    let mut file = secret_key_file(&kp, Network::Polkadot);
    let mut bad = [0u8; 32];
    for i in 0..=255u8 {
        bad[0] = i;
        if ed25519_dalek::VerifyingKey::from_bytes(&bad).is_err() {
            break;
        }
    }
    assert!(ed25519_dalek::VerifyingKey::from_bytes(&bad).is_err());
    file[56..88].copy_from_slice(&bad);
    assert_eq!(read_secret(&file), Err(LedgerError::InvalidKeyEncoding));
}

#[test]
fn public_key_file_with_short_key() {
    let text = "Ledgeracio version 1 public key for network Kusama\nAAAA=\n";
    assert_eq!(read_public(text), Err(LedgerError::InvalidKeyEncoding));
}
