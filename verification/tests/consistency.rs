use zsign::bundle::plan_order;
use zsign::plist::set_plist_value;
use zsign::cms::{sign_slice_cert, CertIdentity};
use zsign::errors::SignError;
use zsign::sign::SignParams;
use zsign::sign_binary_adhoc;
use zsign::verify::verify_signature;
use openssl::hash::MessageDigest;
use openssl::pkey::PKey;
use openssl::rsa::Rsa;
use openssl::x509::{X509NameBuilder, X509};

fn le32(v: &mut Vec<u8>, off: usize, n: u32) {
    v[off..off + 4].copy_from_slice(&n.to_le_bytes());
}

fn make_thin(len: usize) -> Vec<u8> {
    let mut b = vec![0u8; len];
    le32(&mut b, 0, 0xfeedfacf);
    le32(&mut b, 16, 1); // ncmds
    le32(&mut b, 20, 72); // sizeofcmds
    le32(&mut b, 32, 0x19); // LC_SEGMENT_64
    le32(&mut b, 36, 72);
    le32(&mut b, 72, 4096); // fileoff
    for i in 4096..len {
        b[i] = (i % 251) as u8;
    }
    b
}

fn params(ident: &str) -> SignParams {
    SignParams {
        ident: ident.as_bytes().to_vec(),
        info_plist: None,
        entitlements: None,
        sha256_only: false,
        force: false,
    }
}

fn make_cert() -> (X509, PKey<openssl::pkey::Private>) {
    let rsa = Rsa::generate(2048).unwrap();
    let key = PKey::from_rsa(rsa).unwrap();
    let mut name = X509NameBuilder::new().unwrap();
    name.append_entry_by_text("CN", "signer").unwrap();
    let name = name.build();
    let mut b = X509::builder().unwrap();
    b.set_version(2).unwrap();
    b.set_subject_name(&name).unwrap();
    b.set_issuer_name(&name).unwrap();
    b.set_pubkey(&key).unwrap();
    let nb = openssl::asn1::Asn1Time::days_from_now(0).unwrap();
    let na = openssl::asn1::Asn1Time::days_from_now(365).unwrap();
    b.set_not_before(&nb).unwrap();
    b.set_not_after(&na).unwrap();
    b.sign(&key, MessageDigest::sha256()).unwrap();
    (b.build(), key)
}

#[test]
fn verify_accepts_signed_output() {
    let input = make_thin(8200);
    let signed = sign_binary_adhoc(&input, &params("a.b")).unwrap();
    assert_eq!(verify_signature(&signed), Ok(()));
}

#[test]
fn verify_unsigned_is_not_signed() {
    let input = make_thin(8200);
    assert_eq!(verify_signature(&input), Err(SignError::NotSigned));
}

#[test]
fn verify_rejects_tampered_content() {
    let input = make_thin(8200);
    let mut signed = sign_binary_adhoc(&input, &params("a.b")).unwrap();
    signed[5000] ^= 1; // flip one signable byte: a page digest must mismatch
    assert_eq!(verify_signature(&signed), Err(SignError::SigningFailed));
}

#[test]
fn plan_order_children_before_parents() {
    // 0 is the outer app; 1 and 2 are embedded in 0; 3 is embedded in 1
    let parents: Vec<Option<usize>> = vec![None, Some(0), Some(0), Some(1)];
    let ord = plan_order(&parents).unwrap();
    assert_eq!(ord.len(), 4);
    let pos = |k: usize| ord.iter().position(|&x| x == k).unwrap();
    assert!(pos(3) < pos(1));
    assert!(pos(1) < pos(0));
    assert!(pos(2) < pos(0));
}

#[test]
fn plan_order_rejects_cycles() {
    let cyc: Vec<Option<usize>> = vec![Some(1), Some(0)];
    assert_eq!(plan_order(&cyc), Err(SignError::InvalidInput));
    let self_parent: Vec<Option<usize>> = vec![Some(0)];
    assert_eq!(plan_order(&self_parent), Err(SignError::InvalidInput));
}

#[test]
fn nul_passphrase_is_invalid_input_not_panic() {
    let (cert, key) = make_cert();
    let pem = key
        .private_key_to_pem_pkcs8_passphrase(openssl::symm::Cipher::aes_256_cbc(), b"ok")
        .unwrap();
    let identity = CertIdentity {
        cert_der: cert.to_der().unwrap(),
        key_bytes: pem,
        password: Some(vec![b'a', 0, b'b']),
    };
    let input = make_thin(8200);
    let r = sign_slice_cert(&input, &params("a.b"), &identity);
    assert_eq!(r, Err(SignError::InvalidInput));
}

#[test]
fn mismatched_key_is_signing_failed() {
    let (cert, _key) = make_cert();
    let (_other_cert, other_key) = make_cert();
    let identity = CertIdentity {
        cert_der: cert.to_der().unwrap(),
        key_bytes: other_key.private_key_to_der().unwrap(),
        password: None,
    };
    let input = make_thin(8200);
    let r = sign_slice_cert(&input, &params("a.b"), &identity);
    assert_eq!(r, Err(SignError::SigningFailed));
}

#[test]
fn undecodable_certificate_is_invalid_input() {
    let (_cert, key) = make_cert();
    let identity = CertIdentity {
        cert_der: vec![1, 2, 3],
        key_bytes: key.private_key_to_der().unwrap(),
        password: None,
    };
    let input = make_thin(8200);
    let r = sign_slice_cert(&input, &params("a.b"), &identity);
    assert_eq!(r, Err(SignError::InvalidInput));
}

#[test]
fn plist_value_rewritten_in_place() {
    let plist =
        b"<dict><key>CFBundleIdentifier</key><string>old.id</string><key>N</key><string>y</string></dict>"
            .to_vec();
    let out = set_plist_value(&plist, &b"CFBundleIdentifier".to_vec(), &b"new.bundle.id".to_vec());
    let expect =
        b"<dict><key>CFBundleIdentifier</key><string>new.bundle.id</string><key>N</key><string>y</string></dict>"
            .to_vec();
    assert_eq!(out, expect);
    let same = set_plist_value(&plist, &b"Missing".to_vec(), &b"v".to_vec());
    assert_eq!(same, plist);
}
