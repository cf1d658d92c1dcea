use zsign::blobs::{CSMAGIC_BLOBWRAPPER, CSMAGIC_CODEDIRECTORY, CSMAGIC_EMBEDDED_SIGNATURE};
use zsign::errors::SignError;
use zsign::inject::inject_dylib;
use zsign::sign::SignParams;
use zsign::sign_binary_adhoc;
use sha1::Digest;
use openssl::hash::MessageDigest;
use openssl::pkcs7::{Pkcs7, Pkcs7Flags};
use openssl::pkey::PKey;
use openssl::rsa::Rsa;
use openssl::stack::Stack;
use openssl::x509::store::X509StoreBuilder;
use openssl::x509::{X509NameBuilder, X509};
use zsign::cms::{sign_slice_cert, primary_cd_digest, CertIdentity};

fn le32(v: &mut Vec<u8>, off: usize, n: u32) {
    v[off..off + 4].copy_from_slice(&n.to_le_bytes());
}

fn be32_at(v: &[u8], off: usize) -> u32 {
    u32::from_be_bytes([v[off], v[off + 1], v[off + 2], v[off + 3]])
}

/// A minimal unsigned thin 64-bit Mach-O of `len` bytes: one segment whose
/// file data starts at 4096.
fn make_thin(len: usize) -> Vec<u8> {
    let mut b = vec![0u8; len];
    le32(&mut b, 0, 0xfeedfacf); // magic
    le32(&mut b, 4, 0x0100000c); // cputype
    le32(&mut b, 8, 0); // cpusubtype
    le32(&mut b, 12, 2); // filetype MH_EXECUTE
    le32(&mut b, 16, 1); // ncmds
    le32(&mut b, 20, 72); // sizeofcmds
    // one LC_SEGMENT_64 with fileoff 4096
    le32(&mut b, 32, 0x19);
    le32(&mut b, 36, 72);
    // segname 16 bytes left zero; vmaddr/vmsize zero
    le32(&mut b, 72, 4096); // fileoff lo
    le32(&mut b, 76, 0); // fileoff hi
    for i in 4096..len {
        b[i] = (i % 251) as u8;
    }
    b
}

fn params(ident: &str) -> SignParams {
    SignParams {
        ident: ident.as_bytes().to_vec(),
        info_plist: None,
        entitlements: None,
        sha256_only: false,
        force: false,
    }
}

struct ParsedSb {
    entries: Vec<(u32, usize)>,
    sb_off: usize,
}

/// Reads the SuperBlob index of a signed thin output whose content length
/// was `content_len`.
fn parse_sb(out: &[u8], content_len: usize) -> ParsedSb {
    assert_eq!(be32_at(out, content_len), CSMAGIC_EMBEDDED_SIGNATURE);
    let total = be32_at(out, content_len + 4) as usize;
    assert_eq!(content_len + total, out.len(), "declared length matches");
    let count = be32_at(out, content_len + 8) as usize;
    let mut entries = Vec::new();
    for k in 0..count {
        let slot = be32_at(out, content_len + 12 + 8 * k);
        let off = be32_at(out, content_len + 12 + 8 * k + 4) as usize;
        entries.push((slot, off));
    }
    ParsedSb { entries, sb_off: content_len }
}

#[test]
fn adhoc_scenario_three_pages() {
    // An unsigned thin Mach-O of 8200 bytes at page size 4096 gives a
    // CodeDirectory of 3 digests (4096, 4096, 8 bytes) and a zero-length
    // CMS marker.
    let input = make_thin(8200);
    let out = sign_binary_adhoc(&input, &params("com.example.app")).unwrap();
    let sb = parse_sb(&out, 8200);
    // primary CodeDirectory at slot 0
    let (slot0, cd_off) = sb.entries[0];
    assert_eq!(slot0, 0);
    let cd = &out[sb.sb_off + cd_off..];
    assert_eq!(be32_at(cd, 0), CSMAGIC_CODEDIRECTORY);
    let n_special = be32_at(cd, 24) as usize;
    let n_code = be32_at(cd, 28) as usize;
    assert_eq!(n_code, 3);
    assert_eq!(n_special, 2);
    assert_eq!(be32_at(cd, 32), 8200); // codeLimit
    // the digests cover the final content: recompute them (round trip)
    let hash_off = be32_at(cd, 16) as usize;
    let content = &out[..8200];
    for (i, range) in [(0usize, 0..4096usize), (1, 4096..8192), (2, 8192..8200)] {
        let expect: Vec<u8> = sha1::Sha1::digest(&content[range]).to_vec();
        let got = &cd[hash_off + 20 * i..hash_off + 20 * (i + 1)];
        assert_eq!(got, expect.as_slice(), "page digest {i}");
    }
    // zero-length CMS wrapper present as an explicit marker
    let (sig_slot, sig_off) = *sb.entries.last().unwrap();
    assert_eq!(sig_slot, 0x10000);
    let wrapper = &out[sb.sb_off + sig_off..];
    assert_eq!(be32_at(wrapper, 0), CSMAGIC_BLOBWRAPPER);
    assert_eq!(be32_at(wrapper, 4), 8, "zero-length CMS content");
}

#[test]
fn already_signed_without_force() {
    let input = make_thin(8200);
    let signed = sign_binary_adhoc(&input, &params("a.b")).unwrap();
    let before = signed.clone();
    let r = sign_binary_adhoc(&signed, &params("a.b"));
    assert_eq!(r, Err(SignError::AlreadySigned));
    assert_eq!(signed, before, "input bytes untouched");
}

#[test]
fn adhoc_determinism() {
    let input = make_thin(10000);
    let a = sign_binary_adhoc(&input, &params("x.y")).unwrap();
    let b = sign_binary_adhoc(&input, &params("x.y")).unwrap();
    assert_eq!(a, b);
}

#[test]
fn force_resign_idempotent() {
    let input = make_thin(8200);
    let mut p = params("a.b");
    p.force = true;
    let once = sign_binary_adhoc(&input, &p).unwrap();
    let twice = sign_binary_adhoc(&once, &p).unwrap();
    let thrice = sign_binary_adhoc(&twice, &p).unwrap();
    assert_eq!(once, twice);
    assert_eq!(twice, thrice);
}

#[test]
fn fat_two_slices() {
    let s1 = make_thin(5000);
    let s2 = make_thin(9000);
    let mut fat = vec![0u8; 64];
    fat[0..4].copy_from_slice(&0xcafebabeu32.to_be_bytes());
    fat[4..8].copy_from_slice(&2u32.to_be_bytes());
    let off1 = 64u32;
    let off2 = off1 + 5000;
    for (k, (cpu, off, size)) in [(0usize, (7u32, off1, 5000u32)), (1, (0x0100000c, off2, 9000))] {
        let base = 8 + 20 * k;
        fat[base..base + 4].copy_from_slice(&cpu.to_be_bytes());
        fat[base + 8..base + 12].copy_from_slice(&off.to_be_bytes());
        fat[base + 12..base + 16].copy_from_slice(&size.to_be_bytes());
        fat[base + 16..base + 20].copy_from_slice(&4u32.to_be_bytes()); // align 2^4
    }
    fat.extend_from_slice(&s1);
    fat.extend_from_slice(&s2);
    let out = sign_binary_adhoc(&fat, &params("fat.app")).unwrap();
    assert_eq!(be32_at(&out, 0), 0xcafebabe);
    assert_eq!(be32_at(&out, 4), 2);
    // both slices carry an independent, internally consistent signature
    let mut sizes = Vec::new();
    for k in 0..2usize {
        let base = 8 + 20 * k;
        let off = be32_at(&out, base + 8) as usize;
        let size = be32_at(&out, base + 12) as usize;
        assert_eq!(off % 16, 0, "slice {k} keeps its alignment");
        let slice = &out[off..off + size];
        assert_eq!(be32_at(slice, 0).swap_bytes(), 0xfeedfacf_u32);
        // signature load command exists and points at a SuperBlob
        let clen = [5000usize, 9000][k];
        let sb = parse_sb(slice, clen);
        let (slot0, cd_off) = sb.entries[0];
        assert_eq!(slot0, 0);
        let cd = &slice[clen + cd_off..];
        assert_eq!(be32_at(cd, 0), CSMAGIC_CODEDIRECTORY);
        assert_eq!(be32_at(cd, 32) as usize, clen);
        // first page digest matches this slice's own content
        let hash_off = be32_at(cd, 16) as usize;
        let expect: Vec<u8> = sha1::Sha1::digest(&slice[..4096]).to_vec();
        assert_eq!(&cd[hash_off..hash_off + 20], expect.as_slice(), "slice {k}");
        sizes.push(size);
    }
}

#[test]
fn inject_then_sign_hashes_cover_command() {
    let input = make_thin(8200);
    let path = b"@rpath/libhook.dylib".to_vec();
    let injected = inject_dylib(&input, &path, true).unwrap();
    assert_eq!(injected.len(), input.len());
    // the command table grew by the injected command
    let cmdsize = 24 + (path.len() + 1 + 7) / 8 * 8;
    assert_eq!(
        u32::from_le_bytes(injected[20..24].try_into().unwrap()) as usize,
        72 + cmdsize
    );
    let out = sign_binary_adhoc(&injected, &params("a.b")).unwrap();
    // page 0 digest covers the injected command bytes
    let sb = parse_sb(&out, 8200);
    let cd = &out[sb.sb_off + sb.entries[0].1..];
    let hash_off = be32_at(cd, 16) as usize;
    let expect: Vec<u8> = sha1::Sha1::digest(&out[..4096]).to_vec();
    assert_eq!(&cd[hash_off..hash_off + 20], expect.as_slice());
    // and that page contains the injected path
    let page0 = &out[..4096];
    assert!(page0
        .windows(path.len())
        .any(|w| w == path.as_slice()));
}

#[test]
fn malformed_binary_rejected() {
    let garbage = vec![1u8, 2, 3, 4, 5, 6, 7, 8, 9];
    let r = sign_binary_adhoc(&garbage, &params("a.b"));
    assert_eq!(r, Err(SignError::MalformedBinary));
}

#[test]
fn truncated_commands_rejected() {
    let mut b = make_thin(8200);
    le32(&mut b, 20, 0xffff); // sizeofcmds inconsistent with the one command
    let r = sign_binary_adhoc(&b, &params("a.b"));
    assert_eq!(r, Err(SignError::MalformedBinary));
}

#[test]
fn identifier_too_long_rejected() {
    let input = make_thin(8200);
    let long = "x".repeat(256);
    let r = sign_binary_adhoc(&input, &params(&long));
    assert_eq!(r, Err(SignError::IdentifierTooLong));
}

#[test]
fn nul_identifier_rejected() {
    let input = make_thin(8200);
    let mut p = params("a.b");
    p.ident = vec![97, 0, 98];
    let r = sign_binary_adhoc(&input, &p);
    assert_eq!(r, Err(SignError::InvalidInput));
}

#[test]
fn entitlements_fill_five_special_slots() {
    let input = make_thin(8200);
    let mut p = params("a.b");
    let ent = b"<plist><dict/></plist>".to_vec();
    p.entitlements = Some(ent.clone());
    let out = sign_binary_adhoc(&input, &p).unwrap();
    let sb = parse_sb(&out, 8200);
    let cd = &out[sb.sb_off + sb.entries[0].1..];
    assert_eq!(be32_at(cd, 24), 5, "five special slots");
    // entitlements blob embedded verbatim at slot 5
    let ent_entry = sb.entries.iter().find(|(s, _)| *s == 5).unwrap();
    let blob = &out[sb.sb_off + ent_entry.1..];
    assert_eq!(be32_at(blob, 0), 0xfade7171);
    assert_eq!(be32_at(blob, 4) as usize, 8 + ent.len());
    assert_eq!(&blob[8..8 + ent.len()], ent.as_slice());
    // the entitlements special slot digest covers the serialized blob
    let hash_off = be32_at(cd, 16) as usize;
    let slot5 = &cd[hash_off - 5 * 20..hash_off - 4 * 20];
    let expect: Vec<u8> = sha1::Sha1::digest(&blob[..8 + ent.len()]).to_vec();
    assert_eq!(slot5, expect.as_slice());
}

#[test]
fn sha256_only_single_directory() {
    let input = make_thin(8200);
    let mut p = params("a.b");
    p.sha256_only = true;
    let out = sign_binary_adhoc(&input, &p).unwrap();
    let sb = parse_sb(&out, 8200);
    assert!(sb.entries.iter().all(|(s, _)| *s != 0x1000), "no alternate directory");
    let cd = &out[sb.sb_off + sb.entries[0].1..];
    assert_eq!(cd[37], 2, "hashType sha256");
    let hash_off = be32_at(cd, 16) as usize;
    let expect: Vec<u8> = sha2::Sha256::digest(&out[..4096]).to_vec();
    assert_eq!(&cd[hash_off..hash_off + 32], expect.as_slice());
}

#[test]
fn cert_signature_verifies_against_embedded_key() {
    let rsa = Rsa::generate(2048).unwrap();
    let key = PKey::from_rsa(rsa).unwrap();
    let mut name = X509NameBuilder::new().unwrap();
    name.append_entry_by_text("CN", "test signer").unwrap();
    let name = name.build();
    let mut builder = X509::builder().unwrap();
    builder.set_version(2).unwrap();
    builder.set_subject_name(&name).unwrap();
    builder.set_issuer_name(&name).unwrap();
    builder.set_pubkey(&key).unwrap();
    let not_before = openssl::asn1::Asn1Time::days_from_now(0).unwrap();
    let not_after = openssl::asn1::Asn1Time::days_from_now(365).unwrap();
    builder.set_not_before(&not_before).unwrap();
    builder.set_not_after(&not_after).unwrap();
    builder.sign(&key, MessageDigest::sha256()).unwrap();
    let cert = builder.build();

    let identity = CertIdentity {
        cert_der: cert.to_der().unwrap(),
        key_bytes: key.private_key_to_der().unwrap(),
        password: None,
    };
    let input = make_thin(8200);
    let mut p = params("a.b");
    let cdhash = primary_cd_digest(&input, &p).unwrap();
    let out = sign_slice_cert(&input, &p, &identity).unwrap();
    // extract the CMS from the blob wrapper
    let sb = parse_sb(&out, 8200);
    let (slot, off) = *sb.entries.last().unwrap();
    assert_eq!(slot, 0x10000);
    let wrapper = &out[sb.sb_off + off..];
    assert_eq!(be32_at(wrapper, 0), CSMAGIC_BLOBWRAPPER);
    let wlen = be32_at(wrapper, 4) as usize;
    assert!(wlen > 8, "a certificate run carries a real CMS");
    let cms_der = &wrapper[8..wlen];
    let pkcs7 = Pkcs7::from_der(cms_der).unwrap();
    let certs = Stack::new().unwrap();
    let store = X509StoreBuilder::new().unwrap().build();
    pkcs7
        .verify(
            &certs,
            &store,
            Some(&cdhash),
            None,
            Pkcs7Flags::NOVERIFY,
        )
        .unwrap();
    // wrong passphrase on a protected key is a caller-configuration error
    let pem = key
        .private_key_to_pem_pkcs8_passphrase(openssl::symm::Cipher::aes_256_cbc(), b"right")
        .unwrap();
    let bad = CertIdentity {
        cert_der: cert.to_der().unwrap(),
        key_bytes: pem,
        password: Some(b"wrong".to_vec()),
    };
    p.force = false;
    let r = sign_slice_cert(&input, &p, &bad);
    assert_eq!(r, Err(SignError::InvalidInput));
}

#[test]
fn digest_wrappers_match_reference() {
    // the engine's page digests must come from the real hash functions:
    // compare one against a direct computation over different bytes
    let input = make_thin(4097);
    let out = sign_binary_adhoc(&input, &params("d.e")).unwrap();
    let sb = parse_sb(&out, 4097);
    let cd = &out[sb.sb_off + sb.entries[0].1..];
    let hash_off = be32_at(cd, 16) as usize;
    let not_expected: Vec<u8> = sha1::Sha1::digest(&out[..1]).to_vec();
    assert_ne!(&cd[hash_off + 20..hash_off + 40], not_expected.as_slice());
    let expect: Vec<u8> = sha1::Sha1::digest(&out[4096..4097]).to_vec();
    assert_eq!(&cd[hash_off + 20..hash_off + 40], expect.as_slice());
}
