//! The cryptographic signer: loads the certificate and private key and
//! produces the detached CMS (PKCS#7) signature over the primary
//! CodeDirectory's digest, through the openssl crate.

use vstd::prelude::*;
use crate::blobs::{MAX_IDENT_LEN, cd_bytes};
use crate::bytes::copy_range;
use crate::codedir::cd_model;
use crate::digest::{HashKind, sha256_of};
use crate::errors::SignError;
use crate::macho::{MACH_HEADER_LEN, SIG_CMD_LEN, parse_macho, spec_parse_macho, spec_code_limit};
use crate::sign::{
    SignParams, ParamsModel, spec_sign, sign_slice_with, has_nul, ident_ok, pages_count,
    set_sig_cmd, append_sig_cmd, CMS_CAP, spec_edited, spec_sb_len, primary_kind,
};

verus! {

#[verifier::external_type_specification]
#[verifier::external_body]
pub struct ExX509(openssl::x509::X509);

#[verifier::external_type_specification]
#[verifier::external_body]
#[verifier::reject_recursive_types(T)]
pub struct ExPKey<T>(openssl::pkey::PKey<T>);

#[verifier::external_type_specification]
#[verifier::external_body]
pub struct ExPrivate(openssl::pkey::Private);

#[verifier::external_type_specification]
#[verifier::external_body]
pub struct ExErrorStack(openssl::error::ErrorStack);

/// Whether a byte string is a decodable DER certificate; a deterministic
/// function of the bytes, decided by the certificate decoder.
pub uninterp spec fn x509_parses(der: Seq<u8>) -> bool;

/// Whether a byte string is a decodable unencrypted DER private key.
pub uninterp spec fn key_der_parses(der: Seq<u8>) -> bool;

/// Whether a byte string is a PEM private key that the given passphrase
/// decrypts; false on a wrong passphrase.
pub uninterp spec fn key_pem_opens(pem: Seq<u8>, passphrase: Seq<u8>) -> bool;

/// Whether the identity bytes decode to a private key whose public
/// component equals the certificate's public key; a deterministic function
/// of the bytes.
pub uninterp spec fn identity_matches(
    cert_der: Seq<u8>,
    key_bytes: Seq<u8>,
    password: Option<Seq<u8>>,
) -> bool;

/// The bytes of an optional byte vector.
pub open spec fn opt_bytes(o: Option<Vec<u8>>) -> Option<Seq<u8>> {
    match o {
        Option::Some(v) => Some(v@),
        Option::None => None,
    }
}

/// Relies on openssl's `X509::from_der` (d2i_X509): decodes a DER
/// certificate, a deterministic function of the bytes; oversized input is
/// clamped, not asserted, so no input panics.
#[verifier::external_body]
fn x509_from_der(der: &Vec<u8>) -> (r: Result<openssl::x509::X509, openssl::error::ErrorStack>)
    ensures
        r is Ok <==> x509_parses(der@),
{
    openssl::x509::X509::from_der(der.as_slice())
}

/// Relies on openssl's `PKey::private_key_from_der` (d2i_AutoPrivateKey):
/// decodes an unencrypted DER private key, a deterministic function of the
/// bytes; oversized input is clamped, not asserted.
#[verifier::external_body]
fn pkey_from_der(der: &Vec<u8>) -> (r: Result<
    openssl::pkey::PKey<openssl::pkey::Private>,
    openssl::error::ErrorStack,
>)
    ensures
        r is Ok <==> key_der_parses(der@),
{
    openssl::pkey::PKey::private_key_from_der(der.as_slice())
}

/// Relies on openssl's `PKey::private_key_from_pem_passphrase`: decrypts
/// and decodes a passphrase-protected PEM private key, failing (not
/// panicking) on a wrong passphrase. The passphrase must be NUL-free (the
/// binding builds a C string from it) and the PEM buffer must fit a C int
/// (the binding asserts that bound).
#[verifier::external_body]
fn pkey_from_pem_passphrase(pem: &Vec<u8>, passphrase: &Vec<u8>) -> (r: Result<
    openssl::pkey::PKey<openssl::pkey::Private>,
    openssl::error::ErrorStack,
>)
    requires
        pem@.len() <= 0x7fffffff,
        ident_ok(passphrase@),
    ensures
        r is Ok <==> key_pem_opens(pem@, passphrase@),
{
    openssl::pkey::PKey::private_key_from_pem_passphrase(pem.as_slice(), passphrase.as_slice())
}

/// Relies on openssl's `X509::from_der`, `PKey::private_key_from_der` /
/// `private_key_from_pem_passphrase`, `X509Ref::public_key` and
/// `PKeyRef::public_eq`: whether the identity bytes carry a private key
/// matching the certificate's public key, a deterministic function of the
/// bytes alone.
#[verifier::external_body]
fn identity_matches_call(cert_der: &Vec<u8>, key_bytes: &Vec<u8>, password: &Option<Vec<u8>>) -> (r:
    Result<bool, openssl::error::ErrorStack>)
    requires
        key_bytes@.len() <= 0x7fffffff,
        password matches Some(p) ==> ident_ok(p@),
    ensures
        r matches Ok(b) ==> b == identity_matches(cert_der@, key_bytes@, opt_bytes(*password)),
{
    let cert = openssl::x509::X509::from_der(cert_der.as_slice())?;
    let key = match password {
        Some(pw) => openssl::pkey::PKey::private_key_from_pem_passphrase(
            key_bytes.as_slice(),
            pw.as_slice(),
        )?,
        None => openssl::pkey::PKey::private_key_from_der(key_bytes.as_slice())?,
    };
    Ok(key.public_eq(cert.public_key()?.as_ref()))
}

/// Relies on openssl's `Pkcs7::sign` (PKCS7_sign, with the detached, binary
/// and no-attributes flags) and `Pkcs7Ref::to_der`: a detached CMS signature
/// over `data`, signed with `key` and embedding `cert`. The data must fit a
/// C int (the binding asserts that bound).
#[verifier::external_body]
fn pkcs7_sign_detached(
    cert: &openssl::x509::X509,
    key: &openssl::pkey::PKey<openssl::pkey::Private>,
    data: &Vec<u8>,
) -> (r: Result<Vec<u8>, openssl::error::ErrorStack>)
    requires
        data@.len() <= 0x7fffffff,
{
    let certs = openssl::stack::Stack::new()?;
    let flags = openssl::pkcs7::Pkcs7Flags::DETACHED | openssl::pkcs7::Pkcs7Flags::BINARY
        | openssl::pkcs7::Pkcs7Flags::NOATTR;
    openssl::pkcs7::Pkcs7::sign(cert.as_ref(), key.as_ref(), &certs, data.as_slice(), flags)?
        .to_der()
}

/// The certificate identity of a run: decoded key material handed in by the
/// caller-side loader.
pub struct CertIdentity {
    /// DER-encoded signing certificate.
    pub cert_der: Vec<u8>,
    /// Private key: DER when unencrypted, PEM when a passphrase is given.
    pub key_bytes: Vec<u8>,
    /// Passphrase of a protected key.
    pub password: Option<Vec<u8>>,
}

/// The caller-configuration fault of an identity, if any: a NUL or
/// oversized passphrase or key buffer, an undecodable certificate, or a
/// key that does not decode (a wrong passphrase included) are all
/// `InvalidInput`, in that order.
pub open spec fn spec_identity_fault(
    cert_der: Seq<u8>,
    key_bytes: Seq<u8>,
    password: Option<Seq<u8>>,
) -> Option<SignError> {
    if (password matches Some(p) && !ident_ok(p)) || key_bytes.len() > 0x7fffffff {
        Some(SignError::InvalidInput)
    } else if !x509_parses(cert_der) {
        Some(SignError::InvalidInput)
    } else if (match password {
        Option::Some(p) => !key_pem_opens(key_bytes, p),
        Option::None => !key_der_parses(key_bytes),
    }) {
        Some(SignError::InvalidInput)
    } else {
        None
    }
}

/// The digest the CMS signature of a certificate run covers: the SHA-256
/// digest of the primary CodeDirectory that the run embeds, computed over
/// the edited signable content.
pub open spec fn spec_primary_cd_digest(input: Seq<u8>, p: ParamsModel) -> Seq<u8> {
    let info = spec_parse_macho(input)->Some_0;
    let c = input.take(spec_code_limit(input, info));
    let ce = spec_edited(c, info, spec_sb_len(p, c.len() as int, CMS_CAP as nat) as u32);
    sha256_of(cd_bytes(cd_model(primary_kind(p), p.ident, 0, ce, p.info_plist, p.entitlements)))
}

/// Signs one slice with a certificate identity: the caller-configuration
/// faults and the engine's own pre-call errors come exactly as stated; a
/// non-matching key is `SigningFailed`; a backend refusal (or a CMS larger
/// than its reserved slot) is also `SigningFailed`; on success the output
/// is exactly the engine's signed layout for the CMS bytes the backend
/// produced over the primary CodeDirectory's digest.
pub fn sign_slice_cert(input: &Vec<u8>, params: &SignParams, identity: &CertIdentity) -> (r:
    Result<Vec<u8>, SignError>)
    ensures
        spec_identity_fault(identity.cert_der@, identity.key_bytes@, opt_bytes(identity.password))
            matches Some(e) ==> r == Err::<Vec<u8>, SignError>(e),
        (spec_identity_fault(
            identity.cert_der@,
            identity.key_bytes@,
            opt_bytes(identity.password),
        ) is None && !identity_matches(
            identity.cert_der@,
            identity.key_bytes@,
            opt_bytes(identity.password),
        )) ==> r == Err::<Vec<u8>, SignError>(SignError::SigningFailed),
        spec_identity_fault(
            identity.cert_der@,
            identity.key_bytes@,
            opt_bytes(identity.password),
        ) is None ==> (spec_sign(input@, params@, Seq::<u8>::empty(), false) matches Err(e) ==> (r
            == Err::<Vec<u8>, SignError>(e) || r == Err::<Vec<u8>, SignError>(
            SignError::SigningFailed,
        ))),
        r matches Ok(o) ==> {
            &&& spec_identity_fault(
                identity.cert_der@,
                identity.key_bytes@,
                opt_bytes(identity.password),
            ) is None
            &&& identity_matches(
                identity.cert_der@,
                identity.key_bytes@,
                opt_bytes(identity.password),
            )
            &&& spec_sign(input@, params@, Seq::<u8>::empty(), false) is Ok
            &&& exists|cms: Seq<u8>|
                spec_sign(input@, params@, cms, false) == Ok::<Seq<u8>, SignError>(o@)
        },
{
    match &identity.password {
        Option::Some(pw) => {
            if has_nul(pw) {
                return Err(SignError::InvalidInput);
            }
        },
        Option::None => {},
    }
    if identity.key_bytes.len() as u64 > 0x7fffffff {
        return Err(SignError::InvalidInput);
    }
    let cert = match x509_from_der(&identity.cert_der) {
        Ok(c) => c,
        Err(_) => {
            return Err(SignError::InvalidInput);
        },
    };
    let key = match &identity.password {
        Option::Some(pw) => match pkey_from_pem_passphrase(&identity.key_bytes, pw) {
            Ok(k) => k,
            Err(_) => {
                return Err(SignError::InvalidInput);
            },
        },
        Option::None => match pkey_from_der(&identity.key_bytes) {
            Ok(k) => k,
            Err(_) => {
                return Err(SignError::InvalidInput);
            },
        },
    };
    match identity_matches_call(&identity.cert_der, &identity.key_bytes, &identity.password) {
        Ok(true) => {},
        Ok(false) => {
            return Err(SignError::SigningFailed);
        },
        Err(_) => {
            return Err(SignError::SigningFailed);
        },
    }
    let cdhash = match primary_cd_digest(input, params) {
        Ok(d) => d,
        Err(e) => {
            return Err(e);
        },
    };
    let cms = match pkcs7_sign_detached(&cert, &key, &cdhash) {
        Ok(c) => c,
        Err(_) => {
            return Err(SignError::SigningFailed);
        },
    };
    let r = sign_slice_with(input, params, &cms, false);
    match r {
        Ok(o) => {
            proof {
                assert(spec_sign(input@, params@, cms@, false) == Ok::<Seq<u8>, SignError>(o@));
            }
            Ok(o)
        },
        Err(e) => Err(e),
    }
}

/// Digest of the primary CodeDirectory that a certificate run would embed:
/// the CMS signature covers these bytes. Fails exactly where signing the
/// slice would fail before the cryptographic step.
#[verifier::rlimit(100)]
pub fn primary_cd_digest(input: &Vec<u8>, params: &SignParams) -> (r: Result<Vec<u8>, SignError>)
    ensures
        match r {
            Ok(d) => spec_sign(input@, params@, Seq::<u8>::empty(), false) is Ok && d@
                == spec_primary_cd_digest(input@, params@) && d@.len() == 32,
            Err(e) => spec_sign(input@, params@, Seq::<u8>::empty(), false) == Err::<
                Seq<u8>,
                SignError,
            >(e),
        },
{
    let info = match parse_macho(input) {
        Ok(i) => i,
        Err(e) => {
            return Err(e);
        },
    };
    if info.sig.is_some() && !params.force {
        return Err(SignError::AlreadySigned);
    }
    if params.ident.len() > MAX_IDENT_LEN {
        return Err(SignError::IdentifierTooLong);
    }
    if has_nul(&params.ident) {
        return Err(SignError::InvalidInput);
    }
    match &params.entitlements {
        Option::Some(e) => {
            if e.len() > 0x1000000 {
                return Err(SignError::InvalidInput);
            }
        },
        Option::None => {},
    }
    let code_limit: usize = match &info.sig {
        Option::Some(sc) => sc.dataoff as usize,
        Option::None => input.len(),
    };
    let mut content = copy_range(input, 0, code_limit);
    proof {
        assert(content@ =~= input@.take(spec_code_limit(input@, info)));
    }
    let clen: usize = content.len();
    if info.sig.is_none() {
        let fits = (MACH_HEADER_LEN as u64) + (info.sizeofcmds as u64) + (SIG_CMD_LEN as u64)
            <= clen as u64 && (MACH_HEADER_LEN as u64) + (info.sizeofcmds as u64) + (SIG_CMD_LEN
            as u64) <= info.min_seg_off && info.ncmds < 0x1fffffff;
        if !fits {
            return Err(SignError::LayoutOverflow);
        }
    }
    let np = pages_count(clen);
    let ns: usize = match &params.entitlements {
        Option::Some(_) => 5,
        Option::None => 2,
    };
    let ent_len: usize = match &params.entitlements {
        Option::Some(e) => 8 + e.len() + 8,
        Option::None => 0,
    };
    let cd1_len: usize = 45 + params.ident.len() + (ns + np) * 20;
    let cd256_len: usize = 45 + params.ident.len() + (ns + np) * 32;
    let n_cd: usize = if params.sha256_only {
        1
    } else {
        2
    };
    let cds_len: usize = if params.sha256_only {
        cd256_len
    } else {
        cd1_len + cd256_len
    };
    let n_ent: usize = match &params.entitlements {
        Option::Some(_) => 1,
        Option::None => 0,
    };
    proof {
        assert((ns + np) * 20 <= 0x2000000 && (ns + np) * 32 <= 0x4000000) by (nonlinear_arith)
            requires
                ns <= 5,
                np <= 0x100000,
        ;
    }
    let sb_len: usize = 12 + 8 * (n_cd + 1 + n_ent + 1) + cds_len + 12 + ent_len - 8 * n_ent + (8
        + CMS_CAP);
    proof {
        assert(sb_len == spec_sb_len(params@, clen as int, CMS_CAP as nat));
    }
    match &info.sig {
        Option::Some(sc) => {
            proof {
                crate::macho::lemma_scan_sig_bounds(
                    input@,
                    MACH_HEADER_LEN as int,
                    MACH_HEADER_LEN + info.sizeofcmds,
                    info.ncmds as nat,
                );
            }
            set_sig_cmd(&mut content, sc.lc_off as usize, clen as u32, sb_len as u32);
        },
        Option::None => {
            append_sig_cmd(&mut content, info.ncmds, info.sizeofcmds, clen as u32, sb_len as u32);
        },
    }
    proof {
        assert(content@ == spec_edited(
            input@.take(spec_code_limit(input@, info)),
            info,
            spec_sb_len(params@, clen as int, CMS_CAP as nat) as u32,
        ));
    }
    let kind = if params.sha256_only {
        HashKind::Sha256
    } else {
        HashKind::Sha1
    };
    let cd = crate::codedir::build_cd_struct(
        &kind,
        &params.ident,
        0,
        &content,
        &params.info_plist,
        &params.entitlements,
    );
    let cd_data = crate::blobs::build_code_directory(&cd);
    let d = crate::digest::sha256_digest(&cd_data);
    proof {
        assert(kind == primary_kind(params@));
        assert(d@ == spec_primary_cd_digest(input@, params@));
    }
    Ok(d)
}

} // verus!
