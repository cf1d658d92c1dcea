//! Mach-O code-signing engine: parses thin and fat Mach-O images, builds
//! CodeDirectory and SuperBlob signature structures, and re-lays-out the
//! binary so the new signature fits. Signing is either ad-hoc or backed by
//! a certificate and private key (detached CMS over the CodeDirectory digest).

pub mod blobs;
pub mod bundle;
pub mod cms;
pub mod codedir;
pub mod inject;
pub mod macho;
pub mod options;
pub mod plist;
pub mod sign;
pub mod verify;
pub mod bytes;
pub mod digest;
pub mod errors;
pub mod fat;

use vstd::prelude::*;
use crate::bytes::read_be32;
use crate::errors::SignError;
use crate::fat::{FAT_MAGIC, be32_at, spec_sign_fat, sign_fat};
use crate::sign::{ParamsModel, SignParams, spec_sign, sign_slice_with, res_view};

verus! {

/// Whether a buffer is a fat container rather than a thin slice.
pub open spec fn spec_is_fat(b: Seq<u8>) -> bool {
    b.len() >= 8 && be32_at(b, 0) == FAT_MAGIC
}

/// What signing a binary returns: a fat container has every slice signed
/// and re-laid out; anything else is signed as one thin slice.
pub open spec fn spec_sign_binary(
    input: Seq<u8>,
    p: ParamsModel,
    cms: Seq<u8>,
    adhoc: bool,
) -> Result<Seq<u8>, SignError> {
    if spec_is_fat(input) {
        spec_sign_fat(input, p, cms, adhoc)
    } else {
        spec_sign(input, p, cms, adhoc)
    }
}

/// Signs a binary (thin or fat) with the given CMS bytes, returning exactly
/// what `spec_sign_binary` owes the input.
pub fn sign_binary(input: &Vec<u8>, params: &SignParams, cms: &Vec<u8>, adhoc: bool) -> (r: Result<
    Vec<u8>,
    SignError,
>)
    requires
        adhoc ==> cms@.len() == 0,
    ensures
        res_view(r) == spec_sign_binary(input@, params@, cms@, adhoc),
{
    if input.len() >= 8 && read_be32(input, 0) == FAT_MAGIC {
        sign_fat(input, params, cms, adhoc)
    } else {
        sign_slice_with(input, params, cms, adhoc)
    }
}

/// Signs a binary with the ad-hoc identity: no key material, a zero-length
/// CMS marker, and the ad-hoc CodeDirectory flag.
pub fn sign_binary_adhoc(input: &Vec<u8>, params: &SignParams) -> (r: Result<Vec<u8>, SignError>)
    ensures
        res_view(r) == spec_sign_binary(input@, params@, Seq::<u8>::empty(), true),
{
    let empty: Vec<u8> = Vec::new();
    sign_binary(input, params, &empty, true)
}

/// Ad-hoc signing is deterministic: the result owed to a binary and option
/// set is a function of the input bytes and options alone, so any two
/// ad-hoc runs over the same input return byte-identical output.
pub proof fn lemma_adhoc_deterministic(
    input: Seq<u8>,
    p: ParamsModel,
    r1: Result<Seq<u8>, SignError>,
    r2: Result<Seq<u8>, SignError>,
)
    requires
        r1 == spec_sign_binary(input, p, Seq::<u8>::empty(), true),
        r2 == spec_sign_binary(input, p, Seq::<u8>::empty(), true),
    ensures
        r1 == r2,
{
}

/// Static build/version identifier of this library.
pub fn get_version() -> (r: &'static str)
    ensures
        r@ == "0.5.0"@,
{
    "0.5.0"
}

} // verus!
