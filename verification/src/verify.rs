//! The verifier: re-parses a written signature and confirms its internal
//! consistency — structural offsets, declared lengths, and a page-digest
//! list that matches the binary's current signable bytes.

use vstd::prelude::*;
use crate::blobs::{
    CSMAGIC_CODEDIRECTORY, CSMAGIC_EMBEDDED_SIGNATURE, CSSLOT_CODEDIRECTORY, PAGE_SIZE_LOG2,
};
use crate::bytes::{copy_range, read_be32};
use crate::codedir::{compute_page_digests, n_pages, page_digests, page_range};
use crate::digest::{HashKind, digest_of};
use crate::errors::SignError;
use crate::fat::be32_at;
use crate::macho::{parse_macho, spec_parse_macho};
use crate::sign::pages_count;

verus! {

/// The digest algorithm named by a CodeDirectory `hashType` tag.
pub open spec fn kind_of_tag(ht: u8) -> HashKind {
    if ht == 1 {
        HashKind::Sha1
    } else {
        HashKind::Sha256
    }
}

/// Internal consistency of the primary CodeDirectory at offset `cd` of the
/// signature region: recognized magic and algorithm, identifier offset at
/// the fixed header size, declared lengths that close up exactly, a code
/// limit equal to the signable length, and one embedded digest per page
/// equal to the digest of that page of `content`.
pub open spec fn spec_cd_consistent(content: Seq<u8>, region: Seq<u8>, cd: int) -> bool {
    let cd_len = be32_at(region, cd + 4) as int;
    let ho = be32_at(region, cd + 16) as int;
    let ns = be32_at(region, cd + 24) as int;
    let nc = be32_at(region, cd + 28) as int;
    let cl = be32_at(region, cd + 32) as int;
    let hs = region[cd + 36] as int;
    let ht = region[cd + 37];
    &&& be32_at(region, cd) == CSMAGIC_CODEDIRECTORY
    &&& cd + cd_len <= region.len()
    &&& be32_at(region, cd + 20) == 44
    &&& ((hs == 20 && ht == 1) || (hs == 32 && ht == 2))
    &&& region[cd + 39] == PAGE_SIZE_LOG2
    &&& cl == content.len()
    &&& 45 + ns * hs <= ho
    &&& ho + nc * hs == cd_len
    &&& nc == n_pages(cl)
    &&& forall|i: int| 0 <= i < nc ==> region.subrange(cd + ho + i * hs, cd + ho + (i + 1) * hs)
        == digest_of(kind_of_tag(ht), page_range(content, i))
}

/// Internal consistency of a signature region over the signable `content`:
/// a SuperBlob whose declared length is the region's actual length, whose
/// first index entry is the primary CodeDirectory, and whose CodeDirectory
/// is consistent with `content`.
pub open spec fn spec_region_consistent(content: Seq<u8>, region: Seq<u8>) -> bool {
    let count = be32_at(region, 8) as int;
    let cd_off = be32_at(region, 16) as int;
    &&& region.len() >= 20
    &&& be32_at(region, 0) == CSMAGIC_EMBEDDED_SIGNATURE
    &&& be32_at(region, 4) == region.len()
    &&& count >= 1
    &&& 12 + 8 * count <= region.len()
    &&& be32_at(region, 12) == CSSLOT_CODEDIRECTORY
    &&& cd_off + 44 <= region.len()
    &&& spec_cd_consistent(content, region, cd_off)
}

/// A binary carries an internally consistent signature: it parses, a
/// signature region is present, and that region is consistent with the
/// bytes before it.
pub open spec fn spec_sig_consistent(b: Seq<u8>) -> bool {
    &&& spec_parse_macho(b) matches Some(info)
    &&& spec_parse_macho(b)->Some_0.sig matches Some(sc)
    &&& spec_region_consistent(
        b.take(spec_parse_macho(b)->Some_0.sig->Some_0.dataoff as int),
        b.skip(spec_parse_macho(b)->Some_0.sig->Some_0.dataoff as int),
    )
}

/// The error a failed verification owes: `MalformedBinary` when the binary
/// does not parse, `NotSigned` when it carries no signature, and
/// `SigningFailed` when the signature it carries is inconsistent.
pub open spec fn spec_verify_error(b: Seq<u8>) -> SignError {
    if spec_parse_macho(b) is None {
        SignError::MalformedBinary
    } else if spec_parse_macho(b)->Some_0.sig is None {
        SignError::NotSigned
    } else {
        SignError::SigningFailed
    }
}

/// Whether the bytes at `[off, off + d.len())` of `region` equal `d`.
fn region_bytes_match(region: &Vec<u8>, off: usize, d: &Vec<u8>) -> (r: bool)
    requires
        off + d@.len() <= region@.len(),
    ensures
        r <==> region@.subrange(off as int, off + d@.len()) == d@,
{
    let rl = region.len();
    let n = d.len();
    let mut j: usize = 0;
    while j < n
        invariant
            j <= n,
            n == d@.len(),
            off + n <= region@.len(),
            region@.len() == rl,
            forall|k: int| 0 <= k < j ==> region@[off + k] == d@[k],
        decreases n - j,
    {
        if region[off + j] != d[j] {
            proof {
                assert(region@.subrange(off as int, off + d@.len())[j as int] != d@[j as int]);
            }
            return false;
        }
        j = j + 1;
    }
    proof {
        assert(region@.subrange(off as int, off + d@.len()) =~= d@);
    }
    true
}

/// Re-parses the signature of a binary and confirms its internal
/// consistency, as requested by verification mode: `Ok` exactly when the
/// binary carries a consistent signature, and otherwise the error owed to
/// that input.
#[verifier::rlimit(100)]
pub fn verify_signature(input: &Vec<u8>) -> (r: Result<(), SignError>)
    ensures
        match r {
            Ok(u) => spec_sig_consistent(input@),
            Err(e) => !spec_sig_consistent(input@) && e == spec_verify_error(input@),
        },
{
    let info = match parse_macho(input) {
        Ok(i) => i,
        Err(e) => {
            return Err(e);
        },
    };
    let sc = match info.sig {
        Option::Some(sc) => sc,
        Option::None => {
            return Err(SignError::NotSigned);
        },
    };
    let dataoff = sc.dataoff as usize;
    let content = copy_range(input, 0, dataoff);
    let region = copy_range(input, dataoff, input.len());
    proof {
        assert(content@ =~= input@.take(dataoff as int));
        assert(region@ =~= input@.skip(dataoff as int));
    }
    if region.len() < 20 {
        return Err(SignError::SigningFailed);
    }
    if read_be32(&region, 0) != CSMAGIC_EMBEDDED_SIGNATURE {
        return Err(SignError::SigningFailed);
    }
    if read_be32(&region, 4) as usize != region.len() {
        return Err(SignError::SigningFailed);
    }
    let count = read_be32(&region, 8);
    if count < 1 || 12 + 8 * (count as u64) > region.len() as u64 {
        return Err(SignError::SigningFailed);
    }
    if read_be32(&region, 12) != CSSLOT_CODEDIRECTORY {
        return Err(SignError::SigningFailed);
    }
    let cd_off32 = read_be32(&region, 16);
    if (cd_off32 as u64) + 44 > region.len() as u64 {
        return Err(SignError::SigningFailed);
    }
    let cd: usize = cd_off32 as usize;
    if read_be32(&region, cd) != CSMAGIC_CODEDIRECTORY {
        return Err(SignError::SigningFailed);
    }
    let cd_len = read_be32(&region, cd + 4);
    if (cd as u64) + (cd_len as u64) > region.len() as u64 {
        return Err(SignError::SigningFailed);
    }
    if read_be32(&region, cd + 20) != 44 {
        return Err(SignError::SigningFailed);
    }
    let ho = read_be32(&region, cd + 16);
    let ns = read_be32(&region, cd + 24);
    let nc = read_be32(&region, cd + 28);
    let cl = read_be32(&region, cd + 32);
    let hs = region[cd + 36];
    let ht = region[cd + 37];
    if !((hs == 20 && ht == 1) || (hs == 32 && ht == 2)) {
        return Err(SignError::SigningFailed);
    }
    if region[cd + 39] != PAGE_SIZE_LOG2 {
        return Err(SignError::SigningFailed);
    }
    if cl as usize != content.len() {
        return Err(SignError::SigningFailed);
    }
    if 45 + (ns as u64) * (hs as u64) > ho as u64 {
        return Err(SignError::SigningFailed);
    }
    if (ho as u64) + (nc as u64) * (hs as u64) != cd_len as u64 {
        return Err(SignError::SigningFailed);
    }
    let np = pages_count(content.len());
    if nc as u64 != np as u64 {
        return Err(SignError::SigningFailed);
    }
    let kind = if ht == 1 {
        HashKind::Sha1
    } else {
        HashKind::Sha256
    };
    proof {
        assert(kind == kind_of_tag(ht));
    }
    let digests = compute_page_digests(&kind, &content);
    let hsz = hs as usize;
    proof {
        assert(region@.len() <= 0xffffffff);
    }
    let mut i: usize = 0;
    while i < np
        invariant
            i <= np,
            np == nc,
            np == n_pages(content@.len() as int),
            content@ == input@.take(dataoff as int),
            region@ == input@.skip(dataoff as int),
            hsz == hs,
            region@.len() <= 0xffffffff,
            (hs == 20 && ht == 1) || (hs == 32 && ht == 2),
            kind == kind_of_tag(ht),
            spec_parse_macho(input@) == Some(info),
            info.sig == Some(sc),
            dataoff == sc.dataoff,
            hs == region@[cd + 36],
            ht == region@[cd + 37],
            ho == be32_at(region@, cd + 16),
            nc == be32_at(region@, cd + 28),
            cd == be32_at(region@, 16),
            cd + ho + np * hsz <= region@.len(),
            digests@.len() == np,
            digests@.map_values(|h: Vec<u8>| h@) == page_digests(kind, content@),
            forall|k: int| 0 <= k < digests@.len() ==> (#[trigger] digests@[k])@.len()
                == kind.spec_len(),
            forall|k: int| 0 <= k < i ==> region@.subrange(
                cd + ho + k * hsz,
                cd + ho + (k + 1) * hsz,
            ) == digest_of(kind, page_range(content@, k)),
        decreases np - i,
    {
        proof {
            assert(i * hsz + hsz <= np * hsz) by (nonlinear_arith)
                requires
                    i < np,
                    hsz >= 0,
            ;
            assert((i + 1) * hsz == i * hsz + hsz) by (nonlinear_arith);
        }
        let off: usize = cd + (ho as usize) + i * hsz;
        if !region_bytes_match(&region, off, &digests[i]) {
            proof {
                assert(digests@[i as int]@ == page_digests(kind, content@)[i as int]);
                assert(region@.subrange(cd + ho + i * hsz, cd + ho + (i + 1) * hsz) != digest_of(
                    kind,
                    page_range(content@, i as int),
                ));
            }
            return Err(SignError::SigningFailed);
        }
        proof {
            assert(digests@[i as int]@ == page_digests(kind, content@)[i as int]);
        }
        i = i + 1;
    }
    proof {
        assert(spec_cd_consistent(content@, region@, cd as int));
        assert(spec_region_consistent(content@, region@));
    }
    Ok(())
}

} // verus!
