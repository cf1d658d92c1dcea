//! The Code Directory Builder: partitions the signable region into
//! fixed-size pages, digests each page, and fills the special slots.

use vstd::prelude::*;
use crate::blobs::{
    CodeDirModel, CodeDirectory, PAGE_SIZE, MAX_IDENT_LEN, MAX_CODE_SLOTS, cd_wf,
    requirements_bytes, entitlements_bytes, build_requirements, build_entitlements,
};
use crate::digest::{HashKind, digest_of, compute_digest};
use crate::bytes::copy_range;

verus! {

/// Number of pages covering `len` bytes: the last page may be short.
pub open spec fn n_pages(len: int) -> int {
    (len + PAGE_SIZE - 1) / (PAGE_SIZE as int)
}

/// The bytes of page `i` of `content`: a full page except possibly the last.
pub open spec fn page_range(content: Seq<u8>, i: int) -> Seq<u8> {
    content.subrange(
        PAGE_SIZE * i,
        if PAGE_SIZE * (i + 1) <= content.len() {
            PAGE_SIZE * (i + 1)
        } else {
            content.len() as int
        },
    )
}

/// The ordered per-page digests of `content` under `kind`.
pub open spec fn page_digests(kind: HashKind, content: Seq<u8>) -> Seq<Seq<u8>> {
    Seq::new(n_pages(content.len() as int) as nat, |i: int| digest_of(kind, page_range(content, i)))
}

/// The all-zero digest standing for an absent special-slot input.
pub open spec fn zero_digest(kind: HashKind) -> Seq<u8> {
    Seq::new(kind.spec_len(), |k: int| 0u8)
}

/// The special-slot digests in wire order. With entitlements present five
/// slots are filled (entitlements blob, two empty slots, requirement set,
/// Info.plist); without them only the requirement set and Info.plist slots.
/// An absent Info.plist digests to all zeros.
pub open spec fn special_digests(
    kind: HashKind,
    info_plist: Option<Seq<u8>>,
    ent: Option<Seq<u8>>,
) -> Seq<Seq<u8>> {
    let info_d = match info_plist {
        Option::Some(p) => digest_of(kind, p),
        Option::None => zero_digest(kind),
    };
    let req_d = digest_of(kind, requirements_bytes());
    match ent {
        Option::Some(e) => seq![
            digest_of(kind, entitlements_bytes(e)),
            zero_digest(kind),
            zero_digest(kind),
            req_d,
            info_d,
        ],
        Option::None => seq![req_d, info_d],
    }
}

/// The CodeDirectory of one slice: its identifier, flags, signable length,
/// special-slot digests and page digests under `kind`.
pub open spec fn cd_model(
    kind: HashKind,
    ident: Seq<u8>,
    flags: u32,
    content: Seq<u8>,
    info_plist: Option<Seq<u8>>,
    ent: Option<Seq<u8>>,
) -> CodeDirModel {
    CodeDirModel {
        ident,
        hash_kind: kind,
        flags,
        code_limit: content.len() as u32,
        special: special_digests(kind, info_plist, ent),
        code: page_digests(kind, content),
    }
}

/// Computes the ordered page digests of `content` under `kind`.
pub fn compute_page_digests(kind: &HashKind, content: &Vec<u8>) -> (r: Vec<Vec<u8>>)
    requires
        content@.len() <= 0xffffffff,
    ensures
        r@.map_values(|h: Vec<u8>| h@) == page_digests(*kind, content@),
        r@.len() == n_pages(content@.len() as int),
        forall|i: int| 0 <= i < r@.len() ==> (#[trigger] r@[i])@.len() == kind.spec_len(),
{
    let len = content.len();
    let full: usize = len / PAGE_SIZE;
    let rem: usize = len % PAGE_SIZE;
    let np: usize = if rem > 0 {
        full + 1
    } else {
        full
    };
    proof {
        assert(np == n_pages(len as int)) by (nonlinear_arith)
            requires
                full == (len as int) / (PAGE_SIZE as int),
                rem == (len as int) % (PAGE_SIZE as int),
                np == if rem > 0 {
                    full + 1int
                } else {
                    full as int
                },
                PAGE_SIZE == 4096,
                len >= 0,
        ;
    }
    let mut out: Vec<Vec<u8>> = Vec::new();
    let mut i: usize = 0;
    while i < np
        invariant
            i <= np,
            np == n_pages(content@.len() as int),
            content@.len() == len,
            len <= 0xffffffff,
            out@.len() == i,
            out@.map_values(|h: Vec<u8>| h@) =~= page_digests(*kind, content@).take(i as int),
            forall|k: int| 0 <= k < out@.len() ==> (#[trigger] out@[k])@.len()
                == kind.spec_len(),
        decreases np - i,
    {
        proof {
            assert(PAGE_SIZE * i < len && PAGE_SIZE * i + PAGE_SIZE <= 0x100001000)
                by (nonlinear_arith)
                requires
                    i < np,
                    np == (len + PAGE_SIZE - 1) / (PAGE_SIZE as int),
                    PAGE_SIZE == 4096,
                    0 <= len <= 0xffffffff,
            ;
        }
        let start: usize = PAGE_SIZE * i;
        let end: usize = if len - start >= PAGE_SIZE {
            start + PAGE_SIZE
        } else {
            len
        };
        let page = copy_range(content, start, end);
        proof {
            assert(page@ == page_range(content@, i as int));
        }
        let d = compute_digest(kind, &page);
        out.push(d);
        proof {
            assert(out@.map_values(|h: Vec<u8>| h@) =~= page_digests(*kind, content@).take(
                i as int + 1,
            ));
        }
        i = i + 1;
    }
    proof {
        assert(page_digests(*kind, content@).take(np as int) =~= page_digests(*kind, content@));
    }
    out
}

/// Computes the special-slot digests in wire order.
pub fn compute_special_digests(
    kind: &HashKind,
    info_plist: &Option<Vec<u8>>,
    ent: &Option<Vec<u8>>,
) -> (r: Vec<Vec<u8>>)
    requires
        ent matches Some(e) ==> e@.len() <= 0x1000000,
    ensures
        r@.map_values(|h: Vec<u8>| h@) == special_digests(
            *kind,
            match info_plist {
                Option::Some(p) => Some(p@),
                Option::None => None,
            },
            match ent {
                Option::Some(e) => Some(e@),
                Option::None => None,
            },
        ),
        forall|i: int| 0 <= i < r@.len() ==> (#[trigger] r@[i])@.len() == kind.spec_len(),
{
    let info_d: Vec<u8> = match info_plist {
        Option::Some(p) => compute_digest(kind, p),
        Option::None => zero_digest_exec(kind),
    };
    let req_blob = build_requirements();
    let req_d = compute_digest(kind, &req_blob);
    let mut out: Vec<Vec<u8>> = Vec::new();
    match ent {
        Option::Some(e) => {
            let ent_blob = build_entitlements(e);
            let ent_d = compute_digest(kind, &ent_blob);
            out.push(ent_d);
            out.push(zero_digest_exec(kind));
            out.push(zero_digest_exec(kind));
            out.push(req_d);
            out.push(info_d);
        },
        Option::None => {
            out.push(req_d);
            out.push(info_d);
        },
    }
    proof {
        assert(out@.map_values(|h: Vec<u8>| h@) =~= special_digests(
            *kind,
            match info_plist {
                Option::Some(p) => Some(p@),
                Option::None => None,
            },
            match ent {
                Option::Some(e) => Some(e@),
                Option::None => None,
            },
        ));
    }
    out
}

/// Builds the all-zero digest of an absent special-slot input.
pub fn zero_digest_exec(kind: &HashKind) -> (r: Vec<u8>)
    ensures
        r@ == zero_digest(*kind),
{
    let n = kind.len();
    let mut out: Vec<u8> = Vec::new();
    let mut j: usize = 0;
    while j < n
        invariant
            j <= n,
            n == kind.spec_len(),
            out@ =~= Seq::<u8>::new(j as nat, |k: int| 0u8),
        decreases n - j,
    {
        out.push(0u8);
        proof {
            assert(out@ =~= Seq::<u8>::new(j as nat + 1, |k: int| 0u8));
        }
        j = j + 1;
    }
    out
}

/// Assembles the CodeDirectory of one slice.
pub fn build_cd_struct(
    kind: &HashKind,
    ident: &Vec<u8>,
    flags: u32,
    content: &Vec<u8>,
    info_plist: &Option<Vec<u8>>,
    ent: &Option<Vec<u8>>,
) -> (r: CodeDirectory)
    requires
        content@.len() <= 0xffffffff,
        ident@.len() <= MAX_IDENT_LEN,
        forall|i: int| 0 <= i < ident@.len() ==> ident@[i] != 0u8,
        ent matches Some(e) ==> e@.len() <= 0x1000000,
    ensures
        r@ == cd_model(
            *kind,
            ident@,
            flags,
            content@,
            match info_plist {
                Option::Some(p) => Some(p@),
                Option::None => None,
            },
            match ent {
                Option::Some(e) => Some(e@),
                Option::None => None,
            },
        ),
        cd_wf(r@),
{
    let code_hashes = compute_page_digests(kind, content);
    let special_hashes = compute_special_digests(kind, info_plist, ent);
    let mut id: Vec<u8> = Vec::new();
    crate::bytes::push_all(&mut id, ident);
    proof {
        assert(id@ =~= ident@);
        assert(n_pages(content@.len() as int) <= MAX_CODE_SLOTS) by (nonlinear_arith)
            requires
                content@.len() <= 0xffffffff,
                PAGE_SIZE == 4096,
                MAX_CODE_SLOTS == 0x100000,
        ;
    }
    let cd = CodeDirectory {
        ident: id,
        hash_kind: *kind,
        flags,
        code_limit: content.len() as u32,
        special_hashes,
        code_hashes,
    };
    proof {
        let m = cd_model(
            *kind,
            ident@,
            flags,
            content@,
            match info_plist {
                Option::Some(p) => Some(p@),
                Option::None => None,
            },
            match ent {
                Option::Some(e) => Some(e@),
                Option::None => None,
            },
        );
        assert(cd@.special =~= m.special);
        assert(cd@.code =~= m.code);
        assert(cd@ == m);
    }
    cd
}

} // verus!
