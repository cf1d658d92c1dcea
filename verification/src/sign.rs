//! The signing engine for one architecture slice: strips any existing
//! signature, rewrites the code-signature load command, digests the signable
//! region, and appends the SuperBlob.

use vstd::prelude::*;
use crate::blobs::{
    BlobEntry, BlobEntryModel, cd_bytes, cms_wrapper_bytes, entitlements_bytes,
    requirements_bytes, sb_bytes, sb_total_len, CS_ADHOC, CSSLOT_ALTERNATE,
    CSSLOT_CODEDIRECTORY, CSSLOT_ENTITLEMENTS, CSSLOT_REQUIREMENTS, CSSLOT_SIGNATURE,
    MAX_IDENT_LEN, build_code_directory, build_cms_wrapper, build_entitlements,
    build_requirements, build_superblob, entries_view, cd_wf, cd_total_len,
};
use crate::bytes::{le32_bytes, splice, set_le32, push_all, copy_range};
use crate::codedir::{cd_model, n_pages, page_digests, special_digests};
use crate::digest::HashKind;
use crate::errors::SignError;
use crate::macho::{MachOInfo, SigCommand, spec_parse_macho, spec_code_limit, parse_macho,
    LC_CODE_SIGNATURE, MACH_HEADER_LEN, SIG_CMD_LEN};

verus! {

/// Reserved capacity of the CMS slot when a certificate identity signs.
pub const CMS_CAP: usize = 4096;

/// Caller-supplied signing inputs for one slice.
pub struct SignParams {
    /// CodeDirectory identifier (NUL-free).
    pub ident: Vec<u8>,
    /// Raw Info.plist bytes covered by the Info.plist special slot.
    pub info_plist: Option<Vec<u8>>,
    /// Raw entitlements bytes, embedded verbatim and covered by their slot.
    pub entitlements: Option<Vec<u8>>,
    /// Emit a single SHA-256 CodeDirectory instead of the SHA-1 + SHA-256 pair.
    pub sha256_only: bool,
    /// Discard an existing signature instead of failing with `AlreadySigned`.
    pub force: bool,
}

/// Mathematical model of the signing inputs.
pub ghost struct ParamsModel {
    /// CodeDirectory identifier.
    pub ident: Seq<u8>,
    /// Info.plist bytes, if supplied.
    pub info_plist: Option<Seq<u8>>,
    /// Entitlements bytes, if supplied.
    pub entitlements: Option<Seq<u8>>,
    /// Single strong digest instead of the legacy + strong pair.
    pub sha256_only: bool,
    /// Re-sign over an existing signature.
    pub force: bool,
}

impl View for SignParams {
    type V = ParamsModel;

    open spec fn view(&self) -> ParamsModel {
        ParamsModel {
            ident: self.ident@,
            info_plist: match self.info_plist {
                Option::Some(ref p) => Some(p@),
                Option::None => None,
            },
            entitlements: match self.entitlements {
                Option::Some(ref e) => Some(e@),
                Option::None => None,
            },
            sha256_only: self.sha256_only,
            force: self.force,
        }
    }
}

/// The identifier carries no NUL byte.
pub open spec fn ident_ok(ident: Seq<u8>) -> bool {
    forall|i: int| 0 <= i < ident.len() ==> ident[i] != 0u8
}

/// The entitlements, when present, fit the format's size bound.
pub open spec fn ent_ok(e: Option<Seq<u8>>) -> bool {
    match e {
        Option::Some(b) => b.len() <= 0x1000000,
        Option::None => true,
    }
}

/// The 16 bytes of a code-signature load command.
pub open spec fn sig_cmd_bytes(dataoff: u32, datasize: u32) -> Seq<u8> {
    le32_bytes(LC_CODE_SIGNATURE) + le32_bytes(SIG_CMD_LEN as u32) + le32_bytes(dataoff)
        + le32_bytes(datasize)
}

/// `c` with the `dataoff` and `datasize` fields of the code-signature load
/// command at `lc_off` overwritten.
pub open spec fn spec_set_sig(c: Seq<u8>, lc_off: int, dataoff: u32, datasize: u32) -> Seq<u8> {
    splice(splice(c, lc_off + 8, le32_bytes(dataoff)), lc_off + 12, le32_bytes(datasize))
}

/// `c` with a fresh code-signature load command appended to the command
/// table: the header counts grow and the 16 command bytes overwrite the
/// padding after the table.
pub open spec fn spec_append_sig(
    c: Seq<u8>,
    ncmds: u32,
    sizeofcmds: u32,
    dataoff: u32,
    datasize: u32,
) -> Seq<u8> {
    splice(
        splice(splice(c, 16, le32_bytes((ncmds + 1) as u32)), 20, le32_bytes((sizeofcmds + SIG_CMD_LEN) as u32)),
        MACH_HEADER_LEN + sizeofcmds,
        sig_cmd_bytes(dataoff, datasize),
    )
}

/// There is room to append one load command: the table may grow by 16 bytes
/// without reaching the first segment's file data or the end of the slice.
pub open spec fn spec_room(c_len: int, info: MachOInfo) -> bool {
    &&& MACH_HEADER_LEN + info.sizeofcmds + SIG_CMD_LEN <= c_len
    &&& MACH_HEADER_LEN + info.sizeofcmds + SIG_CMD_LEN <= info.min_seg_off
    &&& info.ncmds < 0x1fffffff
}

/// The stripped signable content with its code-signature load command
/// rewritten (or appended) to declare a signature of `sb_len` bytes at the
/// end of the content.
pub open spec fn spec_edited(c: Seq<u8>, info: MachOInfo, sb_len: u32) -> Seq<u8> {
    match info.sig {
        Option::Some(sc) => spec_set_sig(c, sc.lc_off as int, c.len() as u32, sb_len),
        Option::None => spec_append_sig(c, info.ncmds, info.sizeofcmds, c.len() as u32, sb_len),
    }
}

/// CodeDirectory flags of a run: the ad-hoc bit exactly for ad-hoc signing.
pub open spec fn cd_flags(adhoc: bool) -> u32 {
    if adhoc {
        CS_ADHOC
    } else {
        0
    }
}

/// Reserved CMS-slot capacity of a run: zero (the explicit ad-hoc marker)
/// for ad-hoc signing.
pub open spec fn spec_cms_cap(adhoc: bool) -> nat {
    if adhoc {
        0
    } else {
        CMS_CAP as nat
    }
}

/// The CodeDirectory sub-blobs of a run over the edited content: a single
/// SHA-256 directory, or the legacy SHA-1 directory with a SHA-256 alternate.
pub open spec fn spec_cd_entries(p: ParamsModel, content: Seq<u8>, flags: u32) -> Seq<
    BlobEntryModel,
> {
    if p.sha256_only {
        seq![
            BlobEntryModel {
                slot: CSSLOT_CODEDIRECTORY,
                data: cd_bytes(
                    cd_model(HashKind::Sha256, p.ident, flags, content, p.info_plist, p.entitlements),
                ),
            },
        ]
    } else {
        seq![
            BlobEntryModel {
                slot: CSSLOT_CODEDIRECTORY,
                data: cd_bytes(
                    cd_model(HashKind::Sha1, p.ident, flags, content, p.info_plist, p.entitlements),
                ),
            },
            BlobEntryModel {
                slot: CSSLOT_ALTERNATE,
                data: cd_bytes(
                    cd_model(HashKind::Sha256, p.ident, flags, content, p.info_plist, p.entitlements),
                ),
            },
        ]
    }
}

/// Every sub-blob of a run's SuperBlob, in canonical order: CodeDirectories
/// first, then the requirement set, then entitlements when supplied, then
/// the CMS wrapper.
pub open spec fn spec_entries(
    p: ParamsModel,
    content: Seq<u8>,
    flags: u32,
    cms: Seq<u8>,
    cap: nat,
) -> Seq<BlobEntryModel> {
    spec_cd_entries(p, content, flags) + seq![
        BlobEntryModel { slot: CSSLOT_REQUIREMENTS, data: requirements_bytes() },
    ] + (match p.entitlements {
        Option::Some(e) => seq![
            BlobEntryModel { slot: CSSLOT_ENTITLEMENTS, data: entitlements_bytes(e) },
        ],
        Option::None => Seq::<BlobEntryModel>::empty(),
    }) + seq![BlobEntryModel { slot: CSSLOT_SIGNATURE, data: cms_wrapper_bytes(cms, cap) }]
}

/// Number of special slots of a run.
pub open spec fn spec_n_special(p: ParamsModel) -> nat {
    if p.entitlements is Some {
        5
    } else {
        2
    }
}

/// Serialized length of one CodeDirectory of a run, from counts alone.
pub open spec fn spec_cd_len(p: ParamsModel, c_len: int, k: HashKind) -> int {
    45 + p.ident.len() + (spec_n_special(p) + n_pages(c_len)) * k.spec_len()
}

/// Total SuperBlob length of a run, from counts alone; the declared
/// `datasize` of the rewritten code-signature load command.
pub open spec fn spec_sb_len(p: ParamsModel, c_len: int, cap: nat) -> int {
    let n_cd: int = if p.sha256_only {
        1
    } else {
        2
    };
    let cds: int = if p.sha256_only {
        spec_cd_len(p, c_len, HashKind::Sha256)
    } else {
        spec_cd_len(p, c_len, HashKind::Sha1) + spec_cd_len(p, c_len, HashKind::Sha256)
    };
    let ent: int = match p.entitlements {
        Option::Some(e) => 8 + e.len() as int + 8,
        Option::None => 0,
    };
    let n_ent: int = if p.entitlements is Some {
        1
    } else {
        0
    };
    12 + 8 * (n_cd + 1 + n_ent + 1) + cds + 12 + ent - (8 * n_ent) + (8 + cap)
}

/// The full signed slice of a run: the edited content followed by its
/// SuperBlob.
#[verifier::opaque]
pub open spec fn spec_output(
    c: Seq<u8>,
    info: MachOInfo,
    p: ParamsModel,
    cms: Seq<u8>,
    adhoc: bool,
) -> Seq<u8> {
    let cap = spec_cms_cap(adhoc);
    let sb_len = spec_sb_len(p, c.len() as int, cap);
    let ce = spec_edited(c, info, sb_len as u32);
    ce + sb_bytes(spec_entries(p, ce, cd_flags(adhoc), cms, cap))
}

/// What signing one slice returns, for every input and option set: the
/// signed bytes, or the error owed to that input.
pub open spec fn spec_sign(input: Seq<u8>, p: ParamsModel, cms: Seq<u8>, adhoc: bool) -> Result<
    Seq<u8>,
    SignError,
> {
    match spec_parse_macho(input) {
        Option::None => Err(SignError::MalformedBinary),
        Option::Some(info) => {
            if info.sig is Some && !p.force {
                Err(SignError::AlreadySigned)
            } else if p.ident.len() > MAX_IDENT_LEN {
                Err(SignError::IdentifierTooLong)
            } else if !ident_ok(p.ident) || !ent_ok(p.entitlements) {
                Err(SignError::InvalidInput)
            } else if !adhoc && cms.len() > CMS_CAP {
                Err(SignError::SigningFailed)
            } else {
                let c = input.take(spec_code_limit(input, info));
                if info.sig is None && !spec_room(c.len() as int, info) {
                    Err(SignError::LayoutOverflow)
                } else {
                    Ok(spec_output(c, info, p, cms, adhoc))
                }
            }
        },
    }
}

/// The model of an executable signing result.
pub open spec fn res_view(r: Result<Vec<u8>, SignError>) -> Result<Seq<u8>, SignError> {
    match r {
        Ok(v) => Ok(v@),
        Err(e) => Err(e),
    }
}

/// Overwrites the `dataoff` and `datasize` fields of the code-signature
/// load command at `lc_off`.
pub fn set_sig_cmd(c: &mut Vec<u8>, lc_off: usize, dataoff: u32, datasize: u32)
    requires
        lc_off + SIG_CMD_LEN <= old(c)@.len(),
    ensures
        final(c)@ == spec_set_sig(old(c)@, lc_off as int, dataoff, datasize),
        final(c)@.len() == old(c)@.len(),
{
    let n = c.len();
    set_le32(c, lc_off + 8, dataoff);
    set_le32(c, lc_off + 12, datasize);
    assert(c@ =~= spec_set_sig(old(c)@, lc_off as int, dataoff, datasize));
}

/// Appends a fresh code-signature load command to the command table,
/// growing the header counts and overwriting the padding after the table.
pub fn append_sig_cmd(c: &mut Vec<u8>, ncmds: u32, sizeofcmds: u32, dataoff: u32, datasize: u32)
    requires
        MACH_HEADER_LEN + sizeofcmds + SIG_CMD_LEN <= old(c)@.len(),
        ncmds < 0x1fffffff,
        old(c)@.len() <= 0xffffffff,
    ensures
        final(c)@ == spec_append_sig(old(c)@, ncmds, sizeofcmds, dataoff, datasize),
        final(c)@.len() == old(c)@.len(),
{
    let n = c.len();
    set_le32(c, 16, ncmds + 1);
    set_le32(c, 20, sizeofcmds + SIG_CMD_LEN as u32);
    let base: usize = MACH_HEADER_LEN + sizeofcmds as usize;
    set_le32(c, base, LC_CODE_SIGNATURE);
    set_le32(c, base + 4, SIG_CMD_LEN as u32);
    set_le32(c, base + 8, dataoff);
    set_le32(c, base + 12, datasize);
    assert(c@ =~= spec_append_sig(old(c)@, ncmds, sizeofcmds, dataoff, datasize));
}

/// A well-formed CodeDirectory serializes to its declared length.
pub proof fn lemma_cd_bytes_len(cd: crate::blobs::CodeDirModel)
    requires
        cd_wf(cd),
    ensures
        cd_bytes(cd).len() == cd_total_len(cd),
{
    crate::blobs::lemma_concat_uniform_len(cd.special, cd.hash_kind.spec_len());
    crate::blobs::lemma_concat_uniform_len(cd.code, cd.hash_kind.spec_len());
}

/// Sum of blob lengths distributes over concatenation.
pub proof fn lemma_sum_append(a: Seq<BlobEntryModel>, b: Seq<BlobEntryModel>)
    ensures
        crate::blobs::sum_blob_lens(a + b) == crate::blobs::sum_blob_lens(a)
            + crate::blobs::sum_blob_lens(b),
    decreases a.len(),
{
    if a.len() == 0 {
        assert(a + b =~= b);
    } else {
        lemma_sum_append(a.drop_first(), b);
        assert((a + b).drop_first() =~= a.drop_first() + b);
        assert((a + b).first() == a.first());
    }
}

/// Sum of one blob's length.
pub proof fn lemma_sum_singleton(e: BlobEntryModel)
    ensures
        crate::blobs::sum_blob_lens(seq![e]) == e.data.len(),
{
    assert(seq![e].drop_first() =~= Seq::<BlobEntryModel>::empty());
    assert(seq![e].first() == e);
    assert(crate::blobs::sum_blob_lens(Seq::<BlobEntryModel>::empty()) == 0);
    assert(crate::blobs::sum_blob_lens(seq![e]) == e.data.len() + crate::blobs::sum_blob_lens(
        Seq::<BlobEntryModel>::empty(),
    ));
}

/// The arithmetic SuperBlob length of a run matches the serialized one.
pub proof fn lemma_entries_len(
    p: ParamsModel,
    content: Seq<u8>,
    flags: u32,
    cms: Seq<u8>,
    cap: nat,
)
    requires
        p.ident.len() <= MAX_IDENT_LEN,
        ident_ok(p.ident),
        ent_ok(p.entitlements),
        content.len() <= 0xffffffff,
        cms.len() <= cap,
        cd_wf(cd_model(HashKind::Sha256, p.ident, flags, content, p.info_plist, p.entitlements)),
        !p.sha256_only ==> cd_wf(
            cd_model(HashKind::Sha1, p.ident, flags, content, p.info_plist, p.entitlements),
        ),
    ensures
        sb_total_len(spec_entries(p, content, flags, cms, cap)) == spec_sb_len(
            p,
            content.len() as int,
            cap,
        ),
{
    let cds = spec_cd_entries(p, content, flags);
    let req = seq![BlobEntryModel { slot: CSSLOT_REQUIREMENTS, data: requirements_bytes() }];
    let entp = (match p.entitlements {
        Option::Some(e) => seq![
            BlobEntryModel { slot: CSSLOT_ENTITLEMENTS, data: entitlements_bytes(e) },
        ],
        Option::None => Seq::<BlobEntryModel>::empty(),
    });
    let sig = seq![BlobEntryModel { slot: CSSLOT_SIGNATURE, data: cms_wrapper_bytes(cms, cap) }];
    let es = spec_entries(p, content, flags, cms, cap);
    assert(es == cds + req + entp + sig);
    lemma_sum_append(cds + req + entp, sig);
    lemma_sum_append(cds + req, entp);
    lemma_sum_append(cds, req);
    lemma_sum_singleton(req[0]);
    lemma_sum_singleton(sig[0]);
    assert(requirements_bytes().len() == 12);
    assert(cms_wrapper_bytes(cms, cap).len() == 8 + cap);
    match p.entitlements {
        Option::Some(e) => {
            lemma_sum_singleton(entp[0]);
            assert(entitlements_bytes(e).len() == 8 + e.len());
        },
        Option::None => {
            assert(crate::blobs::sum_blob_lens(entp) == 0);
        },
    }
    let m1 = cd_model(HashKind::Sha1, p.ident, flags, content, p.info_plist, p.entitlements);
    let m256 = cd_model(HashKind::Sha256, p.ident, flags, content, p.info_plist, p.entitlements);
    assert(m1.special.len() == spec_n_special(p));
    assert(m256.special.len() == spec_n_special(p));
    assert(m1.code.len() == n_pages(content.len() as int));
    assert(m256.code.len() == n_pages(content.len() as int));
    if !p.sha256_only {
        lemma_cd_bytes_len(m1);
    }
    lemma_cd_bytes_len(m256);
    if p.sha256_only {
        lemma_sum_singleton(cds[0]);
        assert(crate::blobs::sum_blob_lens(cds) == cd_bytes(m256).len());
    } else {
        assert(cds =~= seq![cds[0]] + seq![cds[1]]);
        lemma_sum_append(seq![cds[0]], seq![cds[1]]);
        lemma_sum_singleton(cds[0]);
        lemma_sum_singleton(cds[1]);
    }
}

/// Whether any byte of `v` is NUL.
pub fn has_nul(v: &Vec<u8>) -> (r: bool)
    ensures
        r <==> !ident_ok(v@),
{
    let n = v.len();
    let mut j: usize = 0;
    while j < n
        invariant
            j <= n,
            n == v@.len(),
            forall|i: int| 0 <= i < j ==> v@[i] != 0u8,
        decreases n - j,
    {
        if v[j] == 0 {
            return true;
        }
        j = j + 1;
    }
    false
}

/// Number of pages covering `len` bytes.
pub fn pages_count(len: usize) -> (r: usize)
    requires
        len <= 0xffffffff,
    ensures
        r == n_pages(len as int),
        r <= 0x100000,
{
    let full: usize = len / crate::blobs::PAGE_SIZE;
    let rem: usize = len % crate::blobs::PAGE_SIZE;
    let np: usize = if rem > 0 {
        full + 1
    } else {
        full
    };
    proof {
        assert(np == n_pages(len as int) && np <= 0x100000) by (nonlinear_arith)
            requires
                full == (len as int) / 4096,
                rem == (len as int) % 4096,
                np == if rem > 0 {
                    full + 1int
                } else {
                    full as int
                },
                0 <= len <= 0xffffffff,
        ;
    }
    np
}

/// Signs one architecture slice with the given CMS bytes (empty for the
/// ad-hoc identity), returning exactly what `spec_sign` owes that input.
/// Builds the SuperBlob sub-blobs of a run, in canonical order.
#[verifier::rlimit(60)]
pub fn build_entries(params: &SignParams, content: &Vec<u8>, cms: &Vec<u8>, adhoc: bool) -> (r:
    Vec<BlobEntry>)
    requires
        content@.len() <= 0xffffffff,
        params.ident@.len() <= MAX_IDENT_LEN,
        ident_ok(params.ident@),
        ent_ok(params@.entitlements),
        cms@.len() <= spec_cms_cap(adhoc),
    ensures
        entries_view(r@) == spec_entries(
            params@,
            content@,
            cd_flags(adhoc),
            cms@,
            spec_cms_cap(adhoc),
        ),
        r@.len() <= 8,
        forall|i: int| 0 <= i < r@.len() ==> (#[trigger] r@[i]).data@.len() <= 0x8000000,
{
    let flags: u32 = if adhoc {
        CS_ADHOC
    } else {
        0
    };
    let cap: usize = if adhoc {
        0
    } else {
        CMS_CAP
    };
    let mut entries: Vec<BlobEntry> = Vec::new();
    if params.sha256_only {
        let cd = crate::codedir::build_cd_struct(
            &HashKind::Sha256,
            &params.ident,
            flags,
            content,
            &params.info_plist,
            &params.entitlements,
        );
        let data = build_code_directory(&cd);
        entries.push(BlobEntry { slot: CSSLOT_CODEDIRECTORY, data });
    } else {
        let cd1 = crate::codedir::build_cd_struct(
            &HashKind::Sha1,
            &params.ident,
            flags,
            content,
            &params.info_plist,
            &params.entitlements,
        );
        let data1 = build_code_directory(&cd1);
        entries.push(BlobEntry { slot: CSSLOT_CODEDIRECTORY, data: data1 });
        let cd256 = crate::codedir::build_cd_struct(
            &HashKind::Sha256,
            &params.ident,
            flags,
            content,
            &params.info_plist,
            &params.entitlements,
        );
        let data256 = build_code_directory(&cd256);
        entries.push(BlobEntry { slot: CSSLOT_ALTERNATE, data: data256 });
    }
    let req = build_requirements();
    entries.push(BlobEntry { slot: CSSLOT_REQUIREMENTS, data: req });
    match &params.entitlements {
        Option::Some(e) => {
            let eb = build_entitlements(e);
            entries.push(BlobEntry { slot: CSSLOT_ENTITLEMENTS, data: eb });
        },
        Option::None => {},
    }
    let wrapper = build_cms_wrapper(cms, cap);
    entries.push(BlobEntry { slot: CSSLOT_SIGNATURE, data: wrapper });
    proof {
        assert(entries_view(entries@) =~= spec_entries(
            params@,
            content@,
            cd_flags(adhoc),
            cms@,
            spec_cms_cap(adhoc),
        ));
    }
    entries
}

#[verifier::rlimit(100)]
pub fn sign_slice_with(input: &Vec<u8>, params: &SignParams, cms: &Vec<u8>, adhoc: bool) -> (r:
    Result<Vec<u8>, SignError>)
    requires
        adhoc ==> cms@.len() == 0,
    ensures
        res_view(r) == spec_sign(input@, params@, cms@, adhoc),
{
    let info = match parse_macho(input) {
        Ok(i) => i,
        Err(e) => {
            return Err(e);
        },
    };
    if info.sig.is_some() && !params.force {
        return Err(SignError::AlreadySigned);
    }
    if params.ident.len() > MAX_IDENT_LEN {
        return Err(SignError::IdentifierTooLong);
    }
    if has_nul(&params.ident) {
        return Err(SignError::InvalidInput);
    }
    match &params.entitlements {
        Option::Some(e) => {
            if e.len() > 0x1000000 {
                return Err(SignError::InvalidInput);
            }
        },
        Option::None => {},
    }
    if !adhoc && cms.len() > CMS_CAP {
        return Err(SignError::SigningFailed);
    }
    let code_limit: usize = match &info.sig {
        Option::Some(sc) => sc.dataoff as usize,
        Option::None => input.len(),
    };
    let mut content = copy_range(input, 0, code_limit);
    proof {
        assert(content@ =~= input@.take(spec_code_limit(input@, info)));
    }
    let clen: usize = content.len();
    if info.sig.is_none() {
        let fits = (MACH_HEADER_LEN as u64) + (info.sizeofcmds as u64) + (SIG_CMD_LEN as u64)
            <= clen as u64 && (MACH_HEADER_LEN as u64) + (info.sizeofcmds as u64) + (SIG_CMD_LEN
            as u64) <= info.min_seg_off && info.ncmds < 0x1fffffff;
        if !fits {
            return Err(SignError::LayoutOverflow);
        }
    }
    let cap: usize = if adhoc {
        0
    } else {
        CMS_CAP
    };
    let np = pages_count(clen);
    let ns: usize = match &params.entitlements {
        Option::Some(_) => 5,
        Option::None => 2,
    };
    let ent_len: usize = match &params.entitlements {
        Option::Some(e) => 8 + e.len() + 8,
        Option::None => 0,
    };
    let cd1_len: usize = 45 + params.ident.len() + (ns + np) * 20;
    let cd256_len: usize = 45 + params.ident.len() + (ns + np) * 32;
    let n_cd: usize = if params.sha256_only {
        1
    } else {
        2
    };
    let cds_len: usize = if params.sha256_only {
        cd256_len
    } else {
        cd1_len + cd256_len
    };
    let n_ent: usize = match &params.entitlements {
        Option::Some(_) => 1,
        Option::None => 0,
    };
    let sb_len: usize = 12 + 8 * (n_cd + 1 + n_ent + 1) + cds_len + 12 + ent_len - 8 * n_ent + (8
        + cap);
    proof {
        assert((ns + np) * 20 <= 0x2000000 && (ns + np) * 32 <= 0x4000000) by (nonlinear_arith)
            requires
                ns <= 5,
                np <= 0x100000,
        ;
        assert(sb_len == spec_sb_len(params@, clen as int, cap as nat));
        assert(sb_len <= 0x8000000);
    }
    match &info.sig {
        Option::Some(sc) => {
            proof {
                crate::macho::lemma_scan_sig_bounds(
                    input@,
                    MACH_HEADER_LEN as int,
                    MACH_HEADER_LEN + info.sizeofcmds,
                    info.ncmds as nat,
                );
            }
            set_sig_cmd(&mut content, sc.lc_off as usize, clen as u32, sb_len as u32);
        },
        Option::None => {
            append_sig_cmd(&mut content, info.ncmds, info.sizeofcmds, clen as u32, sb_len as u32);
        },
    }
    proof {
        assert(content@ == spec_edited(
            input@.take(spec_code_limit(input@, info)),
            info,
            spec_sb_len(params@, clen as int, cap as nat) as u32,
        ));
    }
    let entries = build_entries(params, &content, cms, adhoc);
    let sb = build_superblob(&entries);
    let mut out = content;
    push_all(&mut out, &sb);
    proof {
        reveal(spec_output);
        assert(out@ == spec_output(
            input@.take(spec_code_limit(input@, info)),
            info,
            params@,
            cms@,
            adhoc,
        ));
    }
    Ok(out)
}

/// The primary digest algorithm of a run.
pub open spec fn primary_kind(p: ParamsModel) -> HashKind {
    if p.sha256_only {
        HashKind::Sha256
    } else {
        HashKind::Sha1
    }
}

/// Round trip: a signed slice is its edited content followed exactly by the
/// serialized SuperBlob, and the CodeDirectory embedded there carries
/// precisely the page digests of the binary's current signable bytes — so
/// re-parsing the SuperBlob and recomputing the digests over the output's
/// own content reproduces the embedded hash list.
pub proof fn lemma_sign_round_trip(input: Seq<u8>, p: ParamsModel, cms: Seq<u8>, adhoc: bool)
    requires
        spec_sign(input, p, cms, adhoc) matches Ok(out),
    ensures
        spec_sign(input, p, cms, adhoc) matches Ok(out) && {
            let info = spec_parse_macho(input)->Some_0;
            let c = input.take(spec_code_limit(input, info));
            let cap = spec_cms_cap(adhoc);
            let ce = spec_edited(c, info, spec_sb_len(p, c.len() as int, cap) as u32);
            let entries = spec_entries(p, ce, cd_flags(adhoc), cms, cap);
            &&& out.take(ce.len() as int) == ce
            &&& out.skip(ce.len() as int) == sb_bytes(entries)
            &&& entries[0].slot == CSSLOT_CODEDIRECTORY
            &&& entries[0].data == cd_bytes(
                cd_model(primary_kind(p), p.ident, cd_flags(adhoc), ce, p.info_plist, p.entitlements),
            )
            &&& cd_model(
                primary_kind(p),
                p.ident,
                cd_flags(adhoc),
                ce,
                p.info_plist,
                p.entitlements,
            ).code == crate::codedir::page_digests(primary_kind(p), out.take(ce.len() as int))
        },
{
    reveal(spec_output);
    let info = spec_parse_macho(input)->Some_0;
    let c = input.take(spec_code_limit(input, info));
    let cap = spec_cms_cap(adhoc);
    let ce = spec_edited(c, info, spec_sb_len(p, c.len() as int, cap) as u32);
    let entries = spec_entries(p, ce, cd_flags(adhoc), cms, cap);
    let out = spec_sign(input, p, cms, adhoc)->Ok_0;
    assert(out == ce + sb_bytes(entries));
    assert(out.take(ce.len() as int) =~= ce);
    assert(out.skip(ce.len() as int) =~= sb_bytes(entries));
    if p.sha256_only {
        assert(entries[0] == spec_cd_entries(p, ce, cd_flags(adhoc))[0]);
    } else {
        assert(entries[0] == spec_cd_entries(p, ce, cd_flags(adhoc))[0]);
    }
}

/// Splicing bytes that are already there changes nothing.
pub proof fn lemma_splice_identity(s: Seq<u8>, i: int, r: Seq<u8>)
    requires
        0 <= i,
        i + r.len() <= s.len(),
        s.subrange(i, i + r.len()) == r,
    ensures
        splice(s, i, r) == s,
{
    assert(splice(s, i, r) =~= s);
}

/// Parsing the output of an in-place signature rewrite: a signed slice
/// whose signature fields are overwritten and whose tail is replaced
/// parses like the original, with the new `dataoff` and `datasize`.
pub proof fn lemma_parse_after_set_sig(b: Seq<u8>, tail: Seq<u8>, sz: u32)
    requires
        spec_parse_macho(b) matches Some(info) && info.sig matches Some(sc),
        tail.len() == sz,
        spec_parse_macho(b)->Some_0.sig->Some_0.dataoff + sz <= 0xffffffff,
    ensures
        ({
            let info = spec_parse_macho(b)->Some_0;
            let sc = info.sig->Some_0;
            let y = spec_set_sig(b.take(sc.dataoff as int), sc.lc_off as int, sc.dataoff, sz)
                + tail;
            spec_parse_macho(y) == Some(
                MachOInfo {
                    ncmds: info.ncmds,
                    sizeofcmds: info.sizeofcmds,
                    sig: Some(SigCommand { lc_off: sc.lc_off, dataoff: sc.dataoff, datasize: sz }),
                    min_seg_off: info.min_seg_off,
                },
            )
        }),
{
    let info = spec_parse_macho(b)->Some_0;
    let sc = info.sig->Some_0;
    let end: int = MACH_HEADER_LEN + info.sizeofcmds;
    crate::macho::lemma_scan_sig_bounds(
        b,
        MACH_HEADER_LEN as int,
        end,
        info.ncmds as nat,
    );
    let c = b.take(sc.dataoff as int);
    let ce = spec_set_sig(c, sc.lc_off as int, sc.dataoff, sz);
    let y = ce + tail;
    let lc = sc.lc_off as int;
    assert(ce.len() == sc.dataoff);
    assert(y.len() == sc.dataoff + sz);
    assert forall|j: int| 0 <= j < sc.dataoff && !(lc + 8 <= j < lc + 16) implies y[j] == b[j] by {
        assert(c[j] == b[j]);
    }
    assert(ce.subrange(lc + 8, lc + 12) =~= le32_bytes(sc.dataoff));
    assert(ce.subrange(lc + 12, lc + 16) =~= le32_bytes(sz));
    crate::bytes::lemma_le32_roundtrip(sc.dataoff);
    crate::bytes::lemma_le32_roundtrip(sz);
    assert(crate::macho::le32_at(y, lc + 8) == sc.dataoff);
    assert(crate::macho::le32_at(y, lc + 12) == sz);
    assert(crate::macho::le32_at(y, 0) == crate::macho::le32_at(b, 0));
    assert(crate::macho::le32_at(y, 16) == crate::macho::le32_at(b, 16));
    assert(crate::macho::le32_at(y, 20) == crate::macho::le32_at(b, 20));
    crate::macho::lemma_scan_set_sig(
        b,
        y,
        MACH_HEADER_LEN as int,
        end,
        info.ncmds as nat,
        sc.dataoff,
        sz,
    );
}

/// The directories of a run have well-formed digest lists (their lengths
/// are the algorithm's); any execution of the builders establishes this.
pub open spec fn run_cds_wf(x: Seq<u8>, p: ParamsModel, adhoc: bool) -> bool {
    let info = spec_parse_macho(x)->Some_0;
    let c = x.take(spec_code_limit(x, info));
    let ce = spec_edited(c, info, spec_sb_len(p, c.len() as int, spec_cms_cap(adhoc)) as u32);
    &&& cd_wf(
        cd_model(HashKind::Sha256, p.ident, cd_flags(adhoc), ce, p.info_plist, p.entitlements),
    )
    &&& (!p.sha256_only ==> cd_wf(
        cd_model(HashKind::Sha1, p.ident, cd_flags(adhoc), ce, p.info_plist, p.entitlements),
    ))
}

/// Idempotence under `force`: re-signing an already-signed binary with the
/// same options and the same CMS bytes reproduces the signed output byte
/// for byte. (An output too large for the format's 32-bit offsets cannot
/// carry a signature and is left out.)
#[verifier::rlimit(100)]
pub proof fn lemma_force_resign_idempotent(x: Seq<u8>, p: ParamsModel, cms: Seq<u8>, adhoc: bool)
    requires
        p.force,
        adhoc ==> cms.len() == 0,
        spec_parse_macho(x) matches Some(info) && info.sig is Some,
        spec_sign(x, p, cms, adhoc) matches Ok(y) && y.len() <= 0xffffffff,
        run_cds_wf(x, p, adhoc),
    ensures
        spec_sign(x, p, cms, adhoc) matches Ok(y) && spec_sign(y, p, cms, adhoc) == Ok::<
            Seq<u8>,
            SignError,
        >(y),
{
    reveal(spec_output);
    let info = spec_parse_macho(x)->Some_0;
    let sc = info.sig->Some_0;
    let y = spec_sign(x, p, cms, adhoc)->Ok_0;
    let c = x.take(spec_code_limit(x, info));
    let cap = spec_cms_cap(adhoc);
    let sbl = spec_sb_len(p, c.len() as int, cap);
    let ce = spec_edited(c, info, sbl as u32);
    let flags = cd_flags(adhoc);
    let entries = spec_entries(p, ce, flags, cms, cap);
    let sb = sb_bytes(entries);
    assert(y == ce + sb);
    crate::macho::lemma_scan_sig_bounds(
        x,
        MACH_HEADER_LEN as int,
        MACH_HEADER_LEN + info.sizeofcmds,
        info.ncmds as nat,
    );
    assert(sc.dataoff + sc.datasize == x.len());
    assert(c.len() == sc.dataoff);
    assert(sc.lc_off + 16 <= sc.dataoff);
    assert(ce.len() == sc.dataoff);
    assert(cms.len() <= cap);
    lemma_entries_len(p, ce, flags, cms, cap);
    crate::blobs::lemma_sb_len(entries);
    assert(sb.len() == spec_sb_len(p, ce.len() as int, cap));
    assert(ce.len() == c.len());
    assert(sb.len() == sbl);
    assert(y.len() == sc.dataoff + sbl);
    assert(sbl == sbl as u32) by {
        assert(sc.dataoff + sbl <= 0xffffffff);
    }
    lemma_parse_after_set_sig(x, sb, sbl as u32);
    let info_y = MachOInfo {
        ncmds: info.ncmds,
        sizeofcmds: info.sizeofcmds,
        sig: Some(SigCommand { lc_off: sc.lc_off, dataoff: sc.dataoff, datasize: sbl as u32 }),
        min_seg_off: info.min_seg_off,
    };
    assert(spec_parse_macho(y) == Some(info_y));
    let c2 = y.take(spec_code_limit(y, info_y));
    assert(c2 =~= ce);
    let sbl2 = spec_sb_len(p, c2.len() as int, cap);
    assert(sbl2 == sbl);
    let lc = sc.lc_off as int;
    crate::macho::lemma_scan_sig_bounds(
        x,
        MACH_HEADER_LEN as int,
        MACH_HEADER_LEN + info.sizeofcmds,
        info.ncmds as nat,
    );
    assert(ce.subrange(lc + 8, lc + 12) =~= le32_bytes(sc.dataoff));
    assert(ce.subrange(lc + 12, lc + 16) =~= le32_bytes(sbl as u32));
    let inner = splice(ce, lc + 8, le32_bytes(ce.len() as u32));
    assert(ce.len() as u32 == sc.dataoff);
    lemma_splice_identity(ce, lc + 8, le32_bytes(sc.dataoff));
    assert(inner == ce);
    lemma_splice_identity(ce, lc + 12, le32_bytes(sbl as u32));
    let ce2 = spec_edited(c2, info_y, sbl2 as u32);
    assert(ce2 == ce);
    assert(spec_entries(p, ce2, flags, cms, cap) == entries);
    assert(spec_output(c2, info_y, p, cms, adhoc) == y);
    assert(spec_sign(y, p, cms, adhoc) == Ok::<Seq<u8>, SignError>(y));
}

} // verus!
