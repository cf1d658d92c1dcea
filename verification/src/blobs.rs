//! The code-signature blob structures: CodeDirectory, Requirements,
//! Entitlements, the CMS wrapper, and the SuperBlob container, each with an
//! exact model of its serialized form.

use vstd::prelude::*;
use crate::bytes::{be32_bytes, push_be32, push_all, push_zeros};
use crate::digest::HashKind;

verus! {

/// Wire magic of the SuperBlob container.
pub const CSMAGIC_EMBEDDED_SIGNATURE: u32 = 0xfade0cc0;

/// Wire magic of a CodeDirectory blob.
pub const CSMAGIC_CODEDIRECTORY: u32 = 0xfade0c02;

/// Wire magic of a requirement-set blob.
pub const CSMAGIC_REQUIREMENTS: u32 = 0xfade0c01;

/// Wire magic of an embedded-entitlements blob.
pub const CSMAGIC_EMBEDDED_ENTITLEMENTS: u32 = 0xfade7171;

/// Wire magic of the blob wrapper that carries the CMS signature.
pub const CSMAGIC_BLOBWRAPPER: u32 = 0xfade0b01;

/// SuperBlob index slot of the primary CodeDirectory.
pub const CSSLOT_CODEDIRECTORY: u32 = 0;

/// SuperBlob index slot of the requirement set.
pub const CSSLOT_REQUIREMENTS: u32 = 2;

/// SuperBlob index slot of the entitlements blob.
pub const CSSLOT_ENTITLEMENTS: u32 = 5;

/// SuperBlob index slot of the first alternate CodeDirectory.
pub const CSSLOT_ALTERNATE: u32 = 0x1000;

/// SuperBlob index slot of the CMS signature wrapper.
pub const CSSLOT_SIGNATURE: u32 = 0x10000;

/// CodeDirectory flag marking an ad-hoc signature.
pub const CS_ADHOC: u32 = 0x2;

/// CodeDirectory version emitted by this library.
pub const CD_VERSION: u32 = 0x20002;

/// Size in bytes of the fixed CodeDirectory header.
pub const CD_HEADER_LEN: usize = 44;

/// Pages of this size partition the signable region.
pub const PAGE_SIZE: usize = 4096;

/// log2 of `PAGE_SIZE`, as stored in the CodeDirectory `pageSize` field.
pub const PAGE_SIZE_LOG2: u8 = 12;

/// Longest identifier the CodeDirectory's embedded string may carry.
pub const MAX_IDENT_LEN: usize = 255;

/// Most special-slot digests a CodeDirectory of this library carries.
pub const MAX_SPECIAL_SLOTS: usize = 8;

/// Most code-page digests a CodeDirectory may carry (a 4 GiB region).
pub const MAX_CODE_SLOTS: usize = 0x100000;

/// One architecture slice's CodeDirectory: identity and content digests.
pub struct CodeDirectory {
    /// NUL-free ASCII identifier embedded in the directory.
    pub ident: Vec<u8>,
    /// Digest algorithm of every hash in this directory.
    pub hash_kind: HashKind,
    /// CodeDirectory flags word.
    pub flags: u32,
    /// Length of the signable region the code digests cover.
    pub code_limit: u32,
    /// Special-slot digests in wire order: the digest for special slot `k`
    /// (1-based) is at index `len - k`.
    pub special_hashes: Vec<Vec<u8>>,
    /// Per-page digests of the signable region, in page order.
    pub code_hashes: Vec<Vec<u8>>,
}

/// Mathematical model of a CodeDirectory.
pub ghost struct CodeDirModel {
    /// Identifier bytes.
    pub ident: Seq<u8>,
    /// Digest algorithm.
    pub hash_kind: HashKind,
    /// Flags word.
    pub flags: u32,
    /// Signable-region length.
    pub code_limit: u32,
    /// Special-slot digests in wire order.
    pub special: Seq<Seq<u8>>,
    /// Code-page digests in page order.
    pub code: Seq<Seq<u8>>,
}

impl View for CodeDirectory {
    type V = CodeDirModel;

    open spec fn view(&self) -> CodeDirModel {
        CodeDirModel {
            ident: self.ident@,
            hash_kind: self.hash_kind,
            flags: self.flags,
            code_limit: self.code_limit,
            special: self.special_hashes@.map_values(|h: Vec<u8>| h@),
            code: self.code_hashes@.map_values(|h: Vec<u8>| h@),
        }
    }
}

/// Well-formedness of a CodeDirectory model: the identifier respects the
/// embedded-string limit and carries no NUL, and every digest has the
/// algorithm's length.
pub open spec fn cd_wf(cd: CodeDirModel) -> bool {
    &&& cd.ident.len() <= MAX_IDENT_LEN
    &&& forall|i: int| 0 <= i < cd.ident.len() ==> cd.ident[i] != 0u8
    &&& cd.special.len() <= MAX_SPECIAL_SLOTS
    &&& cd.code.len() <= MAX_CODE_SLOTS
    &&& forall|i: int| 0 <= i < cd.special.len() ==> (#[trigger] cd.special[i]).len()
        == cd.hash_kind.spec_len()
    &&& forall|i: int| 0 <= i < cd.code.len() ==> (#[trigger] cd.code[i]).len()
        == cd.hash_kind.spec_len()
}

/// Concatenation of a sequence of byte sequences, in order.
pub open spec fn concat_seqs(s: Seq<Seq<u8>>) -> Seq<u8>
    decreases s.len(),
{
    if s.len() == 0 {
        Seq::empty()
    } else {
        s.first() + concat_seqs(s.drop_first())
    }
}

/// Extending a concatenation by one sequence appends that sequence.
pub proof fn lemma_concat_take_snoc(s: Seq<Seq<u8>>, j: int)
    requires
        0 <= j < s.len(),
    ensures
        concat_seqs(s.take(j + 1)) == concat_seqs(s.take(j)) + s[j],
    decreases j,
{
    if j == 0 {
        assert(s.take(1).drop_first() =~= Seq::<Seq<u8>>::empty());
        assert(s.take(1).first() == s[0]);
        assert(concat_seqs(s.take(1)) == s[0] + concat_seqs(Seq::<Seq<u8>>::empty()));
        assert(s[0] + concat_seqs(Seq::<Seq<u8>>::empty()) =~= s[0]);
        assert(concat_seqs(s.take(0)) + s[0] =~= s[0]);
    } else {
        lemma_concat_take_snoc(s.drop_first(), j - 1);
        assert(s.take(j + 1).drop_first() =~= s.drop_first().take(j));
        assert(s.take(j).drop_first() =~= s.drop_first().take(j - 1));
        assert(s.take(j + 1).first() == s.first());
        assert(s.take(j).first() == s.first());
        assert(s.drop_first()[j - 1] == s[j]);
        assert(concat_seqs(s.take(j + 1)) == s.first() + concat_seqs(s.drop_first().take(j)));
        assert(concat_seqs(s.take(j)) + s[j] == (s.first() + concat_seqs(
            s.drop_first().take(j - 1),
        )) + s.drop_first()[j - 1]);
        assert(s.first() + (concat_seqs(s.drop_first().take(j - 1)) + s.drop_first()[j - 1])
            =~= (s.first() + concat_seqs(s.drop_first().take(j - 1))) + s.drop_first()[j - 1]);
    }
}

/// Total length of a concatenation when every element has length `l`.
pub proof fn lemma_concat_uniform_len(s: Seq<Seq<u8>>, l: nat)
    requires
        forall|i: int| 0 <= i < s.len() ==> (#[trigger] s[i]).len() == l,
    ensures
        concat_seqs(s).len() == s.len() * l,
    decreases s.len(),
{
    if s.len() == 0 {
    } else {
        lemma_concat_uniform_len(s.drop_first(), l);
        assert(s.len() * l == l + (s.len() - 1) * l) by (nonlinear_arith);
    }
}

/// Offset of the hash array (the first code-page digest) within a
/// serialized CodeDirectory.
pub open spec fn cd_hash_offset(cd: CodeDirModel) -> nat {
    (CD_HEADER_LEN + cd.ident.len() + 1 + cd.special.len() * cd.hash_kind.spec_len()) as nat
}

/// Total serialized length of a CodeDirectory.
pub open spec fn cd_total_len(cd: CodeDirModel) -> nat {
    (cd_hash_offset(cd) + cd.code.len() * cd.hash_kind.spec_len()) as nat
}

/// The serialized form of a CodeDirectory: a 44-byte big-endian header,
/// the NUL-terminated identifier, the special-slot digests, then the
/// code-page digests.
pub open spec fn cd_bytes(cd: CodeDirModel) -> Seq<u8> {
    be32_bytes(CSMAGIC_CODEDIRECTORY) + be32_bytes(cd_total_len(cd) as u32) + be32_bytes(CD_VERSION)
        + be32_bytes(cd.flags) + be32_bytes(cd_hash_offset(cd) as u32) + be32_bytes(
        CD_HEADER_LEN as u32,
    ) + be32_bytes(cd.special.len() as u32) + be32_bytes(cd.code.len() as u32) + be32_bytes(
        cd.code_limit,
    ) + seq![
        cd.hash_kind.spec_len() as u8,
        cd.hash_kind.spec_tag(),
        0u8,
        PAGE_SIZE_LOG2,
    ] + be32_bytes(0) + cd.ident + seq![0u8] + concat_seqs(cd.special) + concat_seqs(cd.code)
}

/// The serialized empty requirement set.
pub open spec fn requirements_bytes() -> Seq<u8> {
    be32_bytes(CSMAGIC_REQUIREMENTS) + be32_bytes(12) + be32_bytes(0)
}

/// The serialized entitlements blob embedding `e` verbatim.
pub open spec fn entitlements_bytes(e: Seq<u8>) -> Seq<u8> {
    be32_bytes(CSMAGIC_EMBEDDED_ENTITLEMENTS) + be32_bytes((8 + e.len()) as u32) + e
}

/// The serialized CMS wrapper blob: the CMS bytes padded with zeros to the
/// reserved capacity; a zero capacity is the explicit ad-hoc marker.
pub open spec fn cms_wrapper_bytes(cms: Seq<u8>, capacity: nat) -> Seq<u8> {
    be32_bytes(CSMAGIC_BLOBWRAPPER) + be32_bytes((8 + capacity) as u32) + cms + Seq::<u8>::new(
        (capacity - cms.len()) as nat,
        |k: int| 0u8,
    )
}

/// One sub-blob of a SuperBlob: its index slot and serialized bytes.
pub struct BlobEntry {
    /// Index slot tag.
    pub slot: u32,
    /// Serialized blob bytes.
    pub data: Vec<u8>,
}

/// Mathematical model of a SuperBlob sub-blob.
pub ghost struct BlobEntryModel {
    /// Index slot tag.
    pub slot: u32,
    /// Serialized blob bytes.
    pub data: Seq<u8>,
}

impl View for BlobEntry {
    type V = BlobEntryModel;

    open spec fn view(&self) -> BlobEntryModel {
        BlobEntryModel { slot: self.slot, data: self.data@ }
    }
}

/// The models of a vector of sub-blobs, in order.
pub open spec fn entries_view(v: Seq<BlobEntry>) -> Seq<BlobEntryModel> {
    v.map_values(|e: BlobEntry| e@)
}

/// Sum of the serialized lengths of the sub-blobs.
pub open spec fn sum_blob_lens(es: Seq<BlobEntryModel>) -> nat
    decreases es.len(),
{
    if es.len() == 0 {
        0
    } else {
        (es.first().data.len() + sum_blob_lens(es.drop_first())) as nat
    }
}

/// Sum of the first `j + 1` blob lengths, one step at a time.
pub proof fn lemma_sum_take_snoc(es: Seq<BlobEntryModel>, j: int)
    requires
        0 <= j < es.len(),
    ensures
        sum_blob_lens(es.take(j + 1)) == sum_blob_lens(es.take(j)) + es[j].data.len(),
    decreases j,
{
    if j == 0 {
        assert(es.take(1).drop_first() =~= Seq::<BlobEntryModel>::empty());
        assert(es.take(1).first() == es[0]);
        assert(sum_blob_lens(Seq::<BlobEntryModel>::empty()) == 0);
        assert(es.take(0) =~= Seq::<BlobEntryModel>::empty());
        assert(sum_blob_lens(es.take(1)) == es[0].data.len() + sum_blob_lens(
            Seq::<BlobEntryModel>::empty(),
        ));
    } else {
        lemma_sum_take_snoc(es.drop_first(), j - 1);
        assert(es.take(j + 1).drop_first() =~= es.drop_first().take(j));
        assert(es.take(j).drop_first() =~= es.drop_first().take(j - 1));
        assert(es.take(j + 1).first() == es.first());
        assert(es.take(j).first() == es.first());
        assert(es.drop_first()[j - 1] == es[j]);
        assert(sum_blob_lens(es.take(j + 1)) == es.first().data.len() + sum_blob_lens(
            es.drop_first().take(j),
        ));
        assert(sum_blob_lens(es.take(j)) == es.first().data.len() + sum_blob_lens(
            es.drop_first().take(j - 1),
        ));
    }
}

/// Total serialized length of a SuperBlob: 12-byte header, 8 bytes of index
/// per sub-blob, then the sub-blobs themselves.
pub open spec fn sb_total_len(es: Seq<BlobEntryModel>) -> nat {
    (12 + 8 * es.len() + sum_blob_lens(es)) as nat
}

/// The SuperBlob index entries, given the offset of the first sub-blob.
pub open spec fn sb_index_bytes(es: Seq<BlobEntryModel>, off: nat) -> Seq<u8>
    decreases es.len(),
{
    if es.len() == 0 {
        Seq::empty()
    } else {
        be32_bytes(es.first().slot) + be32_bytes(off as u32) + sb_index_bytes(
            es.drop_first(),
            (off + es.first().data.len()) as nat,
        )
    }
}

/// The concatenated sub-blob payloads.
pub open spec fn sb_payload_bytes(es: Seq<BlobEntryModel>) -> Seq<u8>
    decreases es.len(),
{
    if es.len() == 0 {
        Seq::empty()
    } else {
        es.first().data + sb_payload_bytes(es.drop_first())
    }
}

/// The serialized SuperBlob: magic, declared total length, sub-blob count,
/// index, then the contiguous sub-blobs.
pub open spec fn sb_bytes(es: Seq<BlobEntryModel>) -> Seq<u8> {
    be32_bytes(CSMAGIC_EMBEDDED_SIGNATURE) + be32_bytes(sb_total_len(es) as u32) + be32_bytes(
        es.len() as u32,
    ) + sb_index_bytes(es, (12 + 8 * es.len()) as nat) + sb_payload_bytes(es)
}

/// The declared SuperBlob length is the actual serialized length.
pub proof fn lemma_sb_len(es: Seq<BlobEntryModel>)
    ensures
        sb_bytes(es).len() == sb_total_len(es),
        sb_index_bytes(es, (12 + 8 * es.len()) as nat).len() == 8 * es.len(),
        sb_payload_bytes(es).len() == sum_blob_lens(es),
{
    lemma_sb_index_len(es, (12 + 8 * es.len()) as nat);
    lemma_sb_payload_len(es);
}

/// Length of the index region.
pub proof fn lemma_sb_index_len(es: Seq<BlobEntryModel>, off: nat)
    ensures
        sb_index_bytes(es, off).len() == 8 * es.len(),
    decreases es.len(),
{
    if es.len() > 0 {
        lemma_sb_index_len(es.drop_first(), (off + es.first().data.len()) as nat);
    }
}

/// Length of the payload region.
pub proof fn lemma_sb_payload_len(es: Seq<BlobEntryModel>)
    ensures
        sb_payload_bytes(es).len() == sum_blob_lens(es),
    decreases es.len(),
{
    if es.len() > 0 {
        lemma_sb_payload_len(es.drop_first());
    }
}

/// Serializes a CodeDirectory.
pub fn build_code_directory(cd: &CodeDirectory) -> (r: Vec<u8>)
    requires
        cd_wf(cd@),
    ensures
        r@ == cd_bytes(cd@),
        r@.len() == cd_total_len(cd@),
        r@.len() <= 0x4000000,
{
    let hlen = cd.hash_kind.len();
    let ns = cd.special_hashes.len();
    let nc = cd.code_hashes.len();
    let ident_len = cd.ident.len();
    proof {
        assert(ns * hlen <= 8 * 32) by (nonlinear_arith)
            requires
                ns <= 8,
                hlen <= 32,
        ;
        assert(nc * hlen <= 0x100000 * 32) by (nonlinear_arith)
            requires
                nc <= 0x100000,
                hlen <= 32,
        ;
    }
    let hash_off: usize = CD_HEADER_LEN + ident_len + 1 + ns * hlen;
    let total: usize = hash_off + nc * hlen;
    let mut out: Vec<u8> = Vec::new();
    push_be32(&mut out, CSMAGIC_CODEDIRECTORY);
    push_be32(&mut out, total as u32);
    push_be32(&mut out, CD_VERSION);
    push_be32(&mut out, cd.flags);
    push_be32(&mut out, hash_off as u32);
    push_be32(&mut out, CD_HEADER_LEN as u32);
    push_be32(&mut out, ns as u32);
    push_be32(&mut out, nc as u32);
    push_be32(&mut out, cd.code_limit);
    out.push(hlen as u8);
    out.push(cd.hash_kind.tag());
    out.push(0u8);
    out.push(PAGE_SIZE_LOG2);
    push_be32(&mut out, 0);
    push_all(&mut out, &cd.ident);
    out.push(0u8);
    let ghost head: Seq<u8> = out@;
    let mut j: usize = 0;
    while j < ns
        invariant
            j <= ns,
            ns == cd.special_hashes@.len(),
            cd_wf(cd@),
            out@ == head + concat_seqs(cd@.special.take(j as int)),
        decreases ns - j,
    {
        push_all(&mut out, &cd.special_hashes[j]);
        proof {
            lemma_concat_take_snoc(cd@.special, j as int);
            assert(cd@.special[j as int] == cd.special_hashes@[j as int]@);
        }
        j = j + 1;
    }
    proof {
        assert(cd@.special.take(ns as int) =~= cd@.special);
    }
    let ghost head2: Seq<u8> = out@;
    let mut k: usize = 0;
    while k < nc
        invariant
            k <= nc,
            nc == cd.code_hashes@.len(),
            cd_wf(cd@),
            out@ == head2 + concat_seqs(cd@.code.take(k as int)),
        decreases nc - k,
    {
        push_all(&mut out, &cd.code_hashes[k]);
        proof {
            lemma_concat_take_snoc(cd@.code, k as int);
            assert(cd@.code[k as int] == cd.code_hashes@[k as int]@);
        }
        k = k + 1;
    }
    proof {
        assert(cd@.code.take(nc as int) =~= cd@.code);
        assert(concat_seqs(cd@.special.take(0)) =~= Seq::<u8>::empty());
        assert(concat_seqs(cd@.code.take(0)) =~= Seq::<u8>::empty());
        assert(head + Seq::<u8>::empty() =~= head);
        assert(head2 + Seq::<u8>::empty() =~= head2);
        lemma_concat_uniform_len(cd@.special, cd@.hash_kind.spec_len());
        lemma_concat_uniform_len(cd@.code, cd@.hash_kind.spec_len());
        assert(out@ =~= cd_bytes(cd@));
    }
    out
}

/// Serializes the empty requirement set.
pub fn build_requirements() -> (r: Vec<u8>)
    ensures
        r@ == requirements_bytes(),
        r@.len() == 12,
{
    let mut out: Vec<u8> = Vec::new();
    push_be32(&mut out, CSMAGIC_REQUIREMENTS);
    push_be32(&mut out, 12);
    push_be32(&mut out, 0);
    proof {
        assert(out@ =~= requirements_bytes());
    }
    out
}

/// Serializes the entitlements blob, embedding `e` verbatim.
pub fn build_entitlements(e: &Vec<u8>) -> (r: Vec<u8>)
    requires
        e@.len() <= 0x1000000,
    ensures
        r@ == entitlements_bytes(e@),
        r@.len() == 8 + e@.len(),
{
    let mut out: Vec<u8> = Vec::new();
    push_be32(&mut out, CSMAGIC_EMBEDDED_ENTITLEMENTS);
    push_be32(&mut out, 8 + e.len() as u32);
    push_all(&mut out, e);
    proof {
        assert(out@ =~= entitlements_bytes(e@));
    }
    out
}

/// Serializes the CMS wrapper blob, padding the CMS bytes to `capacity`.
pub fn build_cms_wrapper(cms: &Vec<u8>, capacity: usize) -> (r: Vec<u8>)
    requires
        cms@.len() <= capacity,
        capacity <= 0x1000000,
    ensures
        r@ == cms_wrapper_bytes(cms@, capacity as nat),
        r@.len() == 8 + capacity,
{
    let mut out: Vec<u8> = Vec::new();
    push_be32(&mut out, CSMAGIC_BLOBWRAPPER);
    push_be32(&mut out, 8 + capacity as u32);
    push_all(&mut out, cms);
    push_zeros(&mut out, capacity - cms.len());
    proof {
        assert(out@ =~= cms_wrapper_bytes(cms@, capacity as nat));
    }
    out
}

/// Serializes a SuperBlob from its sub-blobs, in the given canonical order.
pub fn build_superblob(entries: &Vec<BlobEntry>) -> (r: Vec<u8>)
    requires
        entries@.len() <= 8,
        forall|i: int| 0 <= i < entries@.len() ==> (#[trigger] entries@[i]).data@.len()
            <= 0x8000000,
    ensures
        r@ == sb_bytes(entries_view(entries@)),
        r@.len() == sb_total_len(entries_view(entries@)),
{
    let ghost es: Seq<BlobEntryModel> = entries_view(entries@);
    let n = entries.len();
    assert(n <= 8);
    let mut total: usize = 12 + 8 * n;
    let ghost first_off: nat = total as nat;
    let mut j: usize = 0;
    while j < n
        invariant
            j <= n,
            n == entries@.len(),
            es == entries_view(entries@),
            forall|i: int| 0 <= i < entries@.len() ==> (#[trigger] entries@[i]).data@.len()
                <= 0x8000000,
            n <= 8,
            total == 12 + 8 * n + sum_blob_lens(es.take(j as int)),
            total <= 12 + 8 * n + j * 0x8000000,
        decreases n - j,
    {
        proof {
            lemma_sum_take_snoc(es, j as int);
            assert(es[j as int].data.len() == entries@[j as int].data@.len());
            assert((j + 1) * 0x8000000 == j * 0x8000000 + 0x8000000) by (nonlinear_arith);
            assert((j + 1) * 0x8000000 <= 8 * 0x8000000) by (nonlinear_arith)
                requires j + 1 <= 8,
            ;
        }
        total = total + entries[j].data.len();
        j = j + 1;
    }
    proof {
        assert(es.take(n as int) =~= es);
        assert((n as int) * 0x8000000 <= 8 * 0x8000000) by (nonlinear_arith)
            requires n <= 8,
        ;
    }
    let mut out: Vec<u8> = Vec::new();
    push_be32(&mut out, CSMAGIC_EMBEDDED_SIGNATURE);
    push_be32(&mut out, total as u32);
    push_be32(&mut out, n as u32);
    let ghost head: Seq<u8> = out@;
    let mut off: usize = 12 + 8 * n;
    let mut k: usize = 0;
    while k < n
        invariant
            k <= n,
            n == entries@.len(),
            es == entries_view(entries@),
            forall|i: int| 0 <= i < entries@.len() ==> (#[trigger] entries@[i]).data@.len()
                <= 0x8000000,
            n <= 8,
            first_off == 12 + 8 * n,
            total <= 12 + 8 * n + 8 * 0x8000000,
            off == first_off + sum_blob_lens(es.take(k as int)),
            off <= first_off + k * 0x8000000,
            sb_index_bytes(es, first_off) == out@.subrange(head.len() as int, out@.len() as int)
                + sb_index_bytes(es.skip(k as int), off as nat),
            out@.subrange(0, head.len() as int) == head,
            out@.len() == head.len() + 8 * k,
        decreases n - k,
    {
        proof {
            assert(es.skip(k as int).first() == es[k as int]);
            assert(es.skip(k as int).drop_first() =~= es.skip(k as int + 1));
            lemma_sum_take_snoc(es, k as int);
            assert(es[k as int].data.len() == entries@[k as int].data@.len());
            assert((k + 1) * 0x8000000 == k * 0x8000000 + 0x8000000) by (nonlinear_arith);
            assert((k + 1) * 0x8000000 <= 8 * 0x8000000) by (nonlinear_arith)
                requires k + 1 <= 8,
            ;
        }
        let ghost out_before: Seq<u8> = out@;
        push_be32(&mut out, entries[k].slot);
        push_be32(&mut out, off as u32);
        proof {
            assert(out@.subrange(head.len() as int, out@.len() as int) =~= out_before.subrange(
                head.len() as int,
                out_before.len() as int,
            ) + be32_bytes(es[k as int].slot) + be32_bytes(off as u32));
            assert(out@.subrange(0, head.len() as int) =~= head);
        }
        off = off + entries[k].data.len();
        k = k + 1;
    }
    proof {
        assert(es.skip(n as int) =~= Seq::<BlobEntryModel>::empty());
        assert(sb_index_bytes(Seq::<BlobEntryModel>::empty(), off as nat) =~= Seq::<u8>::empty());
        assert(out@ =~= head + sb_index_bytes(es, first_off));
    }
    let ghost head2: Seq<u8> = out@;
    let mut m: usize = 0;
    while m < n
        invariant
            m <= n,
            n == entries@.len(),
            es == entries_view(entries@),
            sb_payload_bytes(es) == out@.subrange(head2.len() as int, out@.len() as int)
                + sb_payload_bytes(es.skip(m as int)),
            out@.subrange(0, head2.len() as int) == head2,
            out@.len() >= head2.len(),
        decreases n - m,
    {
        proof {
            assert(es.skip(m as int).first() == es[m as int]);
            assert(es.skip(m as int).drop_first() =~= es.skip(m as int + 1));
            assert(es[m as int].data == entries@[m as int].data@);
        }
        let ghost out_before: Seq<u8> = out@;
        push_all(&mut out, &entries[m].data);
        proof {
            assert(out@.subrange(head2.len() as int, out@.len() as int) =~= out_before.subrange(
                head2.len() as int,
                out_before.len() as int,
            ) + es[m as int].data);
            assert(out@.subrange(0, head2.len() as int) =~= head2);
        }
        m = m + 1;
    }
    proof {
        assert(es.skip(n as int) =~= Seq::<BlobEntryModel>::empty());
        assert(sb_payload_bytes(Seq::<BlobEntryModel>::empty()) =~= Seq::<u8>::empty());
        assert(out@ =~= head2 + sb_payload_bytes(es));
        assert(out@ =~= sb_bytes(es));
        lemma_sb_len(es);
    }
    out
}

} // verus!
