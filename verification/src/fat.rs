//! Fat (universal) binaries: the big-endian container holding one Mach-O
//! slice per architecture, its parser, and the re-layout that signing every
//! slice requires.

use vstd::prelude::*;
use crate::bytes::{be32_bytes, be32_val, push_be32, push_all, push_zeros, copy_range, read_be32};
use crate::errors::SignError;
use crate::sign::{ParamsModel, SignParams, spec_sign, sign_slice_with, res_view};

verus! {

/// Wire magic of a fat container (big-endian).
pub const FAT_MAGIC: u32 = 0xcafebabe;

/// Most slices a fat container of this library may hold.
pub const MAX_FAT_ARCH: usize = 16;

/// Largest permitted slice alignment exponent.
pub const MAX_FAT_ALIGN: u32 = 14;

/// The big-endian 32-bit value at offset `i` of `b`.
pub open spec fn be32_at(b: Seq<u8>, i: int) -> u32 {
    be32_val(b[i], b[i + 1], b[i + 2], b[i + 3])
}

/// One slice's entry in the fat header table.
#[derive(Clone, Copy, Debug, PartialEq, Eq, Structural)]
pub struct FatArch {
    /// CPU type tag.
    pub cputype: u32,
    /// CPU subtype tag.
    pub cpusubtype: u32,
    /// File offset of the slice.
    pub offset: u32,
    /// Size in bytes of the slice.
    pub size: u32,
    /// Alignment exponent of the slice (its offset is a multiple of 2^align).
    pub align: u32,
}

/// The arch entry at index `k` of the fat table of `b`.
pub open spec fn spec_arch_at(b: Seq<u8>, k: int) -> FatArch {
    FatArch {
        cputype: be32_at(b, 8 + 20 * k),
        cpusubtype: be32_at(b, 8 + 20 * k + 4),
        offset: be32_at(b, 8 + 20 * k + 8),
        size: be32_at(b, 8 + 20 * k + 12),
        align: be32_at(b, 8 + 20 * k + 16),
    }
}

/// Every arch entry is in bounds, aligned sanely, lies past the table, and
/// the slices are ordered without overlap.
pub open spec fn arches_wf(b: Seq<u8>, arches: Seq<FatArch>) -> bool {
    &&& forall|k: int| 0 <= k < arches.len() ==> {
        let a = #[trigger] arches[k];
        &&& a.offset + a.size <= b.len()
        &&& a.offset >= 8 + 20 * arches.len()
        &&& a.align <= MAX_FAT_ALIGN
    }
    &&& forall|k: int| 0 <= k < arches.len() - 1 ==> (#[trigger] arches[k]).offset + arches[k].size
        <= arches[k + 1].offset
}

/// The parsed fat table of `b`, or `None` when the magic or any declared
/// offset, size or alignment is inconsistent.
pub open spec fn spec_parse_fat(b: Seq<u8>) -> Option<Seq<FatArch>> {
    if b.len() < 8 || b.len() > 0xffffffff {
        None
    } else if be32_at(b, 0) != FAT_MAGIC {
        None
    } else {
        let n = be32_at(b, 4);
        if n == 0 || n > MAX_FAT_ARCH || 8 + 20 * n > b.len() {
            None
        } else {
            let arches = Seq::new(n as nat, |k: int| spec_arch_at(b, k));
            if arches_wf(b, arches) {
                Some(arches)
            } else {
                None
            }
        }
    }
}

/// The bytes of one slice of `b`.
pub open spec fn slice_of(b: Seq<u8>, a: FatArch) -> Seq<u8> {
    b.subrange(a.offset as int, a.offset + a.size)
}

/// Parses the fat table, reporting `MalformedBinary` exactly when the
/// buffer does not parse.
pub fn parse_fat(b: &Vec<u8>) -> (r: Result<Vec<FatArch>, SignError>)
    ensures
        match r {
            Ok(arches) => spec_parse_fat(b@) == Some(arches@),
            Err(e) => spec_parse_fat(b@) is None && e == SignError::MalformedBinary,
        },
{
    let len = b.len();
    if len < 8 || len as u64 > 0xffffffff {
        return Err(SignError::MalformedBinary);
    }
    if read_be32(b, 0) != FAT_MAGIC {
        return Err(SignError::MalformedBinary);
    }
    let n = read_be32(b, 4);
    if n == 0 || n as usize > MAX_FAT_ARCH || 20 * (n as usize) > len - 8 {
        return Err(SignError::MalformedBinary);
    }
    let count = n as usize;
    let mut arches: Vec<FatArch> = Vec::new();
    let mut k: usize = 0;
    while k < count
        invariant
            k <= count,
            count <= MAX_FAT_ARCH,
            8 + 20 * count <= b@.len() <= 0xffffffff,
            arches@.len() == k,
            forall|j: int| 0 <= j < k ==> arches@[j] == spec_arch_at(b@, j),
        decreases count - k,
    {
        let base: usize = 8 + 20 * k;
        let a = FatArch {
            cputype: read_be32(b, base),
            cpusubtype: read_be32(b, base + 4),
            offset: read_be32(b, base + 8),
            size: read_be32(b, base + 12),
            align: read_be32(b, base + 16),
        };
        arches.push(a);
        k = k + 1;
    }
    let mut j: usize = 0;
    while j < count
        invariant
            j <= count,
            count == arches@.len(),
            count <= MAX_FAT_ARCH,
            8 + 20 * count <= b@.len() <= 0xffffffff,
            len == b@.len(),
            8 <= b@.len(),
            be32_at(b@, 0) == FAT_MAGIC,
            count == be32_at(b@, 4),
            count > 0,
            forall|i: int| 0 <= i < count ==> arches@[i] == spec_arch_at(b@, i),
            forall|i: int| 0 <= i < j ==> {
                let a = #[trigger] arches@[i];
                &&& a.offset + a.size <= b@.len()
                &&& a.offset >= 8 + 20 * count
                &&& a.align <= MAX_FAT_ALIGN
            },
            forall|i: int| 0 <= i < j && i < count - 1 ==> (#[trigger] arches@[i]).offset
                + arches@[i].size <= arches@[i + 1].offset,
        decreases count - j,
    {
        let a = arches[j];
        if !((a.offset as u64) + (a.size as u64) <= len as u64 && (a.offset as usize) >= 8 + 20
            * count && a.align <= MAX_FAT_ALIGN) {
            proof {
                let spec_arches = Seq::new(count as nat, |i: int| spec_arch_at(b@, i));
                assert(arches@ =~= spec_arches);
                assert(!arches_wf(b@, spec_arches));
            }
            return Err(SignError::MalformedBinary);
        }
        if j + 1 < count {
            if !((a.offset as u64) + (a.size as u64) <= (arches[j + 1].offset as u64)) {
                proof {
                    let spec_arches = Seq::new(count as nat, |i: int| spec_arch_at(b@, i));
                    assert(arches@ =~= spec_arches);
                    assert(!arches_wf(b@, spec_arches));
                }
                return Err(SignError::MalformedBinary);
            }
        }
        j = j + 1;
    }
    proof {
        let spec_arches = Seq::new(count as nat, |i: int| spec_arch_at(b@, i));
        assert(arches@ =~= spec_arches);
        assert(arches_wf(b@, arches@));
    }
    Ok(arches)
}

/// `x` rounded up to the next multiple of `2^align`.
pub open spec fn spec_round_up(x: int, align: u32) -> int {
    let a = (1u64 << align) as int;
    ((x + a - 1) / a) * a
}

/// Per-slice results of signing every slice of a fat binary, in order; the
/// error of the first slice that fails.
pub open spec fn spec_sign_slices(
    input: Seq<u8>,
    arches: Seq<FatArch>,
    p: ParamsModel,
    cms: Seq<u8>,
    adhoc: bool,
) -> Result<Seq<Seq<u8>>, SignError>
    decreases arches.len(),
{
    if arches.len() == 0 {
        Ok(Seq::empty())
    } else {
        match spec_sign(slice_of(input, arches.first()), p, cms, adhoc) {
            Ok(s0) => match spec_sign_slices(input, arches.drop_first(), p, cms, adhoc) {
                Ok(rest) => Ok(seq![s0] + rest),
                Err(e) => Err(e),
            },
            Err(e) => Err(e),
        }
    }
}

/// The fat table entries over re-laid-out slices: each keeps its CPU tags
/// and alignment; offsets are recomputed in order.
pub open spec fn spec_fat_index(arches: Seq<FatArch>, slices: Seq<Seq<u8>>, pos: int) -> Seq<u8>
    decreases arches.len(),
{
    if arches.len() == 0 {
        Seq::empty()
    } else {
        let start = spec_round_up(pos, arches.first().align);
        be32_bytes(arches.first().cputype) + be32_bytes(arches.first().cpusubtype) + be32_bytes(
            start as u32,
        ) + be32_bytes(slices.first().len() as u32) + be32_bytes(arches.first().align)
            + spec_fat_index(
            arches.drop_first(),
            slices.drop_first(),
            start + slices.first().len(),
        )
    }
}

/// The re-laid-out slice payloads: each slice at its recomputed aligned
/// offset, with zero padding between.
pub open spec fn spec_fat_payload(arches: Seq<FatArch>, slices: Seq<Seq<u8>>, pos: int) -> Seq<u8>
    decreases arches.len(),
{
    if arches.len() == 0 {
        Seq::empty()
    } else {
        let start = spec_round_up(pos, arches.first().align);
        Seq::<u8>::new((start - pos) as nat, |k: int| 0u8) + slices.first() + spec_fat_payload(
            arches.drop_first(),
            slices.drop_first(),
            start + slices.first().len(),
        )
    }
}

/// End position after laying out every slice from `pos`.
pub open spec fn spec_fat_end(arches: Seq<FatArch>, slices: Seq<Seq<u8>>, pos: int) -> int
    decreases arches.len(),
{
    if arches.len() == 0 {
        pos
    } else {
        let start = spec_round_up(pos, arches.first().align);
        spec_fat_end(arches.drop_first(), slices.drop_first(), start + slices.first().len())
    }
}

/// The serialized re-signed fat binary: magic, slice count, recomputed
/// table, then the slices at their aligned offsets.
pub open spec fn spec_fat_bytes(arches: Seq<FatArch>, slices: Seq<Seq<u8>>) -> Seq<u8> {
    be32_bytes(FAT_MAGIC) + be32_bytes(arches.len() as u32) + spec_fat_index(
        arches,
        slices,
        8 + 20 * arches.len() as int,
    ) + spec_fat_payload(arches, slices, 8 + 20 * arches.len() as int)
}

/// What signing a fat binary returns: every slice signed independently and
/// re-laid out, or the first slice's error, or `LayoutOverflow` when the
/// re-laid-out container would no longer fit the format's offsets.
pub open spec fn spec_sign_fat(input: Seq<u8>, p: ParamsModel, cms: Seq<u8>, adhoc: bool) -> Result<
    Seq<u8>,
    SignError,
> {
    match spec_parse_fat(input) {
        Option::None => Err(SignError::MalformedBinary),
        Option::Some(arches) => match spec_sign_slices(input, arches, p, cms, adhoc) {
            Err(e) => Err(e),
            Ok(slices) => {
                if spec_fat_end(arches, slices, 8 + 20 * arches.len() as int) <= 0xffffffff {
                    Ok(spec_fat_bytes(arches, slices))
                } else {
                    Err(SignError::LayoutOverflow)
                }
            },
        },
    }
}

/// Fat completeness: when signing a fat binary succeeds, every slice was
/// signed independently — the k-th signed slice is exactly what signing the
/// k-th input slice alone returns, with no influence from its neighbours.
pub proof fn lemma_fat_slices_independent(
    input: Seq<u8>,
    arches: Seq<FatArch>,
    p: ParamsModel,
    cms: Seq<u8>,
    adhoc: bool,
)
    requires
        spec_sign_slices(input, arches, p, cms, adhoc) matches Ok(v),
    ensures
        spec_sign_slices(input, arches, p, cms, adhoc) matches Ok(v) && v.len() == arches.len()
            && forall|k: int| 0 <= k < arches.len() ==> spec_sign(
            slice_of(input, arches[k]),
            p,
            cms,
            adhoc,
        ) == Ok::<Seq<u8>, crate::errors::SignError>(v[k]),
    decreases arches.len(),
{
    let v = spec_sign_slices(input, arches, p, cms, adhoc)->Ok_0;
    if arches.len() > 0 {
        lemma_fat_slices_independent(input, arches.drop_first(), p, cms, adhoc);
        let s0 = spec_sign(slice_of(input, arches.first()), p, cms, adhoc)->Ok_0;
        let rest = spec_sign_slices(input, arches.drop_first(), p, cms, adhoc)->Ok_0;
        assert(v == seq![s0] + rest);
        assert(v[0] == s0);
        assert forall|k: int| 0 < k < arches.len() implies spec_sign(
            slice_of(input, arches[k]),
            p,
            cms,
            adhoc,
        ) == Ok::<Seq<u8>, crate::errors::SignError>(v[k]) by {
            assert(arches.drop_first()[k - 1] == arches[k]);
            assert(rest[k - 1] == v[k]);
        }
    }
}

/// Laying out slices never moves the position backwards.
pub proof fn lemma_fat_end_ge(arches: Seq<FatArch>, slices: Seq<Seq<u8>>, pos: int)
    requires
        forall|k: int| 0 <= k < arches.len() ==> (#[trigger] arches[k]).align <= MAX_FAT_ALIGN,
    ensures
        spec_fat_end(arches, slices, pos) >= pos,
    decreases arches.len(),
{
    if arches.len() > 0 {
        let al = arches.first().align;
        let a = (1u64 << al) as int;
        assert(1u64 << al >= 1) by (bit_vector)
            requires
                al <= 14u32,
        ;
        assert(((pos + a - 1) / a) * a >= pos) by (nonlinear_arith)
            requires
                a >= 1,
        ;
        lemma_fat_end_ge(
            arches.drop_first(),
            slices.drop_first(),
            spec_round_up(pos, arches.first().align) + slices.first().len(),
        );
    }
}

/// The views of a vector of byte vectors.
pub open spec fn views_of(v: Seq<Vec<u8>>) -> Seq<Seq<u8>> {
    v.map_values(|x: Vec<u8>| x@)
}

/// Signs every slice of a fat binary in order, stopping at the first
/// slice that fails.
pub fn sign_all_slices(input: &Vec<u8>, arches: &Vec<FatArch>, params: &SignParams, cms: &Vec<u8>, adhoc: bool) -> (r: Result<Vec<Vec<u8>>, SignError>)
    requires
        adhoc ==> cms@.len() == 0,
        arches_wf(input@, arches@),
        input@.len() <= 0xffffffff,
    ensures
        match r {
            Ok(v) => spec_sign_slices(input@, arches@, params@, cms@, adhoc) == Ok::<Seq<Seq<u8>>, SignError>(views_of(v@)) && v@.len() == arches@.len(),
            Err(e) => spec_sign_slices(input@, arches@, params@, cms@, adhoc) == Err::<Seq<Seq<u8>>, SignError>(e),
        },
{
    let count = arches.len();
    let ghost whole: Result<Seq<Seq<u8>>, SignError> = spec_sign_slices(
        input@,
        arches@,
        params@,
        cms@,
        adhoc,
    );
    let mut signed: Vec<Vec<u8>> = Vec::new();
    proof {
        assert(arches@.skip(0) =~= arches@);
        assert(views_of(signed@) =~= Seq::<Seq<u8>>::empty());
        match whole {
            Ok(rest) => {
                assert(views_of(signed@) + rest =~= rest);
            },
            Err(_) => {},
        }
    }
    let mut j: usize = 0;
    while j < count
        invariant
            j <= count,
            count == arches@.len(),
            adhoc ==> cms@.len() == 0,
            arches_wf(input@, arches@),
            input@.len() <= 0xffffffff,
            whole == spec_sign_slices(input@, arches@, params@, cms@, adhoc),
            signed@.len() == j,
            whole == (match spec_sign_slices(
                input@,
                arches@.skip(j as int),
                params@,
                cms@,
                adhoc,
            ) {
                Ok(rest) => Ok::<Seq<Seq<u8>>, SignError>(views_of(signed@) + rest),
                Err(e) => Err::<Seq<Seq<u8>>, SignError>(e),
            }),
        decreases count - j,
    {
        let a = arches[j];
        proof {
            assert(arches@.skip(j as int).first() == arches@[j as int]);
            assert(arches@.skip(j as int).drop_first() =~= arches@.skip(j as int + 1));
        }
        let slice = copy_range(input, a.offset as usize, (a.offset as usize) + (a.size as usize));
        proof {
            assert(slice@ =~= slice_of(input@, arches@[j as int]));
        }
        let sres = sign_slice_with(&slice, params, cms, adhoc);
        match sres {
            Ok(s) => {
                let ghost old_signed: Seq<Vec<u8>> = signed@;
                signed.push(s);
                proof {
                    assert(views_of(signed@) =~= views_of(old_signed) + seq![s@]);
                    match spec_sign_slices(
                        input@,
                        arches@.skip(j as int + 1),
                        params@,
                        cms@,
                        adhoc,
                    ) {
                        Ok(rest2) => {
                            assert((views_of(old_signed) + (seq![s@] + rest2)) =~= (views_of(
                                old_signed,
                            ) + seq![s@]) + rest2);
                        },
                        Err(_) => {},
                    }
                }
            },
            Err(e) => {
                return Err(e);
            },
        }
        j = j + 1;
    }
    proof {
        assert(arches@.skip(count as int) =~= Seq::<FatArch>::empty());
        assert(views_of(signed@) + Seq::<Seq<u8>>::empty() =~= views_of(signed@));
    }
    Ok(signed)
}

/// Re-lays the signed slices out behind a fresh fat table, or reports
/// `LayoutOverflow` when the container no longer fits the format's offsets.
pub fn assemble_fat(arches: &Vec<FatArch>, signed: &Vec<Vec<u8>>) -> (r: Result<Vec<u8>, SignError>)
    requires
        arches@.len() == signed@.len(),
        arches@.len() <= MAX_FAT_ARCH,
        forall|k: int| 0 <= k < arches@.len() ==> (#[trigger] arches@[k]).align <= MAX_FAT_ALIGN,
    ensures
        match r {
            Ok(out) => spec_fat_end(arches@, views_of(signed@), 8 + 20 * arches@.len() as int)
                <= 0xffffffff && out@ == spec_fat_bytes(arches@, views_of(signed@)),
            Err(e) => spec_fat_end(arches@, views_of(signed@), 8 + 20 * arches@.len() as int)
                > 0xffffffff && e == SignError::LayoutOverflow,
        },
{
    let ghost vs: Seq<Seq<u8>> = views_of(signed@);
    let count = arches.len();
    let first_pos: u64 = (8 + 20 * count) as u64;
    let mut pos: u64 = first_pos;
    let mut idx: Vec<u8> = Vec::new();
    let mut pay: Vec<u8> = Vec::new();
    proof {
        assert(arches@.skip(0) =~= arches@);
        assert(vs.skip(0) =~= vs);
        assert(Seq::<u8>::empty() + spec_fat_index(arches@, vs, first_pos as int)
            =~= spec_fat_index(arches@, vs, first_pos as int));
        assert(Seq::<u8>::empty() + spec_fat_payload(arches@, vs, first_pos as int)
            =~= spec_fat_payload(arches@, vs, first_pos as int));
    }
    let mut k: usize = 0;
    while k < count
        invariant
            k <= count,
            count == arches@.len() == signed@.len(),
            count <= MAX_FAT_ARCH,
            vs == views_of(signed@),
            forall|i: int| 0 <= i < arches@.len() ==> (#[trigger] arches@[i]).align
                <= MAX_FAT_ALIGN,
            first_pos == 8 + 20 * count,
            first_pos <= pos <= 0xffffffff,
            spec_fat_index(arches@, vs, first_pos as int) == idx@ + spec_fat_index(
                arches@.skip(k as int),
                vs.skip(k as int),
                pos as int,
            ),
            spec_fat_payload(arches@, vs, first_pos as int) == pay@ + spec_fat_payload(
                arches@.skip(k as int),
                vs.skip(k as int),
                pos as int,
            ),
            spec_fat_end(arches@, vs, first_pos as int) == spec_fat_end(
                arches@.skip(k as int),
                vs.skip(k as int),
                pos as int,
            ),
        decreases count - k,
    {
        let a = arches[k];
        proof {
            assert(arches@.skip(k as int).first() == arches@[k as int]);
            assert(arches@.skip(k as int).drop_first() =~= arches@.skip(k as int + 1));
            assert(vs.skip(k as int).first() == vs[k as int]);
            assert(vs.skip(k as int).drop_first() =~= vs.skip(k as int + 1));
            assert(vs[k as int] == signed@[k as int]@);
        }
        let align_unit: u64 = 1u64 << a.align;
        proof {
            let al = a.align;
            assert(1u64 << al >= 1 && 1u64 << al <= 0x4000) by (bit_vector)
                requires
                    al <= 14u32,
            ;
            assert(align_unit >= 1 && align_unit <= 0x4000);
        }
        let q: u64 = (pos + align_unit - 1) / align_unit;
        proof {
            let au = align_unit as int;
            let qq = q as int;
            let pp = pos as int;
            assert(pp <= qq * au <= pp + au - 1) by (nonlinear_arith)
                requires
                    au >= 1,
                    pp >= 0,
                    qq == (pp + au - 1) / au,
            ;
        }
        let start: u64 = q * align_unit;
        proof {
            assert(start == spec_round_up(pos as int, a.align));
        }
        let slen: usize = signed[k].len();
        if start > 0xffffffff || (0xffffffffu64 - start) < slen as u64 {
            proof {
                lemma_fat_end_ge(
                    arches@.skip(k as int + 1),
                    vs.skip(k as int + 1),
                    start as int + slen as int,
                );
            }
            return Err(SignError::LayoutOverflow);
        }
        push_be32(&mut idx, a.cputype);
        push_be32(&mut idx, a.cpusubtype);
        push_be32(&mut idx, start as u32);
        push_be32(&mut idx, slen as u32);
        push_be32(&mut idx, a.align);
        push_zeros(&mut pay, (start - pos) as usize);
        push_all(&mut pay, &signed[k]);
        pos = start + slen as u64;
        k = k + 1;
    }
    proof {
        assert(arches@.skip(count as int) =~= Seq::<FatArch>::empty());
        assert(vs.skip(count as int) =~= Seq::<Seq<u8>>::empty());
        assert(idx@ + Seq::<u8>::empty() =~= idx@);
        assert(pay@ + Seq::<u8>::empty() =~= pay@);
    }
    let mut out: Vec<u8> = Vec::new();
    push_be32(&mut out, FAT_MAGIC);
    push_be32(&mut out, count as u32);
    push_all(&mut out, &idx);
    push_all(&mut out, &pay);
    proof {
        assert(out@ =~= spec_fat_bytes(arches@, vs));
    }
    Ok(out)
}

/// Signs every slice of a fat binary independently and re-lays the
/// container out, returning exactly what `spec_sign_fat` owes that input.
pub fn sign_fat(input: &Vec<u8>, params: &SignParams, cms: &Vec<u8>, adhoc: bool) -> (r: Result<
    Vec<u8>,
    SignError,
>)
    requires
        adhoc ==> cms@.len() == 0,
    ensures
        res_view(r) == spec_sign_fat(input@, params@, cms@, adhoc),
{
    let arches = match parse_fat(input) {
        Ok(a) => a,
        Err(e) => {
            return Err(e);
        },
    };
    let signed = match sign_all_slices(input, &arches, params, cms, adhoc) {
        Ok(v) => v,
        Err(e) => {
            return Err(e);
        },
    };
    proof {
        assert(arches@.len() <= MAX_FAT_ARCH);
    }
    assemble_fat(&arches, &signed)
}

} // verus!
