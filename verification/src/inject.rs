//! The dylib injector: appends a load-dylib load command (weak on request)
//! to the command table, strictly before any digest is computed.

use vstd::prelude::*;
use crate::bytes::{le32_bytes, splice, set_le32, push_le32, push_all, push_zeros, copy_range};
use crate::errors::SignError;
use crate::macho::{
    MachOInfo, spec_parse_macho, parse_macho, LC_LOAD_WEAK_DYLIB, MACH_HEADER_LEN,
};
use crate::sign::ident_ok;

verus! {

/// Ordinary (strongly bound) load-dylib load command.
pub const LC_LOAD_DYLIB: u32 = 0xc;

/// Longest dylib path this library will inject.
pub const MAX_DYLIB_PATH: usize = 1024;

/// `n` rounded up to the next multiple of 8.
pub open spec fn pad8(n: int) -> int {
    ((n + 7) / 8) * 8
}

/// Size of the injected load command: a 24-byte dylib command header and the
/// NUL-terminated path, padded to an 8-byte boundary.
pub open spec fn dylib_cmd_size(path: Seq<u8>) -> int {
    24 + pad8(path.len() as int + 1)
}

/// The serialized injected load command.
pub open spec fn dylib_cmd_bytes(path: Seq<u8>, weak: bool) -> Seq<u8> {
    le32_bytes(
        if weak {
            LC_LOAD_WEAK_DYLIB
        } else {
            LC_LOAD_DYLIB
        },
    ) + le32_bytes(dylib_cmd_size(path) as u32) + le32_bytes(24) + le32_bytes(0) + le32_bytes(0)
        + le32_bytes(0) + path + Seq::<u8>::new((dylib_cmd_size(path) - 24 - path.len()) as nat, |k: int| 0u8)
}

/// The slice with the load command appended: header counts grown, the
/// command bytes overwriting the padding after the table.
pub open spec fn spec_injected(b: Seq<u8>, info: MachOInfo, path: Seq<u8>, weak: bool) -> Seq<u8> {
    splice(
        splice(
            splice(b, 16, le32_bytes((info.ncmds + 1) as u32)),
            20,
            le32_bytes((info.sizeofcmds + dylib_cmd_size(path)) as u32),
        ),
        MACH_HEADER_LEN + info.sizeofcmds,
        dylib_cmd_bytes(path, weak),
    )
}

/// The path is usable: nonempty, NUL-free, and within the path bound.
pub open spec fn path_ok(path: Seq<u8>) -> bool {
    &&& 0 < path.len() <= MAX_DYLIB_PATH
    &&& ident_ok(path)
}

/// There is room to append the command without reaching the first segment's
/// file data or the end of the slice.
pub open spec fn inject_room(b: Seq<u8>, info: MachOInfo, path: Seq<u8>) -> bool {
    &&& MACH_HEADER_LEN + info.sizeofcmds + dylib_cmd_size(path) <= b.len()
    &&& MACH_HEADER_LEN + info.sizeofcmds + dylib_cmd_size(path) <= info.min_seg_off
    &&& info.ncmds < 0x1fffffff
}

/// What injecting one dylib reference returns, for every input: the edited
/// slice, or the error owed to that input. A table that cannot grow is
/// `InvalidInput`: injection is not possible for this binary.
pub open spec fn spec_inject_dylib(b: Seq<u8>, path: Seq<u8>, weak: bool) -> Result<
    Seq<u8>,
    SignError,
> {
    match spec_parse_macho(b) {
        Option::None => Err(SignError::MalformedBinary),
        Option::Some(info) => {
            if !path_ok(path) {
                Err(SignError::InvalidInput)
            } else if !inject_room(b, info, path) {
                Err(SignError::InvalidInput)
            } else {
                Ok(spec_injected(b, info, path, weak))
            }
        },
    }
}

/// Overwrites the bytes at `[i, i + w.len())` of `v` with `w`.
pub fn write_bytes_at(v: &mut Vec<u8>, i: usize, w: &Vec<u8>)
    requires
        i + w@.len() <= old(v)@.len(),
    ensures
        final(v)@ == splice(old(v)@, i as int, w@),
        final(v)@.len() == old(v)@.len(),
{
    let vlen = v.len();
    let n = w.len();
    let mut j: usize = 0;
    while j < n
        invariant
            j <= n,
            n == w@.len(),
            i + n <= v@.len(),
            v@.len() <= usize::MAX,
            v@.len() == old(v)@.len(),
            forall|k: int| 0 <= k < j ==> v@[i + k] == w@[k],
            forall|k: int| 0 <= k < v@.len() && !(i <= k < i + j) ==> v@[k] == old(v)@[k],
        decreases n - j,
    {
        v.set(i + j, w[j]);
        j = j + 1;
    }
    assert(v@ =~= splice(old(v)@, i as int, w@));
}

/// Builds the serialized injected load command.
pub fn build_dylib_cmd(path: &Vec<u8>, weak: bool) -> (r: Vec<u8>)
    requires
        path_ok(path@),
    ensures
        r@ == dylib_cmd_bytes(path@, weak),
        r@.len() == dylib_cmd_size(path@),
{
    let plen = path.len();
    let padded: usize = ((plen + 1 + 7) / 8) * 8;
    let size: usize = 24 + padded;
    proof {
        assert(padded == pad8(plen + 1) && plen < padded <= plen + 8) by (nonlinear_arith)
            requires
                padded == ((plen + 1 + 7) / 8) * 8int,
                0 < plen <= 1024,
        ;
    }
    let mut out: Vec<u8> = Vec::new();
    push_le32(
        &mut out,
        if weak {
            LC_LOAD_WEAK_DYLIB
        } else {
            LC_LOAD_DYLIB
        },
    );
    push_le32(&mut out, size as u32);
    push_le32(&mut out, 24);
    push_le32(&mut out, 0);
    push_le32(&mut out, 0);
    push_le32(&mut out, 0);
    push_all(&mut out, path);
    push_zeros(&mut out, size - 24 - plen);
    proof {
        assert(out@ =~= dylib_cmd_bytes(path@, weak));
    }
    out
}

/// Injects one dylib reference, returning exactly what `spec_inject_dylib`
/// owes the input.
pub fn inject_dylib(input: &Vec<u8>, path: &Vec<u8>, weak: bool) -> (r: Result<Vec<u8>, SignError>)
    ensures
        crate::sign::res_view(r) == spec_inject_dylib(input@, path@, weak),
{
    let info = match parse_macho(input) {
        Ok(i) => i,
        Err(e) => {
            return Err(e);
        },
    };
    let plen = path.len();
    if plen == 0 || plen > MAX_DYLIB_PATH || crate::sign::has_nul(path) {
        return Err(SignError::InvalidInput);
    }
    let cmd = build_dylib_cmd(path, weak);
    let csize = cmd.len();
    let fits = (MACH_HEADER_LEN as u64) + (info.sizeofcmds as u64) + (csize as u64) <= input.len()
        as u64 && (MACH_HEADER_LEN as u64) + (info.sizeofcmds as u64) + (csize as u64)
        <= info.min_seg_off && info.ncmds < 0x1fffffff;
    if !fits {
        return Err(SignError::InvalidInput);
    }
    let mut out = copy_range(input, 0, input.len());
    proof {
        assert(out@ =~= input@);
    }
    set_le32(&mut out, 16, info.ncmds + 1);
    set_le32(&mut out, 20, info.sizeofcmds + csize as u32);
    write_bytes_at(&mut out, MACH_HEADER_LEN + info.sizeofcmds as usize, &cmd);
    proof {
        assert(out@ =~= spec_injected(input@, info, path@, weak));
    }
    Ok(out)
}

/// Injecting places the command bytes inside the signable region, before
/// any digest is computed: the edited slice carries them at the end of the
/// grown table, and its length is unchanged, so a subsequent signing run's
/// page digests cover them.
pub proof fn lemma_inject_places_command(b: Seq<u8>, path: Seq<u8>, weak: bool)
    requires
        spec_inject_dylib(b, path, weak) matches Ok(y),
    ensures
        spec_inject_dylib(b, path, weak) matches Ok(y) && {
            let info = spec_parse_macho(b)->Some_0;
            &&& y.len() == b.len()
            &&& y.subrange(
                MACH_HEADER_LEN + info.sizeofcmds,
                MACH_HEADER_LEN + info.sizeofcmds + dylib_cmd_size(path),
            ) == dylib_cmd_bytes(path, weak)
        },
{
    let info = spec_parse_macho(b)->Some_0;
    let y = spec_inject_dylib(b, path, weak)->Ok_0;
    assert(dylib_cmd_bytes(path, weak).len() == dylib_cmd_size(path));
    assert(y.len() == b.len());
    assert(y.subrange(
        MACH_HEADER_LEN + info.sizeofcmds,
        MACH_HEADER_LEN + info.sizeofcmds + dylib_cmd_size(path),
    ) =~= dylib_cmd_bytes(path, weak));
}

} // verus!
