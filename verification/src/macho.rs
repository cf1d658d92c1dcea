//! Parsing of one Mach-O architecture slice: header validation, the load
//! command walk, and location of the code-signature region.

use vstd::prelude::*;
use crate::bytes::{le32_val, le64_val, read_le32, read_le64};
use crate::errors::SignError;

verus! {

/// Magic of a 64-bit little-endian Mach-O header.
pub const MH_MAGIC_64: u32 = 0xfeedfacf;

/// Load command carrying the code-signature region.
pub const LC_CODE_SIGNATURE: u32 = 0x1d;

/// 64-bit segment load command.
pub const LC_SEGMENT_64: u32 = 0x19;

/// Weakly-bound load-dylib load command.
pub const LC_LOAD_WEAK_DYLIB: u32 = 0x80000018;

/// Size in bytes of the 64-bit Mach-O header.
pub const MACH_HEADER_LEN: usize = 32;

/// Size in bytes of a code-signature load command.
pub const SIG_CMD_LEN: usize = 16;

/// Sentinel for "no segment with a nonzero file offset was seen".
pub const NO_SEG_OFF: u64 = 0xffffffffffffffff;

/// The little-endian 32-bit value at offset `i` of `b`.
pub open spec fn le32_at(b: Seq<u8>, i: int) -> u32 {
    le32_val(b[i], b[i + 1], b[i + 2], b[i + 3])
}

/// The little-endian 64-bit value at offset `i` of `b`.
pub open spec fn le64_at(b: Seq<u8>, i: int) -> u64 {
    le64_val(le32_at(b, i), le32_at(b, i + 4))
}

/// The located code-signature load command of a slice.
#[derive(Clone, Copy, Debug, PartialEq, Eq, Structural)]
pub struct SigCommand {
    /// File offset of the load command itself.
    pub lc_off: u32,
    /// File offset of the signature blob (start of the non-signable tail).
    pub dataoff: u32,
    /// Declared size of the signature blob.
    pub datasize: u32,
}

/// What one walk over the load commands yields.
#[derive(Clone, Copy, Debug, PartialEq, Eq, Structural)]
pub struct CmdScan {
    /// The first code-signature command, if any.
    pub sig: Option<SigCommand>,
    /// Lowest nonzero segment file offset, or `NO_SEG_OFF` if none.
    pub min_seg_off: u64,
}

/// The structural facts of a parsed Mach-O slice that the engine edits.
#[derive(Clone, Copy, Debug, PartialEq, Eq, Structural)]
pub struct MachOInfo {
    /// Number of load commands.
    pub ncmds: u32,
    /// Total size in bytes of the load command table.
    pub sizeofcmds: u32,
    /// The code-signature command, if the slice is signed.
    pub sig: Option<SigCommand>,
    /// Lowest nonzero segment file offset, or `NO_SEG_OFF` if none.
    pub min_seg_off: u64,
}

/// The smaller of two 64-bit values.
pub open spec fn min64(a: u64, b: u64) -> u64 {
    if a <= b {
        a
    } else {
        b
    }
}

/// Walks `n` load commands over `[off, end)` of `b`, validating each
/// command's declared size and collecting the first code-signature command
/// and the lowest nonzero segment file offset. `None` when the table is
/// inconsistent.
pub open spec fn scan_cmds(b: Seq<u8>, off: int, end: int, n: nat) -> Option<CmdScan>
    decreases n,
{
    if n == 0 {
        if off == end {
            Some(CmdScan { sig: None, min_seg_off: NO_SEG_OFF })
        } else {
            None
        }
    } else if off + 8 > end {
        None
    } else {
        let cmd = le32_at(b, off);
        let size = le32_at(b, off + 4);
        if size < 8 || off + size > end {
            None
        } else if cmd == LC_CODE_SIGNATURE && size != SIG_CMD_LEN {
            None
        } else if cmd == LC_SEGMENT_64 && size < 72 {
            None
        } else {
            match scan_cmds(b, off + size, end, (n - 1) as nat) {
                Option::None => None,
                Option::Some(rest) => {
                    let sig = if cmd == LC_CODE_SIGNATURE {
                        Some(
                            SigCommand {
                                lc_off: off as u32,
                                dataoff: le32_at(b, off + 8),
                                datasize: le32_at(b, off + 12),
                            },
                        )
                    } else {
                        rest.sig
                    };
                    let seg_off = le64_at(b, off + 40);
                    let mn = if cmd == LC_SEGMENT_64 && seg_off > 0 {
                        min64(seg_off, rest.min_seg_off)
                    } else {
                        rest.min_seg_off
                    };
                    Some(CmdScan { sig, min_seg_off: mn })
                },
            }
        }
    }
}

/// The parsed form of a thin 64-bit Mach-O slice, or `None` when the magic
/// is unrecognized or any declared offset or size is inconsistent with the
/// buffer. A present signature region must lie past the load commands and
/// reach exactly to the end of the slice.
pub open spec fn spec_parse_macho(b: Seq<u8>) -> Option<MachOInfo> {
    if b.len() < MACH_HEADER_LEN || b.len() > 0xffffffff {
        None
    } else if le32_at(b, 0) != MH_MAGIC_64 {
        None
    } else {
        let ncmds = le32_at(b, 16);
        let sizeofcmds = le32_at(b, 20);
        if MACH_HEADER_LEN + sizeofcmds > b.len() {
            None
        } else {
            match scan_cmds(b, MACH_HEADER_LEN as int, MACH_HEADER_LEN + sizeofcmds, ncmds as nat) {
                Option::None => None,
                Option::Some(scan) => {
                    let ok = match scan.sig {
                        Option::Some(sc) => MACH_HEADER_LEN + sizeofcmds <= sc.dataoff
                            && sc.dataoff + sc.datasize == b.len(),
                        Option::None => true,
                    };
                    if ok {
                        Some(
                            MachOInfo {
                                ncmds,
                                sizeofcmds,
                                sig: scan.sig,
                                min_seg_off: scan.min_seg_off,
                            },
                        )
                    } else {
                        None
                    }
                },
            }
        }
    }
}

/// Length of the signable region of a slice: everything before the
/// signature blob, or the whole slice when it is unsigned.
pub open spec fn spec_code_limit(b: Seq<u8>, info: MachOInfo) -> int {
    match info.sig {
        Option::Some(sc) => sc.dataoff as int,
        Option::None => b.len() as int,
    }
}

/// Folds one command's contribution onto an accumulated prefix scan.
pub open spec fn combine_scan(
    acc_sig: Option<SigCommand>,
    acc_min: u64,
    rest: Option<CmdScan>,
) -> Option<CmdScan> {
    match rest {
        Option::None => None,
        Option::Some(s) => Some(
            CmdScan {
                sig: if acc_sig is Some {
                    acc_sig
                } else {
                    s.sig
                },
                min_seg_off: min64(acc_min, s.min_seg_off),
            },
        ),
    }
}

/// Parses a thin 64-bit Mach-O slice, reporting `MalformedBinary` exactly
/// when the buffer does not parse.
pub fn parse_macho(b: &Vec<u8>) -> (r: Result<MachOInfo, SignError>)
    ensures
        match r {
            Ok(info) => spec_parse_macho(b@) == Some(info),
            Err(e) => spec_parse_macho(b@) is None && e == SignError::MalformedBinary,
        },
{
    let len = b.len();
    if len < MACH_HEADER_LEN || len as u64 > 0xffffffff {
        return Err(SignError::MalformedBinary);
    }
    if read_le32(b, 0) != MH_MAGIC_64 {
        return Err(SignError::MalformedBinary);
    }
    let ncmds = read_le32(b, 16);
    let sizeofcmds = read_le32(b, 20);
    if sizeofcmds as usize > len - MACH_HEADER_LEN {
        return Err(SignError::MalformedBinary);
    }
    let end: usize = MACH_HEADER_LEN + sizeofcmds as usize;
    let mut off: usize = MACH_HEADER_LEN;
    let mut i: u32 = 0;
    let mut acc_sig: Option<SigCommand> = None;
    let mut acc_min: u64 = NO_SEG_OFF;
    let ghost whole: Option<CmdScan> = scan_cmds(
        b@,
        MACH_HEADER_LEN as int,
        end as int,
        ncmds as nat,
    );
    while i < ncmds
        invariant
            i <= ncmds,
            MACH_HEADER_LEN <= b@.len() <= 0xffffffff,
            le32_at(b@, 0) == MH_MAGIC_64,
            ncmds == le32_at(b@, 16),
            sizeofcmds == le32_at(b@, 20),
            MACH_HEADER_LEN <= off <= end <= b@.len(),
            end == MACH_HEADER_LEN + sizeofcmds,
            whole == scan_cmds(b@, MACH_HEADER_LEN as int, end as int, ncmds as nat),
            whole == combine_scan(
                acc_sig,
                acc_min,
                scan_cmds(b@, off as int, end as int, (ncmds - i) as nat),
            ),
        decreases ncmds - i,
    {
        if end - off < 8 {
            proof {
                assert(scan_cmds(b@, off as int, end as int, (ncmds - i) as nat) is None);
            }
            return Err(SignError::MalformedBinary);
        }
        let cmd = read_le32(b, off);
        let size = read_le32(b, off + 4);
        if size < 8 || size as usize > end - off {
            proof {
                assert(scan_cmds(b@, off as int, end as int, (ncmds - i) as nat) is None);
            }
            return Err(SignError::MalformedBinary);
        }
        if cmd == LC_CODE_SIGNATURE && size as usize != SIG_CMD_LEN {
            proof {
                assert(scan_cmds(b@, off as int, end as int, (ncmds - i) as nat) is None);
            }
            return Err(SignError::MalformedBinary);
        }
        if cmd == LC_SEGMENT_64 && size < 72 {
            proof {
                assert(scan_cmds(b@, off as int, end as int, (ncmds - i) as nat) is None);
            }
            return Err(SignError::MalformedBinary);
        }
        let ghost rest: Option<CmdScan> = scan_cmds(
            b@,
            off + size as int,
            end as int,
            (ncmds - i - 1) as nat,
        );
        if cmd == LC_CODE_SIGNATURE {
            let dataoff = read_le32(b, off + 8);
            let datasize = read_le32(b, off + 12);
            if acc_sig.is_none() {
                acc_sig = Some(SigCommand { lc_off: off as u32, dataoff, datasize });
            }
        } else if cmd == LC_SEGMENT_64 {
            let seg_off = read_le64(b, off + 40);
            if seg_off > 0 && seg_off < acc_min {
                acc_min = seg_off;
            }
        }
        off = off + size as usize;
        i = i + 1;
    }
    if off != end {
        proof {
            assert(scan_cmds(b@, off as int, end as int, 0) is None);
        }
        return Err(SignError::MalformedBinary);
    }
    proof {
        assert(scan_cmds(b@, off as int, end as int, 0) == Some(
            CmdScan { sig: None, min_seg_off: NO_SEG_OFF },
        ));
    }
    let info = MachOInfo { ncmds, sizeofcmds, sig: acc_sig, min_seg_off: acc_min };
    match &info.sig {
        Option::Some(sc) => {
            if (sc.dataoff as usize) < end || (sc.dataoff as u64) + (sc.datasize as u64) != len
                as u64 {
                return Err(SignError::MalformedBinary);
            }
        },
        Option::None => {},
    }
    Ok(info)
}

/// A signature command found by a walk lies within the walked region.
pub proof fn lemma_scan_sig_bounds(b: Seq<u8>, off: int, end: int, n: nat)
    requires
        0 <= off,
        end <= 0xffffffff,
        scan_cmds(b, off, end, n) matches Some(s) && s.sig matches Some(sc),
    ensures
        scan_cmds(b, off, end, n) matches Some(s) && s.sig matches Some(sc) && off <= sc.lc_off
            && sc.lc_off + SIG_CMD_LEN <= end && le32_at(b, sc.lc_off as int)
            == LC_CODE_SIGNATURE && le32_at(b, sc.lc_off as int + 4) == SIG_CMD_LEN
            && sc.dataoff == le32_at(b, sc.lc_off as int + 8) && sc.datasize == le32_at(
            b,
            sc.lc_off as int + 12,
        ),
    decreases n,
{
    let s = scan_cmds(b, off, end, n)->Some_0;
    let sc = s.sig->Some_0;
    if n == 0 {
    } else {
        let cmd = le32_at(b, off);
        let size = le32_at(b, off + 4);
        let rest = scan_cmds(b, off + size, end, (n - 1) as nat);
        if cmd == LC_CODE_SIGNATURE {
            assert(sc.lc_off == off);
        } else {
            lemma_scan_sig_bounds(b, off + size, end, (n - 1) as nat);
        }
    }
}

/// The command walk reads only the bytes of its region: two buffers that
/// agree on `[off, end)` scan alike.
pub proof fn lemma_scan_frame(b: Seq<u8>, b2: Seq<u8>, off: int, end: int, n: nat)
    requires
        forall|j: int| off <= j < end ==> b2[j] == b[j],
    ensures
        scan_cmds(b2, off, end, n) == scan_cmds(b, off, end, n),
    decreases n,
{
    if n > 0 && off + 8 <= end {
        let size = le32_at(b, off + 4);
        assert(le32_at(b2, off) == le32_at(b, off));
        assert(le32_at(b2, off + 4) == le32_at(b, off + 4));
        if size >= 8 && off + size <= end {
            if off + 16 <= off + size {
                assert(le32_at(b2, off + 8) == le32_at(b, off + 8));
                assert(le32_at(b2, off + 12) == le32_at(b, off + 12));
            }
            if off + 48 <= off + size {
                assert(le64_at(b2, off + 40) == le64_at(b, off + 40));
            }
            lemma_scan_frame(b, b2, off + size, end, (n - 1) as nat);
        }
    }
}

/// Rewriting the `dataoff` and `datasize` fields of the signature command
/// found by a walk changes the walk's result in exactly those fields.
pub proof fn lemma_scan_set_sig(b: Seq<u8>, b2: Seq<u8>, off: int, end: int, n: nat, d: u32, sz: u32)
    requires
        0 <= off,
        end <= 0xffffffff,
        scan_cmds(b, off, end, n) matches Some(s) && s.sig matches Some(sc),
        forall|j: int| off <= j < end && !(scan_cmds(b, off, end, n)->Some_0.sig->Some_0.lc_off + 8
            <= j < scan_cmds(b, off, end, n)->Some_0.sig->Some_0.lc_off + 16) ==> b2[j] == b[j],
        le32_at(b2, scan_cmds(b, off, end, n)->Some_0.sig->Some_0.lc_off as int + 8) == d,
        le32_at(b2, scan_cmds(b, off, end, n)->Some_0.sig->Some_0.lc_off as int + 12) == sz,
    ensures
        scan_cmds(b2, off, end, n) == Some(
            CmdScan {
                sig: Some(
                    SigCommand {
                        lc_off: scan_cmds(b, off, end, n)->Some_0.sig->Some_0.lc_off,
                        dataoff: d,
                        datasize: sz,
                    },
                ),
                min_seg_off: scan_cmds(b, off, end, n)->Some_0.min_seg_off,
            },
        ),
    decreases n,
{
    let s = scan_cmds(b, off, end, n)->Some_0;
    let sc = s.sig->Some_0;
    let cmd = le32_at(b, off);
    let size = le32_at(b, off + 4);
    lemma_scan_sig_bounds(b, off, end, n);
    if cmd == LC_CODE_SIGNATURE {
        assert(sc.lc_off == off);
        assert(le32_at(b2, off) == le32_at(b, off));
        assert(le32_at(b2, off + 4) == le32_at(b, off + 4));
        lemma_scan_frame(b, b2, off + size, end, (n - 1) as nat);
    } else {
        lemma_scan_sig_bounds(b, off + size, end, (n - 1) as nat);
        assert(sc.lc_off >= off + size);
        assert(le32_at(b2, off) == le32_at(b, off));
        assert(le32_at(b2, off + 4) == le32_at(b, off + 4));
        if cmd == LC_SEGMENT_64 {
            assert(le64_at(b2, off + 40) == le64_at(b, off + 40));
        }
        lemma_scan_set_sig(b, b2, off + size, end, (n - 1) as nat, d, sz);
    }
}

} // verus!
