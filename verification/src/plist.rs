//! Info.plist identity rewriting: replaces the string value that follows a
//! given key in a property-list's XML bytes, leaving every other byte as
//! it was.

use vstd::prelude::*;
use crate::bytes::{copy_range, push_all};

verus! {

/// The needle occurs in `h` at position `i`.
pub open spec fn match_at(h: Seq<u8>, n: Seq<u8>, i: int) -> bool {
    &&& 0 <= i
    &&& i + n.len() <= h.len()
    &&& h.subrange(i, i + n.len()) == n
}

/// First occurrence of `n` in `h` at or after `from`, if any.
pub open spec fn find_sub(h: Seq<u8>, n: Seq<u8>, from: int) -> Option<int>
    decreases h.len() + 1 - from,
{
    if from < 0 || from + n.len() > h.len() {
        None
    } else if match_at(h, n, from) {
        Some(from)
    } else {
        find_sub(h, n, from + 1)
    }
}

/// The bytes of the opening key tag.
pub open spec fn key_open() -> Seq<u8> {
    seq![60u8, 107u8, 101u8, 121u8, 62u8]
}

/// The bytes of the closing key tag.
pub open spec fn key_close() -> Seq<u8> {
    seq![60u8, 47u8, 107u8, 101u8, 121u8, 62u8]
}

/// The bytes of the opening string tag.
pub open spec fn str_open() -> Seq<u8> {
    seq![60u8, 115u8, 116u8, 114u8, 105u8, 110u8, 103u8, 62u8]
}

/// The bytes of the closing string tag.
pub open spec fn str_close() -> Seq<u8> {
    seq![60u8, 47u8, 115u8, 116u8, 114u8, 105u8, 110u8, 103u8, 62u8]
}

/// `p` with the string value of `key` replaced by `val`: the content
/// between the first string tags after the first occurrence of the tagged
/// key becomes `val`, and everything else is byte-identical. A plist
/// without the key (or without string tags after it) is unchanged.
pub open spec fn spec_set_plist_value(p: Seq<u8>, key: Seq<u8>, val: Seq<u8>) -> Seq<u8> {
    let kpat = key_open() + key + key_close();
    match find_sub(p, kpat, 0) {
        Option::None => p,
        Option::Some(i) => match find_sub(p, str_open(), i + kpat.len()) {
            Option::None => p,
            Option::Some(j) => match find_sub(p, str_close(), j + str_open().len()) {
                Option::None => p,
                Option::Some(m) => p.take(j + str_open().len() as int) + val + p.skip(m),
            },
        },
    }
}

/// Whether `n` occurs at position `i` of `h`.
fn bytes_at(h: &Vec<u8>, i: usize, n: &Vec<u8>) -> (r: bool)
    requires
        i + n@.len() <= h@.len(),
    ensures
        r <==> match_at(h@, n@, i as int),
{
    let hl = h.len();
    let nl = n.len();
    let mut j: usize = 0;
    while j < nl
        invariant
            j <= nl,
            nl == n@.len(),
            i + nl <= h@.len(),
            h@.len() == hl,
            forall|k: int| 0 <= k < j ==> h@[i + k] == n@[k],
        decreases nl - j,
    {
        if h[i + j] != n[j] {
            proof {
                assert(h@.subrange(i as int, i + n@.len())[j as int] != n@[j as int]);
            }
            return false;
        }
        j = j + 1;
    }
    proof {
        assert(h@.subrange(i as int, i + n@.len()) =~= n@);
    }
    true
}

/// First occurrence of `n` in `h` at or after `from`.
pub fn find_sub_at(h: &Vec<u8>, n: &Vec<u8>, from: usize) -> (r: Option<usize>)
    ensures
        match r {
            Some(i) => find_sub(h@, n@, from as int) == Some(i as int) && from <= i && i + n@.len()
                <= h@.len(),
            None => find_sub(h@, n@, from as int) is None,
        },
{
    let hl = h.len();
    let nl = n.len();
    if nl == 0 {
        if from <= hl {
            proof {
                assert(h@.subrange(from as int, from as int) =~= n@);
            }
            return Some(from);
        }
        return None;
    }
    if hl < nl || from > hl - nl {
        return None;
    }
    let mut i: usize = from;
    while i <= hl - nl
        invariant
            from <= i,
            1 <= nl <= hl,
            i <= hl - nl + 1,
            hl == h@.len(),
            nl == n@.len(),
            find_sub(h@, n@, from as int) == find_sub(h@, n@, i as int),
        decreases hl - i,
    {
        if bytes_at(h, i, n) {
            return Some(i);
        }
        proof {
            assert(find_sub(h@, n@, i as int) == find_sub(h@, n@, i + 1));
        }
        i = i + 1;
    }
    proof {
        assert(find_sub(h@, n@, i as int) is None);
    }
    None
}

/// Appends the bytes of the opening key tag.
fn push_key_open(v: &mut Vec<u8>)
    ensures
        final(v)@ == old(v)@ + key_open(),
{
    v.push(60);
    v.push(107);
    v.push(101);
    v.push(121);
    v.push(62);
    assert(v@ =~= old(v)@ + key_open());
}

/// Appends the bytes of the closing key tag.
fn push_key_close(v: &mut Vec<u8>)
    ensures
        final(v)@ == old(v)@ + key_close(),
{
    v.push(60);
    v.push(47);
    v.push(107);
    v.push(101);
    v.push(121);
    v.push(62);
    assert(v@ =~= old(v)@ + key_close());
}

/// Builds the bytes of the opening string tag.
fn make_str_open() -> (r: Vec<u8>)
    ensures
        r@ == str_open(),
{
    let mut v: Vec<u8> = Vec::new();
    v.push(60);
    v.push(115);
    v.push(116);
    v.push(114);
    v.push(105);
    v.push(110);
    v.push(103);
    v.push(62);
    assert(v@ =~= str_open());
    v
}

/// Builds the bytes of the closing string tag.
fn make_str_close() -> (r: Vec<u8>)
    ensures
        r@ == str_close(),
{
    let mut v: Vec<u8> = Vec::new();
    v.push(60);
    v.push(47);
    v.push(115);
    v.push(116);
    v.push(114);
    v.push(105);
    v.push(110);
    v.push(103);
    v.push(62);
    assert(v@ =~= str_close());
    v
}

/// Replaces the string value of `key` in a plist's XML bytes with `val`,
/// returning exactly `spec_set_plist_value`; a plist without the tagged
/// key or a following string value comes back unchanged.
pub fn set_plist_value(plist: &Vec<u8>, key: &Vec<u8>, val: &Vec<u8>) -> (r: Vec<u8>)
    ensures
        r@ == spec_set_plist_value(plist@, key@, val@),
{
    let pl = plist.len();
    let mut kpat: Vec<u8> = Vec::new();
    push_key_open(&mut kpat);
    push_all(&mut kpat, key);
    push_key_close(&mut kpat);
    proof {
        assert(kpat@ =~= key_open() + key@ + key_close());
    }
    let i = match find_sub_at(plist, &kpat, 0) {
        Option::Some(i) => i,
        Option::None => {
            return copy_plist(plist);
        },
    };
    let sopen = make_str_open();
    let j = match find_sub_at(plist, &sopen, i + kpat.len()) {
        Option::Some(j) => j,
        Option::None => {
            return copy_plist(plist);
        },
    };
    let sclose = make_str_close();
    let m = match find_sub_at(plist, &sclose, j + sopen.len()) {
        Option::Some(m) => m,
        Option::None => {
            return copy_plist(plist);
        },
    };
    let mut out = copy_range(plist, 0, j + 8);
    push_all(&mut out, val);
    let tail = copy_range(plist, m, plist.len());
    push_all(&mut out, &tail);
    proof {
        assert(out@ =~= plist@.take(j + str_open().len() as int) + val@ + plist@.skip(m as int));
    }
    out
}

/// A byte-identical copy of the plist.
fn copy_plist(plist: &Vec<u8>) -> (r: Vec<u8>)
    ensures
        r@ == plist@,
{
    let r = copy_range(plist, 0, plist.len());
    proof {
        assert(r@ =~= plist@);
    }
    r
}

} // verus!
