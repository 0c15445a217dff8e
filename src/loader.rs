//! Materialising the linear FAT: the indirect FAT clusters named in the
//! superblock list the FAT clusters, whose entries, in order, form the table.

use crate::bytes::{le_u32, le_u32_at};
use crate::error::VmcError;
use crate::fat::{FatTable, INVALID_CLUSTER_PTR};
use crate::superblock::VmcSuperblock;
use vstd::prelude::*;

verus! {

/// `Some(a + r)` where `rest` is `Some(r)`; `None` where it is `None`.
pub open spec fn prepend(a: Seq<u32>, rest: Option<Seq<u32>>) -> Option<Seq<u32>> {
    match rest {
        Some(r) => Some(a + r),
        None => None,
    }
}

/// The FAT cluster pointers read from `n` slots at byte `off`, up to the
/// first invalid pointer; `None` where a slot that must be read lies
/// beyond the image.
pub open spec fn pointer_run(img: Seq<u8>, off: int, n: nat) -> Option<Seq<u32>>
    decreases n,
{
    if n == 0 {
        Some(Seq::empty())
    } else if off + 4 > img.len() {
        None
    } else if le_u32_at(img, off) == INVALID_CLUSTER_PTR {
        Some(Seq::empty())
    } else {
        prepend(seq![le_u32_at(img, off)], pointer_run(img, off + 4, (n - 1) as nat))
    }
}

/// An indirect FAT cluster list ends at its first zero or invalid pointer.
pub open spec fn ends_ifc_list(p: u32) -> bool {
    p == 0 || p == INVALID_CLUSTER_PTR
}

/// The FAT cluster pointers gathered from the indirect FAT clusters `ifcs`
/// of `cluster_size` bytes each, placed at image-absolute cluster indices.
pub open spec fn fat_cluster_pointers(img: Seq<u8>, ifcs: Seq<u32>, cluster_size: u32) -> Option<
    Seq<u32>,
>
    decreases ifcs.len(),
{
    if ifcs.len() == 0 || ends_ifc_list(ifcs[0]) {
        Some(Seq::empty())
    } else {
        match pointer_run(img, ifcs[0] * cluster_size, (cluster_size / 4) as nat) {
            None => None,
            Some(p) => prepend(p, fat_cluster_pointers(img, ifcs.drop_first(), cluster_size)),
        }
    }
}

/// The `n` 32-bit words at byte `off`; `None` where they run past the image.
pub open spec fn words_at(img: Seq<u8>, off: int, n: nat) -> Option<Seq<u32>> {
    if n > 0 && off + 4 * n > img.len() {
        None
    } else {
        Some(Seq::new(n, |i: int| le_u32_at(img, off + 4 * i)))
    }
}

/// The entries of the FAT clusters `ptrs`, in order.
pub open spec fn fat_words(img: Seq<u8>, ptrs: Seq<u32>, cluster_size: u32) -> Option<Seq<u32>>
    decreases ptrs.len(),
{
    if ptrs.len() == 0 {
        Some(Seq::empty())
    } else {
        match words_at(img, ptrs[0] * cluster_size, (cluster_size / 4) as nat) {
            None => None,
            Some(w) => prepend(w, fat_words(img, ptrs.drop_first(), cluster_size)),
        }
    }
}

/// The linear FAT of an image with superblock `sb`. A read past the end of
/// the image is a short read; a table longer than 32-bit cluster indices can
/// address is malformed.
pub open spec fn loaded_fat(img: Seq<u8>, sb: VmcSuperblock) -> Result<Seq<u32>, VmcError> {
    match fat_cluster_pointers(img, sb.ifc_ptr_list@, sb.cluster_size) {
        None => Err(VmcError::Io),
        Some(ptrs) => if ptrs.len() * (sb.cluster_size / 4) > u32::MAX {
            Err(VmcError::InvalidFormat)
        } else {
            match fat_words(img, ptrs, sb.cluster_size) {
                None => Err(VmcError::Io),
                Some(f) => Ok(f),
            }
        },
    }
}

/// The 32-bit word at byte `off` of the image, if it lies inside it.
fn read_word(img: &[u8], off: u64) -> (r: Option<u32>)
    ensures
        off + 4 <= img@.len() ==> r == Some(le_u32_at(img@, off as int)),
        off + 4 > img@.len() ==> r is None,
{
    let n = img.len();
    if off >= n as u64 || n as u64 - off < 4 {
        None
    } else {
        Some(le_u32(img, off as usize))
    }
}

/// Appends the pointers of one indirect FAT cluster to `out`.
fn read_pointer_run(img: &[u8], off: u64, n: u32, out: &mut Vec<u32>) -> (ok: bool)
    requires
        off + 4 * n <= u64::MAX,
    ensures
        ok == pointer_run(img@, off as int, n as nat) is Some,
        pointer_run(img@, off as int, n as nat) matches Some(p) ==> final(out)@ == old(out)@ + p,
{
    let ghost start = out@;
    let mut j: u32 = 0;
    while j < n
        invariant
            j <= n,
            off + 4 * n <= u64::MAX,
            pointer_run(img@, off as int, n as nat) == prepend(
                out@.subrange(start.len() as int, out@.len() as int),
                pointer_run(img@, off + 4 * j, (n - j) as nat),
            ),
            start == old(out)@,
            start.len() <= out@.len(),
            out@.subrange(0, start.len() as int) == start,
        decreases n - j,
    {
        let ghost before = out@;
        match read_word(img, off + 4 * j as u64) {
            None => {
                return false;
            },
            Some(v) => {
                if v == INVALID_CLUSTER_PTR {
                    proof {
                        assert(pointer_run(img@, off + 4 * j, (n - j) as nat) == Some(
                            Seq::<u32>::empty(),
                        ));
                        assert(out@ =~= start + out@.subrange(start.len() as int, out@.len() as int));
                        let x = out@.subrange(start.len() as int, out@.len() as int);
                        assert(x + Seq::empty() =~= x);
                        assert(pointer_run(img@, off as int, n as nat) == Some(x));
                    }
                    return true;
                }
                out.push(v);
                proof {
                    let a = before.subrange(start.len() as int, before.len() as int);
                    assert(out@.subrange(start.len() as int, out@.len() as int) =~= a + seq![v]);
                    assert(out@.subrange(0, start.len() as int) =~= before.subrange(
                        0,
                        start.len() as int,
                    ));
                    match pointer_run(img@, off + 4 * (j + 1), (n - j - 1) as nat) {
                        Some(r) => {
                            assert(a + (seq![v] + r) =~= (a + seq![v]) + r);
                        },
                        None => {},
                    }
                    assert(off + 4 * j + 4 == off + 4 * (j + 1));
                }
            },
        }
        j = j + 1;
    }
    proof {
        assert(out@ =~= start + out@.subrange(start.len() as int, out@.len() as int));
        assert(out@.subrange(start.len() as int, out@.len() as int) + Seq::empty()
            =~= out@.subrange(start.len() as int, out@.len() as int));
    }
    true
}

/// Each FAT cluster contributes `cluster_size / 4` entries.
proof fn lemma_fat_words_len(img: Seq<u8>, ptrs: Seq<u32>, cluster_size: u32)
    ensures
        fat_words(img, ptrs, cluster_size) matches Some(f) ==> f.len() == ptrs.len() * (
        cluster_size / 4),
    decreases ptrs.len(),
{
    if ptrs.len() > 0 {
        lemma_fat_words_len(img, ptrs.drop_first(), cluster_size);
        let n = cluster_size / 4;
        assert((ptrs.len() - 1) * n + n == ptrs.len() * n) by (nonlinear_arith);
    }
}

/// A loaded FAT is addressable by 32-bit cluster indices.
pub proof fn lemma_loaded_fat_fits(img: Seq<u8>, sb: VmcSuperblock)
    ensures
        loaded_fat(img, sb) matches Ok(f) ==> f.len() <= u32::MAX,
{
    if let Some(ptrs) = fat_cluster_pointers(img, sb.ifc_ptr_list@, sb.cluster_size) {
        lemma_fat_words_len(img, ptrs, sb.cluster_size);
    }
}

/// Prepending in two steps is prepending the concatenation.
proof fn lemma_prepend_twice(a: Seq<u32>, b: Seq<u32>, rest: Option<Seq<u32>>)
    ensures
        prepend(a, prepend(b, rest)) == prepend(a + b, rest),
{
    if let Some(r) = rest {
        assert(a + (b + r) =~= (a + b) + r);
    }
}

/// Appends the `n` words at byte `off` of the image to `out`.
fn read_words(img: &[u8], off: u64, n: u32, out: &mut Vec<u32>) -> (ok: bool)
    requires
        off + 4 * n <= u64::MAX,
    ensures
        ok == words_at(img@, off as int, n as nat) is Some,
        words_at(img@, off as int, n as nat) matches Some(w) ==> final(out)@ == old(out)@ + w,
{
    let len = img.len();
    if n > 0 && (off > len as u64 || (len as u64 - off) < 4 * n as u64) {
        return false;
    }
    let ghost start = out@;
    let ghost w = Seq::new(n as nat, |i: int| le_u32_at(img@, off + 4 * i));
    let mut j: u32 = 0;
    while j < n
        invariant
            j <= n,
            n > 0 ==> off + 4 * n <= img@.len(),
            len == img@.len(),
            start == old(out)@,
            w == Seq::new(n as nat, |i: int| le_u32_at(img@, off + 4 * i)),
            out@ == start + w.subrange(0, j as int),
        decreases n - j,
    {
        let v = le_u32(img, (off + 4 * j as u64) as usize);
        out.push(v);
        assert(w.subrange(0, j + 1) =~= w.subrange(0, j as int).push(v));
        j = j + 1;
    }
    assert(w.subrange(0, n as int) =~= w);
    true
}

/// Reads the linear FAT of the image whose superblock is `sb`.
pub fn load_fat(image: &[u8], sb: &VmcSuperblock) -> (r: Result<FatTable, VmcError>)
    ensures
        match loaded_fat(image@, *sb) {
            Ok(f) => r matches Ok(t) && t.fat@ == f,
            Err(e) => r matches Err(e2) && e2 == e,
        },
{
    let cs = sb.cluster_size;
    let epc = cs / 4;
    let ghost ifcs = sb.ifc_ptr_list@;
    let mut ptrs: Vec<u32> = Vec::new();
    let mut i: usize = 0;
    proof {
        assert(ifcs.skip(0) =~= ifcs);
        if let Some(q) = fat_cluster_pointers(image@, ifcs, cs) {
            assert(ptrs@ + q =~= q);
        }
    }
    while i < 32 && sb.ifc_ptr_list[i] != 0 && sb.ifc_ptr_list[i] != INVALID_CLUSTER_PTR
        invariant
            i <= 32,
            ifcs == sb.ifc_ptr_list@,
            ifcs.len() == 32,
            cs == sb.cluster_size,
            epc == cs / 4,
            fat_cluster_pointers(image@, ifcs, cs) == prepend(
                ptrs@,
                fat_cluster_pointers(image@, ifcs.skip(i as int), cs),
            ),
        decreases 32 - i,
    {
        let ifc = sb.ifc_ptr_list[i];
        proof {
            assert(ifcs.skip(i as int)[0] == ifc);
            assert(ifcs.skip(i as int).drop_first() =~= ifcs.skip(i + 1));
        }
        let ghost before = ptrs@;
        assert(ifc as u64 * cs as u64 <= 0xFFFF_FFFFu64 * 0xFFFF_FFFFu64) by (nonlinear_arith)
            requires
                ifc <= 0xFFFF_FFFFu32,
                cs <= 0xFFFF_FFFFu32,
        ;
        if !read_pointer_run(image, ifc as u64 * cs as u64, epc, &mut ptrs) {
            return Err(VmcError::Io);
        }
        proof {
            let p = ptrs@.subrange(before.len() as int, ptrs@.len() as int);
            assert(ptrs@ =~= before + p);
            lemma_prepend_twice(before, p, fat_cluster_pointers(image@, ifcs.skip(i + 1), cs));
        }
        i = i + 1;
    }
    proof {
        if i == 32 {
            assert(ifcs.skip(32) =~= Seq::<u32>::empty());
        } else {
            assert(ifcs.skip(i as int)[0] == ifcs[i as int]);
        }
        assert(ptrs@ + Seq::empty() =~= ptrs@);
    }
    let np: usize = ptrs.len();
    assert(np as int <= u64::MAX);
    assert(np * (epc as int) <= u64::MAX * 0xFFFF_FFFFu32) by (nonlinear_arith)
        requires
            np <= u64::MAX,
            epc <= 0xFFFF_FFFFu32,
    ;
    if (np as u128) * (epc as u128) > 0xFFFF_FFFFu128 {
        return Err(VmcError::InvalidFormat);
    }
    assert(ptrs@.len() * (sb.cluster_size / 4) <= u32::MAX);
    let mut fat: Vec<u32> = Vec::new();
    let mut k: usize = 0;
    proof {
        assert(ptrs@.skip(0) =~= ptrs@);
        if let Some(q) = fat_words(image@, ptrs@, cs) {
            assert(fat@ + q =~= q);
        }
    }
    while k < ptrs.len()
        invariant
            k <= ptrs@.len(),
            cs == sb.cluster_size,
            epc == cs / 4,
            ifcs == sb.ifc_ptr_list@,
            fat_cluster_pointers(image@, ifcs, cs) == Some(ptrs@),
            ptrs@.len() * (sb.cluster_size / 4) <= u32::MAX,
            fat_words(image@, ptrs@, cs) == prepend(
                fat@,
                fat_words(image@, ptrs@.skip(k as int), cs),
            ),
        decreases ptrs@.len() - k,
    {
        let p = ptrs[k];
        proof {
            assert(ptrs@.skip(k as int)[0] == p);
            assert(ptrs@.skip(k as int).drop_first() =~= ptrs@.skip(k + 1));
        }
        let ghost before = fat@;
        assert(p as u64 * cs as u64 <= 0xFFFF_FFFFu64 * 0xFFFF_FFFFu64) by (nonlinear_arith)
            requires
                p <= 0xFFFF_FFFFu32,
                cs <= 0xFFFF_FFFFu32,
        ;
        if !read_words(image, p as u64 * cs as u64, epc, &mut fat) {
            return Err(VmcError::Io);
        }
        proof {
            let w = fat@.subrange(before.len() as int, fat@.len() as int);
            assert(fat@ =~= before + w);
            lemma_prepend_twice(before, w, fat_words(image@, ptrs@.skip(k + 1), cs));
        }
        k = k + 1;
    }
    proof {
        assert(ptrs@.skip(k as int) =~= Seq::<u32>::empty());
        assert(fat@ + Seq::empty() =~= fat@);
    }
    Ok(FatTable { fat })
}

} // verus!
