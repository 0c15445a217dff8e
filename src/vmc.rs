//! An opened memory card image: its superblock, its FAT, and the walks
//! over directory and file cluster chains.

use crate::bytes::{le_u16_at, le_u32, le_u32_at};
use crate::dir_entry::{
    decode_entry, decodes_raw, entry_of_record, interprets, is_directory_mode, is_live, name_text,
    record_is_live, FSEntry, RawFSEntry, ENTRY_SIZE,
};
use crate::error::VmcError;
use crate::fat::{
    cluster_chain, INVALID_CLUSTER_PTR, free_count, is_cluster_chain, lemma_cluster_chain_unique, FatTable,
};
use crate::loader::{lemma_loaded_fat_fits, load_fat, loaded_fat};
use crate::superblock::{decodes_superblock, has_magic, VmcSuperblock, SUPERBLOCK_SIZE};
use vstd::prelude::*;
use vstd::string::*;

verus! {

/// Image-absolute byte offset of data-area cluster `c`.
pub open spec fn cluster_offset(alloc_offset: u32, c: u32, cluster_size: u32) -> int {
    (alloc_offset + c) * cluster_size
}

/// The 512-byte record in slot `i` of the cluster at byte `off`.
pub open spec fn slot(img: Seq<u8>, off: int, i: int) -> Seq<u8> {
    img.subrange(off + 512 * i, off + 512 * i + 512)
}

/// The live records among the first `n` slots of the cluster at byte `off`.
pub open spec fn live_slots(img: Seq<u8>, off: int, n: nat) -> Seq<Seq<u8>>
    decreases n,
{
    if n == 0 {
        Seq::empty()
    } else {
        let prev = live_slots(img, off, (n - 1) as nat);
        if record_is_live(slot(img, off, n - 1)) {
            prev.push(slot(img, off, n - 1))
        } else {
            prev
        }
    }
}

/// `Ok` with `acc` put before the records of `rest`; errors pass through.
pub open spec fn after(acc: Seq<Seq<u8>>, rest: Result<(Seq<Seq<u8>>, int), VmcError>) -> Result<
    (Seq<Seq<u8>>, int),
    VmcError,
> {
    match rest {
        Ok((r, p)) => Ok((acc + r, p)),
        Err(e) => Err(e),
    }
}

/// Walks the directory clusters `chain` until `expected` slots have been
/// processed, `processed` of them already: the live records met, and the
/// number of slots processed in the end. A cluster that starts beyond the
/// image ends the walk; one that runs past its end is a short read.
pub open spec fn root_scan(
    img: Seq<u8>,
    alloc_offset: u32,
    cluster_size: u32,
    chain: Seq<u32>,
    expected: int,
    processed: int,
) -> Result<(Seq<Seq<u8>>, int), VmcError>
    decreases chain.len(),
{
    if chain.len() == 0 {
        Ok((Seq::empty(), processed))
    } else {
        let off = cluster_offset(alloc_offset, chain[0], cluster_size);
        if off >= img.len() {
            Ok((Seq::empty(), processed))
        } else if off + cluster_size > img.len() {
            Err(VmcError::Io)
        } else {
            let per_cluster = cluster_size / 512;
            let n = if per_cluster < expected - processed {
                per_cluster as int
            } else {
                expected - processed
            };
            let here = live_slots(img, off, n as nat);
            if processed + n >= expected {
                Ok((here, processed + n))
            } else {
                after(
                    here,
                    root_scan(
                        img,
                        alloc_offset,
                        cluster_size,
                        chain.drop_first(),
                        expected,
                        processed + n,
                    ),
                )
            }
        }
    }
}

/// The geometry is one this reader can walk: clusters are a positive
/// multiple of four bytes.
pub open spec fn geometry_ok(sb: VmcSuperblock) -> bool {
    sb.cluster_size > 0 && sb.cluster_size % 4 == 0
}

/// The number of child records that the root directory's header declares.
pub open spec fn root_expected(img: Seq<u8>, sb: VmcSuperblock) -> u32 {
    le_u32_at(img, cluster_offset(sb.alloc_offset, sb.rootdir_cluster, sb.cluster_size) + 4)
}

/// The root directory: the live records of its first `expected` slots, with
/// the number of slots processed. Fails with `InvalidFormat` on a bad
/// geometry or a root directory beyond the image, and with `Io` where the
/// header record runs past the image.
pub open spec fn root_listing(img: Seq<u8>, sb: VmcSuperblock, fat: Seq<u32>) -> Result<
    (Seq<Seq<u8>>, int),
    VmcError,
> {
    let root = cluster_offset(sb.alloc_offset, sb.rootdir_cluster, sb.cluster_size);
    if !geometry_ok(sb) || root >= img.len() {
        Err(VmcError::InvalidFormat)
    } else if root + 512 > img.len() {
        Err(VmcError::Io)
    } else {
        root_scan(
            img,
            sb.alloc_offset,
            sb.cluster_size,
            cluster_chain(fat, sb.rootdir_cluster),
            root_expected(img, sb) as int,
            0,
        )
    }
}

/// `v` holds, in order, the entries of the records `recs`.
pub open spec fn entries_of(v: Seq<FSEntry>, recs: Seq<Seq<u8>>) -> bool {
    &&& v.len() == recs.len()
    &&& forall|i: int| 0 <= i < v.len() ==> entry_of_record(#[trigger] recs[i], v[i])
}

/// `Ok(acc + r)` where `rest` is `Ok(r)`; errors pass through.
pub open spec fn after_bytes(acc: Seq<u8>, rest: Result<Seq<u8>, VmcError>) -> Result<
    Seq<u8>,
    VmcError,
> {
    match rest {
        Ok(r) => Ok(acc + r),
        Err(e) => Err(e),
    }
}

/// The first `remaining` bytes of a file laid out along the clusters
/// `chain`: from each cluster, in order, as many bytes as are still owed,
/// up to a whole cluster. A cluster that starts beyond the image ends the
/// walk; one whose owed bytes run past the image is a short read.
pub open spec fn file_scan(
    img: Seq<u8>,
    alloc_offset: u32,
    cluster_size: u32,
    chain: Seq<u32>,
    remaining: int,
) -> Result<Seq<u8>, VmcError>
    decreases chain.len(),
{
    if chain.len() == 0 || remaining <= 0 {
        Ok(Seq::empty())
    } else {
        let off = cluster_offset(alloc_offset, chain[0], cluster_size);
        let n = if cluster_size < remaining {
            cluster_size as int
        } else {
            remaining
        };
        if off >= img.len() {
            Ok(Seq::empty())
        } else if off + n > img.len() {
            Err(VmcError::Io)
        } else {
            after_bytes(
                img.subrange(off, off + n),
                file_scan(img, alloc_offset, cluster_size, chain.drop_first(), remaining - n),
            )
        }
    }
}

/// The contents of a file of `size` bytes whose data starts at cluster
/// `first`: nothing where `first` is zero or the invalid pointer.
pub open spec fn file_contents(
    img: Seq<u8>,
    sb: VmcSuperblock,
    fat: Seq<u32>,
    first: u32,
    size: u32,
) -> Result<Seq<u8>, VmcError> {
    if first == 0 || first == INVALID_CLUSTER_PTR {
        Ok(Seq::empty())
    } else {
        file_scan(img, sb.alloc_offset, sb.cluster_size, cluster_chain(fat, first), size as int)
    }
}

/// The name of a record is "." or "..".
pub open spec fn is_dot_name(name: Seq<char>) -> bool {
    name == seq!['.'] || name == seq!['.', '.']
}

/// The name held in a record.
pub open spec fn record_name(rec: Seq<u8>) -> Seq<char> {
    name_text(rec.subrange(0x40, 0x60))
}

/// A record of a save directory's own file: live, not "." or "..", not a
/// directory, and with a data cluster. An all-zero slot is never live.
pub open spec fn is_file_record(rec: Seq<u8>) -> bool {
    &&& record_is_live(rec)
    &&& !is_dot_name(record_name(rec))
    &&& !is_directory_mode(le_u16_at(rec, 0))
    &&& le_u32_at(rec, 0x10) != 0
    &&& le_u32_at(rec, 0x10) != INVALID_CLUSTER_PTR
}

/// The file records among the first `n` slots of the cluster at byte `off`.
pub open spec fn file_slots(img: Seq<u8>, off: int, n: nat) -> Seq<Seq<u8>>
    decreases n,
{
    if n == 0 {
        Seq::empty()
    } else {
        let prev = file_slots(img, off, (n - 1) as nat);
        if is_file_record(slot(img, off, n - 1)) {
            prev.push(slot(img, off, n - 1))
        } else {
            prev
        }
    }
}

/// `Ok(acc + r)` where `rest` is `Ok(r)`; errors pass through.
pub open spec fn after_records(acc: Seq<Seq<u8>>, rest: Result<Seq<Seq<u8>>, VmcError>) -> Result<
    Seq<Seq<u8>>,
    VmcError,
> {
    match rest {
        Ok(r) => Ok(acc + r),
        Err(e) => Err(e),
    }
}

/// The file records of every slot of every cluster of `chain`. A cluster
/// that starts beyond the image ends the walk; one that runs past its end
/// is a short read.
pub open spec fn dir_scan(img: Seq<u8>, alloc_offset: u32, cluster_size: u32, chain: Seq<u32>) -> Result<
    Seq<Seq<u8>>,
    VmcError,
>
    decreases chain.len(),
{
    if chain.len() == 0 {
        Ok(Seq::empty())
    } else {
        let off = cluster_offset(alloc_offset, chain[0], cluster_size);
        if off >= img.len() {
            Ok(Seq::empty())
        } else if off + cluster_size > img.len() {
            Err(VmcError::Io)
        } else {
            after_records(
                file_slots(img, off, (cluster_size / 512) as nat),
                dir_scan(img, alloc_offset, cluster_size, chain.drop_first()),
            )
        }
    }
}

/// A root record that names a save directory: a directory other than "."
/// and "..".
pub open spec fn is_save_dir_record(rec: Seq<u8>) -> bool {
    !is_dot_name(record_name(rec)) && is_directory_mode(le_u16_at(rec, 0))
}

/// Tells whether `name` is "." or "..".
pub fn is_dot_entry_name(name: &String) -> (r: bool)
    ensures
        r == is_dot_name(name@),
{
    let s = name.as_str();
    let n = s.unicode_len();
    if n == 1 {
        let r = s.get_char(0) == '.';
        assert(r ==> name@ =~= seq!['.']);
        r
    } else if n == 2 {
        let r = s.get_char(0) == '.' && s.get_char(1) == '.';
        assert(r ==> name@ =~= seq!['.', '.']);
        r
    } else {
        false
    }
}

/// The number of clusters at the front of `chain` that start inside the image.
pub open spec fn clusters_in_image(img: Seq<u8>, alloc_offset: u32, cluster_size: u32, chain: Seq<u32>) -> nat
    decreases chain.len(),
{
    if chain.len() == 0 || cluster_offset(alloc_offset, chain[0], cluster_size) >= img.len() {
        0
    } else {
        1 + clusters_in_image(img, alloc_offset, cluster_size, chain.drop_first())
    }
}

/// The smaller of two integers.
pub open spec fn min_int(a: int, b: int) -> int {
    if a <= b {
        a
    } else {
        b
    }
}

proof fn lemma_live_slots_len(img: Seq<u8>, off: int, n: nat)
    ensures
        live_slots(img, off, n).len() <= n,
    decreases n,
{
    if n > 0 {
        lemma_live_slots_len(img, off, (n - 1) as nat);
    }
}

proof fn lemma_root_scan_bound(
    img: Seq<u8>,
    alloc_offset: u32,
    cluster_size: u32,
    chain: Seq<u32>,
    expected: int,
    processed: int,
)
    requires
        0 <= processed <= expected,
    ensures
        root_scan(img, alloc_offset, cluster_size, chain, expected, processed) matches Ok((recs, p))
            ==> recs.len() <= p - processed && p == min_int(
            expected,
            processed + (cluster_size / 512) * clusters_in_image(
                img,
                alloc_offset,
                cluster_size,
                chain,
            ),
        ),
    decreases chain.len(),
{
    let per = (cluster_size / 512) as int;
    assert(per * 0 == 0);
    if chain.len() > 0 {
        let off = cluster_offset(alloc_offset, chain[0], cluster_size);
        let rest = chain.drop_first();
        let u = clusters_in_image(img, alloc_offset, cluster_size, rest);
        if off < img.len() && off + cluster_size <= img.len() {
            let n = if per < expected - processed {
                per
            } else {
                expected - processed
            };
            lemma_live_slots_len(img, off, n as nat);
            assert(per * (1 + u) == per + per * u) by (nonlinear_arith);
            assert(per * u >= 0) by (nonlinear_arith)
                requires
                    per >= 0,
                    u >= 0,
            ;
            assert(clusters_in_image(img, alloc_offset, cluster_size, chain) == 1 + u);
            if processed + n < expected {
                lemma_root_scan_bound(img, alloc_offset, cluster_size, rest, expected, processed + n);
                assert(n == per);
                let here = live_slots(img, off, n as nat);
                if let Ok((rs, p)) = root_scan(img, alloc_offset, cluster_size, rest, expected, processed + n) {
                    assert(root_scan(img, alloc_offset, cluster_size, chain, expected, processed) == Ok::<(Seq<Seq<u8>>, int), VmcError>((here + rs, p)));
                    assert(processed + per * (1 + u) == processed + n + per * u);
                }
            } else {
                assert(n == expected - processed);
                assert(processed + per * (1 + u) >= expected);
            }
        } else if off >= img.len() {
            assert(clusters_in_image(img, alloc_offset, cluster_size, chain) == 0);
            assert(per * 0 == 0);
        }
    }
}

/// Listing the root directory lists at most as many entries as the header
/// declares, and processes exactly as many 512-byte slots as the declared
/// count or the slots of the chain's clusters inside the image allow,
/// whichever is fewer.
pub proof fn lemma_root_listing_bound(img: Seq<u8>, sb: VmcSuperblock, fat: Seq<u32>)
    ensures
        root_listing(img, sb, fat) matches Ok((recs, processed)) ==> {
            &&& recs.len() <= processed
            &&& recs.len() <= root_expected(img, sb)
            &&& processed == min_int(
                root_expected(img, sb) as int,
                (sb.cluster_size / 512) * clusters_in_image(
                    img,
                    sb.alloc_offset,
                    sb.cluster_size,
                    cluster_chain(fat, sb.rootdir_cluster),
                ),
            )
        },
{
    lemma_root_scan_bound(
        img,
        sb.alloc_offset,
        sb.cluster_size,
        cluster_chain(fat, sb.rootdir_cluster),
        root_expected(img, sb) as int,
        0,
    );
}

proof fn lemma_file_scan_covers(
    img: Seq<u8>,
    alloc_offset: u32,
    cluster_size: u32,
    chain: Seq<u32>,
    remaining: int,
)
    requires
        cluster_size > 0,
        0 <= remaining <= chain.len() * cluster_size,
        forall|k: int|
            0 <= k < chain.len() ==> cluster_offset(alloc_offset, #[trigger] chain[k], cluster_size)
                + cluster_size <= img.len(),
    ensures
        file_scan(img, alloc_offset, cluster_size, chain, remaining) matches Ok(d) && d.len()
            == remaining && forall|i: int|
            0 <= i < remaining ==> #[trigger] d[i] == img[cluster_offset(
                alloc_offset,
                chain[i / cluster_size as int],
                cluster_size,
            ) + i % cluster_size as int],
    decreases chain.len(),
{
    let cs = cluster_size as int;
    if chain.len() > 0 && remaining > 0 {
        let off = cluster_offset(alloc_offset, chain[0], cluster_size);
        let n = if cs < remaining {
            cs
        } else {
            remaining
        };
        let rest = chain.drop_first();
        assert(off + cs <= img.len());
        assert forall|k: int|
            0 <= k < rest.len() implies cluster_offset(alloc_offset, #[trigger] rest[k], cluster_size)
            + cluster_size <= img.len() by {
            assert(rest[k] == chain[k + 1]);
        }
        assert(remaining - n <= rest.len() * cs) by (nonlinear_arith)
            requires
                cs > 0,
                rest.len() >= 0,
                remaining <= chain.len() * cs,
                rest.len() == chain.len() - 1,
                n == cs || n == remaining,
                n <= remaining,
        ;
        lemma_file_scan_covers(img, alloc_offset, cluster_size, rest, remaining - n);
        let tail = file_scan(img, alloc_offset, cluster_size, rest, remaining - n)->Ok_0;
        let d = img.subrange(off, off + n) + tail;
        assert forall|i: int| 0 <= i < remaining implies #[trigger] d[i] == img[cluster_offset(
            alloc_offset,
            chain[i / cs],
            cluster_size,
        ) + i % cs] by {
            if i < n {
                vstd::arithmetic::div_mod::lemma_fundamental_div_mod_converse(i, cs, 0, i);
            } else {
                let j = i - cs;
                vstd::arithmetic::div_mod::lemma_fundamental_div_mod(j, cs);
                vstd::arithmetic::div_mod::lemma_div_pos_is_pos(j, cs);
                vstd::arithmetic::div_mod::lemma_mod_bound(j, cs);
                let q = j / cs;
                let r = j % cs;
                assert(i == (q + 1) * cs + r) by (nonlinear_arith)
                    requires
                        j == cs * q + r,
                        i == j + cs,
                ;
                vstd::arithmetic::div_mod::lemma_fundamental_div_mod_converse(i, cs, q + 1, r);
                assert(q + 1 < chain.len()) by (nonlinear_arith)
                    requires
                        i == (q + 1) * cs + r,
                        r >= 0,
                        i < remaining,
                        remaining <= chain.len() * cs,
                        cs > 0,
                ;
                assert(rest[q] == chain[q + 1]);
            }
        }
    }
}

/// A file laid out along the chain from `first`, whose clusters all lie
/// inside the image and together hold at least `size` bytes, extracts to
/// exactly `size` bytes: byte `i` is byte `i % cluster_size` of the
/// `i / cluster_size`-th cluster of the chain.
pub proof fn lemma_extract_round_trip(
    img: Seq<u8>,
    sb: VmcSuperblock,
    fat: Seq<u32>,
    first: u32,
    size: u32,
)
    requires
        first != 0,
        first != INVALID_CLUSTER_PTR,
        sb.cluster_size > 0,
        size <= cluster_chain(fat, first).len() * sb.cluster_size,
        forall|k: int|
            0 <= k < cluster_chain(fat, first).len() ==> cluster_offset(
                sb.alloc_offset,
                #[trigger] cluster_chain(fat, first)[k],
                sb.cluster_size,
            ) + sb.cluster_size <= img.len(),
    ensures
        file_contents(img, sb, fat, first, size) matches Ok(d) && d.len() == size && forall|i: int|
            0 <= i < size ==> #[trigger] d[i] == img[cluster_offset(
                sb.alloc_offset,
                cluster_chain(fat, first)[i / sb.cluster_size as int],
                sb.cluster_size,
            ) + i % sb.cluster_size as int],
{
    lemma_file_scan_covers(
        img,
        sb.alloc_offset,
        sb.cluster_size,
        cluster_chain(fat, first),
        size as int,
    );
}

/// A field-by-field copy of `e`.
fn entry_copy(e: &FSEntry) -> (r: FSEntry)
    ensures
        r == *e,
{
    FSEntry {
        name: e.name.clone(),
        mode: e.mode,
        length: e.length,
        cluster: e.cluster,
        is_directory: e.is_directory,
        created_sec: e.created_sec,
        created_min: e.created_min,
        created_hour: e.created_hour,
        created_day: e.created_day,
        created_month: e.created_month,
        created_year: e.created_year,
        modified_sec: e.modified_sec,
        modified_min: e.modified_min,
        modified_hour: e.modified_hour,
        modified_day: e.modified_day,
        modified_month: e.modified_month,
        modified_year: e.modified_year,
    }
}

/// A memory card image with its decoded superblock and FAT.
pub struct Vmc {
    image: Vec<u8>,
    pub superblock: VmcSuperblock,
    fat: FatTable,
}

impl Vmc {
    #[verifier::type_invariant]
    spec fn fat_fits(&self) -> bool {
        self.fat.fat@.len() <= u32::MAX
    }

    /// The bytes of the image.
    pub closed spec fn image_bytes(&self) -> Seq<u8> {
        self.image@
    }

    /// The superblock.
    pub closed spec fn header(&self) -> VmcSuperblock {
        self.superblock
    }

    /// The entries of the FAT.
    pub closed spec fn fat_entries(&self) -> Seq<u32> {
        self.fat.fat@
    }

    /// Opens the image held in `image`: decodes the superblock, then reads
    /// the FAT. Fails with `InvalidFormat` where the image does not open with
    /// the memory card magic, and with `Io` where a read runs past its end.
    pub fn new(image: Vec<u8>) -> (r: Result<Vmc, VmcError>)
        ensures
            image@.len() < SUPERBLOCK_SIZE ==> r == Err::<Vmc, VmcError>(VmcError::Io),
            image@.len() >= SUPERBLOCK_SIZE && !has_magic(image@) ==> r == Err::<Vmc, VmcError>(
                VmcError::InvalidFormat,
            ),
            !has_magic(image@) ==> r is Err,
            image@.len() >= SUPERBLOCK_SIZE && has_magic(image@) ==> match r {
                Ok(v) => {
                    &&& v.image_bytes() == image@
                    &&& decodes_superblock(image@, v.header())
                    &&& loaded_fat(image@, v.header()) == Ok::<Seq<u32>, VmcError>(
                        v.fat_entries(),
                    )
                },
                Err(e) => exists|sb: VmcSuperblock|
                    decodes_superblock(image@, sb) && loaded_fat(image@, sb) == Err::<
                        Seq<u32>,
                        VmcError,
                    >(e),
            },
    {
        let superblock = match VmcSuperblock::from_bytes(image.as_slice()) {
            Ok(sb) => sb,
            Err(e) => {
                return Err(e);
            },
        };
        let fat = match load_fat(image.as_slice(), &superblock) {
            Ok(f) => f,
            Err(e) => {
                return Err(e);
            },
        };
        proof {
            lemma_loaded_fat_fits(image@, superblock);
        }
        Ok(Vmc { image, superblock, fat })
    }

    /// Counts the free clusters of the FAT.
    pub fn count_free_clusters(&self) -> (r: u32)
        ensures
            r == free_count(self.fat_entries()),
    {
        proof {
            use_type_invariant(self);
            self.fat.fat@.lemma_filter_len(|e: u32| crate::fat::is_free_entry(e));
        }
        self.fat.count_free() as u32
    }

    /// The cluster chain that starts at data-area cluster `start_cluster`.
    pub fn build_cluster_chain(&self, start_cluster: u32) -> (r: Vec<u32>)
        ensures
            r@ == cluster_chain(self.fat_entries(), start_cluster),
            is_cluster_chain(self.fat_entries(), start_cluster, r@),
    {
        let c = self.fat.build_cluster_chain(start_cluster);
        proof {
            let fat = self.fat.fat@;
            let chosen = cluster_chain(fat, start_cluster);
            assert(is_cluster_chain(fat, start_cluster, chosen));
            lemma_cluster_chain_unique(fat, start_cluster, c@, chosen);
        }
        c
    }

    /// Lists the root directory: reads the header record's declared count,
    /// then decodes that many 512-byte slots along the root's cluster chain,
    /// keeping the live entries in the order met.
    pub fn list_root_directory(&self) -> (r: Result<Vec<FSEntry>, VmcError>)
        ensures
            match root_listing(self.image_bytes(), self.header(), self.fat_entries()) {
                Ok((recs, _)) => r matches Ok(v) && entries_of(v@, recs),
                Err(e) => r matches Err(e2) && e2 == e,
            },
    {
        let ghost img = self.image@;
        let ghost full = root_listing(self.image@, self.superblock, self.fat.fat@);
        let cs = self.superblock.cluster_size;
        let ao = self.superblock.alloc_offset;
        if cs == 0 || cs % 4 != 0 {
            return Err(VmcError::InvalidFormat);
        }
        let image = self.image.as_slice();
        let len = image.len();
        let root_off = self.data_cluster_offset(self.superblock.rootdir_cluster);
        if root_off >= len as u128 {
            return Err(VmcError::InvalidFormat);
        }
        if root_off + 512 > len as u128 {
            return Err(VmcError::Io);
        }
        let expected = le_u32(image, root_off as usize + 4);
        let chain = self.build_cluster_chain(self.superblock.rootdir_cluster);
        let per_cluster = cs / 512;
        let mut entries: Vec<FSEntry> = Vec::new();
        let ghost mut recs: Seq<Seq<u8>> = Seq::empty();
        let mut processed: u32 = 0;
        let mut k: usize = 0;
        proof {
            assert(chain@.skip(0) =~= chain@);
            if let Ok((rs, p)) = full {
                assert(recs + rs =~= rs);
            }
        }
        while k < chain.len()
            invariant
                img == self.image@,
                full == root_listing(self.image@, self.superblock, self.fat.fat@),
                image@ == img,
                len == img.len(),
                cs == self.superblock.cluster_size,
                ao == self.superblock.alloc_offset,
                per_cluster == cs / 512,
                processed <= expected,
                k <= chain@.len(),
                full == after(
                    recs,
                    root_scan(img, ao, cs, chain@.skip(k as int), expected as int, processed as int),
                ),
                entries_of(entries@, recs),
            decreases chain@.len() - k,
        {
            let c = chain[k];
            proof {
                assert(chain@.skip(k as int)[0] == c);
                assert(chain@.skip(k as int).drop_first() =~= chain@.skip(k + 1));
            }
            let off = self.data_cluster_offset(c);
            if off >= len as u128 {
                proof {
                    assert(recs + Seq::empty() =~= recs);
                }
                return Ok(entries);
            }
            if off + cs as u128 > len as u128 {
                return Err(VmcError::Io);
            }
            let offu = off as usize;
            let cluster = &image[offu..offu + cs as usize];
            let left = expected - processed;
            let n: u32 = if per_cluster < left {
                per_cluster
            } else {
                left
            };
            let ghost recs0 = recs;
            let mut i: u32 = 0;
            proof {
                assert(recs0 + live_slots(img, off as int, 0) =~= recs0);
            }
            while i < n
                invariant
                    i <= n,
                    n <= per_cluster,
                    per_cluster == cs / 512,
                    cluster@ == img.subrange(off as int, off + cs),
                    off + cs <= img.len(),
                    recs == recs0 + live_slots(img, off as int, i as nat),
                    entries_of(entries@, recs),
                decreases n - i,
            {
                proof {
                    assert(512 * i + 512 <= cs) by (nonlinear_arith)
                        requires
                            i < per_cluster,
                            per_cluster == cs / 512,
                    ;
                }
                let lo = 512 * i as usize;
                let rec = &cluster[lo..lo + ENTRY_SIZE];
                proof {
                    assert(rec@ =~= slot(img, off as int, i as int));
                }
                if let Some(e) = decode_entry(rec) {
                    entries.push(e);
                    proof {
                        recs = recs.push(rec@);
                        assert(recs0 + live_slots(img, off as int, (i + 1) as nat) =~= recs);
                    }
                } else {
                    proof {
                        assert(recs0 + live_slots(img, off as int, (i + 1) as nat) =~= recs);
                    }
                }
                i = i + 1;
            }
            processed = processed + n;
            if processed >= expected {
                return Ok(entries);
            }
            proof {
                let rest = root_scan(
                    img,
                    ao,
                    cs,
                    chain@.skip(k + 1),
                    expected as int,
                    processed as int,
                );
                if let Ok((rs, p)) = rest {
                    assert(recs0 + (live_slots(img, off as int, n as nat) + rs) =~= recs + rs);
                }
            }
            k = k + 1;
        }
        proof {
            assert(chain@.skip(k as int) =~= Seq::<u32>::empty());
            assert(recs + Seq::empty() =~= recs);
        }
        Ok(entries)
    }

    /// The bytes of a file of `file_size` bytes whose data starts at cluster
    /// `start_cluster`, read cluster by cluster along its chain.
    pub fn extract_file_data(&self, start_cluster: u32, file_size: u32) -> (r: Result<
        Vec<u8>,
        VmcError,
    >)
        ensures
            match file_contents(
                self.image_bytes(),
                self.header(),
                self.fat_entries(),
                start_cluster,
                file_size,
            ) {
                Ok(d) => r matches Ok(v) && v@ == d,
                Err(e) => r matches Err(e2) && e2 == e,
            },
    {
        let mut data: Vec<u8> = Vec::new();
        if start_cluster == 0 || start_cluster == INVALID_CLUSTER_PTR {
            return Ok(data);
        }
        let ghost img = self.image@;
        let ghost full = file_contents(
            self.image@,
            self.superblock,
            self.fat.fat@,
            start_cluster,
            file_size,
        );
        let cs = self.superblock.cluster_size;
        let ao = self.superblock.alloc_offset;
        let image = self.image.as_slice();
        let len = image.len();
        let chain = self.build_cluster_chain(start_cluster);
        let mut bytes_read: u32 = 0;
        let mut k: usize = 0;
        proof {
            assert(chain@.skip(0) =~= chain@);
            if let Ok(d) = full {
                assert(data@ + d =~= d);
            }
        }
        while k < chain.len()
            invariant
                img == self.image@,
                full == file_contents(
                    self.image@,
                    self.superblock,
                    self.fat.fat@,
                    start_cluster,
                    file_size,
                ),
                start_cluster != 0 && start_cluster != INVALID_CLUSTER_PTR,
                chain@ == cluster_chain(self.fat.fat@, start_cluster),
                image@ == img,
                len == img.len(),
                cs == self.superblock.cluster_size,
                ao == self.superblock.alloc_offset,
                bytes_read <= file_size,
                k <= chain@.len(),
                full == after_bytes(
                    data@,
                    file_scan(img, ao, cs, chain@.skip(k as int), file_size - bytes_read),
                ),
            decreases chain@.len() - k,
        {
            let c = chain[k];
            proof {
                assert(chain@.skip(k as int)[0] == c);
                assert(chain@.skip(k as int).drop_first() =~= chain@.skip(k + 1));
                assert(data@ + Seq::empty() =~= data@);
            }
            if bytes_read >= file_size {
                return Ok(data);
            }
            let off = self.data_cluster_offset(c);
            if off >= len as u128 {
                return Ok(data);
            }
            let left = file_size - bytes_read;
            let n: u32 = if cs < left {
                cs
            } else {
                left
            };
            if off + n as u128 > len as u128 {
                return Err(VmcError::Io);
            }
            let offu = off as usize;
            let ghost before = data@;
            data.extend_from_slice(&image[offu..offu + n as usize]);
            bytes_read = bytes_read + n;
            proof {
                let piece = img.subrange(off as int, off + n);
                assert(data@ == before + piece);
                if let Ok(rest) = file_scan(
                    img,
                    ao,
                    cs,
                    chain@.skip(k + 1),
                    file_size - bytes_read,
                ) {
                    assert(before + (piece + rest) =~= data@ + rest);
                }
            }
            k = k + 1;
        }
        proof {
            assert(chain@.skip(k as int) =~= Seq::<u32>::empty());
            assert(data@ + Seq::empty() =~= data@);
        }
        Ok(data)
    }

    /// The files of the save directory whose first cluster is
    /// `start_cluster`: every 512-byte slot of every cluster of its chain is
    /// decoded, and the live entries that are neither "." nor "..", nor a
    /// directory, and that have a data cluster are kept, in order.
    pub fn directory_files(&self, start_cluster: u32) -> (r: Result<Vec<FSEntry>, VmcError>)
        ensures
            match dir_scan(
                self.image_bytes(),
                self.header().alloc_offset,
                self.header().cluster_size,
                cluster_chain(self.fat_entries(), start_cluster),
            ) {
                Ok(recs) => r matches Ok(v) && entries_of(v@, recs),
                Err(e) => r matches Err(e2) && e2 == e,
            },
    {
        let ghost img = self.image@;
        let cs = self.superblock.cluster_size;
        let ao = self.superblock.alloc_offset;
        let image = self.image.as_slice();
        let len = image.len();
        let chain = self.build_cluster_chain(start_cluster);
        let ghost full = dir_scan(img, ao, cs, chain@);
        let per_cluster = cs / 512;
        let mut entries: Vec<FSEntry> = Vec::new();
        let ghost mut recs: Seq<Seq<u8>> = Seq::empty();
        let mut k: usize = 0;
        proof {
            assert(chain@.skip(0) =~= chain@);
            if let Ok(rs) = full {
                assert(recs + rs =~= rs);
            }
        }
        while k < chain.len()
            invariant
                img == self.image@,
                full == dir_scan(img, ao, cs, chain@),
                chain@ == cluster_chain(self.fat.fat@, start_cluster),
                image@ == img,
                len == img.len(),
                cs == self.superblock.cluster_size,
                ao == self.superblock.alloc_offset,
                per_cluster == cs / 512,
                k <= chain@.len(),
                full == after_records(recs, dir_scan(img, ao, cs, chain@.skip(k as int))),
                entries_of(entries@, recs),
            decreases chain@.len() - k,
        {
            let c = chain[k];
            proof {
                assert(chain@.skip(k as int)[0] == c);
                assert(chain@.skip(k as int).drop_first() =~= chain@.skip(k + 1));
            }
            let off = self.data_cluster_offset(c);
            if off >= len as u128 {
                proof {
                    assert(recs + Seq::empty() =~= recs);
                }
                return Ok(entries);
            }
            if off + cs as u128 > len as u128 {
                return Err(VmcError::Io);
            }
            let offu = off as usize;
            let cluster = &image[offu..offu + cs as usize];
            let ghost recs0 = recs;
            let mut i: u32 = 0;
            proof {
                assert(recs0 + file_slots(img, off as int, 0) =~= recs0);
            }
            while i < per_cluster
                invariant
                    i <= per_cluster,
                    per_cluster == cs / 512,
                    cluster@ == img.subrange(off as int, off + cs),
                    off + cs <= img.len(),
                    recs == recs0 + file_slots(img, off as int, i as nat),
                    entries_of(entries@, recs),
                decreases per_cluster - i,
            {
                proof {
                    assert(512 * i + 512 <= cs) by (nonlinear_arith)
                        requires
                            i < per_cluster,
                            per_cluster == cs / 512,
                    ;
                }
                let lo = 512 * i as usize;
                let rec = &cluster[lo..lo + ENTRY_SIZE];
                proof {
                    assert(rec@ =~= slot(img, off as int, i as int));
                }
                if let Some(e) = decode_entry(rec) {
                    let keep = !is_dot_entry_name(&e.name) && !e.is_directory && e.cluster != 0
                        && e.cluster != INVALID_CLUSTER_PTR;
                    proof {
                        let raw = choose|raw: RawFSEntry|
                            decodes_raw(rec@, raw) && is_live(raw) && interprets(raw, e);
                        assert(keep == is_file_record(rec@));
                    }
                    if keep {
                        entries.push(e);
                        proof {
                            recs = recs.push(rec@);
                        }
                    }
                }
                proof {
                    assert(recs0 + file_slots(img, off as int, (i + 1) as nat) =~= recs);
                }
                i = i + 1;
            }
            proof {
                if let Ok(rs) = dir_scan(img, ao, cs, chain@.skip(k + 1)) {
                    assert(recs0 + (file_slots(img, off as int, per_cluster as nat) + rs)
                        =~= recs + rs);
                }
            }
            k = k + 1;
        }
        proof {
            assert(chain@.skip(k as int) =~= Seq::<u32>::empty());
            assert(recs + Seq::empty() =~= recs);
        }
        Ok(entries)
    }

    /// The save directories of the card: the root entries that are
    /// directories other than "." and "..", in listing order.
    pub fn save_directories(&self) -> (r: Result<Vec<FSEntry>, VmcError>)
        ensures
            match root_listing(self.image_bytes(), self.header(), self.fat_entries()) {
                Ok((recs, _)) => r matches Ok(v) && entries_of(
                    v@,
                    recs.filter(|rec: Seq<u8>| is_save_dir_record(rec)),
                ),
                Err(e) => r matches Err(e2) && e2 == e,
            },
    {
        let listed = match self.list_root_directory() {
            Ok(v) => v,
            Err(e) => {
                return Err(e);
            },
        };
        let ghost recs = match root_listing(self.image@, self.superblock, self.fat.fat@) {
            Ok((rs, _)) => rs,
            Err(_) => Seq::empty(),
        };
        let ghost keep = |rec: Seq<u8>| is_save_dir_record(rec);
        let mut saves: Vec<FSEntry> = Vec::new();
        let mut i: usize = 0;
        proof {
            assert(recs.subrange(0, 0).filter(keep) =~= Seq::<Seq<u8>>::empty());
        }
        while i < listed.len()
            invariant
                i <= listed@.len(),
                entries_of(listed@, recs),
                keep == (|rec: Seq<u8>| is_save_dir_record(rec)),
                entries_of(saves@, recs.subrange(0, i as int).filter(keep)),
            decreases listed@.len() - i,
        {
            let e = &listed[i];
            let ghost rec = recs[i as int];
            proof {
                recs.subrange(0, i as int).lemma_filter_push(rec, keep);
                assert(recs.subrange(0, i + 1) =~= recs.subrange(0, i as int).push(rec));
                let raw = choose|raw: RawFSEntry|
                    decodes_raw(rec, raw) && is_live(raw) && interprets(raw, *e);
            }
            if !is_dot_entry_name(&e.name) && e.is_directory {
                saves.push(entry_copy(e));
            }
            i = i + 1;
        }
        proof {
            assert(recs.subrange(0, i as int) =~= recs);
        }
        Ok(saves)
    }

    /// Image-absolute byte offset of data-area cluster `c`.
    pub fn data_cluster_offset(&self, c: u32) -> (r: u128)
        ensures
            r == cluster_offset(self.header().alloc_offset, c, self.header().cluster_size),
    {
        let a = self.superblock.alloc_offset as u128 + c as u128;
        let cs = self.superblock.cluster_size as u128;
        assert(a * cs <= 0x1_FFFF_FFFEu128 * 0xFFFF_FFFFu128) by (nonlinear_arith)
            requires
                a <= 0x1_FFFF_FFFEu128,
                cs <= 0xFFFF_FFFFu128,
        ;
        a * cs
    }
}

} // verus!
