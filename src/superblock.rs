//! The superblock at the start of a memory card image.

use crate::bytes::{bytes_to_string, le_u16, le_u16_at, le_u32, le_u32_at, nul_terminated_text};
use crate::error::VmcError;
use vstd::prelude::*;
use vstd::string::*;

verus! {

/// Number of bytes of the superblock that are decoded.
pub const SUPERBLOCK_SIZE: usize = 384;

/// Length of the magic text that opens every image.
pub const MAGIC_LEN: usize = 28;

/// Number of clusters on a card of the supported geometry.
pub const CLUSTERS_PER_CARD: u32 = 65536;

/// The bytes of "Sony PS2 Memory Card Format " (with its trailing space).
pub open spec fn vmc_magic() -> Seq<u8> {
    seq![
        83u8, 111, 110, 121, 32, 80, 83, 50, 32, 77, 101, 109, 111, 114, 121, 32, 67, 97, 114,
        100, 32, 70, 111, 114, 109, 97, 116, 32,
    ]
}

/// The image opens with the memory card magic.
pub open spec fn has_magic(image: Seq<u8>) -> bool {
    image.len() >= MAGIC_LEN && image.subrange(0, MAGIC_LEN as int) == vmc_magic()
}

/// Card geometry and file-system roots, as stored in the superblock.
#[derive(Debug, Clone)]
pub struct VmcSuperblock {
    pub magic: String,
    pub version: String,
    pub page_size: i16,
    pub pages_per_cluster: u16,
    pub cluster_size: u32,
    pub clusters_per_card: u32,
    pub alloc_offset: u32,
    pub max_allocatable_clusters: u32,
    pub rootdir_cluster: u32,
    pub backup_block1: u32,
    pub backup_block2: u32,
    pub ifc_ptr_list: [u32; 32],
    pub bad_block_list: [u32; 32],
    pub cardtype: u8,
    pub cardflags: u8,
}

/// `sb` holds what the superblock bytes `b` (which open with the magic) say.
pub open spec fn decodes_superblock(b: Seq<u8>, sb: VmcSuperblock) -> bool {
    &&& sb.magic@ == "Sony PS2 Memory Card Format "@
    &&& sb.version@ == match nul_terminated_text(b.subrange(0x1C, 0x28)) {
        Some(t) => t,
        None => Seq::empty(),
    }
    &&& sb.page_size == le_u16_at(b, 0x28) as i16
    &&& sb.pages_per_cluster == le_u16_at(b, 0x2A)
    &&& sb.alloc_offset == le_u32_at(b, 0x34)
    &&& sb.rootdir_cluster == le_u32_at(b, 0x3C)
    &&& sb.backup_block1 == le_u32_at(b, 0x40)
    &&& sb.backup_block2 == le_u32_at(b, 0x44)
    &&& forall|i: int| 0 <= i < 32 ==> #[trigger] sb.ifc_ptr_list[i] == le_u32_at(b, 0x50 + 4 * i)
    &&& forall|i: int|
        0 <= i < 32 ==> #[trigger] sb.bad_block_list[i] == le_u32_at(b, 0xD0 + 4 * i)
    &&& sb.cardtype == b[0x150]
    &&& sb.cardflags == b[0x151]
    &&& sb.cluster_size == le_u32_at(b, 0x154)
    &&& sb.max_allocatable_clusters == le_u32_at(b, 0x170)
    &&& sb.clusters_per_card == CLUSTERS_PER_CARD
}

/// Tells whether `b` opens with the memory card magic.
pub fn has_vmc_magic(b: &[u8]) -> (r: bool)
    ensures
        r == has_magic(b@),
{
    if b.len() < MAGIC_LEN {
        return false;
    }
    let m: [u8; 28] = [
        83u8, 111, 110, 121, 32, 80, 83, 50, 32, 77, 101, 109, 111, 114, 121, 32, 67, 97, 114,
        100, 32, 70, 111, 114, 109, 97, 116, 32,
    ];
    assert(m@ =~= vmc_magic());
    let mut i: usize = 0;
    while i < MAGIC_LEN
        invariant
            i <= MAGIC_LEN,
            b@.len() >= MAGIC_LEN,
            m@ == vmc_magic(),
            forall|j: int| 0 <= j < i ==> b@[j] == vmc_magic()[j],
        decreases MAGIC_LEN - i,
    {
        if b[i] != m[i] {
            assert(b@.subrange(0, MAGIC_LEN as int)[i as int] != vmc_magic()[i as int]);
            return false;
        }
        i = i + 1;
    }
    assert(b@.subrange(0, MAGIC_LEN as int) =~= vmc_magic());
    true
}

/// Reads 32 consecutive 32-bit values starting at byte `off`.
fn read_u32_array(b: &[u8], off: usize) -> (r: [u32; 32])
    requires
        off + 128 <= b@.len(),
    ensures
        forall|i: int| 0 <= i < 32 ==> #[trigger] r[i] == le_u32_at(b@, off + 4 * i),
{
    let mut r: [u32; 32] = [0u32; 32];
    let n = b.len();
    let mut i: usize = 0;
    while i < 32
        invariant
            i <= 32,
            n == b@.len(),
            off + 128 <= b@.len(),
            forall|j: int| 0 <= j < i ==> #[trigger] r[j] == le_u32_at(b@, off + 4 * j),
        decreases 32 - i,
    {
        r[i] = le_u32(b, off + 4 * i);
        i = i + 1;
    }
    r
}

impl VmcSuperblock {
    /// Decodes the superblock at the start of `buf`: a buffer shorter than
    /// the superblock is a short read, and one without the magic is not a
    /// memory card image.
    pub fn from_bytes(buf: &[u8]) -> (r: Result<VmcSuperblock, VmcError>)
        ensures
            buf@.len() < SUPERBLOCK_SIZE ==> r == Err::<VmcSuperblock, VmcError>(VmcError::Io),
            buf@.len() >= SUPERBLOCK_SIZE && !has_magic(buf@) ==> r == Err::<
                VmcSuperblock,
                VmcError,
            >(VmcError::InvalidFormat),
            buf@.len() >= SUPERBLOCK_SIZE && has_magic(buf@) ==> (r matches Ok(sb)
                && decodes_superblock(buf@, sb)),
    {
        if buf.len() < SUPERBLOCK_SIZE {
            return Err(VmcError::Io);
        }
        if !has_vmc_magic(buf) {
            return Err(VmcError::InvalidFormat);
        }
        let version = match bytes_to_string(&buf[0x1C..0x28]) {
            Some(v) => v,
            None => String::new(),
        };
        let sb = VmcSuperblock {
            magic: String::from_str("Sony PS2 Memory Card Format "),
            version,
            page_size: le_u16(buf, 0x28) as i16,
            pages_per_cluster: le_u16(buf, 0x2A),
            cluster_size: le_u32(buf, 0x154),
            clusters_per_card: CLUSTERS_PER_CARD,
            alloc_offset: le_u32(buf, 0x34),
            max_allocatable_clusters: le_u32(buf, 0x170),
            rootdir_cluster: le_u32(buf, 0x3C),
            backup_block1: le_u32(buf, 0x40),
            backup_block2: le_u32(buf, 0x44),
            ifc_ptr_list: read_u32_array(buf, 0x50),
            bad_block_list: read_u32_array(buf, 0xD0),
            cardtype: buf[0x150],
            cardflags: buf[0x151],
        };
        Ok(sb)
    }
}

} // verus!
