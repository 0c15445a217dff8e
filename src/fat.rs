//! The file allocation table: entry decoding, free-space accounting and
//! cluster chains.

use std::collections::HashSet;
use vstd::prelude::*;
use vstd::set_lib::{lemma_int_range, lemma_len_subset, set_int_range};

verus! {

broadcast use vstd::std_specs::hash::group_hash_axioms;

/// The all-ones cluster pointer, which points nowhere.
pub const INVALID_CLUSTER_PTR: u32 = 0xFFFF_FFFF;

/// Flag byte of a free cluster.
pub const FAT_FREE_FLAG: u8 = 0x7F;

/// Flag byte of the last cluster of a chain.
pub const FAT_LAST_FLAG: u8 = 0xFF;

/// The 24-bit successor field value of a free cluster.
pub const FAT_FREE_NEXT: u32 = 0xFF_FFFF;

/// The flag byte of a FAT entry: its most significant byte.
pub open spec fn flag_of(e: u32) -> u8 {
    ((e >> 24u32) & 0xFFu32) as u8
}

/// The successor field of a FAT entry: its low 24 bits.
pub open spec fn next_of(e: u32) -> u32 {
    e & 0xFF_FFFFu32
}

/// An entry marks a free cluster.
pub open spec fn is_free_entry(e: u32) -> bool {
    flag_of(e) == FAT_FREE_FLAG && next_of(e) == FAT_FREE_NEXT
}

/// The number of free clusters that a FAT records.
pub open spec fn free_count(fat: Seq<u32>) -> nat {
    fat.filter(|e: u32| is_free_entry(e)).len()
}

/// The flag byte of a raw FAT entry.
pub fn fat_flag(raw_entry: u32) -> (r: u8)
    ensures
        r == flag_of(raw_entry),
{
    ((raw_entry >> 24u32) & 0xFFu32) as u8
}

/// The successor cluster index held in a raw FAT entry.
pub fn fat_next(raw_entry: u32) -> (r: u32)
    ensures
        r == next_of(raw_entry),
{
    raw_entry & 0xFF_FFFFu32
}

/// Decoding a FAT entry splits it into its top byte and its low 24 bits;
/// the all-ones entry decodes to the last-cluster flag with an all-ones
/// successor field.
pub proof fn lemma_fat_decode(e: u32)
    ensures
        flag_of(e) as u32 == e / 0x100_0000,
        next_of(e) == e % 0x100_0000,
        flag_of(e) as u32 * 0x100_0000 + next_of(e) == e,
        e == INVALID_CLUSTER_PTR ==> flag_of(e) == FAT_LAST_FLAG && next_of(e) == FAT_FREE_NEXT,
{
    assert((e >> 24u32) & 0xFFu32 == e / 0x100_0000) by (bit_vector);
    assert(e & 0xFF_FFFFu32 == e % 0x100_0000) by (bit_vector);
    assert(((e >> 24u32) & 0xFFu32) < 256) by (bit_vector);
    assert(e == 0xFFFF_FFFFu32 ==> (e >> 24u32) & 0xFFu32 == 0xFFu32 && e & 0xFF_FFFFu32
        == 0xFF_FFFFu32) by (bit_vector);
}

/// A successor field never holds the invalid pointer.
proof fn lemma_next_is_valid(e: u32)
    ensures
        next_of(e) != INVALID_CLUSTER_PTR,
        next_of(e) <= 0xFF_FFFF,
{
    assert(e & 0xFF_FFFFu32 <= 0xFF_FFFFu32) by (bit_vector);
}

/// The walk goes on from cluster `a` to cluster `b`: `a` lies inside the
/// table, is not the last of its chain, and names `b` as its successor.
pub open spec fn links_to(fat: Seq<u32>, a: u32, b: u32) -> bool {
    &&& (a as int) < fat.len()
    &&& flag_of(fat[a as int]) != FAT_LAST_FLAG
    &&& b == next_of(fat[a as int])
}

/// The walk ends at cluster `last` of `chain`: it lies beyond the table, is
/// flagged as the last of its chain, or its successor was already visited.
pub open spec fn stops_at(fat: Seq<u32>, chain: Seq<u32>, last: u32) -> bool {
    ||| (last as int) >= fat.len()
    ||| flag_of(fat[last as int]) == FAT_LAST_FLAG
    ||| chain.contains(next_of(fat[last as int]))
}

/// `chain` is the walk of the FAT from `start`: it begins at `start` (and is
/// empty exactly when `start` is the invalid pointer), follows successor
/// fields, never repeats a cluster, and ends where the walk has to stop.
pub open spec fn is_cluster_chain(fat: Seq<u32>, start: u32, chain: Seq<u32>) -> bool {
    &&& (start == INVALID_CLUSTER_PTR <==> chain.len() == 0)
    &&& chain.len() > 0 ==> chain[0] == start
    &&& chain.no_duplicates()
    &&& forall|i: int| 0 <= i < chain.len() - 1 ==> links_to(fat, #[trigger] chain[i], chain[i + 1])
    &&& chain.len() > 0 ==> stops_at(fat, chain, chain.last())
}

/// The cluster chain that starts at `start`.
pub open spec fn cluster_chain(fat: Seq<u32>, start: u32) -> Seq<u32> {
    choose|c: Seq<u32>| is_cluster_chain(fat, start, c)
}

/// Two walks from one start are the same walk.
pub proof fn lemma_cluster_chain_unique(fat: Seq<u32>, start: u32, a: Seq<u32>, b: Seq<u32>)
    requires
        is_cluster_chain(fat, start, a),
        is_cluster_chain(fat, start, b),
    ensures
        a == b,
{
    if a.len() > 0 {
        lemma_chain_prefix_agrees(fat, start, a, b);
        lemma_chain_prefix_agrees(fat, start, b, a);
        lemma_chain_not_shorter(fat, start, a, b);
        lemma_chain_not_shorter(fat, start, b, a);
        assert(a =~= b);
    }
}

proof fn lemma_chain_prefix_agrees(fat: Seq<u32>, start: u32, a: Seq<u32>, b: Seq<u32>)
    requires
        is_cluster_chain(fat, start, a),
        is_cluster_chain(fat, start, b),
        a.len() > 0,
    ensures
        forall|i: int| 0 <= i < a.len() && i < b.len() ==> a[i] == b[i],
{
    assert forall|i: int| 0 <= i < a.len() && i < b.len() implies a[i] == b[i] by {
        lemma_chain_index_agrees(fat, start, a, b, i);
    }
}

proof fn lemma_chain_index_agrees(fat: Seq<u32>, start: u32, a: Seq<u32>, b: Seq<u32>, i: int)
    requires
        is_cluster_chain(fat, start, a),
        is_cluster_chain(fat, start, b),
        0 <= i < a.len(),
        i < b.len(),
    ensures
        a[i] == b[i],
    decreases i,
{
    if i > 0 {
        lemma_chain_index_agrees(fat, start, a, b, i - 1);
        assert(links_to(fat, a[i - 1], a[i]));
        assert(links_to(fat, b[i - 1], b[i]));
    }
}

proof fn lemma_chain_not_shorter(fat: Seq<u32>, start: u32, a: Seq<u32>, b: Seq<u32>)
    requires
        is_cluster_chain(fat, start, a),
        is_cluster_chain(fat, start, b),
        0 < a.len(),
        forall|i: int| 0 <= i < a.len() && i < b.len() ==> a[i] == b[i],
    ensures
        a.len() >= b.len(),
{
    if a.len() < b.len() {
        let k = a.len() - 1;
        assert(links_to(fat, b[k], b[k + 1]));
        assert(a.last() == b[k]);
        let j = choose|j: int| 0 <= j < a.len() && a[j] == next_of(fat[a.last() as int]);
        assert(b[j] == b[k + 1]);
    }
}

/// A duplicate-free sequence of indices below `n` has at most `n` items.
proof fn lemma_distinct_below(s: Seq<u32>, n: int)
    requires
        s.no_duplicates(),
        0 <= n,
        forall|i: int| 0 <= i < s.len() ==> (s[i] as int) < n,
    ensures
        s.len() <= n,
{
    let t = s.map_values(|x: u32| x as int);
    assert(t.no_duplicates()) by {
        assert forall|i: int, j: int| 0 <= i < t.len() && 0 <= j < t.len() && i != j implies t[i]
            != t[j] by {
            assert(s[i] != s[j]);
        }
    }
    t.unique_seq_to_set();
    lemma_int_range(0, n);
    assert(t.to_set().subset_of(set_int_range(0, n)));
    lemma_len_subset(t.to_set(), set_int_range(0, n));
}

/// The linear table of 32-bit FAT entries, one per data-area cluster.
pub struct FatTable {
    pub fat: Vec<u32>,
}

impl FatTable {
    /// Counts the entries that mark a free cluster.
    pub fn count_free(&self) -> (r: usize)
        ensures
            r == free_count(self.fat@),
    {
        let mut n: usize = 0;
        let mut i: usize = 0;
        while i < self.fat.len()
            invariant
                i <= self.fat@.len(),
                n == free_count(self.fat@.subrange(0, i as int)),
                n <= i,
            decreases self.fat@.len() - i,
        {
            let e = self.fat[i];
            proof {
                let pre = self.fat@.subrange(0, i as int);
                assert(self.fat@.subrange(0, i + 1) =~= pre.push(e));
                pre.lemma_filter_push(e, |e: u32| is_free_entry(e));
            }
            if fat_flag(e) == FAT_FREE_FLAG && fat_next(e) == FAT_FREE_NEXT {
                n = n + 1;
            }
            i = i + 1;
        }
        assert(self.fat@.subrange(0, i as int) =~= self.fat@);
        n
    }

    /// Follows the FAT from `start` until a cluster flagged as the last,
    /// a cluster beyond the table, or a cluster already visited.
    #[verifier::rlimit(40)]
    pub fn build_cluster_chain(&self, start_cluster: u32) -> (r: Vec<u32>)
        ensures
            is_cluster_chain(self.fat@, start_cluster, r@),
    {
        let ghost fat = self.fat@;
        let mut chain: Vec<u32> = Vec::new();
        let mut current = start_cluster;
        let mut processed: HashSet<u32> = HashSet::new();
        while current != INVALID_CLUSTER_PTR && !processed.contains(&current)
            invariant
                processed@ == chain@.to_set(),
                chain@.len() == 0 ==> current == start_cluster,
                chain@.len() > 0 ==> chain@[0] == start_cluster,
                start_cluster == INVALID_CLUSTER_PTR ==> chain@.len() == 0,
                chain@.no_duplicates(),
                forall|i: int| 0 <= i < chain@.len() ==> (#[trigger] chain@[i] as int) < fat.len(),
                forall|i: int|
                    0 <= i < chain@.len() - 1 ==> links_to(fat, #[trigger] chain@[i], chain@[i + 1]),
                chain@.len() > 0 ==> links_to(fat, chain@.last(), current),
                chain@.len() > 0 ==> current != INVALID_CLUSTER_PTR,
                fat == self.fat@,
            decreases fat.len() - chain@.len(),
        {
            let ghost old_chain = chain@;
            processed.insert(current);
            chain.push(current);
            proof {
                assert(chain@.to_set() =~= old_chain.to_set().insert(current)) by {
                    old_chain.lemma_push_to_set_commute(current);
                }
                assert(chain@.no_duplicates()) by {
                    assert(!old_chain.contains(current));
                }
            }
            if current as usize >= self.fat.len() {
                return chain;
            }
            let raw_entry = self.fat[current as usize];
            if fat_flag(raw_entry) == FAT_LAST_FLAG {
                return chain;
            }
            current = fat_next(raw_entry);
            proof {
                lemma_next_is_valid(raw_entry);
                lemma_distinct_below(chain@, fat.len() as int);
            }
        }
        proof {
            if chain@.len() > 0 {
                assert(chain@.to_set().contains(current));
                assert(chain@.contains(current));
            }
        }
        chain
    }
}

} // verus!
