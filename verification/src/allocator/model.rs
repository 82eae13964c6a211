//! Mathematical model of the free list: what a list of chunks stands for
//! and which lists count as tidy.

use vstd::prelude::*;

verus! {

/// Number of slots in the free list.
pub const CHUNK_LIMIT: usize = 100;

/// One contiguous range of free memory, `[base, base + length)`.
/// The value with both fields zero marks an unused slot.
#[derive(Debug, Clone, Copy)]
pub struct Chunk {
    pub base: u64,
    pub length: u64,
}

impl Chunk {
    /// The slot holds no chunk.
    pub open spec fn vacant(self) -> bool {
        self.base == 0 && self.length == 0
    }

    /// First address past the chunk.
    pub open spec fn end(self) -> int {
        self.base + self.length
    }

    /// The chunk holds address `a`.
    pub open spec fn covers(self, a: int) -> bool {
        self.base <= a < self.base + self.length
    }

    /// The addresses of the chunk.
    pub open spec fn range(self) -> Set<int> {
        Set::new(|a: int| self.covers(a))
    }
}

/// What the platform says of a range of physical memory.
#[derive(Debug, Clone, Copy)]
pub enum RegionKind {
    /// Ordinary memory that the kernel may use.
    Usable,
    /// Anything else: firmware, devices, the kernel image.
    Reserved,
}

/// One entry of the memory map that the boot loader hands over.
#[derive(Debug, Clone, Copy)]
pub struct Region {
    pub base: u64,
    pub length: u64,
    pub kind: RegionKind,
}

impl Region {
    /// The region is memory that the kernel may use.
    pub open spec fn usable(self) -> bool {
        self.kind is Usable
    }

    /// The chunk that the region becomes once its base is moved by `offset`
    /// into the addresses that the kernel sees.
    pub open spec fn seed(self, offset: u64) -> Chunk {
        Chunk { base: (self.base + offset) as u64, length: self.length }
    }
}

/// The addresses `[start, start + size)`.
pub open spec fn span(start: int, size: int) -> Set<int> {
    Set::new(|a: int| start <= a < start + size)
}

/// Every address that some chunk of the list holds.
pub open spec fn free_set(s: Seq<Chunk>) -> Set<int> {
    Set::new(|a: int| exists|i: int| 0 <= i < s.len() && #[trigger] s[i].covers(a))
}

/// Sum of the lengths of all chunks of the list.
pub open spec fn total_length(s: Seq<Chunk>) -> int
    decreases s.len(),
{
    if s.len() == 0 {
        0
    } else {
        total_length(s.drop_last()) + s.last().length
    }
}

/// Number of unused slots.
pub open spec fn vacancies(s: Seq<Chunk>) -> int
    decreases s.len(),
{
    if s.len() == 0 {
        0
    } else {
        vacancies(s.drop_last()) + if s.last().vacant() { 1int } else { 0int }
    }
}

/// `i` is the number of a slot that comes before slot `end`.
pub open spec fn slot_before(i: int, end: int) -> bool {
    0 <= i < end
}

/// Some slot is unused.
pub open spec fn has_vacancy(s: Seq<Chunk>) -> bool {
    exists|i: int| 0 <= i < s.len() && #[trigger] s[i].vacant()
}

/// `i` is the first unused slot.
pub open spec fn is_first_vacant(s: Seq<Chunk>, i: int) -> bool {
    &&& 0 <= i < s.len()
    &&& s[i].vacant()
    &&& forall|j: int| 0 <= j < i ==> !(#[trigger] s[j]).vacant()
}

/// No chunk reaches past the top of the address space.
pub open spec fn in_bounds(s: Seq<Chunk>) -> bool {
    forall|i: int| 0 <= i < s.len() ==> (#[trigger] s[i]).end() <= u64::MAX
}

/// No two chunks share an address. This is all that a list must satisfy
/// before it can be tidied.
pub open spec fn disjoint(s: Seq<Chunk>) -> bool {
    &&& s.len() == CHUNK_LIMIT
    &&& in_bounds(s)
    &&& forall|i: int, j: int|
        0 <= i < s.len() && 0 <= j < s.len() && i != j && (#[trigger] s[i]).length > 0 && (
        #[trigger] s[j]).length > 0 ==> s[i].end() <= s[j].base || s[j].end() <= s[i].base
}

/// A chunk without bytes is an unused slot.
pub open spec fn no_stubs(s: Seq<Chunk>) -> bool {
    forall|i: int| 0 <= i < s.len() && (#[trigger] s[i]).length == 0 ==> s[i].base == 0
}

/// The chunks come by descending base, none overlaps the one before it,
/// a chunk without bytes is an unused slot, and the unused slots come last.
/// Neighbours may still touch.
pub open spec fn ordered(s: Seq<Chunk>) -> bool {
    &&& s.len() == CHUNK_LIMIT
    &&& in_bounds(s)
    &&& no_stubs(s)
    &&& forall|i: int, j: int|
        0 <= i < j < s.len() && (#[trigger] s[j]).length > 0 ==> s[j].end() <= (
        #[trigger] s[i]).base
}

/// The tidy form of a free list: ordered, and no chunk ends where the one
/// before it begins, so every run of free addresses is one chunk.
pub open spec fn normalized(s: Seq<Chunk>) -> bool {
    &&& s.len() == CHUNK_LIMIT
    &&& in_bounds(s)
    &&& no_stubs(s)
    &&& forall|i: int, j: int|
        0 <= i < j < s.len() && (#[trigger] s[j]).length > 0 ==> s[j].end() < (#[trigger] s[i]).base
}

/// Chunk `c` shares no address with any chunk of the list.
pub open spec fn clear_of(s: Seq<Chunk>, c: Chunk) -> bool {
    forall|k: int|
        0 <= k < s.len() && (#[trigger] s[k]).length > 0 && c.length > 0 ==> c.end() <= s[k].base
            || s[k].end() <= c.base
}

/// The order in which tidying lays the chunks out: by descending base, and
/// for one base by descending length, which puts the unused slots last.
pub open spec fn precedes(a: Chunk, b: Chunk) -> bool {
    a.base > b.base || (a.base == b.base && a.length >= b.length)
}

/// `i` is the slot that a scan for the greatest length settles on: no chunk
/// is longer, and every later one is shorter.
pub open spec fn is_largest(s: Seq<Chunk>, i: int) -> bool {
    &&& 0 <= i < s.len()
    &&& forall|j: int| 0 <= j < s.len() ==> (#[trigger] s[j]).length <= s[i].length
    &&& forall|j: int| i < j < s.len() ==> (#[trigger] s[j]).length < s[i].length
}

/// The slot of the longest chunk, the last one among equals.
pub open spec fn largest_index(s: Seq<Chunk>) -> int {
    choose|i: int| is_largest(s, i)
}

/// How far the top `size` bytes of chunk `c` lie above a multiple of `align`.
pub open spec fn misalignment(c: Chunk, size: u64, align: u64) -> int {
    (c.end() - size) % (align as int)
}

/// An allocation of `size` bytes at a multiple of `align` can be served:
/// the longest chunk has room for the block and for the bytes skipped to
/// align it, and a slot is free to hold those bytes.
pub open spec fn can_alloc(s: Seq<Chunk>, size: u64, align: u64) -> bool {
    let c = s[largest_index(s)];
    &&& align > 0
    &&& size <= c.length
    &&& misalignment(c, size, align) <= c.length - size
    &&& (misalignment(c, size, align) != 0 ==> has_vacancy(s))
}

/// The address that such an allocation returns: the highest multiple of
/// `align` at which the block still ends inside the longest chunk.
pub open spec fn alloc_address(s: Seq<Chunk>, size: u64, align: u64) -> int {
    let c = s[largest_index(s)];
    c.end() - size - misalignment(c, size, align)
}

/// A block of `size` bytes at `address` can be handed back: it lies in the
/// address space, none of its bytes is free already, and a slot is unused.
pub open spec fn can_free(s: Seq<Chunk>, address: u64, size: u64) -> bool {
    &&& address + size <= u64::MAX
    &&& has_vacancy(s)
    &&& free_set(s).disjoint(span(address as int, size as int))
}

/// Every address of a usable region of the map, moved by `offset`.
pub open spec fn usable_set(map: Seq<Region>, offset: u64) -> Set<int> {
    Set::new(
        |a: int|
            exists|k: int|
                0 <= k < map.len() && (#[trigger] map[k]).usable() && map[k].base + offset <= a
                    < map[k].base + offset + map[k].length,
    )
}

/// Sum of the lengths of the usable regions of the map.
pub open spec fn usable_total(map: Seq<Region>) -> int
    decreases map.len(),
{
    if map.len() == 0 {
        0
    } else {
        usable_total(map.drop_last()) + if map.last().usable() {
            map.last().length as int
        } else {
            0int
        }
    }
}

/// Number of usable regions of the map.
pub open spec fn usable_count(map: Seq<Region>) -> int
    decreases map.len(),
{
    if map.len() == 0 {
        0
    } else {
        usable_count(map.drop_last()) + if map.last().usable() {
            1int
        } else {
            0int
        }
    }
}

/// Every usable region, moved by `offset`, ends inside the address space.
pub open spec fn regions_in_bounds(map: Seq<Region>, offset: u64) -> bool {
    forall|k: int|
        0 <= k < map.len() && (#[trigger] map[k]).usable() ==> map[k].base + offset
            + map[k].length <= u64::MAX
}

/// No two usable regions share an address.
pub open spec fn regions_apart(map: Seq<Region>) -> bool {
    forall|k: int, l: int|
        0 <= k < l < map.len() && (#[trigger] map[k]).usable() && (#[trigger] map[l]).usable()
            && map[k].length > 0 && map[l].length > 0 ==> map[k].base + map[k].length
            <= map[l].base || map[l].base + map[l].length <= map[k].base
}

/// No usable region, moved by `offset`, holds an address that is free already.
pub open spec fn regions_clear(s: Seq<Chunk>, map: Seq<Region>, offset: u64) -> bool {
    forall|k: int|
        0 <= k < map.len() && (#[trigger] map[k]).usable() ==> free_set(s).disjoint(
            span(map[k].base + offset, map[k].length as int),
        )
}

/// The free list can take in the usable regions of the map: they fit into
/// the address space and into the unused slots, and neither two of them nor
/// one of them and a free chunk share an address.
pub open spec fn can_seed(s: Seq<Chunk>, map: Seq<Region>, offset: u64) -> bool {
    &&& regions_in_bounds(map, offset)
    &&& regions_apart(map)
    &&& regions_clear(s, map, offset)
    &&& usable_count(map) <= vacancies(s)
}

} // verus!
