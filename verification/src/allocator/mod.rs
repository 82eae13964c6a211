//! The chunk allocator: a bounded list of disjoint ranges of free memory.
//!
//! Every operation that hands memory out or takes it back leaves the list
//! tidy: sorted by descending base address, with neighbouring ranges joined
//! and the unused slots at the end.

pub mod model;
pub mod lemmas;
pub mod laws;

use vstd::prelude::*;
pub use crate::allocator::model::{Chunk, Region, RegionKind, CHUNK_LIMIT};
use crate::allocator::model::{
    alloc_address, can_alloc, can_free, can_seed, clear_of, disjoint, free_set, has_vacancy,
    in_bounds, is_first_vacant, is_largest, largest_index, no_stubs, normalized, ordered,
    precedes, regions_apart, regions_in_bounds, slot_before, span, total_length, usable_count,
    usable_set,
    usable_total, vacancies,
};
use crate::allocator::laws::{allocates, frees, seeds};
use crate::allocator::lemmas::{
    lemma_align_down, lemma_clear_of_chunks, lemma_disjoint_fill, lemma_disjoint_shrink,
    lemma_disjoint_swap, lemma_free_set_grow, lemma_free_set_shrink, lemma_free_set_swap,
    lemma_free_set_of_nothing, lemma_largest_is_index, lemma_normalized_ordered,
    lemma_regions_count_bound, lemma_regions_next, lemma_sorted_is_ordered, lemma_stepwise,
    lemma_take_next,
    lemma_total_bounds, lemma_total_swap, lemma_total_update, lemma_vacancies_positive,
    lemma_vacancies_update,
};

verus! {

impl Chunk {
    pub fn new(base: u64, length: u64) -> (chunk: Chunk)
        ensures
            chunk == (Chunk { base, length }),
    {
        Chunk { base, length }
    }

    /// Whether this is the value that marks an unused slot.
    pub fn is_empty(&self) -> (empty: bool)
        ensures
            empty == self.vacant(),
    {
        self.base == 0 && self.length == 0
    }
}

/// Calls `f` on one chunk.
fn visit<F>(f: &F, chunk: &mut Chunk) -> (stop: bool) where F: Fn(&mut Chunk) -> bool
    requires
        forall|given: &mut Chunk| call_requires(*f, (given,)),
    ensures
        exists|given: &mut Chunk|
            {
                &&& *given == *old(chunk)
                &&& *final(given) == *final(chunk)
                &&& #[trigger] call_ensures(*f, (given,), stop)
            },
{
    f(chunk)
}

/// The free list. Its view is the list of slots, unused ones included.
pub struct Allocator {
    chunks: [Chunk; CHUNK_LIMIT],
}

impl View for Allocator {
    type V = Seq<Chunk>;

    closed spec fn view(&self) -> Seq<Chunk> {
        self.chunks@
    }
}

impl Allocator {
    /// The list is tidy. Every operation below that changes it starts from
    /// a tidy list and ends with one.
    pub open spec fn wf(&self) -> bool {
        normalized(self@)
    }

    /// The addresses that are free.
    pub open spec fn free_addresses(&self) -> Set<int> {
        free_set(self@)
    }

    /// An allocator with nothing to give.
    pub fn new() -> (allocator: Allocator)
        ensures
            allocator.wf(),
            forall|i: int| 0 <= i < CHUNK_LIMIT ==> (#[trigger] allocator@[i]).vacant(),
            allocator.free_addresses() == Set::<int>::empty(),
            total_length(allocator@) == 0,
    {
        let allocator = Allocator { chunks: [Chunk { base: 0, length: 0 }; CHUNK_LIMIT] };
        proof {
            lemma_free_set_of_nothing(allocator@);
            lemma_total_bounds(allocator@);
        }
        allocator
    }

    /// Whether the list is tidy, as every operation that hands memory out or
    /// takes it back expects it and leaves it.
    pub fn is_tidy(&self) -> (tidy: bool)
        ensures
            tidy == self.wf(),
    {
        let mut index: usize = 0;
        while index < CHUNK_LIMIT
            invariant
                index <= CHUNK_LIMIT,
                self.chunks@.len() == CHUNK_LIMIT,
                forall|k: int| 0 <= k < index ==> (#[trigger] self.chunks@[k]).end() <= u64::MAX,
                forall|k: int|
                    0 <= k < index && (#[trigger] self.chunks@[k]).length == 0
                        ==> self.chunks@[k].base == 0,
                forall|k: int|
                    0 <= k < index - 1 && (#[trigger] self.chunks@[k + 1]).length > 0
                        ==> self.chunks@[k + 1].end() < self.chunks@[k].base,
            decreases CHUNK_LIMIT - index,
        {
            let chunk = self.chunks[index];
            if chunk.length > u64::MAX - chunk.base {
                assert(!(self.chunks@[index as int].end() <= u64::MAX));
                return false;
            }
            if chunk.length == 0 && chunk.base != 0 {
                assert(self.chunks@[index as int].length == 0);
                return false;
            }
            if index > 0 && chunk.length > 0 && chunk.base + chunk.length
                >= self.chunks[index - 1].base {
                assert(self.chunks@[index as int].length > 0 && !(self.chunks@[index as int].end()
                    < self.chunks@[index - 1].base));
                return false;
            }
            proof {
                if index > 0 {
                    assert(self.chunks@[(index - 1) + 1] == chunk);
                }
            }
            index += 1;
        }
        proof {
            let s = self.chunks@;
            assert forall|i: int, j: int|
                0 <= i < j < s.len() && (#[trigger] s[j]).length > 0 implies s[j].end() < (
            #[trigger] s[i]).base by {
                lemma_stepwise(s, i, j);
            }
        }
        true
    }

    /// The chunk in slot `index`, if the list has such a slot.
    pub fn chunk(&self, index: usize) -> (chunk: Option<Chunk>)
        ensures
            self@.len() == CHUNK_LIMIT,
            index < CHUNK_LIMIT ==> chunk == Some(self@[index as int]),
            index >= CHUNK_LIMIT ==> chunk is None,
    {
        if index < CHUNK_LIMIT {
            Some(self.chunks[index])
        } else {
            None
        }
    }

    /// The first unused slot.
    pub fn vacant_slot(&self) -> (slot: Option<usize>)
        ensures
            match slot {
                Some(i) => is_first_vacant(self@, i as int),
                None => !has_vacancy(self@),
            },
    {
        let mut index: usize = 0;
        while index < CHUNK_LIMIT
            invariant
                index <= CHUNK_LIMIT,
                self.chunks@.len() == CHUNK_LIMIT,
                forall|j: int| 0 <= j < index ==> !(#[trigger] self.chunks@[j]).vacant(),
            decreases CHUNK_LIMIT - index,
        {
            if self.chunks[index].is_empty() {
                return Some(index);
            }
            index += 1;
        }
        None
    }

    /// Calls `f` on each slot in turn, up to and including the first one for
    /// which it returns `true`. The list is not tidied.
    ///
    /// In the contract `visited` is the number of slots that `f` was called
    /// on, at least one; `chunk` stands for the reference that one call
    /// received and `stop` for what that call returned: `false` for every
    /// slot but the last, and `true` for the last unless the walk reached the
    /// end of the list.
    pub fn map<F>(&mut self, f: F) where F: Fn(&mut Chunk) -> bool
        requires
            forall|chunk: &mut Chunk| call_requires(f, (chunk,)),
        ensures
            final(self)@.len() == CHUNK_LIMIT,
            exists|visited: int|
                {
                    &&& 0 < visited <= CHUNK_LIMIT
                    &&& final(self)@.skip(visited) == #[trigger] old(self)@.skip(visited)
                    &&& forall|i: int| #[trigger]
                        slot_before(i, visited) ==> exists|chunk: &mut Chunk, stop: bool|
                            {
                                &&& *chunk == old(self)@[i]
                                &&& *final(chunk) == final(self)@[i]
                                &&& #[trigger] call_ensures(f, (chunk,), stop)
                                &&& i < visited - 1 ==> !stop
                                &&& i == visited - 1 && visited < CHUNK_LIMIT ==> stop
                            }
                },
    {
        let mut index: usize = 0;
        let mut stopped = false;
        while index < CHUNK_LIMIT && !stopped
            invariant
                index <= CHUNK_LIMIT,
                self.chunks@.len() == CHUNK_LIMIT,
                old(self)@.len() == CHUNK_LIMIT,
                stopped ==> index > 0,
                forall|chunk: &mut Chunk| call_requires(f, (chunk,)),
                forall|i: int| #[trigger]
                    slot_before(i, index as int) ==> exists|chunk: &mut Chunk, stop: bool|
                        {
                            &&& *chunk == old(self)@[i]
                            &&& *final(chunk) == self.chunks@[i]
                            &&& #[trigger] call_ensures(f, (chunk,), stop)
                            &&& i < index - 1 ==> !stop
                            &&& i == index - 1 ==> stop == stopped
                        },
                forall|i: int|
                    index <= i < CHUNK_LIMIT ==> #[trigger] self.chunks@[i] == old(self)@[i],
            decreases CHUNK_LIMIT - index,
        {
            let ghost before = self.chunks@;
            stopped = visit(&f, &mut self.chunks[index]);
            proof {
                assert forall|i: int| #[trigger] slot_before(i, index + 1) implies exists|
                    chunk: &mut Chunk,
                    stop: bool,
                |
                    {
                        &&& *chunk == old(self)@[i]
                        &&& *final(chunk) == self.chunks@[i]
                        &&& #[trigger] call_ensures(f, (chunk,), stop)
                        &&& i < index ==> !stop
                        &&& i == index ==> stop == stopped
                    } by {
                    if i < index {
                        assert(slot_before(i, index as int));
                        assert(self.chunks@[i] == before[i]);
                        let (chunk, stop) = choose|chunk: &mut Chunk, stop: bool|
                            {
                                &&& *chunk == old(self)@[i]
                                &&& *final(chunk) == before[i]
                                &&& #[trigger] call_ensures(f, (chunk,), stop)
                                &&& i < index - 1 ==> !stop
                                &&& i == index - 1 ==> stop == false
                            };
                        assert(call_ensures(f, (chunk,), stop));
                    } else {
                        let chunk = choose|chunk: &mut Chunk|
                            {
                                &&& *chunk == before[index as int]
                                &&& *final(chunk) == self.chunks@[index as int]
                                &&& #[trigger] call_ensures(f, (chunk,), stopped)
                            };
                        assert(call_ensures(f, (chunk,), stopped));
                    }
                }
            }
            index += 1;
        }
        proof {
            assert(self@.skip(index as int) =~= old(self)@.skip(index as int));
            assert forall|i: int| #[trigger] slot_before(i, index as int) implies exists|
                chunk: &mut Chunk,
                stop: bool,
            |
                {
                    &&& *chunk == old(self)@[i]
                    &&& *final(chunk) == self@[i]
                    &&& #[trigger] call_ensures(f, (chunk,), stop)
                    &&& i < index - 1 ==> !stop
                    &&& i == index - 1 && index < CHUNK_LIMIT ==> stop
                } by {
                let (chunk, stop) = choose|chunk: &mut Chunk, stop: bool|
                    {
                        &&& *chunk == old(self)@[i]
                        &&& *final(chunk) == self.chunks@[i]
                        &&& #[trigger] call_ensures(f, (chunk,), stop)
                        &&& i < index - 1 ==> !stop
                        &&& i == index - 1 ==> stop == stopped
                    };
                assert(call_ensures(f, (chunk,), stop));
            }
        }
    }

    /// Stores `new` in the first unused slot. A full list stays as it is.
    /// The list is not tidied.
    pub fn push(&mut self, new: Chunk)
        ensures
            final(self)@.len() == CHUNK_LIMIT,
            has_vacancy(old(self)@) ==> exists|i: int|
                is_first_vacant(old(self)@, i) && final(self)@ == old(self)@.update(i, new),
            !has_vacancy(old(self)@) ==> final(self)@ == old(self)@,
    {
        match self.vacant_slot() {
            Some(index) => {
                self.chunks[index] = new;
                assert(is_first_vacant(old(self)@, index as int));
                assert(has_vacancy(old(self)@));
            },
            None => {},
        }
    }

    /// The slot of the longest chunk; among chunks of the same length, the
    /// last one.
    pub fn largest(&self) -> (slot: Option<usize>)
        ensures
            slot == Some(largest_index(self@) as usize),
            is_largest(self@, largest_index(self@)),
    {
        let mut best: usize = 0;
        let mut index: usize = 1;
        while index < CHUNK_LIMIT
            invariant
                1 <= index <= CHUNK_LIMIT,
                self.chunks@.len() == CHUNK_LIMIT,
                best < index,
                forall|j: int|
                    0 <= j < index ==> (#[trigger] self.chunks@[j]).length
                        <= self.chunks@[best as int].length,
                forall|j: int|
                    best < j < index ==> (#[trigger] self.chunks@[j]).length
                        < self.chunks@[best as int].length,
            decreases CHUNK_LIMIT - index,
        {
            if self.chunks[index].length >= self.chunks[best].length {
                best = index;
            }
            index += 1;
        }
        proof {
            assert(is_largest(self@, best as int));
            lemma_largest_is_index(self@, best as int);
        }
        Some(best)
    }

    /// Turns every chunk without bytes into an unused slot.
    fn reclaim(&mut self)
        requires
            disjoint(old(self)@),
        ensures
            disjoint(final(self)@),
            no_stubs(final(self)@),
            free_set(final(self)@) == free_set(old(self)@),
            total_length(final(self)@) == total_length(old(self)@),
    {
        let mut index: usize = 0;
        while index < CHUNK_LIMIT
            invariant
                index <= CHUNK_LIMIT,
                disjoint(self.chunks@),
                forall|j: int|
                    0 <= j < index && (#[trigger] self.chunks@[j]).length == 0
                        ==> self.chunks@[j].base == 0,
                free_set(self.chunks@) == free_set(old(self)@),
                total_length(self.chunks@) == total_length(old(self)@),
            decreases CHUNK_LIMIT - index,
        {
            if self.chunks[index].length == 0 {
                let ghost before = self.chunks@;
                let unused = Chunk { base: 0, length: 0 };
                self.chunks[index] = unused;
                proof {
                    lemma_free_set_grow(before, index as int, unused);
                    assert(free_set(before).union(unused.range()) =~= free_set(before));
                    lemma_total_update(before, index as int, unused);
                }
            }
            index += 1;
        }
    }

    /// Lays the chunks out by descending base, unused slots last.
    fn sort(&mut self)
        requires
            disjoint(old(self)@),
            no_stubs(old(self)@),
        ensures
            ordered(final(self)@),
            free_set(final(self)@) == free_set(old(self)@),
            total_length(final(self)@) == total_length(old(self)@),
    {
        let mut index: usize = 0;
        while index < CHUNK_LIMIT
            invariant
                index <= CHUNK_LIMIT,
                disjoint(self.chunks@),
                no_stubs(self.chunks@),
                free_set(self.chunks@) == free_set(old(self)@),
                total_length(self.chunks@) == total_length(old(self)@),
                forall|a: int, b: int|
                    0 <= a < index && a < b < CHUNK_LIMIT ==> precedes(
                        #[trigger] self.chunks@[a],
                        #[trigger] self.chunks@[b],
                    ),
            decreases CHUNK_LIMIT - index,
        {
            let mut first: usize = index;
            let mut probe: usize = index + 1;
            while probe < CHUNK_LIMIT
                invariant
                    index < CHUNK_LIMIT,
                    index <= first < probe <= CHUNK_LIMIT,
                    self.chunks@.len() == CHUNK_LIMIT,
                    forall|t: int|
                        index <= t < probe ==> precedes(
                            self.chunks@[first as int],
                            #[trigger] self.chunks@[t],
                        ),
                decreases CHUNK_LIMIT - probe,
            {
                let candidate = self.chunks[probe];
                let leader = self.chunks[first];
                if candidate.base > leader.base || (candidate.base == leader.base
                    && candidate.length > leader.length) {
                    first = probe;
                }
                probe += 1;
            }
            let ghost before = self.chunks@;
            let lower = self.chunks[index];
            let upper = self.chunks[first];
            self.chunks[index] = upper;
            self.chunks[first] = lower;
            proof {
                lemma_free_set_swap(before, index as int, first as int);
                lemma_total_swap(before, index as int, first as int);
                lemma_disjoint_swap(before, index as int, first as int);
                assert(self.chunks@ == before.update(index as int, before[first as int]).update(
                    first as int,
                    before[index as int],
                ));
                assert forall|a: int, b: int|
                    0 <= a < index + 1 && a < b < CHUNK_LIMIT implies precedes(
                    #[trigger] self.chunks@[a],
                    #[trigger] self.chunks@[b],
                ) by {
                    let from = |k: int|
                        if k == index {
                            first as int
                        } else if k == first {
                            index as int
                        } else {
                            k
                        };
                    assert(self.chunks@[a] == before[from(a)]);
                    assert(self.chunks@[b] == before[from(b)]);
                    if a < index {
                        assert(precedes(before[a], before[from(b)]));
                    } else {
                        assert(precedes(before[first as int], before[from(b)]));
                    }
                }
                assert forall|k: int|
                    0 <= k < CHUNK_LIMIT && (#[trigger] self.chunks@[k]).length
                        == 0 implies self.chunks@[k].base == 0 by {
                    if k == index {
                        assert(before[first as int].length == 0);
                    } else if k == first {
                        assert(before[index as int].length == 0);
                    } else {
                        assert(before[k].length == 0);
                    }
                }
            }
            index += 1;
        }
        proof {
            lemma_sorted_is_ordered(self.chunks@);
        }
    }

    /// Joins every chunk to the one before it where the two touch, in one
    /// pass over the ordered list, so that no two chunks touch afterwards.
    pub fn merge(&mut self)
        requires
            ordered(old(self)@),
        ensures
            final(self).wf(),
            final(self).free_addresses() == old(self).free_addresses(),
            total_length(final(self)@) == total_length(old(self)@),
    {
        let mut merged = [Chunk { base: 0, length: 0 }; CHUNK_LIMIT];
        let mut count: usize = 0;
        let mut index: usize = 0;
        proof {
            lemma_free_set_of_nothing(merged@);
            lemma_total_bounds(merged@);
            assert(free_set(self.chunks@.take(0)) =~= Set::<int>::empty());
        }
        while index < CHUNK_LIMIT
            invariant
                count <= index <= CHUNK_LIMIT,
                ordered(self.chunks@),
                merged@.len() == CHUNK_LIMIT,
                in_bounds(merged@),
                forall|k: int| count <= k < CHUNK_LIMIT ==> (#[trigger] merged@[k]).vacant(),
                forall|k: int| 0 <= k < count ==> (#[trigger] merged@[k]).length > 0,
                forall|i: int, j: int|
                    0 <= i < j < count ==> (#[trigger] merged@[j]).end() < (
                    #[trigger] merged@[i]).base,
                count > 0 ==> forall|t: int|
                    index <= t < CHUNK_LIMIT && (#[trigger] self.chunks@[t]).length > 0
                        ==> self.chunks@[t].end() <= merged@[count - 1].base,
                free_set(merged@) == free_set(self.chunks@.take(index as int)),
                total_length(merged@) == total_length(self.chunks@.take(index as int)),
            decreases CHUNK_LIMIT - index,
        {
            let chunk = self.chunks[index];
            let ghost before = merged@;
            proof {
                lemma_take_next(self.chunks@, index as int);
            }
            if chunk.length > 0 {
                if count > 0 && chunk.base + chunk.length == merged[count - 1].base {
                    let upper = merged[count - 1];
                    let joined = Chunk { base: chunk.base, length: chunk.length + upper.length };
                    merged[count - 1] = joined;
                    proof {
                        lemma_free_set_grow(before, count - 1, joined);
                        lemma_total_update(before, count - 1, joined);
                        assert forall|a: int| upper.covers(a) implies free_set(before).contains(
                            a,
                        ) by {
                            assert(before[count - 1].covers(a));
                        }
                        assert forall|a: int| joined.covers(a) == (chunk.covers(a) || upper.covers(
                            a,
                        )) by {}
                        assert(free_set(before).union(joined.range()) =~= free_set(before).union(
                            chunk.range(),
                        ));
                    }
                } else {
                    merged[count] = chunk;
                    proof {
                        lemma_free_set_grow(before, count as int, chunk);
                        lemma_total_update(before, count as int, chunk);
                        assert forall|i: int, j: int|
                            0 <= i < j < count + 1 implies (#[trigger] merged@[j]).end() < (
                        #[trigger] merged@[i]).base by {
                            if j == count {
                                assert(chunk.end() < before[count - 1].base);
                                if i < count - 1 {
                                    assert(before[count - 1].end() < before[i].base);
                                }
                            }
                        }
                    }
                    count += 1;
                }
            } else {
                proof {
                    assert(free_set(before).union(chunk.range()) =~= free_set(before));
                }
            }
            index += 1;
        }
        proof {
            assert(self.chunks@.take(CHUNK_LIMIT as int) =~= self.chunks@);
        }
        self.chunks = merged;
    }

    /// Tidies the list: chunks without bytes give up their slot, the rest are
    /// sorted by descending base and joined where they touch.
    pub fn cleanup(&mut self)
        requires
            disjoint(old(self)@),
        ensures
            final(self).wf(),
            final(self).free_addresses() == old(self).free_addresses(),
            total_length(final(self)@) == total_length(old(self)@),
    {
        self.reclaim();
        self.sort();
        self.merge();
    }

    /// Whether `allocate` can serve a block of `size` bytes at a multiple of
    /// `align`.
    pub fn fits(&self, size: u64, align: u64) -> (ok: bool)
        requires
            self.wf(),
        ensures
            ok == can_alloc(self@, size, align),
    {
        if align == 0 {
            return false;
        }
        let index = match self.largest() {
            Some(index) => index,
            None => {
                return false;
            },
        };
        let chunk = self.chunks[index];
        if chunk.length < size {
            return false;
        }
        let rest = chunk.length - size;
        let offset = (chunk.base + rest) % align;
        if offset > rest {
            return false;
        }
        if offset == 0 {
            return true;
        }
        self.vacant_slot().is_some()
    }

    /// Hands out `size` bytes at a multiple of `align`.
    ///
    /// The block is cut from the top of the longest chunk. Where the top is
    /// not aligned the block moves down to the next multiple of `align`, and
    /// the bytes skipped above it stay free as a chunk of their own.
    pub fn allocate(&mut self, size: u64, align: u64) -> (address: u64)
        requires
            old(self).wf(),
            can_alloc(old(self)@, size, align),
        ensures
            final(self).wf(),
            address == alloc_address(old(self)@, size, align),
            address % align == 0,
            address + size <= u64::MAX,
            span(address as int, size as int).subset_of(old(self).free_addresses()),
            final(self).free_addresses() == old(self).free_addresses().difference(
                span(address as int, size as int),
            ),
            total_length(final(self)@) == total_length(old(self)@) - size,
            allocates(old(self)@, size, align, final(self)@, address),
    {
        let ghost s0 = self@;
        proof {
            lemma_normalized_ordered(s0);
        }
        let index = match self.largest() {
            Some(index) => index,
            None => 0,
        };
        let chunk = self.chunks[index];
        let rest = chunk.length - size;
        let offset = (chunk.base + rest) % align;
        let kept = Chunk { base: chunk.base, length: rest - offset };
        let address = kept.base + kept.length;
        self.chunks[index] = kept;
        let ghost s1 = self@;
        proof {
            lemma_align_down(chunk.base + rest, align as int);
            lemma_free_set_shrink(s0, index as int, kept);
            lemma_disjoint_shrink(s0, index as int, kept);
            lemma_total_update(s0, index as int, kept);
            assert(chunk.range().difference(kept.range()) =~= span(
                address as int,
                size + offset,
            ));
            assert forall|a: int| chunk.covers(a) implies free_set(s0).contains(a) by {
                assert(s0[index as int].covers(a));
            }
            assert forall|a: int| span(address as int, size as int).contains(a) implies free_set(
                s0,
            ).contains(a) by {
                assert(chunk.covers(a));
            }
        }
        if offset != 0 {
            let skipped = Chunk::new(address + size, offset);
            proof {
                let k = choose|k: int| 0 <= k < s0.len() && #[trigger] s0[k].vacant();
                assert(s1[k].vacant());
            }
            self.push(skipped);
            proof {
                let v = choose|v: int| is_first_vacant(s1, v) && self@ == s1.update(v, skipped);
                lemma_free_set_grow(s1, v, skipped);
                lemma_total_update(s1, v, skipped);
                assert forall|k: int|
                    0 <= k < s1.len() && (#[trigger] s1[k]).length > 0 implies skipped.end()
                    <= s1[k].base || s1[k].end() <= skipped.base by {
                    if k != index {
                        assert(s0[k].length > 0 && s0[index as int].length > 0);
                    }
                }
                lemma_disjoint_fill(s1, v, skipped);
                assert forall|a: int| skipped.covers(a) implies chunk.covers(a) by {}
                assert forall|a: int|
                    free_set(self@).contains(a) == free_set(s0).difference(
                        span(address as int, size as int),
                    ).contains(a) by {
                    assert(skipped.range().contains(a) == skipped.covers(a));
                    assert(span(address as int, size + offset).contains(a) == (address <= a
                        < address + size + offset));
                    if skipped.covers(a) {
                        assert(chunk.covers(a));
                    }
                }
                assert(free_set(self@) =~= free_set(s0).difference(
                    span(address as int, size as int),
                ));
            }
        } else {
            proof {
                assert(free_set(self@) =~= free_set(s0).difference(
                    span(address as int, size as int),
                ));
            }
        }
        self.cleanup();
        address
    }

    /// Whether `free` can take back `size` bytes at `address`.
    pub fn releasable(&self, address: u64, size: u64) -> (ok: bool)
        requires
            self.wf(),
        ensures
            ok == can_free(self@, address, size),
    {
        if size > u64::MAX - address {
            return false;
        }
        if self.vacant_slot().is_none() {
            return false;
        }
        self.clear(address, size)
    }

    /// Whether none of the `size` bytes at `address` is free.
    fn clear(&self, address: u64, size: u64) -> (ok: bool)
        requires
            self.wf(),
            address + size <= u64::MAX,
        ensures
            ok == free_set(self@).disjoint(span(address as int, size as int)),
    {
        proof {
            lemma_clear_of_chunks(self@, address as int, size as int);
        }
        let mut index: usize = 0;
        while index < CHUNK_LIMIT
            invariant
                index <= CHUNK_LIMIT,
                self.chunks@.len() == CHUNK_LIMIT,
                in_bounds(self.chunks@),
                address + size <= u64::MAX,
                forall|k: int|
                    0 <= k < index && (#[trigger] self.chunks@[k]).length > 0 && size > 0
                        ==> address + size <= self.chunks@[k].base || self.chunks@[k].end()
                        <= address,
            decreases CHUNK_LIMIT - index,
        {
            let chunk = self.chunks[index];
            if chunk.length > 0 && size > 0 && !(address + size <= chunk.base || chunk.base
                + chunk.length <= address) {
                proof {
                    lemma_clear_of_chunks(self@, address as int, size as int);
                    assert(self@[index as int].length > 0);
                }
                return false;
            }
            index += 1;
        }
        true
    }

    /// Takes back `size` bytes at `address`: the block becomes a chunk in the
    /// first unused slot, and the list is tidied.
    pub fn free(&mut self, address: u64, size: u64)
        requires
            old(self).wf(),
            can_free(old(self)@, address, size),
        ensures
            final(self).wf(),
            final(self).free_addresses() == old(self).free_addresses().union(
                span(address as int, size as int),
            ),
            total_length(final(self)@) == total_length(old(self)@) + size,
            frees(old(self)@, address, size, final(self)@),
    {
        let ghost s0 = self@;
        let block = Chunk::new(address, size);
        self.push(block);
        proof {
            let v = choose|v: int| is_first_vacant(s0, v) && self@ == s0.update(v, block);
            lemma_normalized_ordered(s0);
            lemma_clear_of_chunks(s0, address as int, size as int);
            lemma_free_set_grow(s0, v, block);
            lemma_total_update(s0, v, block);
            lemma_disjoint_fill(s0, v, block);
            assert(block.range() =~= span(address as int, size as int));
        }
        self.cleanup();
    }

    /// Number of unused slots.
    fn unused(&self) -> (count: usize)
        ensures
            count == vacancies(self@),
    {
        let mut count: usize = 0;
        let mut index: usize = 0;
        while index < CHUNK_LIMIT
            invariant
                count <= index <= CHUNK_LIMIT,
                self.chunks@.len() == CHUNK_LIMIT,
                count == vacancies(self.chunks@.take(index as int)),
            decreases CHUNK_LIMIT - index,
        {
            proof {
                assert(self.chunks@.take(index + 1).drop_last() =~= self.chunks@.take(
                    index as int,
                ));
            }
            if self.chunks[index].is_empty() {
                count += 1;
            }
            index += 1;
        }
        proof {
            assert(self.chunks@.take(CHUNK_LIMIT as int) =~= self.chunks@);
        }
        count
    }
}

impl Region {
    pub fn new(base: u64, length: u64, kind: RegionKind) -> (region: Region)
        ensures
            region == (Region { base, length, kind }),
    {
        Region { base, length, kind }
    }

    /// Whether the region is memory that the kernel may use.
    pub fn is_usable(&self) -> (usable: bool)
        ensures
            usable == self.usable(),
    {
        match self.kind {
            RegionKind::Usable => true,
            RegionKind::Reserved => false,
        }
    }
}

/// Whether every usable region of the map, moved by `offset`, ends inside
/// the address space.
fn in_bounds_check(memory_map: &[Region], offset: u64) -> (ok: bool)
    ensures
        ok == regions_in_bounds(memory_map@, offset),
{
    let mut index: usize = 0;
    while index < memory_map.len()
        invariant
            index <= memory_map@.len(),
            forall|k: int|
                0 <= k < index && (#[trigger] memory_map@[k]).usable() ==> memory_map@[k].base
                    + offset + memory_map@[k].length <= u64::MAX,
        decreases memory_map@.len() - index,
    {
        let region = memory_map[index];
        if region.is_usable() {
            if offset > u64::MAX - region.base || region.length > u64::MAX - region.base
                - offset {
                assert(memory_map@[index as int].usable());
                return false;
            }
        }
        index += 1;
    }
    true
}

/// Whether no two usable regions of the map share an address.
fn apart_check(memory_map: &[Region]) -> (ok: bool)
    ensures
        ok == regions_apart(memory_map@),
{
    let mut upper: usize = 0;
    while upper < memory_map.len()
        invariant
            upper <= memory_map@.len(),
            forall|k: int, l: int|
                0 <= k < l < upper && (#[trigger] memory_map@[k]).usable() && (
                #[trigger] memory_map@[l]).usable() && memory_map@[k].length > 0
                    && memory_map@[l].length > 0 ==> memory_map@[k].base + memory_map@[k].length
                    <= memory_map@[l].base || memory_map@[l].base + memory_map@[l].length
                    <= memory_map@[k].base,
        decreases memory_map@.len() - upper,
    {
        let second = memory_map[upper];
        if second.is_usable() && second.length > 0 {
            let mut lower: usize = 0;
            while lower < upper
                invariant
                    lower <= upper < memory_map@.len(),
                    second == memory_map@[upper as int],
                    second.usable(),
                    second.length > 0,
                    forall|k: int|
                        0 <= k < lower && (#[trigger] memory_map@[k]).usable()
                            && memory_map@[k].length > 0 ==> memory_map@[k].base
                            + memory_map@[k].length <= second.base || second.base + second.length
                            <= memory_map@[k].base,
                decreases upper - lower,
            {
                let first = memory_map[lower];
                if first.is_usable() && first.length > 0 {
                    let first_below = first.length <= u64::MAX - first.base && first.base
                        + first.length <= second.base;
                    let second_below = second.length <= u64::MAX - second.base && second.base
                        + second.length <= first.base;
                    if !first_below && !second_below {
                        assert(memory_map@[lower as int].usable());
                        assert(memory_map@[upper as int].usable());
                        return false;
                    }
                }
                lower += 1;
            }
        }
        upper += 1;
    }
    true
}

/// Number of usable regions of the map.
fn count_usable(memory_map: &[Region]) -> (count: usize)
    ensures
        count == usable_count(memory_map@),
{
    let mut count: usize = 0;
    let mut index: usize = 0;
    while index < memory_map.len()
        invariant
            count <= index <= memory_map@.len(),
            count == usable_count(memory_map@.take(index as int)),
        decreases memory_map@.len() - index,
    {
        proof {
            lemma_regions_next(memory_map@, 0, index as int);
        }
        if memory_map[index].is_usable() {
            count += 1;
        }
        index += 1;
    }
    proof {
        assert(memory_map@.take(memory_map@.len() as int) =~= memory_map@);
    }
    count
}

/// Whether `init` can seed the allocator from the map.
pub fn seedable(allocator: &Allocator, memory_map: &[Region], offset: u64) -> (ok: bool)
    requires
        allocator.wf(),
    ensures
        ok == can_seed(allocator@, memory_map@, offset),
{
    if !in_bounds_check(memory_map, offset) {
        return false;
    }
    if !apart_check(memory_map) {
        return false;
    }
    if count_usable(memory_map) > allocator.unused() {
        return false;
    }
    let mut index: usize = 0;
    while index < memory_map.len()
        invariant
            index <= memory_map@.len(),
            allocator.wf(),
            regions_in_bounds(memory_map@, offset),
            forall|k: int|
                0 <= k < index && (#[trigger] memory_map@[k]).usable() ==> free_set(
                    allocator@,
                ).disjoint(span(memory_map@[k].base + offset, memory_map@[k].length as int)),
        decreases memory_map@.len() - index,
    {
        let region = memory_map[index];
        if region.is_usable() {
            assert(memory_map@[index as int].usable());
            if !allocator.clear(region.base + offset, region.length) {
                return false;
            }
        }
        index += 1;
    }
    true
}

/// Seeds the free list from the memory map that the boot loader reports.
///
/// Every usable region becomes free memory, at its address moved by
/// `offset` into the addresses that the kernel sees. The other regions are
/// left alone.
pub fn init(allocator: &mut Allocator, memory_map: &[Region], offset: u64)
    requires
        old(allocator).wf(),
        can_seed(old(allocator)@, memory_map@, offset),
    ensures
        final(allocator).wf(),
        final(allocator).free_addresses() == old(allocator).free_addresses().union(
            usable_set(memory_map@, offset),
        ),
        total_length(final(allocator)@) == total_length(old(allocator)@) + usable_total(
            memory_map@,
        ),
        seeds(old(allocator)@, memory_map@, offset, final(allocator)@),
{
    let ghost s0 = allocator@;
    let ghost map = memory_map@;
    proof {
        lemma_normalized_ordered(s0);
        assert(usable_set(map.take(0), offset) =~= Set::<int>::empty());
        assert(free_set(s0).union(usable_set(map.take(0), offset)) =~= free_set(s0));
        assert forall|k: int| 0 <= k < map.len() && (#[trigger] map[k]).usable() implies clear_of(
            s0,
            map[k].seed(offset),
        ) by {
            lemma_clear_of_chunks(s0, map[k].base + offset, map[k].length as int);
        }
    }
    let mut index: usize = 0;
    while index < memory_map.len()
        invariant
            index <= map.len(),
            map == memory_map@,
            regions_in_bounds(map, offset),
            regions_apart(map),
            disjoint(allocator@),
            free_set(allocator@) == free_set(s0).union(usable_set(map.take(index as int), offset)),
            total_length(allocator@) == total_length(s0) + usable_total(map.take(index as int)),
            vacancies(allocator@) >= usable_count(map) - usable_count(map.take(index as int)),
            forall|k: int|
                index <= k < map.len() && (#[trigger] map[k]).usable() ==> clear_of(
                    allocator@,
                    map[k].seed(offset),
                ),
        decreases map.len() - index,
    {
        let region = memory_map[index];
        let ghost before = allocator@;
        proof {
            lemma_regions_next(map, offset, index as int);
            lemma_vacancies_positive(before);
            lemma_regions_count_bound(map, index as int);
        }
        if region.is_usable() {
            assert(map[index as int].usable());
            let chunk = Chunk::new(region.base + offset, region.length);
            allocator.push(chunk);
            proof {
                let v = choose|v: int|
                    is_first_vacant(before, v) && allocator@ == before.update(v, chunk);
                lemma_free_set_grow(before, v, chunk);
                lemma_total_update(before, v, chunk);
                lemma_vacancies_update(before, v, chunk);
                lemma_disjoint_fill(before, v, chunk);
                assert(chunk.range() =~= span(region.base + offset, region.length as int));
                assert(free_set(allocator@) =~= free_set(s0).union(
                    usable_set(map.take(index + 1), offset),
                ));
                assert forall|k: int|
                    index + 1 <= k < map.len() && (#[trigger] map[k]).usable() implies clear_of(
                    allocator@,
                    map[k].seed(offset),
                ) by {
                    assert(clear_of(before, map[k].seed(offset)));
                    let c = map[k].seed(offset);
                    assert forall|t: int|
                        0 <= t < allocator@.len() && (#[trigger] allocator@[t]).length > 0
                            && c.length > 0 implies c.end() <= allocator@[t].base
                        || allocator@[t].end() <= c.base by {
                        if t != v {
                            assert(before[t].length > 0);
                        }
                    }
                }
            }
        }
        index += 1;
    }
    proof {
        assert(map.take(map.len() as int) =~= map);
    }
    allocator.cleanup();
}

} // verus!
