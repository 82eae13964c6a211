//! What holds of the allocator over whole runs of requests, stated over the
//! same model as the contracts of `allocate`, `free` and `init`.

use vstd::prelude::*;
use crate::allocator::model::{
    Chunk, Region, alloc_address, can_alloc, can_free, can_seed, free_set, is_largest,
    largest_index, normalized, span, total_length, usable_set, usable_total,
};
use crate::allocator::lemmas::lemma_normalized_ordered;

verus! {

/// What `allocate` guarantees: from the tidy list `pre`, a request for
/// `size` bytes at a multiple of `align` gives `address` and leaves `post`.
pub open spec fn allocates(
    pre: Seq<Chunk>,
    size: u64,
    align: u64,
    post: Seq<Chunk>,
    address: u64,
) -> bool {
    &&& normalized(pre)
    &&& can_alloc(pre, size, align)
    &&& normalized(post)
    &&& address == alloc_address(pre, size, align)
    &&& address % align == 0
    &&& address + size <= u64::MAX
    &&& span(address as int, size as int).subset_of(free_set(pre))
    &&& free_set(post) == free_set(pre).difference(span(address as int, size as int))
    &&& total_length(post) == total_length(pre) - size
}

/// What `free` guarantees: from the tidy list `pre`, handing back `size`
/// bytes at `address` leaves `post`.
pub open spec fn frees(pre: Seq<Chunk>, address: u64, size: u64, post: Seq<Chunk>) -> bool {
    &&& normalized(pre)
    &&& can_free(pre, address, size)
    &&& normalized(post)
    &&& free_set(post) == free_set(pre).union(span(address as int, size as int))
    &&& total_length(post) == total_length(pre) + size
}

/// What `init` guarantees: from the tidy list `pre`, the usable regions of
/// `map` moved by `offset` leave `post`.
pub open spec fn seeds(pre: Seq<Chunk>, map: Seq<Region>, offset: u64, post: Seq<Chunk>) -> bool {
    &&& normalized(pre)
    &&& can_seed(pre, map, offset)
    &&& normalized(post)
    &&& free_set(post) == free_set(pre).union(usable_set(map, offset))
    &&& total_length(post) == total_length(pre) + usable_total(map)
}

/// One served request, with what it returned.
pub enum Step {
    Allocated { size: u64, align: u64, address: u64 },
    Freed { address: u64, size: u64 },
}

/// The step leads from `pre` to `post`.
pub open spec fn advances(pre: Seq<Chunk>, step: Step, post: Seq<Chunk>) -> bool {
    match step {
        Step::Allocated { size, align, address } => allocates(pre, size, align, post, address),
        Step::Freed { address, size } => frees(pre, address, size, post),
    }
}

/// `states` are the lists before, between and after the steps.
pub open spec fn is_run(states: Seq<Seq<Chunk>>, steps: Seq<Step>) -> bool {
    &&& states.len() == steps.len() + 1
    &&& forall|k: int|
        0 <= k < steps.len() ==> advances(#[trigger] states[k], steps[k], states[k + 1])
}

/// The bytes handed out and not yet handed back.
pub open spec fn in_flight(steps: Seq<Step>) -> int
    decreases steps.len(),
{
    if steps.len() == 0 {
        0
    } else {
        in_flight(steps.drop_last()) + match steps.last() {
            Step::Allocated { size, .. } => size as int,
            Step::Freed { size, .. } => -(size as int),
        }
    }
}

/// Two tidy lists that free the same addresses are the same list: the
/// contracts of `allocate`, `free` and `init`, which give the free set of
/// the tidy list they leave, determine that list.
pub proof fn lemma_normalized_unique(a: Seq<Chunk>, b: Seq<Chunk>)
    requires
        normalized(a),
        normalized(b),
        free_set(a) == free_set(b),
    ensures
        a == b,
{
    lemma_same_prefix(a, b, a.len() as int);
    assert(a =~= b);
}

proof fn lemma_same_prefix(a: Seq<Chunk>, b: Seq<Chunk>, n: int)
    requires
        normalized(a),
        normalized(b),
        free_set(a) == free_set(b),
        0 <= n <= a.len(),
    ensures
        forall|j: int| 0 <= j < n ==> a[j] == b[j],
    decreases n,
{
    if n > 0 {
        lemma_same_prefix(a, b, n - 1);
        let k = n - 1;
        if a[k].length > 0 {
            lemma_reaches(a, b, k);
            lemma_reaches(b, a, k);
            lemma_starts(a, b, k);
            lemma_starts(b, a, k);
        } else if b[k].length > 0 {
            lemma_reaches(b, a, k);
        }
    }
}

/// Where two tidy lists with one free set agree before slot `k` and the
/// first holds a chunk there, so does the second, and it ends no lower.
proof fn lemma_reaches(a: Seq<Chunk>, b: Seq<Chunk>, k: int)
    requires
        normalized(a),
        normalized(b),
        free_set(a) == free_set(b),
        0 <= k < a.len(),
        forall|j: int| 0 <= j < k ==> a[j] == b[j],
        a[k].length > 0,
    ensures
        b[k].length > 0,
        a[k].end() <= b[k].end(),
{
    let x = a[k].end() - 1;
    assert(a[k].covers(x));
    assert(free_set(a).contains(x));
    assert(free_set(b).contains(x));
    let t = choose|t: int| 0 <= t < b.len() && #[trigger] b[t].covers(x);
    if t < k {
        assert(b[t] == a[t]);
        assert(a[k].end() < a[t].base);
    } else if t > k {
        assert(b[t].end() < b[k].base);
    }
}

/// Where, beyond that, both chunks of slot `k` end at one address, the
/// first starts no lower than the second.
proof fn lemma_starts(a: Seq<Chunk>, b: Seq<Chunk>, k: int)
    requires
        normalized(a),
        normalized(b),
        free_set(a) == free_set(b),
        0 <= k < a.len(),
        forall|j: int| 0 <= j < k ==> a[j] == b[j],
        a[k].length > 0,
        b[k].length > 0,
        a[k].end() == b[k].end(),
    ensures
        a[k].base >= b[k].base,
{
    if a[k].base < b[k].base {
        let y = b[k].base - 1;
        assert(a[k].covers(y));
        assert(free_set(a).contains(y));
        assert(free_set(b).contains(y));
        let t = choose|t: int| 0 <= t < b.len() && #[trigger] b[t].covers(y);
        if t < k {
            assert(b[t] == a[t]);
            assert(a[k].end() < a[t].base);
        } else if t > k {
            assert(b[t].end() < b[k].base);
        }
    }
}

/// No overlap: in a tidy list no two chunks share an address.
pub proof fn lemma_no_overlap(s: Seq<Chunk>, i: int, j: int, a: int)
    requires
        normalized(s),
        0 <= i < s.len(),
        0 <= j < s.len(),
        i != j,
    ensures
        !(s[i].covers(a) && s[j].covers(a)),
{
    lemma_normalized_ordered(s);
    if s[i].covers(a) && s[j].covers(a) {
        assert(s[i].length > 0 && s[j].length > 0);
    }
}

/// In a tidy list every unbroken run of free addresses lies in one chunk.
pub proof fn lemma_run_in_one_chunk(s: Seq<Chunk>, low: int, high: int) -> (k: int)
    requires
        normalized(s),
        low < high,
        forall|a: int| low <= a < high ==> free_set(s).contains(a),
    ensures
        0 <= k < s.len(),
        s[k].base <= low,
        high <= s[k].end(),
{
    assert(free_set(s).contains(low));
    let k = choose|k: int| 0 <= k < s.len() && #[trigger] s[k].covers(low);
    if high > s[k].end() {
        let e = s[k].end();
        assert(free_set(s).contains(e));
        let t = choose|t: int| 0 <= t < s.len() && #[trigger] s[t].covers(e);
        if t < k {
            assert(s[k].end() < s[t].base);
        } else if t > k {
            assert(s[t].end() < s[k].base);
        }
    }
    k
}

/// Every list with a slot has a longest chunk that is last among equals.
pub proof fn lemma_largest_exists(s: Seq<Chunk>)
    requires
        s.len() > 0,
    ensures
        is_largest(s, largest_index(s)),
    decreases s.len(),
{
    if s.len() == 1 {
        assert(is_largest(s, 0));
    } else {
        let p = s.drop_last();
        lemma_largest_exists(p);
        let best = largest_index(p);
        let last = s.len() - 1;
        if s[last].length >= p[best].length {
            assert forall|j: int| 0 <= j < s.len() implies (#[trigger] s[j]).length
                <= s[last].length by {
                if j < last {
                    assert(p[j].length <= p[best].length);
                }
            }
            assert(is_largest(s, last));
        } else {
            assert forall|j: int| 0 <= j < s.len() implies (#[trigger] s[j]).length
                <= s[best].length by {
                if j < last {
                    assert(p[j].length <= p[best].length);
                }
            }
            assert forall|j: int| best < j < s.len() implies (#[trigger] s[j]).length
                < s[best].length by {
                if j < last {
                    assert(p[j].length < p[best].length);
                }
            }
            assert(is_largest(s, best));
        }
    }
}

/// Conservation: over any run of served requests, the bytes that are free
/// and the bytes in flight add up to what was free at the start.
pub proof fn lemma_conservation(states: Seq<Seq<Chunk>>, steps: Seq<Step>)
    requires
        is_run(states, steps),
    ensures
        total_length(states.last()) + in_flight(steps) == total_length(states[0]),
    decreases steps.len(),
{
    if steps.len() > 0 {
        let n = steps.len() as int;
        let earlier = states.drop_last();
        let before = steps.drop_last();
        assert forall|k: int| 0 <= k < before.len() implies advances(
            #[trigger] earlier[k],
            before[k],
            earlier[k + 1],
        ) by {
            assert(advances(states[k], steps[k], states[k + 1]));
        }
        lemma_conservation(earlier, before);
        assert(advances(states[n - 1], steps[n - 1], states[n]));
        assert(earlier.last() == states[n - 1]);
    }
}

/// Conservation from boot: after `init` has seeded an empty list, the bytes
/// that are free and the bytes in flight add up to the usable memory that
/// the map reported.
pub proof fn lemma_conservation_from_boot(
    empty: Seq<Chunk>,
    map: Seq<Region>,
    offset: u64,
    states: Seq<Seq<Chunk>>,
    steps: Seq<Step>,
)
    requires
        total_length(empty) == 0,
        seeds(empty, map, offset, states[0]),
        is_run(states, steps),
    ensures
        total_length(states.last()) + in_flight(steps) == usable_total(map),
{
    lemma_conservation(states, steps);
}

/// Coalescing: two blocks of one size cut from one chunk and both handed
/// back, in either order, leave a longest chunk of at least twice that size.
pub proof fn lemma_coalescing(
    s0: Seq<Chunk>,
    s1: Seq<Chunk>,
    s2: Seq<Chunk>,
    s3: Seq<Chunk>,
    s4: Seq<Chunk>,
    size: u64,
    align: u64,
    first: u64,
    second: u64,
    source: int,
)
    requires
        allocates(s0, size, align, s1, first),
        allocates(s1, size, align, s2, second),
        0 <= source < s0.len(),
        s0[source].base <= first && first + size <= s0[source].end(),
        s0[source].base <= second && second + size <= s0[source].end(),
        (frees(s2, first, size, s3) && frees(s3, second, size, s4)) || (frees(
            s2,
            second,
            size,
            s3,
        ) && frees(s3, first, size, s4)),
    ensures
        s4[largest_index(s4)].length >= 2 * size,
{
    lemma_largest_exists(s4);
    if size > 0 {
        let c = s0[source];
        let block_one = span(first as int, size as int);
        let block_two = span(second as int, size as int);
        assert(block_two.contains(second as int));
        assert(free_set(s1).contains(second as int));
        assert(block_one.contains(first as int));
        if second < first {
            if first < second + size {
                assert(block_two.contains(first as int));
                assert(free_set(s1).contains(first as int));
            }
        } else {
            assert(!block_one.contains(second as int));
        }
        assert(c.length >= 2 * size);
        assert forall|a: int| c.base <= a < c.end() implies free_set(s4).contains(a) by {
            assert(c.covers(a));
            assert(free_set(s0).contains(a));
            if block_one.contains(a) {
            } else if block_two.contains(a) {
            } else {
                assert(free_set(s1).contains(a));
                assert(free_set(s2).contains(a));
            }
        }
        let k = lemma_run_in_one_chunk(s4, c.base as int, c.end());
        assert(s4[k].length <= s4[largest_index(s4)].length);
    }
}

/// Round trip: two allocations handed back in the order in which they were
/// made leave the list as it was.
pub proof fn lemma_round_trip(
    s0: Seq<Chunk>,
    s1: Seq<Chunk>,
    s2: Seq<Chunk>,
    s3: Seq<Chunk>,
    s4: Seq<Chunk>,
    size_one: u64,
    align_one: u64,
    first: u64,
    size_two: u64,
    align_two: u64,
    second: u64,
)
    requires
        allocates(s0, size_one, align_one, s1, first),
        allocates(s1, size_two, align_two, s2, second),
        frees(s2, first, size_one, s3),
        frees(s3, second, size_two, s4),
    ensures
        s4 == s0,
{
    let block_one = span(first as int, size_one as int);
    let block_two = span(second as int, size_two as int);
    assert forall|a: int| free_set(s4).contains(a) == free_set(s0).contains(a) by {
        if block_one.contains(a) {
            assert(free_set(s0).contains(a));
        }
        if block_two.contains(a) {
            assert(free_set(s1).contains(a));
        }
    }
    assert(free_set(s4) =~= free_set(s0));
    lemma_normalized_unique(s4, s0);
}

/// The addresses handed out and not yet handed back.
pub open spec fn outstanding(steps: Seq<Step>) -> Set<int>
    decreases steps.len(),
{
    if steps.len() == 0 {
        Set::empty()
    } else {
        match steps.last() {
            Step::Allocated { size, address, .. } => outstanding(steps.drop_last()).union(
                span(address as int, size as int),
            ),
            Step::Freed { address, size } => outstanding(steps.drop_last()).difference(
                span(address as int, size as int),
            ),
        }
    }
}

/// Nothing that is out is free: over any run of served requests, no
/// address that was handed out and not handed back is free.
pub proof fn lemma_outstanding_not_free(states: Seq<Seq<Chunk>>, steps: Seq<Step>)
    requires
        is_run(states, steps),
    ensures
        free_set(states.last()).disjoint(outstanding(steps)),
    decreases steps.len(),
{
    if steps.len() > 0 {
        let n = steps.len() as int;
        let earlier = states.drop_last();
        let before = steps.drop_last();
        assert forall|k: int| 0 <= k < before.len() implies advances(
            #[trigger] earlier[k],
            before[k],
            earlier[k + 1],
        ) by {
            assert(advances(states[k], steps[k], states[k + 1]));
        }
        lemma_outstanding_not_free(earlier, before);
        assert(advances(states[n - 1], steps[n - 1], states[n]));
        assert(earlier.last() == states[n - 1]);
    }
}

/// No address is handed out twice: the block that an allocation returns
/// holds no address that an earlier allocation of the run returned and that
/// was not handed back since.
pub proof fn lemma_never_twice(
    states: Seq<Seq<Chunk>>,
    steps: Seq<Step>,
    size: u64,
    align: u64,
    after: Seq<Chunk>,
    address: u64,
)
    requires
        is_run(states, steps),
        allocates(states.last(), size, align, after, address),
    ensures
        span(address as int, size as int).disjoint(outstanding(steps)),
{
    lemma_outstanding_not_free(states, steps);
}

} // verus!
