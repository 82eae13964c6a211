//! Facts about the model that the allocator's proofs share.

use vstd::prelude::*;
use vstd::arithmetic::div_mod::{lemma_mod_bound, lemma_small_mod, lemma_sub_mod_noop_right};
use crate::allocator::model::{
    Chunk, Region, clear_of, disjoint, free_set, has_vacancy, in_bounds, is_largest,
    largest_index, no_stubs, normalized, ordered, precedes, span, total_length, usable_count,
    usable_set, usable_total, vacancies,
};

verus! {

/// Replacing one chunk changes the total by the difference of the lengths.
pub proof fn lemma_total_update(s: Seq<Chunk>, i: int, c: Chunk)
    requires
        0 <= i < s.len(),
    ensures
        total_length(s.update(i, c)) == total_length(s) - s[i].length + c.length,
    decreases s.len(),
{
    let t = s.update(i, c);
    if i == s.len() - 1 {
        assert(t.drop_last() =~= s.drop_last());
    } else {
        lemma_total_update(s.drop_last(), i, c);
        assert(t.drop_last() =~= s.drop_last().update(i, c));
    }
}

/// Exchanging two chunks keeps the total.
pub proof fn lemma_total_swap(s: Seq<Chunk>, i: int, j: int)
    requires
        0 <= i < s.len(),
        0 <= j < s.len(),
    ensures
        total_length(s.update(i, s[j]).update(j, s[i])) == total_length(s),
{
    lemma_total_update(s, i, s[j]);
    lemma_total_update(s.update(i, s[j]), j, s[i]);
}

/// The total of a list of unused slots is zero, and no total is negative.
pub proof fn lemma_total_bounds(s: Seq<Chunk>)
    ensures
        total_length(s) >= 0,
        (forall|i: int| 0 <= i < s.len() ==> (#[trigger] s[i]).length == 0) ==> total_length(s)
            == 0,
    decreases s.len(),
{
    if s.len() > 0 {
        lemma_total_bounds(s.drop_last());
        if forall|i: int| 0 <= i < s.len() ==> (#[trigger] s[i]).length == 0 {
            let p = s.drop_last();
            assert forall|i: int| 0 <= i < p.len() implies (#[trigger] p[i]).length == 0 by {
                assert(p[i] == s[i]);
            }
        }
    }
}

/// Replacing one chunk changes the count of unused slots by at most that slot.
pub proof fn lemma_vacancies_update(s: Seq<Chunk>, i: int, c: Chunk)
    requires
        0 <= i < s.len(),
    ensures
        vacancies(s.update(i, c)) == vacancies(s) - (if s[i].vacant() {
            1int
        } else {
            0int
        }) + (if c.vacant() {
            1int
        } else {
            0int
        }),
    decreases s.len(),
{
    let t = s.update(i, c);
    if i == s.len() - 1 {
        assert(t.drop_last() =~= s.drop_last());
    } else {
        lemma_vacancies_update(s.drop_last(), i, c);
        assert(t.drop_last() =~= s.drop_last().update(i, c));
    }
}

/// The count of unused slots is positive exactly when there is one.
pub proof fn lemma_vacancies_positive(s: Seq<Chunk>)
    ensures
        0 <= vacancies(s) <= s.len(),
        vacancies(s) > 0 <==> has_vacancy(s),
    decreases s.len(),
{
    if s.len() > 0 {
        let p = s.drop_last();
        lemma_vacancies_positive(p);
        if has_vacancy(p) {
            let k = choose|k: int| 0 <= k < p.len() && #[trigger] p[k].vacant();
            assert(s[k].vacant());
        }
        if has_vacancy(s) {
            let k = choose|k: int| 0 <= k < s.len() && #[trigger] s[k].vacant();
            if k < p.len() {
                assert(p[k].vacant());
            }
        }
        if s.last().vacant() {
            assert(s[s.len() - 1].vacant());
        }
    }
}

/// A chunk that grows in place adds its addresses to the free set.
pub proof fn lemma_free_set_grow(s: Seq<Chunk>, i: int, c: Chunk)
    requires
        0 <= i < s.len(),
        forall|a: int| s[i].covers(a) ==> c.covers(a),
    ensures
        free_set(s.update(i, c)) == free_set(s).union(c.range()),
{
    let t = s.update(i, c);
    assert forall|a: int| free_set(t).contains(a) == free_set(s).union(c.range()).contains(a) by {
        if free_set(t).contains(a) {
            let k = choose|k: int| 0 <= k < t.len() && #[trigger] t[k].covers(a);
            if k != i {
                assert(s[k].covers(a));
            }
        }
        if free_set(s).contains(a) {
            let k = choose|k: int| 0 <= k < s.len() && #[trigger] s[k].covers(a);
            if k != i {
                assert(t[k].covers(a));
            } else {
                assert(t[i].covers(a));
            }
        }
        if c.range().contains(a) {
            assert(t[i].covers(a));
        }
    }
    assert(free_set(t) =~= free_set(s).union(c.range()));
}

/// A chunk that shrinks in place takes the addresses it gave up out of the
/// free set, provided that no other chunk holds them.
pub proof fn lemma_free_set_shrink(s: Seq<Chunk>, i: int, c: Chunk)
    requires
        disjoint(s),
        0 <= i < s.len(),
        forall|a: int| c.covers(a) ==> s[i].covers(a),
    ensures
        free_set(s.update(i, c)) == free_set(s).difference(s[i].range().difference(c.range())),
{
    let t = s.update(i, c);
    let gone = s[i].range().difference(c.range());
    assert forall|a: int| free_set(t).contains(a) == free_set(s).difference(gone).contains(a) by {
        if free_set(t).contains(a) {
            let k = choose|k: int| 0 <= k < t.len() && #[trigger] t[k].covers(a);
            if k != i {
                assert(s[k].covers(a));
                assert(s[k].length > 0);
                if s[i].covers(a) {
                    assert(s[i].length > 0);
                }
            } else {
                assert(s[i].covers(a));
            }
        }
        if free_set(s).difference(gone).contains(a) {
            let k = choose|k: int| 0 <= k < s.len() && #[trigger] s[k].covers(a);
            if k != i {
                assert(t[k].covers(a));
            } else {
                assert(t[i].covers(a));
            }
        }
    }
    assert(free_set(t) =~= free_set(s).difference(gone));
}

/// Exchanging two chunks keeps the free set.
pub proof fn lemma_free_set_swap(s: Seq<Chunk>, i: int, j: int)
    requires
        0 <= i < s.len(),
        0 <= j < s.len(),
    ensures
        free_set(s.update(i, s[j]).update(j, s[i])) == free_set(s),
{
    let t = s.update(i, s[j]).update(j, s[i]);
    assert forall|a: int| free_set(t).contains(a) == free_set(s).contains(a) by {
        if free_set(t).contains(a) {
            let k = choose|k: int| 0 <= k < t.len() && #[trigger] t[k].covers(a);
            if k == i {
                assert(s[j].covers(a));
            } else if k == j {
                assert(s[i].covers(a));
            } else {
                assert(s[k].covers(a));
            }
        }
        if free_set(s).contains(a) {
            let k = choose|k: int| 0 <= k < s.len() && #[trigger] s[k].covers(a);
            if k == i {
                assert(t[j].covers(a));
            } else if k == j {
                assert(t[i].covers(a));
            } else {
                assert(t[k].covers(a));
            }
        }
    }
    assert(free_set(t) =~= free_set(s));
}

/// A list of unused slots frees nothing.
pub proof fn lemma_free_set_of_nothing(s: Seq<Chunk>)
    requires
        forall|i: int| 0 <= i < s.len() ==> (#[trigger] s[i]).length == 0,
    ensures
        free_set(s) == Set::<int>::empty(),
{
    assert(free_set(s) =~= Set::<int>::empty());
}

/// Only one slot can be the one that the scan for the greatest length finds.
pub proof fn lemma_largest_unique(s: Seq<Chunk>, i: int, j: int)
    requires
        is_largest(s, i),
        is_largest(s, j),
    ensures
        i == j,
{
    if i < j {
        assert(s[j].length < s[i].length);
        assert(s[i].length <= s[j].length);
    } else if j < i {
        assert(s[i].length < s[j].length);
        assert(s[j].length <= s[i].length);
    }
}

/// What the scan finds is the slot that the model names.
pub proof fn lemma_largest_is_index(s: Seq<Chunk>, i: int)
    requires
        is_largest(s, i),
    ensures
        largest_index(s) == i,
{
    lemma_largest_unique(s, i, largest_index(s));
}

/// An ordered list has no overlap.
pub proof fn lemma_ordered_disjoint(s: Seq<Chunk>)
    requires
        ordered(s),
    ensures
        disjoint(s),
{
    assert forall|i: int, j: int|
        0 <= i < s.len() && 0 <= j < s.len() && i != j && (#[trigger] s[i]).length > 0 && (
        #[trigger] s[j]).length > 0 implies s[i].end() <= s[j].base || s[j].end() <= s[i].base by {
        if i < j {
            assert(s[j].end() <= s[i].base);
        } else {
            assert(s[i].end() <= s[j].base);
        }
    }
}

/// A tidy list is ordered.
pub proof fn lemma_normalized_ordered(s: Seq<Chunk>)
    requires
        normalized(s),
    ensures
        ordered(s),
        disjoint(s),
{
    assert forall|i: int, j: int|
        0 <= i < j < s.len() && (#[trigger] s[j]).length > 0 implies s[j].end() <= (
    #[trigger] s[i]).base by {
        assert(s[j].end() < s[i].base);
    }
    lemma_ordered_disjoint(s);
}

/// Exchanging two chunks keeps the list free of overlap.
pub proof fn lemma_disjoint_swap(s: Seq<Chunk>, i: int, j: int)
    requires
        disjoint(s),
        0 <= i < s.len(),
        0 <= j < s.len(),
    ensures
        disjoint(s.update(i, s[j]).update(j, s[i])),
{
    let t = s.update(i, s[j]).update(j, s[i]);
    let back = |k: int| if k == i { j } else if k == j { i } else { k };
    assert forall|k: int| 0 <= k < t.len() implies (#[trigger] t[k]).end() <= u64::MAX by {
        assert(t[k] == s[back(k)]);
        assert(s[back(k)].end() <= u64::MAX);
    }
    assert forall|a: int, b: int|
        0 <= a < t.len() && 0 <= b < t.len() && a != b && (#[trigger] t[a]).length > 0 && (
        #[trigger] t[b]).length > 0 implies t[a].end() <= t[b].base || t[b].end() <= t[a].base by {
        assert(t[a] == s[back(a)]);
        assert(t[b] == s[back(b)]);
        assert(s[back(a)].length > 0 && s[back(b)].length > 0);
    }
}

/// A list laid out in tidying order, free of overlap and of chunks without
/// bytes, is ordered.
pub proof fn lemma_sorted_is_ordered(s: Seq<Chunk>)
    requires
        disjoint(s),
        no_stubs(s),
        forall|i: int, j: int| 0 <= i < j < s.len() ==> precedes(#[trigger] s[i], #[trigger] s[j]),
    ensures
        ordered(s),
{
    assert forall|i: int, j: int|
        0 <= i < j < s.len() && (#[trigger] s[j]).length > 0 implies s[j].end() <= (
    #[trigger] s[i]).base by {
        assert(precedes(s[i], s[j]));
        assert(s[i].length > 0);
    }
}

/// The free set of the first `k + 1` chunks is that of the first `k`
/// together with the addresses of chunk `k`; likewise for the total.
pub proof fn lemma_take_next(s: Seq<Chunk>, k: int)
    requires
        0 <= k < s.len(),
    ensures
        free_set(s.take(k + 1)) == free_set(s.take(k)).union(s[k].range()),
        total_length(s.take(k + 1)) == total_length(s.take(k)) + s[k].length,
{
    let a = s.take(k);
    let b = s.take(k + 1);
    assert(b.drop_last() =~= a);
    assert forall|x: int|
        free_set(b).contains(x) == free_set(a).union(s[k].range()).contains(x) by {
        if free_set(b).contains(x) {
            let t = choose|t: int| 0 <= t < b.len() && #[trigger] b[t].covers(x);
            if t < k {
                assert(a[t].covers(x));
            }
        }
        if free_set(a).contains(x) {
            let t = choose|t: int| 0 <= t < a.len() && #[trigger] a[t].covers(x);
            assert(b[t].covers(x));
        }
        if s[k].range().contains(x) {
            assert(b[k].covers(x));
        }
    }
    assert(free_set(b) =~= free_set(a).union(s[k].range()));
}

/// Taking away what `x` lies above a multiple of `m` gives that multiple.
pub proof fn lemma_align_down(x: int, m: int)
    requires
        m > 0,
    ensures
        0 <= x % m < m,
        (x - x % m) % m == 0,
{
    lemma_mod_bound(x, m);
    lemma_sub_mod_noop_right(x, x, m);
    lemma_small_mod(0, m as nat);
}

/// A chunk stored in a slot that held no bytes keeps the list free of
/// overlap, provided that it lies clear of every other chunk.
pub proof fn lemma_disjoint_fill(s: Seq<Chunk>, v: int, c: Chunk)
    requires
        disjoint(s),
        0 <= v < s.len(),
        s[v].length == 0,
        c.end() <= u64::MAX,
        clear_of(s, c),
    ensures
        disjoint(s.update(v, c)),
{
    let t = s.update(v, c);
    assert forall|k: int| 0 <= k < t.len() implies (#[trigger] t[k]).end() <= u64::MAX by {
        if k != v {
            assert(s[k].end() <= u64::MAX);
        }
    }
    assert forall|a: int, b: int|
        0 <= a < t.len() && 0 <= b < t.len() && a != b && (#[trigger] t[a]).length > 0 && (
        #[trigger] t[b]).length > 0 implies t[a].end() <= t[b].base || t[b].end() <= t[a].base by {
        if a == v {
            assert(s[b].length > 0);
        } else if b == v {
            assert(s[a].length > 0);
        } else {
            assert(s[a].length > 0 && s[b].length > 0);
        }
    }
}

/// A chunk that shrinks in place keeps the list free of overlap.
pub proof fn lemma_disjoint_shrink(s: Seq<Chunk>, i: int, c: Chunk)
    requires
        disjoint(s),
        0 <= i < s.len(),
        s[i].base <= c.base,
        c.end() <= s[i].end(),
    ensures
        disjoint(s.update(i, c)),
{
    let t = s.update(i, c);
    assert forall|k: int| 0 <= k < t.len() implies (#[trigger] t[k]).end() <= u64::MAX by {
        assert(s[k].end() <= u64::MAX);
    }
    assert forall|a: int, b: int|
        0 <= a < t.len() && 0 <= b < t.len() && a != b && (#[trigger] t[a]).length > 0 && (
        #[trigger] t[b]).length > 0 implies t[a].end() <= t[b].base || t[b].end() <= t[a].base by {
        assert(s[a].length > 0 && s[b].length > 0);
    }
}

/// A block shares no address with the free set exactly when it lies clear
/// of every chunk that has bytes.
pub proof fn lemma_clear_of_chunks(s: Seq<Chunk>, start: int, size: int)
    requires
        size >= 0,
    ensures
        free_set(s).disjoint(span(start, size)) <==> (forall|k: int|
            0 <= k < s.len() && (#[trigger] s[k]).length > 0 && size > 0 ==> start + size
                <= s[k].base || s[k].end() <= start),
        0 <= start && start + size <= u64::MAX ==> (free_set(s).disjoint(span(start, size))
            <==> clear_of(s, Chunk { base: start as u64, length: size as u64 })),
{
    if free_set(s).disjoint(span(start, size)) {
        assert forall|k: int|
            0 <= k < s.len() && (#[trigger] s[k]).length > 0 && size > 0 implies start + size
            <= s[k].base || s[k].end() <= start by {
            if !(start + size <= s[k].base || s[k].end() <= start) {
                let a = if s[k].base >= start {
                    s[k].base as int
                } else {
                    start
                };
                assert(s[k].covers(a));
                assert(free_set(s).contains(a));
                assert(span(start, size).contains(a));
            }
        }
    }
    if forall|k: int|
        0 <= k < s.len() && (#[trigger] s[k]).length > 0 && size > 0 ==> start + size <= s[k].base
            || s[k].end() <= start {
        assert forall|a: int| !(free_set(s).contains(a) && span(start, size).contains(a)) by {
            if free_set(s).contains(a) && span(start, size).contains(a) {
                let k = choose|k: int| 0 <= k < s.len() && #[trigger] s[k].covers(a);
                assert(s[k].length > 0);
            }
        }
    }
}

/// The usable addresses, total and count of the first `k + 1` regions are
/// those of the first `k` together with region `k`, where it is usable.
pub proof fn lemma_regions_next(map: Seq<Region>, offset: u64, k: int)
    requires
        0 <= k < map.len(),
    ensures
        usable_set(map.take(k + 1), offset) == if map[k].usable() {
            usable_set(map.take(k), offset).union(
                span(map[k].base + offset, map[k].length as int),
            )
        } else {
            usable_set(map.take(k), offset)
        },
        usable_total(map.take(k + 1)) == usable_total(map.take(k)) + if map[k].usable() {
            map[k].length as int
        } else {
            0int
        },
        usable_count(map.take(k + 1)) == usable_count(map.take(k)) + if map[k].usable() {
            1int
        } else {
            0int
        },
{
    let a = map.take(k);
    let b = map.take(k + 1);
    assert(b.drop_last() =~= a);
    let grown = if map[k].usable() {
        usable_set(a, offset).union(span(map[k].base + offset, map[k].length as int))
    } else {
        usable_set(a, offset)
    };
    assert forall|x: int| usable_set(b, offset).contains(x) == grown.contains(x) by {
        if usable_set(b, offset).contains(x) {
            let t = choose|t: int|
                0 <= t < b.len() && (#[trigger] b[t]).usable() && b[t].base + offset <= x
                    < b[t].base + offset + b[t].length;
            if t < k {
                assert(a[t].usable());
            }
        }
        if usable_set(a, offset).contains(x) {
            let t = choose|t: int|
                0 <= t < a.len() && (#[trigger] a[t]).usable() && a[t].base + offset <= x
                    < a[t].base + offset + a[t].length;
            assert(b[t].usable());
        }
        if map[k].usable() && span(map[k].base + offset, map[k].length as int).contains(x) {
            assert(b[k].usable());
        }
    }
    assert(usable_set(b, offset) =~= grown);
}

/// The first `k` regions hold no more usable ones than the whole map, and
/// one fewer where region `k` is usable.
pub proof fn lemma_regions_count_bound(map: Seq<Region>, k: int)
    requires
        0 <= k < map.len(),
    ensures
        usable_count(map.take(k)) + (if map[k].usable() {
            1int
        } else {
            0int
        }) <= usable_count(map),
    decreases map.len() - k,
{
    lemma_regions_next(map, 0, k);
    if k + 1 < map.len() {
        lemma_regions_count_bound(map, k + 1);
    } else {
        assert(map.take(k + 1) =~= map);
    }
}

/// Where every chunk with bytes lies below the chunk before it, it lies
/// below every chunk before it.
pub proof fn lemma_stepwise(s: Seq<Chunk>, i: int, j: int)
    requires
        in_bounds(s),
        no_stubs(s),
        forall|k: int|
            0 <= k < s.len() - 1 && (#[trigger] s[k + 1]).length > 0 ==> s[k + 1].end()
                < s[k].base,
        0 <= i < j < s.len(),
        s[j].length > 0,
    ensures
        s[j].end() < s[i].base,
    decreases j - i,
{
    assert(s[(j - 1) + 1].length > 0);
    assert(s[j].end() < s[j - 1].base);
    if i < j - 1 {
        assert(s[j - 1].length > 0);
        lemma_stepwise(s, i, j - 1);
    }
}

} // verus!
