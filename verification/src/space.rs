//! The free sectors of a GUID partition table.

use crate::table::{entry_views, GptEntry, GptEntryView, GptGeometry};
use vstd::prelude::*;

verus! {

/// The first and last sectors of the used slots, slot by slot.
pub open spec fn used_bounds(entries: Seq<GptEntryView>) -> Seq<u64>
    decreases entries.len(),
{
    if entries.len() == 0 {
        Seq::empty()
    } else if entries.last().is_used() {
        used_bounds(entries.drop_last()).push(entries.last().starting_lba).push(
            entries.last().ending_lba,
        )
    } else {
        used_bounds(entries.drop_last())
    }
}

/// Everything that bounds a stretch of free sectors, in ascending order: the sector before the
/// first usable one, the first and last sectors of the used slots, and the sector after the last
/// usable one.
pub open spec fn bounds_in_order(entries: Seq<GptEntryView>, geometry: GptGeometry) -> Seq<u64> {
    let all = used_bounds(entries).push((geometry.first_usable_lba - 1) as u64).push(
        (geometry.last_usable_lba + 1) as u64,
    );
    all.sort_by(|a: u64, b: u64| a <= b)
}

/// Whether the sectors strictly between `before` and `after` can be counted, and the first
/// aligned one among or behind them has a number that fits.
pub open spec fn gap_is_countable(before: u64, after: u64, align: u64) -> bool {
    &&& before < after
    &&& before + 1 < after ==> next_aligned(before, align) <= u64::MAX
}

/// Whether the gap number `k` of the sorted bounds can be counted.
pub open spec fn gap_at(bounds: Seq<u64>, k: int, align: u64) -> bool {
    gap_is_countable(bounds[2 * k], bounds[2 * k + 1], align)
}

/// Whether the free sectors of a table can be computed without leaving the range of 64 bits: the
/// usable range has sectors on both sides, the alignment is positive, and the sorted bounds,
/// taken two by two, enclose gaps that can be counted.
pub open spec fn is_measurable(entries: Seq<GptEntryView>, geometry: GptGeometry) -> bool {
    let bounds = bounds_in_order(entries, geometry);
    &&& geometry.align > 0
    &&& geometry.first_usable_lba > 0
    &&& geometry.last_usable_lba < u64::MAX
    &&& forall|k: int| 0 <= k && 2 * k + 1 < bounds.len() ==> #[trigger] gap_at(
        bounds,
        k,
        geometry.align,
    )
}

/// The first sector behind `sector` whose number is a multiple of `align`.
pub open spec fn next_aligned(sector: u64, align: u64) -> int {
    (sector as int / align as int + 1) * align
}

/// The stretches of free sectors, in ascending order: between the bounds, taken two by two, each
/// from its first aligned sector up to the bound behind its last.
pub open spec fn free_stretches(bounds: Seq<u64>, align: u64) -> Seq<(u64, u64)>
    decreases bounds.len(),
{
    if bounds.len() < 2 {
        Seq::empty()
    } else {
        let before = free_stretches(bounds.take(bounds.len() - 2), align);
        let start = next_aligned(bounds[bounds.len() - 2], align);
        let end = bounds.last();
        if start < end {
            before.push((start as u64, end))
        } else {
            before
        }
    }
}

/// The most sectors that a partition in one of the stretches can have, where it has a multiple of
/// `align`. Without a stretch there is no partition.
pub open spec fn largest_size(stretches: Seq<(u64, u64)>, align: u64) -> Option<u64>
    decreases stretches.len(),
{
    if stretches.len() == 0 {
        None
    } else {
        let (start, end) = stretches.last();
        let size = ((end - start) / align as int * align) as u64;
        match largest_size(stretches.drop_last(), align) {
            Some(other) => if other > size {
                Some(other)
            } else {
                Some(size)
            },
            None => Some(size),
        }
    }
}

/// The last aligned sector from which `size` sectors fit in the last stretch that is long enough.
pub open spec fn last_start(stretches: Seq<(u64, u64)>, align: u64, size: u64) -> Option<u64>
    decreases stretches.len(),
{
    if stretches.len() == 0 {
        None
    } else {
        let (start, end) = stretches.last();
        if end - start >= size {
            Some(((end - size) / align as int * align) as u64)
        } else {
            last_start(stretches.drop_last(), align, size)
        }
    }
}

/// The free stretches of a table.
pub open spec fn table_stretches(
    entries: Seq<GptEntryView>,
    geometry: GptGeometry,
) -> Seq<(u64, u64)> {
    free_stretches(bounds_in_order(entries, geometry), geometry.align)
}

/// Puts `value` into its place among `sorted`.
fn insert_in_order(sorted: &mut Vec<u64>, value: u64)
    requires
        vstd::relations::sorted_by(old(sorted)@, |a: u64, b: u64| a <= b),
    ensures
        vstd::relations::sorted_by(final(sorted)@, |a: u64, b: u64| a <= b),
        final(sorted)@.to_multiset() == old(sorted)@.to_multiset().insert(value),
{
    let mut at: usize = 0;
    while at < sorted.len() && sorted[at] < value
        invariant
            at <= sorted@.len(),
            forall|i: int| 0 <= i < at ==> sorted@[i] < value,
        decreases sorted@.len() - at,
    {
        at = at + 1;
    }
    proof {
        vstd::seq_lib::to_multiset_insert(sorted@, at as int, value);
        let leq = |a: u64, b: u64| a <= b;
        let after = sorted@.insert(at as int, value);
        assert forall|i: int, j: int| 0 <= i < j < after.len() implies #[trigger] leq(
            after[i],
            after[j],
        ) by {
            let before = sorted@;
            let x = if i < at { i } else { i - 1 };
            let y = if j < at { j } else { j - 1 };
            if i != at && j != at {
                assert(leq(before[x], before[y]));
            } else if i == at {
                if at < before.len() && y > at {
                    assert(leq(before[at as int], before[y]));
                }
            }
        }
    }
    sorted.insert(at, value);
}

/// Whether the free sectors of a table with these slots and this geometry can be computed.
pub fn can_be_measured(entries: &Vec<GptEntry>, geometry: GptGeometry) -> (yes: bool)
    ensures
        yes == is_measurable(entry_views(entries@), geometry),
{
    if geometry.align == 0 || geometry.first_usable_lba == 0 || geometry.last_usable_lba
        == u64::MAX {
        return false;
    }
    let ghost leq = |a: u64, b: u64| a <= b;
    let ghost views = entry_views(entries@);
    let mut sorted: Vec<u64> = Vec::new();
    proof {
        assert(views.take(0) == Seq::<GptEntryView>::empty());
        assert(sorted@ == Seq::<u64>::empty());
    }
    let mut i: usize = 0;
    while i < entries.len()
        invariant
            i <= entries@.len(),
            views == entry_views(entries@),
            leq == (|a: u64, b: u64| a <= b),
            vstd::relations::sorted_by(sorted@, leq),
            sorted@.to_multiset() == used_bounds(views.take(i as int)).to_multiset(),
        decreases entries@.len() - i,
    {
        proof {
            assert(views.take(i + 1).drop_last() == views.take(i as int));
            assert(views.take(i + 1).last() == entries@[i as int]@);
        }
        let ghost bounds = used_bounds(views.take(i as int));
        if entries[i].is_used() {
            insert_in_order(&mut sorted, entries[i].starting_lba);
            insert_in_order(&mut sorted, entries[i].ending_lba);
            proof {
                vstd::seq_lib::to_multiset_build(bounds, entries@[i as int].starting_lba);
                vstd::seq_lib::to_multiset_build(
                    bounds.push(entries@[i as int].starting_lba),
                    entries@[i as int].ending_lba,
                );
            }
        }
        i = i + 1;
    }
    let ghost bounds = used_bounds(views);
    let before: u64 = geometry.first_usable_lba - 1;
    let after: u64 = geometry.last_usable_lba + 1;
    insert_in_order(&mut sorted, before);
    insert_in_order(&mut sorted, after);
    proof {
        assert(views.take(entries@.len() as int) == views);
        vstd::seq_lib::to_multiset_build(bounds, before);
        vstd::seq_lib::to_multiset_build(bounds.push(before), after);
        let all = bounds.push(before).push(after);
        all.lemma_sort_by_ensures(leq);
        vstd::seq_lib::lemma_sorted_unique(sorted@, all.sort_by(leq), leq);
        assert(sorted@ == bounds_in_order(views, geometry));
    }
    let mut k: usize = 0;
    let count: usize = sorted.len();
    let n: usize = count / 2;
    while k < n
        invariant
            k <= n,
            n == count / 2,
            count == sorted@.len(),
            geometry.align > 0,
            sorted@ == bounds_in_order(views, geometry),
            views == entry_views(entries@),
            forall|j: int| 0 <= j < k ==> #[trigger] gap_at(sorted@, j, geometry.align),
        decreases n - k,
    {
        let low: u64 = sorted[2 * k];
        let high: u64 = sorted[2 * k + 1];
        if low >= high {
            assert(!gap_at(sorted@, k as int, geometry.align));
            return false;
        }
        if high - low > 1 {
            assert(low as int / geometry.align as int <= low) by (nonlinear_arith)
                requires
                    geometry.align > 0,
                    low >= 0,
            ;
            if (low / geometry.align + 1).checked_mul(geometry.align).is_none() {
                assert(!gap_at(sorted@, k as int, geometry.align));
                return false;
            }
        }
        k = k + 1;
    }
    true
}

/// A partition that is no larger than the largest has a place.
pub proof fn law_largest_size_has_a_place(stretches: Seq<(u64, u64)>, align: u64, size: u64)
    requires
        align > 0,
        forall|i: int|
            0 <= i < stretches.len() ==> (#[trigger] stretches[i]).0 <= stretches[i].1,
        largest_size(stretches, align) matches Some(largest) && size <= largest,
    ensures
        last_start(stretches, align, size) is Some,
    decreases stretches.len(),
{
    let (start, end) = stretches.last();
    let rest = stretches.drop_last();
    let length = end - start;
    assert(stretches[stretches.len() - 1] == (start, end));
    assert(0 <= length / align as int * align <= length) by (nonlinear_arith)
        requires
            align > 0,
            length >= 0,
    ;
    if length < size {
        assert forall|i: int| 0 <= i < rest.len() implies (#[trigger] rest[i]).0 <= rest[i].1 by {
            assert(rest[i] == stretches[i]);
        }
        law_largest_size_has_a_place(rest, align, size);
    }
}

/// Every free stretch of a table begins with an aligned sector, is not empty and ends at a bound.
pub proof fn law_stretches_are_aligned(bounds: Seq<u64>, align: u64, i: int)
    requires
        align > 0,
        0 <= i < free_stretches(bounds, align).len(),
    ensures
        free_stretches(bounds, align)[i].0 % align == 0,
        free_stretches(bounds, align)[i].0 < free_stretches(bounds, align)[i].1,
        bounds.contains(free_stretches(bounds, align)[i].1),
    decreases bounds.len(),
{
    if bounds.len() >= 2 {
        let front = bounds.take(bounds.len() - 2);
        let before = free_stretches(front, align);
        if i < before.len() {
            law_stretches_are_aligned(front, align, i);
            let end = before[i].1;
            let k = choose|k: int| 0 <= k < front.len() && front[k] == end;
            assert(bounds[k] == end);
        } else {
            let n = bounds[bounds.len() - 2] as int / align as int + 1;
            assert(0 <= n) by {
                vstd::arithmetic::div_mod::lemma_div_pos_is_pos(
                    bounds[bounds.len() - 2] as int,
                    align as int,
                );
            }
            assert(0 <= n * align) by (nonlinear_arith)
                requires
                    0 <= n,
                    align > 0,
            ;
            vstd::arithmetic::div_mod::lemma_mod_multiples_basic(n, align as int);
            assert(bounds[bounds.len() - 1] == bounds.last());
        }
    }
}

/// A partition is placed at an aligned sector, and lies as a whole in one of the first `upto` free
/// stretches, where it is placed in one of them.
proof fn lemma_place_among(
    bounds: Seq<u64>,
    align: u64,
    size: u64,
    upto: int,
) -> (i: int)
    requires
        align > 0,
        0 <= upto <= free_stretches(bounds, align).len(),
        last_start(free_stretches(bounds, align).take(upto), align, size) is Some,
    ensures
        ({
            let stretches = free_stretches(bounds, align);
            let place = last_start(stretches.take(upto), align, size).unwrap();
            &&& 0 <= i < upto
            &&& place % align == 0
            &&& stretches[i].0 <= place
            &&& place + size <= stretches[i].1
        }),
    decreases upto,
{
    let stretches = free_stretches(bounds, align);
    let seen = stretches.take(upto);
    let (start, end) = seen.last();
    assert(seen.last() == stretches[upto - 1]);
    if end - start >= size {
        law_stretches_are_aligned(bounds, align, upto - 1);
        let n = (end - size) / align as int;
        let m = start as int / align as int;
        vstd::arithmetic::div_mod::lemma_fundamental_div_mod(end - size, align as int);
        vstd::arithmetic::div_mod::lemma_fundamental_div_mod(start as int, align as int);
        vstd::arithmetic::div_mod::lemma_mod_bound(end - size, align as int);
        vstd::arithmetic::div_mod::lemma_div_is_ordered(start as int, end - size, align as int);
        assert(m * align <= n * align <= end - size && m * align == start) by (nonlinear_arith)
            requires
                m <= n,
                align > 0,
                end - size == align * n + (end - size) % (align as int),
                0 <= (end - size) % (align as int),
                start == align * m + start as int % (align as int),
                start as int % (align as int) == 0,
        ;
        vstd::arithmetic::div_mod::lemma_mod_multiples_basic(n, align as int);
        upto - 1
    } else {
        assert(seen.drop_last() == stretches.take(upto - 1));
        lemma_place_among(bounds, align, size, upto - 1)
    }
}

/// A partition is placed at an aligned sector, and lies as a whole in one of the free stretches.
pub proof fn law_place_is_free(bounds: Seq<u64>, align: u64, size: u64)
    requires
        align > 0,
        last_start(free_stretches(bounds, align), align, size) is Some,
    ensures
        last_start(free_stretches(bounds, align), align, size).unwrap() % align == 0,
        exists|i: int|
            0 <= i < free_stretches(bounds, align).len() && (#[trigger] free_stretches(
                bounds,
                align,
            )[i]).0 <= last_start(free_stretches(bounds, align), align, size).unwrap()
                && last_start(free_stretches(bounds, align), align, size).unwrap() + size
                <= free_stretches(bounds, align)[i].1,
{
    let stretches = free_stretches(bounds, align);
    assert(stretches.take(stretches.len() as int) == stretches);
    let i = lemma_place_among(bounds, align, size, stretches.len() as int);
    assert(stretches[i].0 <= last_start(stretches, align, size).unwrap());
}

/// Whether the sector `x` belongs to the partition in a slot.
pub open spec fn holds_sector(entry: GptEntryView, x: int) -> bool {
    entry.is_used() && entry.starting_lba <= x <= entry.ending_lba
}

/// Whether no two of the slots hold the same sector.
pub open spec fn are_disjoint(entries: Seq<GptEntryView>) -> bool {
    forall|i: int, j: int, x: int|
        0 <= i < entries.len() && 0 <= j < entries.len() && #[trigger] holds_sector(entries[i], x)
            && #[trigger] holds_sector(entries[j], x) ==> i == j
}

/// Whether the used slots hold at least one sector each, all of them in the usable range.
pub open spec fn are_in_range(entries: Seq<GptEntryView>, geometry: GptGeometry) -> bool {
    forall|i: int|
        0 <= i < entries.len() && (#[trigger] entries[i]).is_used() ==> geometry.first_usable_lba
            <= entries[i].starting_lba <= entries[i].ending_lba <= geometry.last_usable_lba
}

/// How many of the numbers are at most `x`.
spec fn count_up_to(list: Seq<u64>, x: int) -> nat
    decreases list.len(),
{
    if list.len() == 0 {
        0
    } else {
        count_up_to(list.drop_last(), x) + if list.last() <= x {
            1nat
        } else {
            0nat
        }
    }
}

/// The count does not depend on the order.
proof fn lemma_count_in_multiset(list: Seq<u64>, x: int)
    ensures
        count_up_to(list, x) == list.to_multiset().filter(|b: u64| b <= x).len(),
    decreases list.len(),
{
    broadcast use vstd::multiset::group_multiset_axioms;

    let low = |b: u64| b <= x;
    if list.len() == 0 {
        vstd::seq_lib::to_multiset_len(list);
        vstd::multiset::lemma_multiset_empty_len(list.to_multiset());
        assert(list.to_multiset().filter(low) =~= vstd::multiset::Multiset::empty());
    } else {
        let front = list.drop_last();
        lemma_count_in_multiset(front, x);
        vstd::seq_lib::to_multiset_build(front, list.last());
        assert(front.push(list.last()) == list);
        if low(list.last()) {
            assert(list.to_multiset().filter(low) =~= front.to_multiset().filter(low).insert(
                list.last(),
            ));
        } else {
            assert(list.to_multiset().filter(low) =~= front.to_multiset().filter(low));
        }
    }
}

/// Where the first `n` numbers are at most `x`, at least `n` are.
proof fn lemma_count_low(list: Seq<u64>, x: int, n: int)
    requires
        0 <= n <= list.len(),
        forall|i: int| 0 <= i < n ==> #[trigger] list[i] <= x,
    ensures
        count_up_to(list, x) >= n,
    decreases list.len(),
{
    if list.len() > 0 {
        let front = list.drop_last();
        assert(forall|i: int| 0 <= i < front.len() ==> #[trigger] front[i] == list[i]);
        lemma_count_low(
            front,
            x,
            if n < list.len() {
                n
            } else {
                n - 1
            },
        );
        assert(list.last() == list[list.len() - 1]);
    }
}

/// Where all numbers behind the first `n` are more than `x`, at most `n` are not.
proof fn lemma_count_high(list: Seq<u64>, x: int, n: int)
    requires
        0 <= n <= list.len(),
        forall|i: int| n <= i < list.len() ==> #[trigger] list[i] > x,
    ensures
        count_up_to(list, x) <= n,
    decreases list.len(),
{
    if list.len() > 0 {
        let front = list.drop_last();
        assert(forall|i: int| 0 <= i < front.len() ==> #[trigger] front[i] == list[i]);
        lemma_count_high(
            front,
            x,
            if n < list.len() {
                n
            } else {
                n - 1
            },
        );
        assert(list.last() == list[list.len() - 1]);
    }
}

/// How many used slots end before `x`.
spec fn ended_before(entries: Seq<GptEntryView>, x: int) -> nat
    decreases entries.len(),
{
    if entries.len() == 0 {
        0
    } else {
        ended_before(entries.drop_last(), x) + if entries.last().is_used()
            && entries.last().ending_lba < x {
            1nat
        } else {
            0nat
        }
    }
}

/// How many bounds of the used slots lie up to `x` and below it, where no slot but perhaps the one
/// with the index `j` holds `x`. There are two to each slot.
proof fn lemma_count_used_bounds(entries: Seq<GptEntryView>, x: int, j: int)
    requires
        forall|i: int|
            0 <= i < entries.len() && (#[trigger] entries[i]).is_used() ==> entries[i].starting_lba
                <= entries[i].ending_lba,
        forall|i: int|
            0 <= i < entries.len() && i != j ==> !holds_sector(#[trigger] entries[i], x),
        0 <= j < entries.len() ==> holds_sector(entries[j], x),
    ensures
        used_bounds(entries).len() % 2 == 0,
        ({
            let inside = 0 <= j < entries.len();
            &&& count_up_to(used_bounds(entries), x) == 2 * ended_before(entries, x) + if inside {
                if entries[j].ending_lba <= x {
                    2int
                } else {
                    1int
                }
            } else {
                0int
            }
            &&& count_up_to(used_bounds(entries), x - 1) == 2 * ended_before(entries, x)
                + if inside && entries[j].starting_lba < x {
                1int
            } else {
                0int
            }
        }),
    decreases entries.len(),
{
    if entries.len() > 0 {
        let front = entries.drop_last();
        let last = entries.last();
        assert(forall|i: int| 0 <= i < front.len() ==> #[trigger] front[i] == entries[i]);
        lemma_count_used_bounds(front, x, j);
        assert(last == entries[entries.len() - 1]);
        if last.is_used() {
            let one = used_bounds(front).push(last.starting_lba);
            let two = one.push(last.ending_lba);
            assert(one.drop_last() == used_bounds(front));
            assert(two.drop_last() == one);
            reveal_with_fuel(count_up_to, 3);
            assert(holds_sector(last, x) <==> j == entries.len() - 1);
        }
    }
}

/// How many bounds of a table lie up to `x` and below it, where the bounds are in order and no
/// slot but perhaps the one with the index `j` holds `x`.
proof fn lemma_count_bounds(entries: Seq<GptEntryView>, geometry: GptGeometry, x: int, j: int)
    requires
        0 < geometry.first_usable_lba,
        geometry.last_usable_lba < u64::MAX,
        forall|i: int|
            0 <= i < entries.len() && (#[trigger] entries[i]).is_used() ==> entries[i].starting_lba
                <= entries[i].ending_lba,
        forall|i: int|
            0 <= i < entries.len() && i != j ==> !holds_sector(#[trigger] entries[i], x),
        0 <= j < entries.len() ==> holds_sector(entries[j], x),
    ensures
        ({
            let bounds = bounds_in_order(entries, geometry);
            let used = used_bounds(entries);
            &&& vstd::relations::sorted_by(bounds, |a: u64, b: u64| a <= b)
            &&& bounds.len() % 2 == 0
            &&& count_up_to(bounds, x) == count_up_to(used, x) + if geometry.first_usable_lba - 1
                <= x {
                1int
            } else {
                0int
            } + if geometry.last_usable_lba + 1 <= x {
                1int
            } else {
                0int
            }
            &&& count_up_to(bounds, x - 1) == count_up_to(used, x - 1)
                + if geometry.first_usable_lba <= x {
                1int
            } else {
                0int
            } + if geometry.last_usable_lba + 2 <= x {
                1int
            } else {
                0int
            }
        }),
{
    let leq = |a: u64, b: u64| a <= b;
    let used = used_bounds(entries);
    let one = used.push((geometry.first_usable_lba - 1) as u64);
    let all = one.push((geometry.last_usable_lba + 1) as u64);
    let bounds = bounds_in_order(entries, geometry);
    lemma_count_used_bounds(entries, x, j);
    all.lemma_sort_by_ensures(leq);
    vstd::seq_lib::to_multiset_len(all);
    vstd::seq_lib::to_multiset_len(bounds);
    lemma_count_in_multiset(all, x);
    lemma_count_in_multiset(all, x - 1);
    lemma_count_in_multiset(bounds, x);
    lemma_count_in_multiset(bounds, x - 1);
    assert(one.drop_last() == used);
    assert(all.drop_last() == one);
    reveal_with_fuel(count_up_to, 3);
}

/// The free sectors of a table can be computed where its usable range is not empty, an aligned
/// sector behind it has a number, its used slots lie in the usable range, and no two of them hold
/// the same sector.
pub proof fn law_tidy_tables_are_measurable(entries: Seq<GptEntryView>, geometry: GptGeometry)
    requires
        geometry.align > 0,
        0 < geometry.first_usable_lba <= geometry.last_usable_lba,
        geometry.last_usable_lba + geometry.align <= u64::MAX,
        are_in_range(entries, geometry),
        are_disjoint(entries),
    ensures
        is_measurable(entries, geometry),
{
    let leq = |a: u64, b: u64| a <= b;
    let bounds = bounds_in_order(entries, geometry);
    let align = geometry.align;
    assert forall|k: int| 0 <= k && 2 * k + 1 < bounds.len() implies #[trigger] gap_at(
        bounds,
        k,
        align,
    ) by {
        let low = bounds[2 * k];
        let high = bounds[2 * k + 1];
        let j: int = if exists|j: int|
            0 <= j < entries.len() && holds_sector(#[trigger] entries[j], low as int) {
            choose|j: int|
                0 <= j < entries.len() && holds_sector(#[trigger] entries[j], low as int)
        } else {
            -1
        };
        lemma_count_used_bounds(entries, low as int, j);
        lemma_count_bounds(entries, geometry, low as int, j);
        assert(leq(low, high));
        if low == high {
            assert forall|i: int| 0 <= i < 2 * k + 2 implies #[trigger] bounds[i] <= low by {
                if i < 2 * k + 1 {
                    assert(leq(bounds[i], high));
                }
            }
            assert forall|i: int| 2 * k <= i < bounds.len() implies #[trigger] bounds[i] > low
                - 1 by {
                if i > 2 * k {
                    assert(leq(low, bounds[i]));
                }
            }
            lemma_count_low(bounds, low as int, 2 * k + 2);
            lemma_count_high(bounds, low - 1, 2 * k);
        }
        assert(low <= geometry.last_usable_lba) by {
            if low > geometry.last_usable_lba {
                assert forall|i: int| 0 <= i < 2 * k + 1 implies #[trigger] bounds[i] <= low by {
                    if i < 2 * k {
                        assert(leq(bounds[i], low));
                    }
                }
                assert forall|i: int| 2 * k + 1 <= i < bounds.len() implies #[trigger] bounds[i]
                    > low by {
                    if i > 2 * k + 1 {
                        assert(leq(high, bounds[i]));
                    }
                }
                lemma_count_low(bounds, low as int, 2 * k + 1);
                lemma_count_high(bounds, low as int, 2 * k + 1);
            }
        }
        assert(next_aligned(low, align) <= low + align) by (nonlinear_arith)
            requires
                next_aligned(low, align) == (low as int / align as int + 1) * align,
                align > 0,
                low >= 0,
        ;
    }
}

/// Where a free stretch comes from: two neighbours among the bounds.
proof fn lemma_stretch_origin(bounds: Seq<u64>, align: u64, i: int) -> (p: int)
    requires
        0 <= i < free_stretches(bounds, align).len(),
    ensures
        0 <= p,
        p + 1 < bounds.len(),
        p % 2 == bounds.len() as int % 2,
        free_stretches(bounds, align)[i].0 == next_aligned(bounds[p], align) as u64,
        next_aligned(bounds[p], align) < bounds[p + 1],
        free_stretches(bounds, align)[i].1 == bounds[p + 1],
    decreases bounds.len(),
{
    let front = bounds.take(bounds.len() - 2);
    if i < free_stretches(front, align).len() {
        let p = lemma_stretch_origin(front, align, i);
        assert(front[p] == bounds[p] && front[p + 1] == bounds[p + 1]);
        p
    } else {
        bounds.len() - 2
    }
}

/// No slot holds a sector of a free stretch, where the used slots lie in the usable range and no
/// two of them hold the same sector.
pub proof fn law_free_stretches_are_free(
    entries: Seq<GptEntryView>,
    geometry: GptGeometry,
    i: int,
    x: int,
    j: int,
)
    requires
        geometry.align > 0,
        0 < geometry.first_usable_lba,
        geometry.last_usable_lba < u64::MAX,
        are_in_range(entries, geometry),
        are_disjoint(entries),
        0 <= i < table_stretches(entries, geometry).len(),
        table_stretches(entries, geometry)[i].0 <= x < table_stretches(entries, geometry)[i].1,
        0 <= j < entries.len(),
    ensures
        !holds_sector(entries[j], x),
{
    if holds_sector(entries[j], x) {
        let leq = |a: u64, b: u64| a <= b;
        let align = geometry.align;
        let bounds = bounds_in_order(entries, geometry);
        let p = lemma_stretch_origin(bounds, align, i);
        let low = bounds[p];
        lemma_count_used_bounds(entries, x, j);
        lemma_count_bounds(entries, geometry, x, j);
        assert(low < next_aligned(low, align)) by {
            vstd::arithmetic::div_mod::lemma_fundamental_div_mod(low as int, align as int);
            vstd::arithmetic::div_mod::lemma_mod_bound(low as int, align as int);
            let q = low as int / align as int;
            assert((q + 1) * align == align * q + align) by (nonlinear_arith);
        }
        assert forall|n: int| 0 <= n < p + 1 implies #[trigger] bounds[n] <= x - 1 by {
            if n < p {
                assert(leq(bounds[n], low));
            }
        }
        assert forall|n: int| p + 1 <= n < bounds.len() implies #[trigger] bounds[n] > x by {
            if n > p + 1 {
                assert(leq(bounds[p + 1], bounds[n]));
            }
        }
        lemma_count_low(bounds, x - 1, p + 1);
        lemma_count_low(bounds, x, p + 1);
        lemma_count_high(bounds, x - 1, p + 1);
        lemma_count_high(bounds, x, p + 1);
    }
}

/// The free stretches of sorted bounds do not overlap and are in ascending order.
proof fn lemma_stretches_ascend(bounds: Seq<u64>, align: u64, i: int, j: int)
    requires
        align > 0,
        vstd::relations::sorted_by(bounds, |a: u64, b: u64| a <= b),
        0 <= i < j < free_stretches(bounds, align).len(),
    ensures
        free_stretches(bounds, align)[i].1 <= free_stretches(bounds, align)[j].0,
    decreases bounds.len(),
{
    let leq = |a: u64, b: u64| a <= b;
    let front = bounds.take(bounds.len() - 2);
    let before = free_stretches(front, align);
    assert forall|m: int, n: int| 0 <= m < n < front.len() implies #[trigger] leq(
        front[m],
        front[n],
    ) by {
        assert(leq(bounds[m], bounds[n]));
    }
    if j < before.len() {
        lemma_stretches_ascend(front, align, i, j);
    } else {
        let low = bounds[bounds.len() - 2];
        let p = lemma_stretch_origin(front, align, i);
        assert(leq(bounds[p + 1], low));
        assert(front[p + 1] == bounds[p + 1]);
        assert(low <= next_aligned(low, align)) by {
            vstd::arithmetic::div_mod::lemma_fundamental_div_mod(low as int, align as int);
            vstd::arithmetic::div_mod::lemma_mod_bound(low as int, align as int);
            let q = low as int / align as int;
            assert((q + 1) * align == align * q + align) by (nonlinear_arith);
        }
    }
}

/// No place among the first `upto` stretches lies behind the one that is found.
proof fn lemma_place_is_last_among(
    bounds: Seq<u64>,
    align: u64,
    size: u64,
    upto: int,
    i: int,
    other: u64,
)
    requires
        align > 0,
        vstd::relations::sorted_by(bounds, |a: u64, b: u64| a <= b),
        0 <= i < upto <= free_stretches(bounds, align).len(),
        free_stretches(bounds, align)[i].0 <= other,
        other + size <= free_stretches(bounds, align)[i].1,
        other % align == 0,
    ensures
        last_start(free_stretches(bounds, align).take(upto), align, size) matches Some(place)
            && other <= place,
    decreases upto,
{
    let stretches = free_stretches(bounds, align);
    let seen = stretches.take(upto);
    let (start, end) = seen.last();
    assert(seen.last() == stretches[upto - 1]);
    if end - start >= size {
        let n = (end - size) / align as int;
        assert(0 <= n * align <= end - size) by {
            vstd::arithmetic::div_mod::lemma_fundamental_div_mod(end - size, align as int);
            vstd::arithmetic::div_mod::lemma_mod_bound(end - size, align as int);
            vstd::arithmetic::div_mod::lemma_div_pos_is_pos(end - size, align as int);
            assert(n * align == align * n) by (nonlinear_arith);
            assert(0 <= n * align) by (nonlinear_arith)
                requires
                    0 <= n,
                    align > 0,
            ;
        }
        if i == upto - 1 {
            let m = other as int / align as int;
            vstd::arithmetic::div_mod::lemma_fundamental_div_mod(other as int, align as int);
            vstd::arithmetic::div_mod::lemma_div_is_ordered(
                other as int,
                end - size,
                align as int,
            );
            assert(other == m * align && m * align <= n * align) by (nonlinear_arith)
                requires
                    other == align * m + other as int % (align as int),
                    other as int % (align as int) == 0,
                    m <= n,
                    align > 0,
            ;
        } else {
            lemma_stretches_ascend(bounds, align, i, upto - 1);
            lemma_last_found_is_last(bounds, align, size, upto);
        }
    } else {
        assert(seen.drop_last() == stretches.take(upto - 1));
        lemma_place_is_last_among(bounds, align, size, upto - 1, i, other);
    }
}

/// What is found in the last of the first `upto` stretches lies in it.
proof fn lemma_last_found_is_last(bounds: Seq<u64>, align: u64, size: u64, upto: int)
    requires
        align > 0,
        0 < upto <= free_stretches(bounds, align).len(),
        free_stretches(bounds, align)[upto - 1].1 - free_stretches(bounds, align)[upto - 1].0
            >= size,
    ensures
        last_start(free_stretches(bounds, align).take(upto), align, size) matches Some(place)
            && free_stretches(bounds, align)[upto - 1].0 <= place,
{
    let stretches = free_stretches(bounds, align);
    let seen = stretches.take(upto);
    let (start, end) = seen.last();
    assert(seen.last() == stretches[upto - 1]);
    law_stretches_are_aligned(bounds, align, upto - 1);
    let n = (end - size) / align as int;
    let m = start as int / align as int;
    vstd::arithmetic::div_mod::lemma_fundamental_div_mod(end - size, align as int);
    vstd::arithmetic::div_mod::lemma_fundamental_div_mod(start as int, align as int);
    vstd::arithmetic::div_mod::lemma_mod_bound(end - size, align as int);
    vstd::arithmetic::div_mod::lemma_div_is_ordered(start as int, end - size, align as int);
    assert(m * align <= n * align <= end - size && m * align == start) by (nonlinear_arith)
        requires
            m <= n,
            align > 0,
            end - size == align * n + (end - size) % (align as int),
            0 <= (end - size) % (align as int),
            start == align * m + start as int % (align as int),
            start as int % (align as int) == 0,
    ;
}

/// No aligned sector of the table from which `size` sectors are free lies behind the one that is
/// found.
pub proof fn law_place_is_last(
    entries: Seq<GptEntryView>,
    geometry: GptGeometry,
    size: u64,
    i: int,
    other: u64,
)
    requires
        geometry.align > 0,
        0 <= i < table_stretches(entries, geometry).len(),
        table_stretches(entries, geometry)[i].0 <= other,
        other + size <= table_stretches(entries, geometry)[i].1,
        other % geometry.align == 0,
    ensures
        last_start(
            table_stretches(entries, geometry),
            geometry.align,
            size,
        ) matches Some(place) && other <= place,
{
    let leq = |a: u64, b: u64| a <= b;
    let all = used_bounds(entries).push((geometry.first_usable_lba - 1) as u64).push(
        (geometry.last_usable_lba + 1) as u64,
    );
    let bounds = bounds_in_order(entries, geometry);
    let stretches = table_stretches(entries, geometry);
    all.lemma_sort_by_ensures(leq);
    assert(stretches.take(stretches.len() as int) == stretches);
    lemma_place_is_last_among(bounds, geometry.align, size, stretches.len() as int, i, other);
}

/// The largest size is that of a stretch, in whole multiples of the alignment, and no stretch has
/// more.
pub proof fn law_largest_size_is_the_largest(stretches: Seq<(u64, u64)>, align: u64, i: int)
    requires
        align > 0,
        forall|n: int|
            0 <= n < stretches.len() ==> (#[trigger] stretches[n]).0 <= stretches[n].1,
        0 <= i < stretches.len(),
    ensures
        largest_size(stretches, align) matches Some(largest) && {
            &&& (stretches[i].1 - stretches[i].0) / align as int * align <= largest
            &&& exists|n: int|
                0 <= n < stretches.len() && ((#[trigger] stretches[n]).1 - stretches[n].0)
                    / align as int * align == largest
        },
    decreases stretches.len(),
{
    let (start, end) = stretches.last();
    let rest = stretches.drop_last();
    let length = end - start;
    assert(stretches[stretches.len() - 1] == (start, end));
    assert(0 <= length / align as int * align <= length) by (nonlinear_arith)
        requires
            align > 0,
            length >= 0,
    ;
    assert(forall|n: int| 0 <= n < rest.len() ==> #[trigger] rest[n] == stretches[n]);
    if rest.len() > 0 {
        law_largest_size_is_the_largest(
            rest,
            align,
            if i < rest.len() {
                i
            } else {
                0
            },
        );
        let other = largest_size(rest, align).unwrap();
        let n = choose|n: int|
            0 <= n < rest.len() && ((#[trigger] rest[n]).1 - rest[n].0) / align as int * align
                == other;
        assert(stretches[n] == rest[n]);
    }
}

/// Two neighbours among the bounds with an aligned sector between them make a free stretch.
proof fn lemma_stretch_of_bounds(bounds: Seq<u64>, align: u64, p: int) -> (i: int)
    requires
        0 <= p,
        p + 1 < bounds.len(),
        p % 2 == bounds.len() as int % 2,
        next_aligned(bounds[p], align) < bounds[p + 1],
    ensures
        0 <= i < free_stretches(bounds, align).len(),
        free_stretches(bounds, align)[i].0 == next_aligned(bounds[p], align) as u64,
        free_stretches(bounds, align)[i].1 == bounds[p + 1],
    decreases bounds.len(),
{
    let front = bounds.take(bounds.len() - 2);
    if p + 2 < bounds.len() {
        assert(front[p] == bounds[p] && front[p + 1] == bounds[p + 1]);
        let i = lemma_stretch_of_bounds(front, align, p);
        assert(free_stretches(bounds, align)[i] == free_stretches(front, align)[i]);
        i
    } else {
        free_stretches(bounds, align).len() - 1
    }
}

/// Usable sectors from an aligned one on that no slot holds lie in one of the free stretches, where
/// the used slots lie in the usable range and no two of them hold the same sector.
pub proof fn law_free_sectors_lie_in_a_stretch(
    entries: Seq<GptEntryView>,
    geometry: GptGeometry,
    first: u64,
    end: u64,
)
    requires
        geometry.align > 0,
        geometry.last_usable_lba < u64::MAX,
        0 < geometry.first_usable_lba <= first < end <= geometry.last_usable_lba + 1,
        are_in_range(entries, geometry),
        first % geometry.align == 0,
        forall|j: int, x: int|
            0 <= j < entries.len() && first <= x < end ==> !#[trigger] holds_sector(entries[j], x),
    ensures
        exists|i: int|
            0 <= i < table_stretches(entries, geometry).len() && (#[trigger] table_stretches(
                entries,
                geometry,
            )[i]).0 <= first && end <= table_stretches(entries, geometry)[i].1,
{
    let leq = |a: u64, b: u64| a <= b;
    let align = geometry.align;
    let bounds = bounds_in_order(entries, geometry);
    lemma_count_used_bounds(entries, first as int, -1);
    lemma_count_bounds(entries, geometry, first as int, -1);
    let p = 2 * ended_before(entries, first as int) as int;
    assert(count_up_to(bounds, first as int) == p + 1);
    assert(count_up_to(bounds, first - 1) == p + 1);
    lemma_count_at_most_all(bounds, first as int);
    if bounds[p] >= first {
        assert forall|n: int| p <= n < bounds.len() implies #[trigger] bounds[n] > first - 1 by {
            if n > p {
                assert(leq(bounds[p], bounds[n]));
            }
        }
        lemma_count_high(bounds, first - 1, p);
    }
    if p + 1 >= bounds.len() {
        lemma_count_missing(entries, geometry, first as int);
    }
    if bounds[p + 1] <= first {
        assert forall|n: int| 0 <= n < p + 2 implies #[trigger] bounds[n] <= first by {
            if n < p + 1 {
                assert(leq(bounds[n], bounds[p + 1]));
            }
        }
        lemma_count_low(bounds, first as int, p + 2);
    }
    let x = bounds[p + 1];
    if x < end {
        assert forall|n: int| 0 <= n < p + 2 implies #[trigger] bounds[n] <= x by {
            if n < p + 1 {
                assert(leq(bounds[n], x));
            }
        }
        assert forall|n: int| p + 1 <= n < bounds.len() implies #[trigger] bounds[n] > x - 1 by {
            if n > p + 1 {
                assert(leq(x, bounds[n]));
            }
        }
        lemma_count_low(bounds, x as int, p + 2);
        lemma_count_high(bounds, x - 1, p + 1);
        lemma_count_used_bounds(entries, x as int, -1);
        lemma_count_bounds(entries, geometry, x as int, -1);
    }
    let low = bounds[p];
    let q = low as int / align as int;
    let m = first as int / align as int;
    vstd::arithmetic::div_mod::lemma_fundamental_div_mod(low as int, align as int);
    vstd::arithmetic::div_mod::lemma_mod_bound(low as int, align as int);
    vstd::arithmetic::div_mod::lemma_fundamental_div_mod(first as int, align as int);
    assert(0 <= (q + 1) * align <= first) by (nonlinear_arith)
        requires
            low == align * q + low as int % (align as int),
            0 <= low as int % (align as int),
            first == align * m + first as int % (align as int),
            first as int % (align as int) == 0,
            low < first,
            low as int % (align as int) < align,
            low >= 0,
            align > 0,
    ;
    let i = lemma_stretch_of_bounds(bounds, align, p);
    assert(table_stretches(entries, geometry)[i].0 <= first);
}

/// No more numbers are counted than there are.
proof fn lemma_count_at_most_all(list: Seq<u64>, x: int)
    ensures
        count_up_to(list, x) <= list.len(),
{
    lemma_count_high(list, x, list.len() as int);
}

/// The sector behind the usable range is a bound, so that not all bounds are usable sectors or lie
/// before them.
proof fn lemma_count_missing(entries: Seq<GptEntryView>, geometry: GptGeometry, x: int)
    requires
        0 < geometry.first_usable_lba <= x <= geometry.last_usable_lba,
        geometry.last_usable_lba < u64::MAX,
        are_in_range(entries, geometry),
        forall|i: int| 0 <= i < entries.len() ==> !holds_sector(#[trigger] entries[i], x),
    ensures
        count_up_to(bounds_in_order(entries, geometry), x) < bounds_in_order(
            entries,
            geometry,
        ).len(),
{
    let leq = |a: u64, b: u64| a <= b;
    let bounds = bounds_in_order(entries, geometry);
    let used = used_bounds(entries);
    let all = used.push((geometry.first_usable_lba - 1) as u64).push(
        (geometry.last_usable_lba + 1) as u64,
    );
    lemma_count_bounds(entries, geometry, x, -1);
    lemma_count_at_most_all(used, x);
    all.lemma_sort_by_ensures(leq);
    vstd::seq_lib::to_multiset_len(all);
    vstd::seq_lib::to_multiset_len(bounds);
}

/// What bounds free sectors are the first and last sectors of the slots with a partition type that
/// is not all zero, slot by slot.
pub proof fn law_used_slots_bound_free_sectors(entries: Seq<GptEntryView>, last: GptEntryView)
    ensures
        used_bounds(Seq::empty()).len() == 0,
        used_bounds(entries.push(last)) == used_bounds(entries) + if exists|i: int|
            0 <= i < last.partition_type_guid.len() && #[trigger] last.partition_type_guid[i] != 0 {
            seq![last.starting_lba, last.ending_lba]
        } else {
            Seq::empty()
        },
{
    assert(entries.push(last).drop_last() == entries);
    assert(entries.push(last).last() == last);
}

/// A table can be measured exactly if the usable range has sectors on both sides, the alignment is
/// positive, and, of everything that bounds free sectors, in ascending order, every second bound
/// lies before the next, with an aligned sector that fits in 64 bits unless the two are neighbours.
pub proof fn law_measurable_tables(
    entries: &Vec<GptEntry>,
    geometry: GptGeometry,
    yes: bool,
    bounds: Seq<u64>,
)
    requires
        call_ensures(can_be_measured, (entries, geometry), yes),
        bounds.to_multiset() == used_bounds(entry_views(entries@)).push(
            (geometry.first_usable_lba - 1) as u64,
        ).push((geometry.last_usable_lba + 1) as u64).to_multiset(),
        forall|m: int, n: int| 0 <= m < n < bounds.len() ==> bounds[m] <= bounds[n],
    ensures
        yes <==> {
            &&& geometry.align > 0
            &&& geometry.first_usable_lba > 0
            &&& geometry.last_usable_lba < u64::MAX
            &&& forall|k: int|
                0 <= k && 2 * k + 1 < bounds.len() ==> {
                    let low = #[trigger] bounds[2 * k];
                    let high = bounds[2 * k + 1];
                    low < high && (low + 1 == high || (low as int / geometry.align as int + 1)
                        * geometry.align <= u64::MAX)
                }
        },
{
    let leq = |a: u64, b: u64| a <= b;
    let views = entry_views(entries@);
    let all = used_bounds(views).push((geometry.first_usable_lba - 1) as u64).push(
        (geometry.last_usable_lba + 1) as u64,
    );
    all.lemma_sort_by_ensures(leq);
    assert(vstd::relations::sorted_by(bounds, leq));
    vstd::seq_lib::lemma_sorted_unique(bounds, all.sort_by(leq), leq);
    assert(bounds == bounds_in_order(views, geometry));
    if yes {
        assert forall|k: int| 0 <= k && 2 * k + 1 < bounds.len() implies {
            let low = #[trigger] bounds[2 * k];
            let high = bounds[2 * k + 1];
            low < high && (low + 1 == high || (low as int / geometry.align as int + 1)
                * geometry.align <= u64::MAX)
        } by {
            assert(gap_at(bounds, k, geometry.align));
        }
    } else {
        if geometry.align > 0 && geometry.first_usable_lba > 0 && geometry.last_usable_lba
            < u64::MAX {
            let k = choose|k: int|
                0 <= k && 2 * k + 1 < bounds.len() && !#[trigger] gap_at(
                    bounds,
                    k,
                    geometry.align,
                );
            assert(!gap_at(bounds, k, geometry.align));
            let low = bounds[2 * k];
        }
    }
}

} // verus!
