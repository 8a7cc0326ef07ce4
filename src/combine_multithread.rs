use vstd::prelude::*;

use crate::combine::{place_all, Entry};
use crate::config::ImageConfig;
use crate::grid::{in_matrix, MatrixModel};

verus! {

/// How many placements each group takes: `n / workers`, and one where there
/// are fewer placements than workers.
pub open spec fn group_size(n: int, workers: int) -> int {
    if n / workers == 0 {
        1
    } else {
        n / workers
    }
}

/// How many groups there are: one per worker, or one per placement where
/// there are fewer placements than workers.
pub open spec fn group_count(n: int, workers: int) -> int {
    if n < workers {
        n
    } else {
        workers
    }
}

/// Where group `g` starts in the placement list.
pub open spec fn group_start(n: int, workers: int, g: int) -> int {
    g * group_size(n, workers)
}

/// Where group `g` ends: the last group runs to the end of the list and so
/// takes the remainder.
pub open spec fn group_end(n: int, workers: int, g: int) -> int {
    if g == group_count(n, workers) - 1 {
        n
    } else {
        (g + 1) * group_size(n, workers)
    }
}

/// The groups that `items` is cut into for `workers` workers: consecutive
/// runs of `group_size` items in the original order, the last one absorbing
/// what is left over.
pub open spec fn partition<T>(items: Seq<T>, workers: int) -> Seq<Seq<T>> {
    Seq::new(
        group_count(items.len() as int, workers) as nat,
        |g: int| items.subrange(group_start(items.len() as int, workers, g), group_end(items.len() as int, workers, g)),
    )
}

proof fn lemma_group_bounds(n: int, workers: int, g: int)
    requires
        n >= 0,
        workers >= 1,
        0 <= g < group_count(n, workers),
    ensures
        0 <= group_start(n, workers, g) < group_end(n, workers, g) <= n,
        g + 1 < group_count(n, workers) ==> group_end(n, workers, g) == group_start(n, workers, g + 1),
        group_start(n, workers, g) + group_size(n, workers) == group_start(n, workers, g + 1),
        group_start(n, workers, 0) == 0,
{
    let size = group_size(n, workers);
    assert(g * size + size == (g + 1) * size) by (nonlinear_arith);
    if n < workers {
        assert(n / workers == 0) by {
            vstd::arithmetic::div_mod::lemma_basic_div(n, workers);
        }
    } else {
        vstd::arithmetic::div_mod::lemma_div_is_ordered(workers, n, workers);
        vstd::arithmetic::div_mod::lemma_div_basics(workers);
        vstd::arithmetic::div_mod::lemma_fundamental_div_mod(n, workers);
        vstd::arithmetic::div_mod::lemma_mod_pos_bound(n, workers);
        assert(size == n / workers);
        assert(size >= 1);
        assert(workers * size <= n) by {
            vstd::arithmetic::mul::lemma_mul_is_commutative(workers, size);
        }
        assert((g + 1) * size <= workers * size) by (nonlinear_arith)
            requires
                g + 1 <= workers,
                size >= 0,
        ;
        assert(g * size + size == (g + 1) * size) by (nonlinear_arith);
        assert(g * size >= 0) by (nonlinear_arith)
            requires
                g >= 0,
                size >= 0,
        ;
    }
    assert(0 * size == 0);
}

/// Cuts the placements into consecutive groups, one per worker, in their
/// original order; the last group takes the remainder. With fewer placements
/// than workers every placement forms a group of its own.
pub fn separate(group_num: u8, vector: &Vec<ImageConfig>) -> (r: Vec<Vec<ImageConfig>>)
    requires
        group_num >= 1,
    ensures
        r@.map_values(|group: Vec<ImageConfig>| group@) == partition(vector@, group_num as int),
        r@.len() == group_count(vector@.len() as int, group_num as int),
        forall|g: int| 0 <= g < r@.len() ==> #[trigger] r@[g]@ == partition(vector@, group_num as int)[g],
{
    let n = vector.len();
    let workers = group_num as usize;
    let per_group = n / workers;
    let size = if per_group == 0 {
        1
    } else {
        per_group
    };
    let count = if n < workers {
        n
    } else {
        workers
    };
    let ghost target = partition(vector@, group_num as int);
    let mut result: Vec<Vec<ImageConfig>> = Vec::new();
    let mut g: usize = 0;
    let mut start: usize = 0;
    while g < count
        invariant
            n == vector@.len(),
            workers == group_num,
            workers >= 1,
            size == group_size(n as int, workers as int),
            count == group_count(n as int, workers as int),
            target == partition(vector@, group_num as int),
            g <= count,
            g < count ==> start == group_start(n as int, workers as int, g as int),
            result@.len() == g,
            forall|j: int| 0 <= j < g ==> #[trigger] result@[j]@ == target[j],
        decreases count - g,
    {
        proof {
            lemma_group_bounds(n as int, workers as int, g as int);
            if g + 1 < count {
                lemma_group_bounds(n as int, workers as int, g + 1);
            }
        }
        let end = if g + 1 == count {
            n
        } else {
            start + size
        };
        assert(end == group_end(n as int, workers as int, g as int));
        let mut group: Vec<ImageConfig> = Vec::new();
        let mut i: usize = start;
        while i < end
            invariant
                start <= i <= end,
                end <= vector@.len(),
                group@ == vector@.subrange(start as int, i as int),
            decreases end - i,
        {
            group.push(vector[i].duplicate());
            i = i + 1;
            assert(group@ =~= vector@.subrange(start as int, i as int));
        }
        result.push(group);
        g = g + 1;
        if g < count {
            proof {
                lemma_group_bounds(n as int, workers as int, g - 1);
            }
            start = end;
        }
    }
    assert(result@.map_values(|group: Vec<ImageConfig>| group@) =~= target);
    result
}

proof fn lemma_groups_from<T>(items: Seq<T>, workers: int, g: int)
    requires
        workers >= 1,
        0 <= g <= group_count(items.len() as int, workers),
    ensures
        ({
            let groups = partition(items, workers);
            let n = items.len() as int;
            groups.subrange(g, groups.len() as int).flatten() == if g == groups.len() {
                Seq::<T>::empty()
            } else {
                items.subrange(group_start(n, workers, g), n)
            }
        }),
    decreases group_count(items.len() as int, workers) - g,
{
    let groups = partition(items, workers);
    let n = items.len() as int;
    let rest = groups.subrange(g, groups.len() as int);
    if g < groups.len() {
        lemma_group_bounds(n, workers, g);
        lemma_groups_from(items, workers, g + 1);
        assert(rest.drop_first() =~= groups.subrange(g + 1, groups.len() as int));
        if g + 1 < groups.len() {
            lemma_group_bounds(n, workers, g + 1);
            assert(items.subrange(group_start(n, workers, g), n) =~= items.subrange(
                group_start(n, workers, g),
                group_end(n, workers, g),
            ) + items.subrange(group_start(n, workers, g + 1), n));
        } else {
            assert(items.subrange(group_start(n, workers, g), n) =~= rest.first() + Seq::<T>::empty());
        }
    } else {
        assert(rest =~= Seq::<Seq<T>>::empty());
    }
}

/// Partitioning keeps every placement, once, in its original order: the
/// groups, read one after the other, give back the list.
pub proof fn lemma_partition_keeps_order<T>(items: Seq<T>, workers: int)
    requires
        workers >= 1,
    ensures
        partition(items, workers).flatten() == items,
{
    let groups = partition(items, workers);
    lemma_groups_from(items, workers, 0);
    assert(groups.subrange(0, groups.len() as int) =~= groups);
    if groups.len() == 0 {
        assert(items.len() == 0);
        assert(items =~= Seq::<T>::empty());
    } else {
        lemma_group_bounds(items.len() as int, workers, 0);
        assert(items.subrange(0, items.len() as int) =~= items);
    }
}

/// No two entries address the same cell.
pub open spec fn distinct_positions(entries: Seq<Entry>) -> bool {
    forall|i: int, j: int|
        0 <= i < entries.len() && 0 <= j < entries.len() && i != j ==> (#[trigger] entries[i]).0 != (
        #[trigger] entries[j]).0 || entries[i].1 != entries[j].1
}

proof fn lemma_place_all_shape(m: MatrixModel, entries: Seq<Entry>)
    ensures
        place_all(m, entries).len() == m.len(),
        forall|k: int| 0 <= k < m.len() ==> #[trigger] place_all(m, entries)[k].len() == m[k].len(),
    decreases entries.len(),
{
    if entries.len() > 0 {
        lemma_place_all_shape(m, entries.drop_last());
    }
}

proof fn lemma_place_all_at(m: MatrixModel, entries: Seq<Entry>, r: int, c: int)
    requires
        distinct_positions(entries),
        in_matrix(m, r, c),
    ensures
        (forall|i: int| 0 <= i < entries.len() ==> !((#[trigger] entries[i]).0 == r && entries[i].1 == c))
            ==> place_all(m, entries)[r][c] == m[r][c],
        forall|i: int|
            0 <= i < entries.len() && (#[trigger] entries[i]).0 == r && entries[i].1 == c
                ==> place_all(m, entries)[r][c] == Some(entries[i].2),
    decreases entries.len(),
{
    if entries.len() > 0 {
        let prefix = entries.drop_last();
        assert(distinct_positions(prefix));
        lemma_place_all_at(m, prefix, r, c);
        let last = entries.last();
        assert forall|i: int| 0 <= i < prefix.len() implies #[trigger] prefix[i] == entries[i] by {}
        lemma_place_all_shape(m, prefix);
        let before = place_all(m, prefix);
        assert(in_matrix(before, r, c));
        assert forall|i: int|
            0 <= i < entries.len() && (#[trigger] entries[i]).0 == r && entries[i].1 == c implies place_all(
            m,
            entries,
        )[r][c] == Some(entries[i].2) by {
            if i < entries.len() - 1 {
                assert(prefix[i] == entries[i]);
                assert(entries[entries.len() - 1] == last);
                assert(last.0 != r || last.1 != c);
            }
        }
    }
}

/// Placing entries that address distinct cells gives the same matrix in any
/// order: whatever interleaving the workers' insertions take, so long as every
/// entry is inserted, the matrix that the compositor reads is the same.
pub proof fn lemma_placement_order_irrelevant(m: MatrixModel, first: Seq<Entry>, second: Seq<Entry>)
    requires
        distinct_positions(first),
        distinct_positions(second),
        forall|e: Entry| first.contains(e) <==> second.contains(e),
    ensures
        place_all(m, first) == place_all(m, second),
{
    let a = place_all(m, first);
    let b = place_all(m, second);
    lemma_place_all_shape(m, first);
    lemma_place_all_shape(m, second);
    assert forall|r: int| 0 <= r < m.len() implies #[trigger] a[r] =~= b[r] by {
        assert forall|c: int| 0 <= c < m[r].len() implies #[trigger] a[r][c] == b[r][c] by {
            lemma_place_all_at(m, first, r, c);
            lemma_place_all_at(m, second, r, c);
            if exists|i: int| 0 <= i < first.len() && (#[trigger] first[i]).0 == r && first[i].1 == c {
                let i = choose|i: int| 0 <= i < first.len() && (#[trigger] first[i]).0 == r && first[i].1 == c;
                assert(first.contains(first[i]));
                assert(second.contains(first[i]));
                let j = choose|j: int| 0 <= j < second.len() && second[j] == first[i];
                assert(second[j].0 == r && second[j].1 == c);
            } else if exists|j: int| 0 <= j < second.len() && (#[trigger] second[j]).0 == r && second[j].1 == c {
                let j = choose|j: int| 0 <= j < second.len() && (#[trigger] second[j]).0 == r && second[j].1 == c;
                assert(second.contains(second[j]));
                assert(first.contains(second[j]));
                let i = choose|i: int| 0 <= i < first.len() && first[i] == second[j];
                assert(first[i].0 == r && first[i].1 == c);
            }
        }
    }
    lemma_place_all_shape(m, first);
    lemma_place_all_shape(m, second);
    assert(a =~= b);
}

proof fn lemma_flatten_contains<A>(groups: Seq<Seq<A>>, x: A)
    ensures
        groups.flatten().contains(x) <==> exists|g: int| 0 <= g < groups.len() && (#[trigger] groups[g]).contains(x),
    decreases groups.len(),
{
    if groups.len() > 0 {
        let rest = groups.drop_first();
        lemma_flatten_contains(rest, x);
        let flat = groups.flatten();
        assert(flat == groups[0] + rest.flatten());
        if flat.contains(x) {
            let i = choose|i: int| 0 <= i < flat.len() && flat[i] == x;
            if i < groups[0].len() {
                assert(groups[0][i] == x);
                assert(groups[0].contains(x));
            } else {
                assert(rest.flatten()[i - groups[0].len()] == x);
                let g = choose|g: int| 0 <= g < rest.len() && (#[trigger] rest[g]).contains(x);
                assert(groups[g + 1] == rest[g]);
            }
        }
        if exists|g: int| 0 <= g < groups.len() && (#[trigger] groups[g]).contains(x) {
            let g = choose|g: int| 0 <= g < groups.len() && (#[trigger] groups[g]).contains(x);
            if g == 0 {
                let i = choose|i: int| 0 <= i < groups[0].len() && groups[0][i] == x;
                assert(flat[i] == x);
            } else {
                assert(rest[g - 1] == groups[g]);
                assert(rest.flatten().contains(x));
                let i = choose|i: int| 0 <= i < rest.flatten().len() && rest.flatten()[i] == x;
                assert(flat[i + groups[0].len()] == x);
            }
        }
    }
}

/// The worker count does not change the matrix: whatever the number of
/// workers, and in whatever order the workers' insertions interleave, once
/// every placement of every group is inserted the matrix is the one that
/// inserting the placements in list order gives, so long as no two
/// placements address the same cell.
pub proof fn lemma_worker_count_irrelevant(
    m: MatrixModel,
    entries: Seq<Entry>,
    workers: int,
    order: Seq<Entry>,
)
    requires
        workers >= 1,
        distinct_positions(entries),
        distinct_positions(order),
        forall|e: Entry|
            order.contains(e) <==> exists|g: int|
                0 <= g < partition(entries, workers).len() && (#[trigger] partition(entries, workers)[g]).contains(e),
    ensures
        place_all(m, order) == place_all(m, entries),
{
    let groups = partition(entries, workers);
    lemma_partition_keeps_order(entries, workers);
    assert forall|e: Entry| order.contains(e) <==> entries.contains(e) by {
        lemma_flatten_contains(groups, e);
    }
    lemma_placement_order_irrelevant(m, order, entries);
}

} // verus!
