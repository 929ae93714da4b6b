//! What holds of the evaluation order that [`crate::order::schedule`] defines.

use crate::order::calc_one_spec;
use crate::order::cycle_of;
use crate::order::emits;
use crate::order::in_cycle;
use crate::order::is_first_emitting;
use crate::order::lemma_cycle_of;
use crate::order::lemma_first_emitting_unique;
use crate::order::lemma_next_group_progress;
use crate::order::next_group;
use crate::order::ready;
use crate::order::scan;
use crate::order::schedule;
use crate::order::schedule_from;
use crate::seq_facts::lemma_concat_contains;
use crate::seq_facts::lemma_concat_no_duplicates;
use crate::seq_facts::lemma_flatten_contains;
use vstd::prelude::*;
use vstd::seq_lib::lemma_flatten_concat;
use vstd::set_lib::lemma_int_range;
use vstd::set_lib::lemma_len_subset;
use vstd::set_lib::set_int_range;

verus! {

/// Whether every edge joins two members below `len`.
pub open spec fn edges_below(edges: Set<(usize, usize)>, len: usize) -> bool {
    forall|a: usize, b: usize| #[trigger] edges.contains((a, b)) ==> a < len && b < len
}

/// Whether every member that a cycle lists is below `len`.
pub open spec fn cycles_below(cycles: Seq<Seq<usize>>, len: usize) -> bool {
    forall|c: int, k: int|
        0 <= c < cycles.len() && 0 <= k < cycles[c].len() ==> #[trigger] cycles[c][k] < len
}

/// Whether no cycle lists a member twice.
pub open spec fn cycles_without_repeats(cycles: Seq<Seq<usize>>) -> bool {
    forall|c: int| 0 <= c < cycles.len() ==> (#[trigger] cycles[c]).no_duplicates()
}

/// Whether cycles that share a member list the same members. Two cycles
/// may list the same members in another order.
pub open spec fn cycles_agree(cycles: Seq<Seq<usize>>) -> bool {
    forall|c: int, d: int, x: usize, y: usize|
        #![trigger cycles[c].contains(x), cycles[d].contains(x), cycles[c].contains(y)]
        0 <= c < cycles.len() && 0 <= d < cycles.len() && cycles[c].contains(x)
            && cycles[d].contains(x) && cycles[c].contains(y) ==> cycles[d].contains(y)
}

/// Whether entry `k` of `walk` has an edge to the entry after it.
pub open spec fn links(edges: Set<(usize, usize)>, walk: Seq<usize>, k: int) -> bool {
    edges.contains((walk[k], walk[k + 1]))
}

/// Whether each entry of `walk` has an edge to the entry after it.
pub open spec fn is_walk(edges: Set<(usize, usize)>, walk: Seq<usize>) -> bool {
    forall|k: int| 0 <= k < walk.len() - 1 ==> #[trigger] links(edges, walk, k)
}

/// Whether `a` depends on `b`, directly or through other members.
pub open spec fn depends_on(edges: Set<(usize, usize)>, a: usize, b: usize) -> bool {
    exists|walk: Seq<usize>|
        walk.len() >= 2 && walk.first() == a && walk.last() == b && #[trigger] is_walk(
            edges,
            walk,
        )
}

/// Whether members that depend on each other are listed together in a cycle.
pub open spec fn cycles_cover(cycles: Seq<Seq<usize>>, edges: Set<(usize, usize)>) -> bool {
    forall|a: usize, b: usize|
        #![trigger depends_on(edges, a, b), depends_on(edges, b, a)]
        depends_on(edges, a, b) && depends_on(edges, b, a) ==> exists|c: int|
            0 <= c < cycles.len() && #[trigger] cycles[c].contains(a) && cycles[c].contains(b)
}

/// Whether the members that a cycle lists all depend on each other.
pub open spec fn cycles_sound(cycles: Seq<Seq<usize>>, edges: Set<(usize, usize)>) -> bool {
    forall|c: int, a: usize, b: usize|
        0 <= c < cycles.len() && #[trigger] cycles[c].contains(a) && #[trigger] cycles[c].contains(
            b,
        ) ==> depends_on(edges, a, b)
}

/// Whether `cycles` groups the members below `len` that depend on each
/// other: every such pair shares a cycle, no cycle lists a member twice,
/// and cycles that share a member list the same members.
pub open spec fn groups_dependents(
    cycles: Seq<Seq<usize>>,
    edges: Set<(usize, usize)>,
    len: usize,
) -> bool {
    &&& cycles_below(cycles, len)
    &&& cycles_without_repeats(cycles)
    &&& cycles_agree(cycles)
    &&& cycles_cover(cycles, edges)
}

/// Whether the scheduled members are below `len`.
spec fn done_below(done: Set<usize>, len: usize) -> bool {
    forall|i: usize| done.contains(i) ==> i < len
}

/// Whether each cycle is scheduled as a whole or not at all.
spec fn cycles_whole(done: Set<usize>, cycles: Seq<Seq<usize>>) -> bool {
    forall|c: int, a: usize, b: usize|
        0 <= c < cycles.len() && #[trigger] cycles[c].contains(a) && #[trigger] cycles[c].contains(
            b,
        ) ==> (done.contains(a) <==> done.contains(b))
}

/// Whether `group` is what member `idx` gives rise to as the next group.
spec fn given_by(
    done: Set<usize>,
    cycles: Seq<Seq<usize>>,
    edges: Set<(usize, usize)>,
    len: usize,
    idx: usize,
    group: Seq<usize>,
) -> bool {
    &&& idx < len
    &&& !done.contains(idx)
    &&& if in_cycle(cycles, idx) {
        group == cycle_of(cycles, idx)
    } else {
        ready(done, edges, idx) && group == seq![idx]
    }
}

/// A pass that some member could answer finds a lowest such member.
proof fn lemma_lowest_emitting(
    done: Set<usize>,
    cycles: Seq<Seq<usize>>,
    edges: Set<(usize, usize)>,
    len: usize,
    cyclic: bool,
    idx: usize,
)
    requires
        idx < len,
        emits(done, cycles, edges, cyclic, idx),
    ensures
        exists|f: usize| is_first_emitting(done, cycles, edges, len, cyclic, f),
    decreases idx,
{
    if exists|k: usize| k < idx && emits(done, cycles, edges, cyclic, k) {
        let k = choose|k: usize| k < idx && emits(done, cycles, edges, cyclic, k);
        lemma_lowest_emitting(done, cycles, edges, len, cyclic, k);
    } else {
        assert(is_first_emitting(done, cycles, edges, len, cyclic, idx));
    }
}

/// A pass that finds nothing had no member to answer it.
proof fn lemma_scan_empty(
    done: Set<usize>,
    cycles: Seq<Seq<usize>>,
    edges: Set<(usize, usize)>,
    len: usize,
    cyclic: bool,
    idx: usize,
)
    requires
        scan(done, cycles, edges, len, cyclic).len() == 0,
        idx < len,
    ensures
        !emits(done, cycles, edges, cyclic, idx),
{
    if emits(done, cycles, edges, cyclic, idx) {
        lemma_lowest_emitting(done, cycles, edges, len, cyclic, idx);
        let f = choose|f: usize| is_first_emitting(done, cycles, edges, len, cyclic, f);
        lemma_first_emitting_unique(done, cycles, edges, len, cyclic, f);
    }
}

/// The next group, when there is one, is what some pending member gives
/// rise to.
proof fn lemma_next_group_given(
    done: Set<usize>,
    cycles: Seq<Seq<usize>>,
    edges: Set<(usize, usize)>,
    len: usize,
) -> (idx: usize)
    requires
        next_group(done, cycles, edges, len).len() > 0,
    ensures
        given_by(done, cycles, edges, len, idx, next_group(done, cycles, edges, len)),
{
    let cyclic = !(scan(done, cycles, edges, len, false).len() > 0);
    let idx = choose|idx: usize| is_first_emitting(done, cycles, edges, len, cyclic, idx);
    lemma_first_emitting_unique(done, cycles, edges, len, cyclic, idx);
    idx
}

/// More entries than there are values below `len` hold some value twice.
proof fn lemma_repeat(s: Seq<usize>, len: usize) -> (pair: (int, int))
    requires
        s.len() > len,
        forall|k: int| 0 <= k < s.len() ==> s[k] < len,
    ensures
        0 <= pair.0 < pair.1 < s.len(),
        s[pair.0] == s[pair.1],
{
    let wide = s.map_values(|x: usize| x as int);
    if wide.no_duplicates() {
        wide.unique_seq_to_set();
        lemma_int_range(0, len as int);
        assert(wide.to_set().subset_of(set_int_range(0, len as int))) by {
            assert forall|x: int| wide.to_set().contains(x) implies set_int_range(
                0,
                len as int,
            ).contains(x) by {
                let k = choose|k: int| 0 <= k < wide.len() && wide[k] == x;
                assert(s[k] < len);
            }
        }
        lemma_len_subset(wide.to_set(), set_int_range(0, len as int));
        assert(false);
    }
    let (i, j) = choose|i: int, j: int|
        0 <= i < wide.len() && 0 <= j < wide.len() && i != j && wide[i] == wide[j];
    if i < j {
        (i, j)
    } else {
        (j, i)
    }
}

/// Whether `idx` lies in no cycle and depends on a pending member.
spec fn waits(
    done: Set<usize>,
    cycles: Seq<Seq<usize>>,
    edges: Set<(usize, usize)>,
    idx: usize,
) -> bool {
    !in_cycle(cycles, idx) && !ready(done, edges, idx)
}

/// Whether scheduling can go no further although members are pending: each
/// pending member lies in no cycle and waits for another.
spec fn stuck(
    done: Set<usize>,
    cycles: Seq<Seq<usize>>,
    edges: Set<(usize, usize)>,
    len: usize,
) -> bool {
    forall|idx: usize| idx < len && !done.contains(idx) ==> #[trigger] waits(done, cycles, edges, idx)
}

/// From a pending member of a stuck state a walk of any length leads through
/// pending members.
proof fn lemma_pending_walk(
    done: Set<usize>,
    cycles: Seq<Seq<usize>>,
    edges: Set<(usize, usize)>,
    len: usize,
    start: usize,
    steps: nat,
) -> (walk: Seq<usize>)
    requires
        edges_below(edges, len),
        stuck(done, cycles, edges, len),
        start < len,
        !done.contains(start),
    ensures
        walk.len() == steps + 1,
        walk[0] == start,
        is_walk(edges, walk),
        forall|k: int| 0 <= k < walk.len() ==> walk[k] < len && !done.contains(walk[k]),
    decreases steps,
{
    if steps == 0 {
        seq![start]
    } else {
        let walk = lemma_pending_walk(done, cycles, edges, len, start, (steps - 1) as nat);
        let last = walk.last();
        assert(waits(done, cycles, edges, last));
        let next = choose|j: usize| #[trigger] edges.contains((last, j)) && !done.contains(j);
        let longer = walk.push(next);
        assert forall|k: int| 0 <= k < longer.len() - 1 implies #[trigger] links(
            edges,
            longer,
            k,
        ) by {
            if k < walk.len() - 1 {
                assert(links(edges, walk, k));
            }
        }
        longer
    }
}

/// A pending member of a state without a next group lies in no cycle and
/// waits for another member.
proof fn lemma_no_group_waits(
    done: Set<usize>,
    cycles: Seq<Seq<usize>>,
    edges: Set<(usize, usize)>,
    len: usize,
    idx: usize,
)
    requires
        next_group(done, cycles, edges, len).len() == 0,
        idx < len,
        !done.contains(idx),
    ensures
        !in_cycle(cycles, idx),
        !ready(done, edges, idx),
{
    lemma_scan_empty(done, cycles, edges, len, true, idx);
    lemma_scan_empty(done, cycles, edges, len, false, idx);
    if in_cycle(cycles, idx) {
        lemma_cycle_of(cycles, idx);
        assert(calc_one_spec(done, cycles, edges, idx).len() > 0);
    } else if ready(done, edges, idx) {
        assert(calc_one_spec(done, cycles, edges, idx) == seq![idx]);
    }
}

/// A state without a next group is stuck.
proof fn lemma_no_group_is_stuck(
    done: Set<usize>,
    cycles: Seq<Seq<usize>>,
    edges: Set<(usize, usize)>,
    len: usize,
)
    requires
        next_group(done, cycles, edges, len).len() == 0,
    ensures
        stuck(done, cycles, edges, len),
{
    assert forall|idx: usize| idx < len && !done.contains(idx) implies #[trigger] waits(
        done,
        cycles,
        edges,
        idx,
    ) by {
        lemma_no_group_waits(done, cycles, edges, len, idx);
    }
}

/// A walk that comes back to an entry shows that the entry depends on itself.
proof fn lemma_round_trip(edges: Set<(usize, usize)>, walk: Seq<usize>, a: int, b: int)
    requires
        is_walk(edges, walk),
        0 <= a < b < walk.len(),
        walk[a] == walk[b],
    ensures
        depends_on(edges, walk[a], walk[a]),
{
    let round = walk.subrange(a, b + 1);
    assert forall|k: int| 0 <= k < round.len() - 1 implies #[trigger] links(edges, round, k) by {
        assert(links(edges, walk, a + k));
    }
    assert(round.first() == walk[a] && round.last() == walk[a]);
    assert(is_walk(edges, round));
}

/// While a member is pending and the cycles group what depends on each
/// other, there is a next group.
proof fn lemma_not_stuck(
    done: Set<usize>,
    cycles: Seq<Seq<usize>>,
    edges: Set<(usize, usize)>,
    len: usize,
    pending: usize,
)
    requires
        edges_below(edges, len),
        cycles_cover(cycles, edges),
        pending < len,
        !done.contains(pending),
    ensures
        next_group(done, cycles, edges, len).len() > 0,
{
    if next_group(done, cycles, edges, len).len() == 0 {
        lemma_no_group_is_stuck(done, cycles, edges, len);
        let walk = lemma_pending_walk(done, cycles, edges, len, pending, len as nat);
        let (a, b) = lemma_repeat(walk, len);
        let x = walk[a];
        lemma_round_trip(edges, walk, a, b);
        assert(waits(done, cycles, edges, x));
        assert(in_cycle(cycles, x));
    }
}

/// Scheduling the next group keeps the scheduled members below `len` and
/// each cycle whole, and the group lists pending members only, each once.
proof fn lemma_next_group_fresh(
    done: Set<usize>,
    cycles: Seq<Seq<usize>>,
    edges: Set<(usize, usize)>,
    len: usize,
)
    requires
        cycles_below(cycles, len),
        cycles_without_repeats(cycles),
        cycles_agree(cycles),
        done_below(done, len),
        cycles_whole(done, cycles),
        next_group(done, cycles, edges, len).len() > 0,
    ensures
        ({
            let group = next_group(done, cycles, edges, len);
            &&& group.no_duplicates()
            &&& forall|i: usize| group.contains(i) ==> i < len && !done.contains(i)
            &&& done_below(done.union(group.to_set()), len)
            &&& cycles_whole(done.union(group.to_set()), cycles)
        }),
{
    let group = next_group(done, cycles, edges, len);
    let idx = lemma_next_group_given(done, cycles, edges, len);
    let after = done.union(group.to_set());
    if in_cycle(cycles, idx) {
        lemma_cycle_of(cycles, idx);
        let c = choose|c: int| crate::order::is_cycle_of(cycles, idx, c);
        assert(group == cycles[c]);
        assert forall|i: usize| group.contains(i) implies i < len && !done.contains(i) by {
            let k = choose|k: int| 0 <= k < group.len() && group[k] == i;
            assert(cycles[c][k] < len);
            assert(cycles[c].contains(i) && cycles[c].contains(idx));
        }
        assert(group.no_duplicates());
        assert forall|d: int, a: usize, b: usize|
            0 <= d < cycles.len() && #[trigger] cycles[d].contains(a) && #[trigger] cycles[d].contains(
                b,
            ) implies (after.contains(a) <==> after.contains(b)) by {
            lemma_shared_member(cycles, c, d, a, b);
            lemma_shared_member(cycles, c, d, b, a);
        }
    } else {
        assert(group[0] == idx);
        assert forall|d: int, a: usize, b: usize|
            0 <= d < cycles.len() && #[trigger] cycles[d].contains(a) && #[trigger] cycles[d].contains(
                b,
            ) implies (after.contains(a) <==> after.contains(b)) by {
            assert(a != idx && b != idx);
        }
    }
}

/// A cycle that shares a member with another lists every member of the
/// other.
proof fn lemma_shared_member(cycles: Seq<Seq<usize>>, c: int, d: int, a: usize, b: usize)
    requires
        cycles_agree(cycles),
        0 <= c < cycles.len(),
        0 <= d < cycles.len(),
        cycles[d].contains(a),
        cycles[d].contains(b),
    ensures
        cycles[c].contains(a) ==> cycles[c].contains(b),
{
    if cycles[c].contains(a) {
        assert(cycles[d].contains(a) && cycles[c].contains(a) && cycles[d].contains(b));
    }
}

/// From a state in which each cycle is scheduled as a whole or not at all,
/// the groups that follow list exactly the pending members, each once.
proof fn lemma_run_total(
    done: Set<usize>,
    cycles: Seq<Seq<usize>>,
    edges: Set<(usize, usize)>,
    len: usize,
)
    requires
        edges_below(edges, len),
        groups_dependents(cycles, edges, len),
        done_below(done, len),
        cycles_whole(done, cycles),
    ensures
        schedule_from(done, cycles, edges, len).flatten().no_duplicates(),
        forall|i: usize|
            schedule_from(done, cycles, edges, len).flatten().contains(i) <==> i < len
                && !done.contains(i),
    decreases crate::order::pending(done, len),
{
    let group = next_group(done, cycles, edges, len);
    let flat = schedule_from(done, cycles, edges, len).flatten();
    if group.len() == 0 {
        assert(flat =~= Seq::<usize>::empty());
        assert forall|i: usize| i < len implies done.contains(i) by {
            if !done.contains(i) {
                lemma_not_stuck(done, cycles, edges, len, i);
            }
        }
    } else {
        let after = done.union(group.to_set());
        let rest = schedule_from(after, cycles, edges, len);
        lemma_next_group_progress(done, cycles, edges, len);
        lemma_next_group_fresh(done, cycles, edges, len);
        lemma_run_total(after, cycles, edges, len);
        lemma_flatten_concat(seq![group], rest);
        assert(seq![group].flatten() =~= group) by {
            seq![group].lemma_flatten_one_element();
        }
        assert(flat =~= group + rest.flatten());
        assert forall|i: usize| flat.contains(i) <==> i < len && !done.contains(i) by {
            lemma_concat_contains(group, rest.flatten(), i);
            assert(after.contains(i) <==> done.contains(i) || group.contains(i));
        }
        assert forall|x: usize| group.contains(x) implies !rest.flatten().contains(x) by {
            assert(after.contains(x));
        }
        lemma_concat_no_duplicates(group, rest.flatten());
    }
}

/// Every member is scheduled exactly once.
///
/// Where every edge joins members below `len` and the cycles group the
/// members that depend on each other, the groups of the evaluation order,
/// one after the other, list each member below `len` exactly once and
/// nothing else.
pub proof fn schedule_is_total(cycles: Seq<Seq<usize>>, edges: Set<(usize, usize)>, len: usize)
    requires
        edges_below(edges, len),
        groups_dependents(cycles, edges, len),
    ensures
        schedule(cycles, edges, len).flatten().no_duplicates(),
        forall|i: usize| schedule(cycles, edges, len).flatten().contains(i) <==> i < len,
{
    let nothing = Set::<usize>::empty();
    assert(done_below(nothing, len));
    assert(cycles_whole(nothing, cycles));
    lemma_run_total(nothing, cycles, edges, len);
    assert forall|i: usize| schedule(cycles, edges, len).flatten().contains(i) <==> i < len by {
        assert(!nothing.contains(i));
    }
}

/// Whether `group` is one member that lies in no cycle, or one whole cycle.
pub open spec fn is_member_or_cycle(cycles: Seq<Seq<usize>>, group: Seq<usize>) -> bool {
    ||| exists|idx: usize| !in_cycle(cycles, idx) && group == seq![idx]
    ||| exists|c: int| 0 <= c < cycles.len() && group == cycles[c]
}

/// Every scheduled group is one member that lies in no cycle, or one whole
/// cycle.
proof fn lemma_groups_shaped(
    done: Set<usize>,
    cycles: Seq<Seq<usize>>,
    edges: Set<(usize, usize)>,
    len: usize,
    g: int,
)
    requires
        0 <= g < schedule_from(done, cycles, edges, len).len(),
    ensures
        is_member_or_cycle(cycles, schedule_from(done, cycles, edges, len)[g]),
    decreases g,
{
    let group = next_group(done, cycles, edges, len);
    let idx = lemma_next_group_given(done, cycles, edges, len);
    if g == 0 {
        if in_cycle(cycles, idx) {
            lemma_cycle_of(cycles, idx);
            let c = choose|c: int| crate::order::is_cycle_of(cycles, idx, c);
            assert(group == cycles[c]);
        } else {
            assert(group == seq![idx]);
        }
    } else {
        lemma_groups_shaped(done.union(group.to_set()), cycles, edges, len, g - 1);
    }
}

/// Cycles are scheduled whole.
///
/// Whatever the cycles and the edges are, every group of the evaluation
/// order is one member that lies in no cycle, or one whole cycle as it was
/// listed.
pub proof fn groups_are_members_or_cycles(
    cycles: Seq<Seq<usize>>,
    edges: Set<(usize, usize)>,
    len: usize,
    g: int,
)
    requires
        0 <= g < schedule(cycles, edges, len).len(),
    ensures
        is_member_or_cycle(cycles, schedule(cycles, edges, len)[g]),
{
    lemma_groups_shaped(Set::empty(), cycles, edges, len, g);
}

/// Groups that hold nothing twice, one after the other, hold no value in
/// two of them.
proof fn lemma_one_group(groups: Seq<Seq<usize>>, x: usize, p: int, q: int)
    requires
        groups.flatten().no_duplicates(),
        0 <= p < groups.len(),
        0 <= q < groups.len(),
        groups[p].contains(x),
        groups[q].contains(x),
    ensures
        p == q,
    decreases groups.len(),
{
    let first = groups.first();
    let rest = groups.drop_first();
    let tail = rest.flatten();
    assert(groups.flatten() == first + tail);
    if p != q {
        if p > 0 && q > 0 {
            assert(rest[p - 1].contains(x) && rest[q - 1].contains(x));
            assert(tail.no_duplicates()) by {
                assert forall|i: int, j: int|
                    0 <= i < tail.len() && 0 <= j < tail.len() && i != j implies tail[i]
                    != tail[j] by {
                    assert((first + tail)[first.len() + i] == tail[i]);
                    assert((first + tail)[first.len() + j] == tail[j]);
                }
            }
            lemma_one_group(rest, x, p - 1, q - 1);
        } else {
            let later = if p == 0 {
                q
            } else {
                p
            };
            assert(rest[later - 1].contains(x));
            lemma_flatten_contains(rest, x);
            let i = choose|i: int| 0 <= i < first.len() && first[i] == x;
            let j = choose|j: int| 0 <= j < tail.len() && tail[j] == x;
            assert((first + tail)[i] == x);
            assert((first + tail)[first.len() + j] == x);
        }
    }
}

/// A member that depends on another is below `len`, and so is the other.
proof fn lemma_dependents_below(edges: Set<(usize, usize)>, len: usize, a: usize, b: usize)
    requires
        edges_below(edges, len),
        depends_on(edges, a, b),
    ensures
        a < len,
        b < len,
{
    let walk = choose|walk: Seq<usize>|
        walk.len() >= 2 && walk.first() == a && walk.last() == b && #[trigger] is_walk(
            edges,
            walk,
        );
    assert(links(edges, walk, 0));
    assert(links(edges, walk, walk.len() - 2));
}

/// Members that depend on each other are scheduled together.
///
/// Where every edge joins members below `len` and the cycles group the
/// members that depend on each other, two members of which each depends on
/// the other, directly or through other members, are listed by one group of
/// the evaluation order, and no group lists one of them without the other.
pub proof fn mutual_dependents_share_group(
    cycles: Seq<Seq<usize>>,
    edges: Set<(usize, usize)>,
    len: usize,
    i: usize,
    j: usize,
)
    requires
        edges_below(edges, len),
        groups_dependents(cycles, edges, len),
        depends_on(edges, i, j),
        depends_on(edges, j, i),
    ensures
        exists|g: int|
            0 <= g < schedule(cycles, edges, len).len() && #[trigger] schedule(
                cycles,
                edges,
                len,
            )[g].contains(i) && schedule(cycles, edges, len)[g].contains(j),
        forall|g: int|
            0 <= g < schedule(cycles, edges, len).len() ==> (#[trigger] schedule(
                cycles,
                edges,
                len,
            )[g].contains(i) <==> schedule(cycles, edges, len)[g].contains(j)),
{
    let groups = schedule(cycles, edges, len);
    let c = choose|c: int|
        0 <= c < cycles.len() && #[trigger] cycles[c].contains(i) && cycles[c].contains(j);
    assert forall|g: int| 0 <= g < groups.len() implies (#[trigger] groups[g].contains(i)
        <==> groups[g].contains(j)) by {
        lemma_groups_shaped(Set::empty(), cycles, edges, len, g);
        if groups[g].contains(i) || groups[g].contains(j) {
            if exists|idx: usize| !in_cycle(cycles, idx) && groups[g] == seq![idx] {
                let idx = choose|idx: usize| !in_cycle(cycles, idx) && groups[g] == seq![idx];
                assert(seq![idx][0] == idx);
                assert(idx == i || idx == j);
                assert(false);
            }
            let d = choose|d: int| 0 <= d < cycles.len() && groups[g] == cycles[d];
            if groups[g].contains(i) {
                lemma_shared_member(cycles, d, c, i, j);
            } else {
                lemma_shared_member(cycles, d, c, j, i);
            }
        }
    }
    lemma_dependents_below(edges, len, i, j);
    schedule_is_total(cycles, edges, len);
    lemma_flatten_contains(groups, i);
}

/// A member outside every cycle is scheduled after all that it depends on.
proof fn lemma_run_dependencies_first(
    done: Set<usize>,
    cycles: Seq<Seq<usize>>,
    edges: Set<(usize, usize)>,
    len: usize,
    p: int,
    i: usize,
    j: usize,
)
    requires
        0 <= p < schedule_from(done, cycles, edges, len).len(),
        schedule_from(done, cycles, edges, len)[p].contains(i),
        !in_cycle(cycles, i),
        edges.contains((i, j)),
    ensures
        done.contains(j) || exists|q: int|
            0 <= q < p && #[trigger] schedule_from(done, cycles, edges, len)[q].contains(j),
    decreases p,
{
    let groups = schedule_from(done, cycles, edges, len);
    let group = next_group(done, cycles, edges, len);
    let idx = lemma_next_group_given(done, cycles, edges, len);
    if p == 0 {
        if in_cycle(cycles, idx) {
            lemma_cycle_of(cycles, idx);
            let c = choose|c: int| crate::order::is_cycle_of(cycles, idx, c);
            assert(cycles[c].contains(i));
        } else {
            assert(seq![idx][0] == idx);
        }
    } else {
        let after = done.union(group.to_set());
        let rest = schedule_from(after, cycles, edges, len);
        lemma_run_dependencies_first(after, cycles, edges, len, p - 1, i, j);
        if after.contains(j) {
            if !done.contains(j) {
                assert(groups[0].contains(j));
            }
        } else {
            let q = choose|q: int| 0 <= q < p - 1 && #[trigger] rest[q].contains(j);
            assert(groups[q + 1].contains(j));
        }
    }
}

/// A member outside every cycle is scheduled after all that it depends on.
///
/// Whatever the cycles and the edges are: where a group of the evaluation
/// order lists a member that lies in no cycle, each member that it depends
/// on directly is listed by an earlier group.
pub proof fn dependencies_come_first(
    cycles: Seq<Seq<usize>>,
    edges: Set<(usize, usize)>,
    len: usize,
    p: int,
    i: usize,
    j: usize,
)
    requires
        0 <= p < schedule(cycles, edges, len).len(),
        schedule(cycles, edges, len)[p].contains(i),
        !in_cycle(cycles, i),
        edges.contains((i, j)),
    ensures
        exists|q: int| 0 <= q < p && #[trigger] schedule(cycles, edges, len)[q].contains(j),
{
    lemma_run_dependencies_first(Set::empty(), cycles, edges, len, p, i, j);
}

/// Whether no member depends on itself, directly or through other members.
pub open spec fn acyclic(edges: Set<(usize, usize)>) -> bool {
    forall|x: usize| !#[trigger] depends_on(edges, x, x)
}

/// A member that depends on one that depends on it depends on itself.
proof fn lemma_there_and_back(edges: Set<(usize, usize)>, a: usize, b: usize)
    requires
        depends_on(edges, a, b),
        depends_on(edges, b, a),
    ensures
        depends_on(edges, a, a),
{
    let there = choose|walk: Seq<usize>|
        walk.len() >= 2 && walk.first() == a && walk.last() == b && #[trigger] is_walk(
            edges,
            walk,
        );
    let back = choose|walk: Seq<usize>|
        walk.len() >= 2 && walk.first() == b && walk.last() == a && #[trigger] is_walk(
            edges,
            walk,
        );
    let round = there + back.drop_first();
    assert forall|k: int| 0 <= k < round.len() - 1 implies #[trigger] links(edges, round, k) by {
        if k < there.len() - 1 {
            assert(links(edges, there, k));
        } else {
            assert(links(edges, back, k - (there.len() - 1)));
        }
    }
    assert(round.first() == a && round.last() == a);
    assert(is_walk(edges, round));
}

/// Without dependency cycles the evaluation order is a topological order.
///
/// Where every edge joins members below `len`, no member depends on itself
/// and the members that a cycle lists all depend on each other (so that no
/// cycle lists any), a member that depends directly on another is listed by
/// exactly one group, the other by exactly one earlier group.
pub proof fn acyclic_order_is_topological(
    cycles: Seq<Seq<usize>>,
    edges: Set<(usize, usize)>,
    len: usize,
    i: usize,
    j: usize,
)
    requires
        edges_below(edges, len),
        acyclic(edges),
        cycles_sound(cycles, edges),
        edges.contains((i, j)),
    ensures
        exists|p: int, q: int|
            0 <= q < p < schedule(cycles, edges, len).len() && #[trigger] schedule(
                cycles,
                edges,
                len,
            )[p].contains(i) && #[trigger] schedule(cycles, edges, len)[q].contains(j),
        forall|p: int, q: int|
            0 <= p < schedule(cycles, edges, len).len() && 0 <= q < schedule(
                cycles,
                edges,
                len,
            ).len() && #[trigger] schedule(cycles, edges, len)[p].contains(i)
                && #[trigger] schedule(cycles, edges, len)[q].contains(j) ==> q < p,
{
    let groups = schedule(cycles, edges, len);
    assert forall|c: int, a: usize| 0 <= c < cycles.len() implies !#[trigger] cycles[c].contains(
        a,
    ) by {
        if cycles[c].contains(a) {
            assert(depends_on(edges, a, a));
        }
    }
    assert(cycles_below(cycles, len)) by {
        assert forall|c: int, k: int|
            0 <= c < cycles.len() && 0 <= k < cycles[c].len() implies #[trigger] cycles[c][k]
            < len by {
            assert(cycles[c].contains(cycles[c][k]));
        }
    }
    assert(cycles_without_repeats(cycles)) by {
        assert forall|c: int| 0 <= c < cycles.len() implies (#[trigger] cycles[c]).no_duplicates() by {
            if cycles[c].len() > 0 {
                assert(cycles[c].contains(cycles[c][0]));
            }
        }
    }
    assert(cycles_agree(cycles));
    assert(cycles_cover(cycles, edges)) by {
        assert forall|a: usize, b: usize|
            #![trigger depends_on(edges, a, b), depends_on(edges, b, a)]
            depends_on(edges, a, b) && depends_on(edges, b, a) implies exists|c: int|
            0 <= c < cycles.len() && #[trigger] cycles[c].contains(a) && cycles[c].contains(
                b,
            ) by {
            lemma_there_and_back(edges, a, b);
        }
    }
    schedule_is_total(cycles, edges, len);
    lemma_flatten_contains(groups, i);
    lemma_flatten_contains(groups, j);
    let p = choose|p: int| 0 <= p < groups.len() && #[trigger] groups[p].contains(i);
    dependencies_come_first(cycles, edges, len, p, i, j);
    let q = choose|q: int| 0 <= q < p && #[trigger] groups[q].contains(j);
    assert forall|later: int, earlier: int|
        0 <= later < groups.len() && 0 <= earlier < groups.len() && #[trigger] groups[later].contains(
            i,
        ) && #[trigger] groups[earlier].contains(j) implies earlier < later by {
        lemma_one_group(groups, i, p, later);
        lemma_one_group(groups, j, q, earlier);
    }
}

/// The evaluation order depends on nothing but the cycles, the edges and the
/// number of members: equal inputs give equal orders.
pub proof fn schedule_is_deterministic(
    cycles1: Seq<Seq<usize>>,
    edges1: Set<(usize, usize)>,
    len1: usize,
    cycles2: Seq<Seq<usize>>,
    edges2: Set<(usize, usize)>,
    len2: usize,
)
    requires
        cycles1 =~~= cycles2,
        edges1 =~= edges2,
        len1 == len2,
    ensures
        schedule(cycles1, edges1, len1) == schedule(cycles2, edges2, len2),
{
}

} // verus!
