//! Evaluation order of interdependent class members.
//!
//! Members are numbered `0..len` in declaration order. A dependency graph
//! holds an edge `i -> j` when member `i` refers to a name that member `j`
//! declares, and a list of cycles names the members that can only be checked
//! together. [`calc_order`] turns both into the sequence of groups in which
//! the members are checked.

use crate::order_laws::edges_below;
use crate::order_laws::groups_dependents;
use crate::order_laws::schedule_is_total;
use petgraph::Directed;
use petgraph::Direction::Outgoing;
use std::collections::HashMap;
use std::collections::HashSet;
use swc_fast_graph::digraph::FastGraphMap;
use vstd::prelude::*;

verus! {

/// The marker type of `petgraph` for graphs whose edges are directed.
#[verifier::external_type_specification]
#[verifier::external_body]
pub struct ExDirected(Directed);

/// The graph map of `swc_fast_graph`: a graph whose nodes are its keys.
#[verifier::external_type_specification]
#[verifier::external_body]
#[verifier::reject_recursive_types(N)]
#[verifier::reject_recursive_types(E)]
#[verifier::reject_recursive_types(Ty)]
pub struct ExFastGraphMap<N, E, Ty>(FastGraphMap<N, E, Ty>);

/// The directed edges `(from, to)` of a dependency graph: `to` is listed
/// among the outgoing neighbours of `from`.
pub uninterp spec fn graph_edges(graph: FastGraphMap<usize, (), Directed>) -> Set<(usize, usize)>;

/// Calls `FastGraphMap::neighbors_directed` with `Outgoing` and collects what
/// it yields. For a directed graph the iterator walks the adjacency list of
/// `idx` and keeps the targets of the edges that start there; a node that the
/// graph does not hold yields nothing.
#[verifier::external_body]
fn out_neighbors(graph: &FastGraphMap<usize, (), Directed>, idx: usize) -> (deps: Vec<usize>)
    ensures
        forall|j: usize| deps@.contains(j) <==> graph_edges(*graph).contains((idx, j)),
{
    graph.neighbors_directed(idx, Outgoing).collect()
}

/// A name that a member declares or refers to, as an interned symbol.
pub type Name = u64;

/// Which members declare each name, and which names each member uses.
pub struct Deps {
    pub declared_by: HashMap<Name, Vec<usize>>,
    pub used_by_idx: HashMap<usize, Vec<Name>>,
}

impl Deps {
    /// The members that declare `name`, in the order they were recorded.
    pub open spec fn declaring(self, name: Name) -> Seq<usize> {
        if self.declared_by@.contains_key(name) {
            self.declared_by@[name]@
        } else {
            Seq::empty()
        }
    }

    /// The names that member `module_id` uses, in the order they were recorded.
    pub open spec fn used(self, module_id: usize) -> Seq<Name> {
        if self.used_by_idx@.contains_key(module_id) {
            self.used_by_idx@[module_id]@
        } else {
            Seq::empty()
        }
    }

    /// The members that `module_id` depends on: for each name it uses, in
    /// order, every member that declares that name.
    pub open spec fn deps_of_spec(self, module_id: usize) -> Seq<usize> {
        self.used(module_id).map_values(|name: Name| self.declaring(name)).flatten()
    }

    /// Resolves the names that a member uses to the members that declare them.
    pub fn deps_of(&self, module_id: usize) -> (buf: Vec<usize>)
        ensures
            buf@ == self.deps_of_spec(module_id),
    {
        let mut buf: Vec<usize> = Vec::new();
        let used = match self.used_by_idx.get(&module_id) {
            Some(v) => v,
            None => {
                return buf;
            },
        };
        let ghost resolve = |name: Name| self.declaring(name);
        let mut k: usize = 0;
        while k < used.len()
            invariant
                k <= used.len(),
                used@ == self.used(module_id),
                resolve == |name: Name| self.declaring(name),
                buf@ == used@.take(k as int).map_values(resolve).flatten(),
            decreases used.len() - k,
        {
            let name = used[k];
            proof {
                let before = used@.take(k as int);
                assert(used@.take(k + 1) =~= before.push(name));
                assert(before.push(name).map_values(resolve) =~= before.map_values(
                    resolve,
                ).push(resolve(name)));
                before.map_values(resolve).lemma_flatten_push(resolve(name));
            }
            match self.declared_by.get(&name) {
                Some(deps) => {
                    buf.extend_from_slice(deps.as_slice());
                },
                None => {},
            }
            k += 1;
        }
        assert(used@.take(k as int) =~= used@);
        buf
    }
}

/// Whether some cycle lists `idx`.
pub open spec fn in_cycle(cycles: Seq<Seq<usize>>, idx: usize) -> bool {
    exists|c: int| 0 <= c < cycles.len() && #[trigger] cycles[c].contains(idx)
}

/// Whether `c` is the position of the first cycle that lists `idx`.
pub open spec fn is_cycle_of(cycles: Seq<Seq<usize>>, idx: usize, c: int) -> bool {
    &&& 0 <= c < cycles.len()
    &&& cycles[c].contains(idx)
    &&& forall|d: int| 0 <= d < c ==> !(#[trigger] cycles[d].contains(idx))
}

/// The first cycle that lists `idx`.
pub open spec fn cycle_of(cycles: Seq<Seq<usize>>, idx: usize) -> Seq<usize> {
    cycles[choose|c: int| is_cycle_of(cycles, idx, c)]
}

/// Whether every member that `idx` depends on has been scheduled.
pub open spec fn ready(done: Set<usize>, edges: Set<(usize, usize)>, idx: usize) -> bool {
    forall|j: usize| #[trigger] edges.contains((idx, j)) ==> done.contains(j)
}

/// The group that `idx` gives rise to: nothing once it is scheduled, its
/// whole cycle if it lies in one, itself alone once all it depends on is
/// scheduled, and nothing while it still waits.
pub open spec fn calc_one_spec(
    done: Set<usize>,
    cycles: Seq<Seq<usize>>,
    edges: Set<(usize, usize)>,
    idx: usize,
) -> Seq<usize> {
    if done.contains(idx) {
        Seq::empty()
    } else if in_cycle(cycles, idx) {
        cycle_of(cycles, idx)
    } else if ready(done, edges, idx) {
        seq![idx]
    } else {
        Seq::empty()
    }
}

/// Whether `idx` is looked at in the pass over cyclic (or acyclic) members
/// and gives rise to a group there.
pub open spec fn emits(
    done: Set<usize>,
    cycles: Seq<Seq<usize>>,
    edges: Set<(usize, usize)>,
    cyclic: bool,
    idx: usize,
) -> bool {
    in_cycle(cycles, idx) == cyclic && calc_one_spec(done, cycles, edges, idx).len() > 0
}

/// Whether `idx` is the lowest member below `len` that gives rise to a group
/// in the pass over cyclic (or acyclic) members.
pub open spec fn is_first_emitting(
    done: Set<usize>,
    cycles: Seq<Seq<usize>>,
    edges: Set<(usize, usize)>,
    len: usize,
    cyclic: bool,
    idx: usize,
) -> bool {
    &&& idx < len
    &&& emits(done, cycles, edges, cyclic, idx)
    &&& forall|k: usize| k < idx ==> !#[trigger] emits(done, cycles, edges, cyclic, k)
}

/// The group found by one pass in ascending order over the cyclic (or
/// acyclic) members below `len`; empty when the pass finds none.
pub open spec fn scan(
    done: Set<usize>,
    cycles: Seq<Seq<usize>>,
    edges: Set<(usize, usize)>,
    len: usize,
    cyclic: bool,
) -> Seq<usize> {
    if exists|idx: usize| is_first_emitting(done, cycles, edges, len, cyclic, idx) {
        calc_one_spec(
            done,
            cycles,
            edges,
            choose|idx: usize| is_first_emitting(done, cycles, edges, len, cyclic, idx),
        )
    } else {
        Seq::empty()
    }
}

/// The next group to schedule: the first acyclic member that is ready, or
/// else the cycle of the first cyclic member that is not yet scheduled.
/// Empty when neither exists.
pub open spec fn next_group(
    done: Set<usize>,
    cycles: Seq<Seq<usize>>,
    edges: Set<(usize, usize)>,
    len: usize,
) -> Seq<usize> {
    let single = scan(done, cycles, edges, len, false);
    if single.len() > 0 {
        single
    } else {
        scan(done, cycles, edges, len, true)
    }
}

/// How many members below `len` are not yet scheduled.
pub open spec fn pending(done: Set<usize>, len: usize) -> nat
    decreases len,
{
    if len == 0 {
        0
    } else {
        let rest = pending(done, (len - 1) as usize);
        if done.contains((len - 1) as usize) {
            rest
        } else {
            rest + 1
        }
    }
}

/// The groups scheduled from a state in which `done` is already scheduled.
pub open spec fn schedule_from(
    done: Set<usize>,
    cycles: Seq<Seq<usize>>,
    edges: Set<(usize, usize)>,
    len: usize,
) -> Seq<Seq<usize>>
    decreases pending(done, len),
    via schedule_from_terminates
{
    let group = next_group(done, cycles, edges, len);
    if group.len() == 0 {
        Seq::empty()
    } else {
        seq![group] + schedule_from(done.union(group.to_set()), cycles, edges, len)
    }
}

/// Each group that is scheduled leaves fewer members pending.
#[via_fn]
proof fn schedule_from_terminates(
    done: Set<usize>,
    cycles: Seq<Seq<usize>>,
    edges: Set<(usize, usize)>,
    len: usize,
) {
    let group = next_group(done, cycles, edges, len);
    if group.len() != 0 {
        lemma_next_group_progress(done, cycles, edges, len);
    }
}

/// The evaluation order of `len` members: the groups scheduled from the
/// state in which nothing is scheduled.
pub open spec fn schedule(cycles: Seq<Seq<usize>>, edges: Set<(usize, usize)>, len: usize) -> Seq<
    Seq<usize>,
> {
    schedule_from(Set::empty(), cycles, edges, len)
}

/// Whether `v` lists `idx`.
fn lists(v: &Vec<usize>, idx: usize) -> (found: bool)
    ensures
        found == v@.contains(idx),
{
    let mut k: usize = 0;
    while k < v.len()
        invariant
            k <= v.len(),
            forall|i: int| 0 <= i < k ==> v@[i] != idx,
        decreases v.len() - k,
    {
        if v[k] == idx {
            return true;
        }
        k += 1;
    }
    false
}

/// The position of the first cycle that lists `idx`, if there is one.
fn find_cycle(cycles: &Vec<Vec<usize>>, idx: usize) -> (found: Option<usize>)
    ensures
        match found {
            Some(c) => is_cycle_of(cycles.deep_view(), idx, c as int),
            None => !in_cycle(cycles.deep_view(), idx),
        },
{
    let mut c: usize = 0;
    while c < cycles.len()
        invariant
            c <= cycles.len(),
            forall|d: int| 0 <= d < c ==> !(#[trigger] cycles.deep_view()[d].contains(idx)),
        decreases cycles.len() - c,
    {
        assert(cycles.deep_view()[c as int] == cycles@[c as int]@);
        if lists(&cycles[c], idx) {
            return Some(c);
        }
        c += 1;
    }
    None
}

/// Decides what member `idx` gives rise to in the current state: nothing if
/// it is scheduled already, its whole cycle if it lies in one, itself alone
/// if all that it depends on is scheduled, and else nothing yet.
pub fn calc_one(
    done: &HashSet<usize>,
    cycles: &Vec<Vec<usize>>,
    graph: &FastGraphMap<usize, (), Directed>,
    idx: usize,
) -> (next: Vec<usize>)
    ensures
        next@ == calc_one_spec(done@, cycles.deep_view(), graph_edges(*graph), idx),
{
    if done.contains(&idx) {
        return Vec::new();
    }
    match find_cycle(cycles, idx) {
        Some(c) => {
            proof {
                lemma_cycle_of_unique(cycles.deep_view(), idx, c as int);
                assert(cycles.deep_view()[c as int] == cycles@[c as int]@);
            }
            return cycles[c].clone();
        },
        None => {},
    }
    let deps = out_neighbors(graph, idx);
    let mut k: usize = 0;
    while k < deps.len()
        invariant
            k <= deps.len(),
            !done@.contains(idx),
            !in_cycle(cycles.deep_view(), idx),
            forall|j: usize| deps@.contains(j) <==> graph_edges(*graph).contains((idx, j)),
            forall|i: int| 0 <= i < k ==> done@.contains(deps@[i]),
        decreases deps.len() - k,
    {
        if !done.contains(&deps[k]) {
            assert(deps@.contains(deps@[k as int]));
            return Vec::new();
        }
        k += 1;
    }
    assert(ready(done@, graph_edges(*graph), idx)) by {
        assert forall|j: usize| #[trigger]
            graph_edges(*graph).contains((idx, j)) implies done@.contains(j) by {
            assert(deps@.contains(j));
        }
    }
    let mut next: Vec<usize> = Vec::new();
    next.push(idx);
    assert(next@ =~= seq![idx]);
    next
}

/// One pass in ascending order over the members below `len` that lie in a
/// cycle (`cyclic`) or in none: the first group that one of them gives rise
/// to, or nothing.
fn first_group(
    done: &HashSet<usize>,
    cycles: &Vec<Vec<usize>>,
    graph: &FastGraphMap<usize, (), Directed>,
    len: usize,
    cyclic: bool,
) -> (next: Vec<usize>)
    ensures
        next@ == scan(done@, cycles.deep_view(), graph_edges(*graph), len, cyclic),
{
    let ghost cs = cycles.deep_view();
    let ghost edges = graph_edges(*graph);
    let mut idx: usize = 0;
    while idx < len
        invariant
            idx <= len,
            cs == cycles.deep_view(),
            edges == graph_edges(*graph),
            forall|k: usize| k < idx ==> !#[trigger] emits(done@, cs, edges, cyclic, k),
        decreases len - idx,
    {
        if find_cycle(cycles, idx).is_some() == cyclic {
            let next = calc_one(done, cycles, graph, idx);
            if next.len() > 0 {
                proof {
                    assert(is_first_emitting(done@, cs, edges, len, cyclic, idx));
                    lemma_first_emitting_unique(done@, cs, edges, len, cyclic, idx);
                }
                return next;
            }
        }
        idx += 1;
    }
    Vec::new()
}

/// Marks every member of `group` as scheduled.
fn mark_done(done: &mut HashSet<usize>, group: &Vec<usize>)
    ensures
        final(done)@ == old(done)@.union(group@.to_set()),
{
    let mut k: usize = 0;
    while k < group.len()
        invariant
            k <= group.len(),
            done@ == old(done)@.union(group@.take(k as int).to_set()),
        decreases group.len() - k,
    {
        done.insert(group[k]);
        proof {
            assert(group@.take(k + 1) =~= group@.take(k as int).push(group@[k as int]));
            assert(group@.take(k + 1).to_set() =~= group@.take(k as int).to_set().insert(
                group@[k as int],
            )) by {
                group@.take(k as int).lemma_push_to_set_commute(group@[k as int]);
            }
        }
        k += 1;
    }
    assert(group@.take(k as int) =~= group@);
}

/// Computes the order in which `len` members are checked.
///
/// Repeats until no group is found: the members that lie in no cycle are
/// looked at in ascending order, and the first that is not yet scheduled and
/// depends on nothing unscheduled becomes a group of its own. If there is
/// none, the members that lie in a cycle are looked at in ascending order,
/// and the first that is not yet scheduled has its whole cycle scheduled as
/// one group.
///
/// Where the cycles group the members that depend on each other, every
/// member below `len` is scheduled exactly once. Members that wait for each
/// other without a cycle that lists them are never scheduled: the order
/// ends without them.
pub fn calc_order(
    cycles: Vec<Vec<usize>>,
    graph: &FastGraphMap<usize, (), Directed>,
    len: usize,
) -> (orders: Vec<Vec<usize>>)
    ensures
        orders.deep_view() == schedule(cycles.deep_view(), graph_edges(*graph), len),
        edges_below(graph_edges(*graph), len) && groups_dependents(
            cycles.deep_view(),
            graph_edges(*graph),
            len,
        ) ==> orders.deep_view().flatten().no_duplicates() && forall|i: usize|
            orders.deep_view().flatten().contains(i) <==> i < len,
{
    let ghost cs = cycles.deep_view();
    let ghost edges = graph_edges(*graph);
    let mut done: HashSet<usize> = HashSet::new();
    let mut orders: Vec<Vec<usize>> = Vec::new();
    assert(orders.deep_view() + schedule_from(done@, cs, edges, len) =~= schedule(cs, edges, len));
    loop
        invariant
            cs == cycles.deep_view(),
            edges == graph_edges(*graph),
            orders.deep_view() + schedule_from(done@, cs, edges, len) == schedule(cs, edges, len),
        ensures
            orders.deep_view() == schedule(cs, edges, len),
        decreases pending(done@, len),
    {
        let mut next = first_group(&done, &cycles, graph, len, false);
        if next.len() == 0 {
            next = first_group(&done, &cycles, graph, len, true);
        }
        assert(next@ == next_group(done@, cs, edges, len));
        if next.len() == 0 {
            assert(orders.deep_view() + Seq::<Seq<usize>>::empty() =~= orders.deep_view());
            break;
        }
        proof {
            lemma_next_group_progress(done@, cs, edges, len);
        }
        let ghost before = orders.deep_view();
        let ghost was_done = done@;
        mark_done(&mut done, &next);
        orders.push(next);
        proof {
            assert(orders.deep_view() =~= before.push(next@)) by {
                assert(next.deep_view() =~= next@);
            }
            assert(before.push(next@) + schedule_from(done@, cs, edges, len) =~= before + (seq![
                next@,
            ] + schedule_from(was_done.union(next@.to_set()), cs, edges, len)));
        }
    }
    proof {
        if edges_below(edges, len) && groups_dependents(cs, edges, len) {
            schedule_is_total(cs, edges, len);
        }
    }
    orders
}

/// Only one position is that of the first cycle that lists `idx`.
pub(crate) proof fn lemma_cycle_of_unique(cycles: Seq<Seq<usize>>, idx: usize, c: int)
    requires
        is_cycle_of(cycles, idx, c),
    ensures
        in_cycle(cycles, idx),
        cycle_of(cycles, idx) == cycles[c],
{
    let f = choose|f: int| is_cycle_of(cycles, idx, f);
    assert(f == c) by {
        if f < c {
            assert(!cycles[f].contains(idx));
        }
        if c < f {
            assert(!cycles[c].contains(idx));
        }
    }
}

/// Only one member is the lowest that gives rise to a group in a pass.
pub(crate) proof fn lemma_first_emitting_unique(
    done: Set<usize>,
    cycles: Seq<Seq<usize>>,
    edges: Set<(usize, usize)>,
    len: usize,
    cyclic: bool,
    idx: usize,
)
    requires
        is_first_emitting(done, cycles, edges, len, cyclic, idx),
    ensures
        scan(done, cycles, edges, len, cyclic) == calc_one_spec(done, cycles, edges, idx),
{
    let f = choose|f: usize| is_first_emitting(done, cycles, edges, len, cyclic, f);
    assert(f == idx) by {
        if f < idx {
            assert(!emits(done, cycles, edges, cyclic, f));
        }
        if idx < f {
            assert(!emits(done, cycles, edges, cyclic, idx));
        }
    }
}

/// Scheduling one more member that was pending leaves fewer pending.
proof fn lemma_pending_shrinks(done: Set<usize>, more: Set<usize>, len: usize, idx: usize)
    requires
        idx < len,
        !done.contains(idx),
        more.contains(idx),
    ensures
        pending(done.union(more), len) < pending(done, len),
    decreases len,
{
    if len - 1 == idx {
        lemma_pending_monotone(done, more, (len - 1) as usize);
    } else {
        lemma_pending_shrinks(done, more, (len - 1) as usize, idx);
    }
}

/// Scheduling more members never leaves more pending.
proof fn lemma_pending_monotone(done: Set<usize>, more: Set<usize>, len: usize)
    ensures
        pending(done.union(more), len) <= pending(done, len),
    decreases len,
{
    if len > 0 {
        lemma_pending_monotone(done, more, (len - 1) as usize);
    }
}

/// The first cycle that lists a cyclic member exists and lists it.
pub(crate) proof fn lemma_cycle_of(cycles: Seq<Seq<usize>>, idx: usize)
    requires
        in_cycle(cycles, idx),
    ensures
        exists|c: int| is_cycle_of(cycles, idx, c),
        cycle_of(cycles, idx).contains(idx),
{
    let c0 = choose|c: int| 0 <= c < cycles.len() && #[trigger] cycles[c].contains(idx);
    lemma_first_cycle_upto(cycles, idx, c0);
}

/// A cycle that lists `idx` stands at `c`, so a first one stands at or
/// before `c`.
proof fn lemma_first_cycle_upto(cycles: Seq<Seq<usize>>, idx: usize, c: int)
    requires
        0 <= c < cycles.len(),
        cycles[c].contains(idx),
    ensures
        exists|f: int| is_cycle_of(cycles, idx, f),
    decreases c,
{
    if exists|d: int| 0 <= d < c && #[trigger] cycles[d].contains(idx) {
        let d = choose|d: int| 0 <= d < c && #[trigger] cycles[d].contains(idx);
        lemma_first_cycle_upto(cycles, idx, d);
    } else {
        assert(is_cycle_of(cycles, idx, c));
    }
}

/// A group that one pass finds lists a member below `len` that was pending.
proof fn lemma_scan_progress(
    done: Set<usize>,
    cycles: Seq<Seq<usize>>,
    edges: Set<(usize, usize)>,
    len: usize,
    cyclic: bool,
)
    requires
        scan(done, cycles, edges, len, cyclic).len() > 0,
    ensures
        exists|idx: usize|
            idx < len && !done.contains(idx) && #[trigger] scan(
                done,
                cycles,
                edges,
                len,
                cyclic,
            ).contains(idx),
{
    let idx = choose|idx: usize| is_first_emitting(done, cycles, edges, len, cyclic, idx);
    let group = calc_one_spec(done, cycles, edges, idx);
    if in_cycle(cycles, idx) {
        lemma_cycle_of(cycles, idx);
    } else {
        assert(group[0] == idx);
    }
    assert(group.contains(idx));
}

/// Scheduling the next group leaves fewer members pending.
pub(crate) proof fn lemma_next_group_progress(
    done: Set<usize>,
    cycles: Seq<Seq<usize>>,
    edges: Set<(usize, usize)>,
    len: usize,
)
    requires
        next_group(done, cycles, edges, len).len() > 0,
    ensures
        pending(done.union(next_group(done, cycles, edges, len).to_set()), len) < pending(
            done,
            len,
        ),
{
    let group = next_group(done, cycles, edges, len);
    let cyclic = !(scan(done, cycles, edges, len, false).len() > 0);
    lemma_scan_progress(done, cycles, edges, len, cyclic);
    let idx = choose|idx: usize| idx < len && !done.contains(idx) && group.contains(idx);
    lemma_pending_shrinks(done, group.to_set(), len, idx);
}

} // verus!
