use std::collections::HashMap;
use std::collections::HashSet;

use class_members::order::calc_one;
use class_members::order::calc_order;
use class_members::order::Deps;
use swc_fast_graph::digraph::FastDiGraphMap;

fn graph_of(nodes: usize, edges: &[(usize, usize)]) -> FastDiGraphMap<usize, ()> {
    let mut graph = FastDiGraphMap::default();
    for idx in 0..nodes {
        graph.add_node(idx);
    }
    for &(from, to) in edges {
        graph.add_edge(from, to, ());
    }
    graph
}

fn flattened(groups: &[Vec<usize>]) -> Vec<usize> {
    let mut all: Vec<usize> = groups.iter().flatten().copied().collect();
    all.sort();
    all
}

#[test]
fn no_members_give_no_groups() {
    let graph = graph_of(0, &[]);
    assert_eq!(calc_order(vec![], &graph, 0), Vec::<Vec<usize>>::new());
}

#[test]
fn independent_members_keep_declaration_order() {
    let graph = graph_of(3, &[]);
    assert_eq!(calc_order(vec![], &graph, 3), vec![vec![0], vec![1], vec![2]]);
}

#[test]
fn a_member_waits_for_what_it_depends_on() {
    // 0 depends on 2; 1 is free.
    let graph = graph_of(3, &[(0, 2)]);
    assert_eq!(calc_order(vec![], &graph, 3), vec![vec![1], vec![2], vec![0]]);
}

#[test]
fn scan_restarts_after_each_group() {
    // 0 depends on 1, 1 on 2: after 2 comes 1, then the scan starts over and finds 0.
    let graph = graph_of(4, &[(0, 1), (1, 2)]);
    assert_eq!(calc_order(vec![], &graph, 4), vec![vec![2], vec![1], vec![0], vec![3]]);
}

#[test]
fn chain_is_scheduled_from_its_end() {
    let graph = graph_of(3, &[(0, 1), (1, 2)]);
    let order = calc_order(vec![], &graph, 3);
    assert_eq!(order, vec![vec![2], vec![1], vec![0]]);
}

#[test]
fn mutual_dependents_form_one_group() {
    let graph = graph_of(2, &[(0, 1), (1, 0)]);
    assert_eq!(calc_order(vec![vec![0, 1]], &graph, 2), vec![vec![0, 1]]);
}

#[test]
fn mutually_referencing_static_members_are_one_cycle_group() {
    // static a = B.b; static b = A.a;
    let graph = graph_of(2, &[(0, 1), (1, 0)]);
    let order = calc_order(vec![vec![0, 1]], &graph, 2);
    assert_eq!(order.len(), 1);
    assert_eq!(order[0], vec![0, 1]);
}

#[test]
fn cycle_is_emitted_in_the_order_it_was_listed() {
    let graph = graph_of(3, &[(2, 0), (0, 2)]);
    assert_eq!(calc_order(vec![vec![2, 0]], &graph, 3), vec![vec![1], vec![2, 0]]);
}

#[test]
fn acyclic_members_come_before_cycles_when_ready() {
    // 0 <-> 1 is a cycle, 2 is free, 3 depends on the cycle.
    let graph = graph_of(4, &[(0, 1), (1, 0), (3, 0)]);
    assert_eq!(
        calc_order(vec![vec![0, 1]], &graph, 4),
        vec![vec![2], vec![0, 1], vec![3]]
    );
}

#[test]
fn first_cycle_in_ascending_order_wins() {
    let graph = graph_of(4, &[(0, 1), (1, 0), (2, 3), (3, 2)]);
    assert_eq!(
        calc_order(vec![vec![2, 3], vec![0, 1]], &graph, 4),
        vec![vec![0, 1], vec![2, 3]]
    );
}

#[test]
fn every_member_is_scheduled_exactly_once() {
    let edges = [(0, 3), (3, 4), (4, 3), (1, 0), (2, 5), (5, 6), (6, 1)];
    let graph = graph_of(7, &edges);
    let order = calc_order(vec![vec![3, 4]], &graph, 7);
    assert_eq!(flattened(&order), vec![0, 1, 2, 3, 4, 5, 6]);
    assert_eq!(order.iter().map(Vec::len).sum::<usize>(), 7);
}

#[test]
fn schedule_is_the_same_when_run_twice() {
    let edges = [(0, 3), (3, 4), (4, 3), (1, 0), (2, 5)];
    let graph = graph_of(6, &edges);
    let first = calc_order(vec![vec![3, 4]], &graph, 6);
    let second = calc_order(vec![vec![3, 4]], &graph, 6);
    assert_eq!(first, second);
    assert_eq!(first, vec![vec![5], vec![2], vec![3, 4], vec![0], vec![1]]);
}

#[test]
fn acyclic_graph_gives_a_topological_order() {
    let edges = [(0, 1), (0, 2), (1, 3), (2, 3), (4, 0)];
    let graph = graph_of(5, &edges);
    let order = calc_order(vec![], &graph, 5);
    let position = |idx: usize| order.iter().position(|group| group.contains(&idx)).unwrap();
    for &(from, to) in &edges {
        assert!(position(to) < position(from));
    }
    assert_eq!(order, vec![vec![3], vec![1], vec![2], vec![0], vec![4]]);
}

#[test]
fn self_dependency_outside_every_cycle_is_never_scheduled() {
    let graph = graph_of(2, &[(0, 0)]);
    assert_eq!(calc_order(vec![], &graph, 2), vec![vec![1]]);
}

#[test]
fn calc_one_gives_nothing_for_a_scheduled_member() {
    let graph = graph_of(2, &[]);
    let mut done = HashSet::new();
    done.insert(1);
    assert_eq!(calc_one(&done, &vec![], &graph, 1), Vec::<usize>::new());
}

#[test]
fn calc_one_gives_the_whole_cycle() {
    let graph = graph_of(3, &[(1, 2), (2, 1)]);
    let done = HashSet::new();
    assert_eq!(calc_one(&done, &vec![vec![0], vec![1, 2]], &graph, 2), vec![1, 2]);
}

#[test]
fn calc_one_reads_the_outgoing_edges() {
    let graph = graph_of(3, &[(0, 1), (2, 0)]);
    let mut done = HashSet::new();
    // 0 waits for 1; the edge 2 -> 0 that ends at 0 does not hold it back.
    assert_eq!(calc_one(&done, &vec![], &graph, 0), Vec::<usize>::new());
    done.insert(1);
    assert_eq!(calc_one(&done, &vec![], &graph, 0), vec![0]);
    assert_eq!(calc_one(&done, &vec![], &graph, 2), Vec::<usize>::new());
}

#[test]
fn deps_of_resolves_used_names_in_order() {
    let mut declared_by = HashMap::new();
    declared_by.insert(10u64, vec![1usize]);
    declared_by.insert(20u64, vec![2usize, 3usize]);
    let mut used_by_idx = HashMap::new();
    used_by_idx.insert(0usize, vec![20u64, 10u64, 30u64]);
    let deps = Deps { declared_by, used_by_idx };
    assert_eq!(deps.deps_of(0), vec![2, 3, 1]);
    assert_eq!(deps.deps_of(1), Vec::<usize>::new());
}

#[test]
fn deps_of_repeats_what_is_used_twice() {
    let mut declared_by = HashMap::new();
    declared_by.insert(7u64, vec![4usize]);
    let mut used_by_idx = HashMap::new();
    used_by_idx.insert(2usize, vec![7u64, 7u64]);
    let deps = Deps { declared_by, used_by_idx };
    assert_eq!(deps.deps_of(2), vec![4, 4]);
}

#[test]
fn cycle_listed_twice_is_scheduled_once() {
    let graph = graph_of(2, &[(0, 1), (1, 0)]);
    assert_eq!(calc_order(vec![vec![0, 1], vec![1, 0]], &graph, 2), vec![vec![0, 1]]);
}

#[test]
fn cycles_that_overlap_in_part_are_both_scheduled_whole() {
    let graph = graph_of(3, &[(0, 1), (1, 0), (1, 2), (2, 1)]);
    assert_eq!(
        calc_order(vec![vec![0, 1], vec![1, 2]], &graph, 3),
        vec![vec![0, 1], vec![1, 2]]
    );
}

#[test]
fn members_beyond_the_count_are_not_scheduled() {
    let graph = graph_of(4, &[(0, 3)]);
    // 0 waits for 3, which is no member: only 1 is scheduled.
    assert_eq!(calc_order(vec![], &graph, 2), vec![vec![1]]);
}
