use pt_core::belief_prop::{BeliefPropError, ProcessForest, ProcessTree, State};
use std::collections::HashMap;
use pt_core::belief_state::ProcessState;

#[test]
fn test_state_all() {
    let states = State::all();
    assert_eq!(states.len(), 4);
}

#[test]
fn test_state_index_roundtrip() {
    for state in State::all().iter() {
        let idx = state.index();
        let recovered = State::from_index(idx).unwrap();
        assert_eq!(*state, recovered);
    }
}

#[test]
fn test_empty_forest() {
    let forest = ProcessForest::new();
    let result = forest.build_forest();
    assert!(matches!(result, Err(BeliefPropError::EmptyForest)));
}

#[test]
fn test_multiple_trees() {
    let mut forest = ProcessForest::new();
    // Tree 1
    forest.add_process(1000, 1);
    forest.add_process(1001, 1000);
    // Tree 2
    forest.add_process(2000, 1);
    forest.add_process(2001, 2000);

    let trees = forest.build_forest().unwrap();
    assert_eq!(trees.len(), 2);
    let total: usize = trees.iter().map(|t| t.nodes.len()).sum();
    assert_eq!(total, 4);
}

#[test]
fn test_tree_leaves() {
    let mut forest = ProcessForest::new();
    // Parent with two children
    forest.add_process(1000, 1);
    forest.add_process(1001, 1000);
    forest.add_process(1002, 1000);

    let trees = forest.build_forest().unwrap();
    assert_eq!(trees.len(), 1);
    assert_eq!(trees[0].summary().size, 3);
}

#[test]
fn test_tree_upward_downward_order() {
    let mut forest = ProcessForest::new();
    // Build a small tree: 1000 → 1001 → 1002
    forest.add_process(1000, 1);
    forest.add_process(1001, 1000);
    forest.add_process(1002, 1001);

    let trees = forest.build_forest().unwrap();
    let tree = &trees[0];

    let upward = tree.upward_order();
    let downward = tree.downward_order();

    // Upward should start with leaf (1002)
    assert_eq!(upward[0], 1002);
    assert_eq!(upward[2], 1000);

    // Downward should start with root (1000)
    assert_eq!(downward[0], 1000);
    assert_eq!(downward[2], 1002);
}

#[test]
fn leaves_of_a_fork_are_its_two_children() {
    let mut forest = ProcessForest::new();
    forest.add_process(1000, 1);
    forest.add_process(1001, 1000);
    forest.add_process(1002, 1000);
    let trees = forest.build_forest().unwrap();
    let mut leaves = trees[0].leaves();
    leaves.sort();
    assert_eq!(leaves, vec![1001, 1002]);
    assert_eq!(trees[0].root, 1000);
    assert_eq!(trees[0].summary().max_depth, 1);
}

#[test]
fn orphan_whose_parent_is_unknown_roots_its_own_tree() {
    let mut forest = ProcessForest::new();
    forest.add_process(500, 77); // parent 77 is not a known process
    forest.add_process(501, 500);
    forest.add_process(600, 1);
    let trees = forest.build_forest().unwrap();
    let mut roots: Vec<u32> = trees.iter().map(|t| t.root).collect();
    roots.sort();
    assert_eq!(roots, vec![500, 600]);
}

#[test]
fn adding_a_process_twice_keeps_the_later_parent() {
    let mut forest = ProcessForest::new();
    forest.add_process(10, 1);
    forest.add_process(20, 1);
    forest.add_process(20, 10);
    assert_eq!(forest.len(), 2);
    let trees = forest.build_forest().unwrap();
    assert_eq!(trees.len(), 1);
    assert_eq!(trees[0].root, 10);
    assert_eq!(trees[0].summary().size, 2);
    forest.clear();
    assert_eq!(forest.len(), 0);
}

#[test]
fn downward_order_is_breadth_first_by_depth() {
    let mut forest = ProcessForest::new();
    forest.add_process(1, 0);
    forest.add_process(2, 1);
    forest.add_process(3, 1);
    forest.add_process(4, 2);
    let trees = forest.build_forest().unwrap();
    let tree = &trees[0];
    let down = tree.downward_order();
    assert_eq!(down.len(), 4);
    assert_eq!(down[0], 1);
    assert_eq!(down[3], 4);
    let up = tree.upward_order();
    assert_eq!(up.len(), 4);
    assert_eq!(up[3], 1);
    let pos = |v: &Vec<u32>, x: u32| v.iter().position(|&y| y == x).unwrap();
    assert!(pos(&up, 4) < pos(&up, 2));
}

#[test]
fn test_process_state_indices() {
    assert_eq!(ProcessState::Useful.to_index(), 0);
    assert_eq!(ProcessState::UsefulBad.to_index(), 1);
    assert_eq!(ProcessState::Abandoned.to_index(), 2);
    assert_eq!(ProcessState::Zombie.to_index(), 3);

    for (i, state) in ProcessState::ALL.iter().enumerate() {
        assert_eq!(ProcessState::from_index(i), Some(*state));
    }
    assert_eq!(ProcessState::from_index(4), None);
}

#[test]
fn test_process_state_actionable() {
    assert!(!ProcessState::Useful.is_actionable());
    assert!(ProcessState::UsefulBad.is_actionable());
    assert!(ProcessState::Abandoned.is_actionable());
    assert!(ProcessState::Zombie.is_actionable());
}

#[test]
fn test_process_state_display() {
    assert_eq!(ProcessState::Useful.to_string(), "Useful");
    assert_eq!(ProcessState::UsefulBad.to_string(), "UsefulBad");
    assert_eq!(ProcessState::Abandoned.to_string(), "Abandoned");
    assert_eq!(ProcessState::Zombie.to_string(), "Zombie");
}

#[test]
fn process_state_descriptions_are_distinct() {
    let d: Vec<&str> = ProcessState::ALL.iter().map(|s| s.description()).collect();
    for i in 0..d.len() {
        for j in (i + 1)..d.len() {
            assert_ne!(d[i], d[j]);
        }
    }
}

#[test]
fn forest_roots_come_in_increasing_pid_order() {
    let mut forest = ProcessForest::new();
    forest.add_process(900, 1);
    forest.add_process(300, 1);
    forest.add_process(600, 4242); // unknown parent: also a root
    forest.add_process(301, 300);
    let trees = forest.build_forest().unwrap();
    let roots: Vec<u32> = trees.iter().map(|t| t.root).collect();
    assert_eq!(roots, vec![300, 600, 900]);
}

#[test]
fn a_parent_cycle_still_lands_in_a_tree() {
    let mut forest = ProcessForest::new();
    forest.add_process(10, 20);
    forest.add_process(20, 10);
    let trees = forest.build_forest().unwrap();
    assert_eq!(trees.len(), 1);
    assert_eq!(trees[0].nodes.len(), 2);
}

fn hand_tree(with_parents: bool, with_depths: bool) -> ProcessTree {
    // 10 -> {20, 30}, 20 -> {40}
    let mut children = HashMap::new();
    children.insert(10u32, vec![20u32, 30]);
    children.insert(20u32, vec![40u32]);
    let mut parents = HashMap::new();
    if with_parents {
        parents.insert(20u32, 10u32);
        parents.insert(30, 10);
        parents.insert(40, 20);
    }
    let mut depths = HashMap::new();
    if with_depths {
        depths.insert(10u32, 0usize);
        depths.insert(20, 1);
        depths.insert(30, 1);
        depths.insert(40, 2);
    }
    ProcessTree {
        root: 10,
        nodes: vec![10, 20, 30, 40],
        parents,
        children,
        depths,
    }
}

#[test]
fn downward_order_reads_only_children() {
    let t = hand_tree(false, true);
    assert_eq!(t.downward_order(), vec![10, 20, 30, 40]);
}

#[test]
fn upward_order_reads_no_depths() {
    let t = hand_tree(true, false);
    let up = t.upward_order();
    assert_eq!(up.len(), 4);
    assert_eq!(*up.last().unwrap(), 10);
    let pos = |x: u32| up.iter().position(|&y| y == x).unwrap();
    assert!(pos(40) < pos(20));
    assert!(pos(30) < pos(10));
}

#[test]
fn summary_takes_the_largest_recorded_depth() {
    let t = hand_tree(true, true);
    assert_eq!(t.summary().max_depth, 2);
    let bare = hand_tree(true, false);
    assert_eq!(bare.summary().max_depth, 0);
    assert_eq!(bare.summary().size, 4);
}

#[test]
fn a_chain_is_one_tree() {
    let mut forest = ProcessForest::new();
    forest.add_process(1000, 4242);
    forest.add_process(1001, 1000);
    let trees = forest.build_forest().unwrap();
    assert_eq!(trees.len(), 1);
    assert_eq!(trees[0].root, 1000);
    assert_eq!(trees[0].nodes.len(), 2);
}

#[test]
fn trees_are_disjoint_when_init_is_on_top() {
    let mut forest = ProcessForest::new();
    forest.add_process(1, 0);
    forest.add_process(100, 1);
    forest.add_process(101, 100);
    forest.add_process(500, 7777);
    forest.add_process(501, 500);
    let trees = forest.build_forest().unwrap();
    let roots: Vec<u32> = trees.iter().map(|t| t.root).collect();
    assert_eq!(roots, vec![1, 500]);
    let total: usize = trees.iter().map(|t| t.nodes.len()).sum();
    assert_eq!(total, 5);
}

#[test]
fn init_with_a_known_parent_makes_trees_overlap() {
    // 3 hangs below init, which hangs below 5: 3 roots a tree of its own
    // and also lies in the tree of 5.
    let mut forest = ProcessForest::new();
    forest.add_process(1, 5);
    forest.add_process(5, 0);
    forest.add_process(3, 1);
    let trees = forest.build_forest().unwrap();
    let roots: Vec<u32> = trees.iter().map(|t| t.root).collect();
    assert_eq!(roots, vec![3, 5]);
    assert_eq!(trees[0].nodes, vec![3]);
    let mut second = trees[1].nodes.clone();
    second.sort();
    assert_eq!(second, vec![1, 3, 5]);
}

#[test]
fn upward_order_without_parent_links_stops_at_the_leaves() {
    let mut children = HashMap::new();
    children.insert(1u32, vec![2u32]);
    let t = ProcessTree {
        root: 1,
        nodes: vec![1, 2],
        parents: HashMap::new(),
        children,
        depths: HashMap::new(),
    };
    assert_eq!(t.upward_order(), vec![2]);
}

#[test]
fn downward_order_repeats_a_node_listed_twice() {
    let mut children = HashMap::new();
    children.insert(1u32, vec![2u32, 3]);
    children.insert(2u32, vec![4u32]);
    children.insert(3u32, vec![4u32]);
    let t = ProcessTree {
        root: 1,
        nodes: vec![1, 2, 3, 4],
        parents: HashMap::new(),
        children,
        depths: HashMap::new(),
    };
    assert_eq!(t.downward_order(), vec![1, 2, 3, 4, 4]);
}
