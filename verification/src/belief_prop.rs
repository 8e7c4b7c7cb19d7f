//! Process trees formed by PPID relationships, and the traversal orders used
//! by belief propagation over them (leaves to root, root to leaves).
use std::collections::HashMap;
use std::collections::HashSet;
use std::collections::VecDeque;
use vstd::prelude::*;

verus! {

broadcast use vstd::std_specs::hash::group_hash_axioms;

/// Process states for the 4-class model.
#[derive(Debug, Clone, Copy, PartialEq, Eq, Hash, Structural)]
pub enum State {
    Useful,
    UsefulBad,
    Abandoned,
    Zombie,
}

/// Array index of a state (0-3).
pub open spec fn state_index_spec(s: State) -> nat {
    match s {
        State::Useful => 0,
        State::UsefulBad => 1,
        State::Abandoned => 2,
        State::Zombie => 3,
    }
}

/// The state with a given index, if any.
pub open spec fn state_from_index_spec(i: nat) -> Option<State> {
    if i == 0 {
        Some(State::Useful)
    } else if i == 1 {
        Some(State::UsefulBad)
    } else if i == 2 {
        Some(State::Abandoned)
    } else if i == 3 {
        Some(State::Zombie)
    } else {
        None
    }
}

impl State {
    /// All possible states, in index order.
    pub fn all() -> (states: Vec<State>)
        ensures
            states@.len() == 4,
            forall|i: int| 0 <= i < 4 ==> state_index_spec(#[trigger] states@[i]) == i,
    {
        vec![State::Useful, State::UsefulBad, State::Abandoned, State::Zombie]
    }

    /// Index for array access (0-3).
    pub fn index(&self) -> (i: usize)
        ensures
            i == state_index_spec(*self),
    {
        match self {
            State::Useful => 0,
            State::UsefulBad => 1,
            State::Abandoned => 2,
            State::Zombie => 3,
        }
    }

    /// Create from index.
    pub fn from_index(i: usize) -> (s: Option<State>)
        ensures
            s == state_from_index_spec(i as nat),
    {
        match i {
            0 => Some(State::Useful),
            1 => Some(State::UsefulBad),
            2 => Some(State::Abandoned),
            3 => Some(State::Zombie),
            _ => None,
        }
    }
}

/// Converting a state to its index and back gives the state again; an index
/// names a state exactly when it is below 4, and then names the state with
/// that index.
pub proof fn lemma_state_index_roundtrip(s: State, i: nat)
    ensures
        state_from_index_spec(state_index_spec(s)) == Some(s),
        state_index_spec(s) < 4,
        state_from_index_spec(i) is Some <==> i < 4,
        state_from_index_spec(i) matches Some(t) ==> state_index_spec(t) == i,
{
}

/// A tree in the process forest.
#[derive(Debug, Clone)]
pub struct ProcessTree {
    /// Root PID of this tree.
    pub root: u32,
    /// All PIDs in this tree.
    pub nodes: Vec<u32>,
    /// Parent mapping (child -> parent).
    pub parents: HashMap<u32, u32>,
    /// Children mapping (parent -> children).
    pub children: HashMap<u32, Vec<u32>>,
    /// Depth of each node (root = 0).
    pub depths: HashMap<u32, usize>,
}

impl ProcessTree {
    /// `c` is a child of `p` in this tree.
    pub open spec fn is_child_of(&self, c: u32, p: u32) -> bool {
        self.parents@.contains_key(c) && self.parents@[c] == p
    }

    /// `pid` has no children.
    pub open spec fn is_leaf(&self, pid: u32) -> bool {
        !self.children@.contains_key(pid) || self.children@[pid]@.len() == 0
    }

    /// Depth of a node as recorded in the tree.
    pub open spec fn depth_of(&self, pid: u32) -> int {
        self.depths@[pid] as int
    }

    /// Well-formedness with `d` as the depth map: the parent and children
    /// maps describe one rooted tree over `nodes`, consistently, with the
    /// depth of every child one more than its parent's.
    pub open spec fn wf_ranked(&self, d: Map<u32, usize>) -> bool {
        &&& self.nodes@.no_duplicates()
        &&& self.nodes@.contains(self.root)
        &&& !self.parents@.contains_key(self.root)
        &&& d.contains_key(self.root)
        &&& d[self.root] == 0
        &&& forall|n: u32| #[trigger]
            self.nodes@.contains(n) ==> d.contains_key(n) && (n != self.root
                ==> self.parents@.contains_key(n))
        &&& forall|c: u32| #[trigger]
            self.parents@.contains_key(c) ==> {
                let p = self.parents@[c];
                &&& self.nodes@.contains(c)
                &&& self.nodes@.contains(p)
                &&& self.children@.contains_key(p)
                &&& self.children@[p]@.contains(c)
                &&& d[c] == d[p] + 1
            }
        &&& forall|p: u32| #[trigger]
            self.children@.contains_key(p) ==> {
                &&& self.nodes@.contains(p)
                &&& self.children@[p]@.no_duplicates()
                &&& forall|c: u32| #[trigger]
                    self.children@[p]@.contains(c) ==> self.is_child_of(c, p)
            }
    }

    /// Well-formedness: the three maps describe one rooted tree over `nodes`,
    /// consistently, with the recorded depth of every child one more than its
    /// parent's.
    pub open spec fn wf(&self) -> bool {
        self.wf_ranked(self.depths@)
    }

    /// What the leaves-to-root traversal needs: the parent and children maps
    /// describe one rooted tree over `nodes`, consistently, and some ranking
    /// of the nodes grows by one from each node to its children (so the tree
    /// is acyclic); the recorded depths are not read.
    pub open spec fn up_wf(&self) -> bool {
        exists|d: Map<u32, usize>| #[trigger] self.wf_ranked(d)
    }

    /// Get leaves (nodes with no children), in node order.
    pub fn leaves(&self) -> (leaves: Vec<u32>)
        ensures
            leaves@ == self.nodes@.filter(|pid: u32| self.is_leaf(pid)),
            forall|x: u32| #[trigger]
                leaves@.contains(x) <==> self.nodes@.contains(x) && self.is_leaf(x),
    {
        let ghost pred = |pid: u32| self.is_leaf(pid);
        let mut leaves: Vec<u32> = Vec::new();
        let n = self.nodes.len();
        for i in 0..n
            invariant
                n == self.nodes@.len(),
                pred == (|pid: u32| self.is_leaf(pid)),
                leaves@ == self.nodes@.take(i as int).filter(pred),
                forall|x: u32| #[trigger]
                    leaves@.contains(x) <==> self.nodes@.take(i as int).contains(x) && self.is_leaf(x),
        {
            proof {
                reveal_with_fuel(Seq::<_>::filter, 1);
                assert(self.nodes@.take(i + 1).drop_last() =~= self.nodes@.take(i as int));
            }
            let pid = self.nodes[i];
            let leaf = match self.children.get(&pid) {
                None => true,
                Some(c) => c.len() == 0,
            };
            let ghost old_leaves = leaves@;
            if leaf {
                leaves.push(pid);
            }
            proof {
                let t = self.nodes@.take(i + 1);
                assert forall|x: u32| #[trigger]
                    leaves@.contains(x) <==> t.contains(x) && self.is_leaf(x) by {
                    if t.contains(x) && x != pid {
                        let k = t.index_of(x);
                        assert(self.nodes@.take(i as int)[k] == x);
                    }
                    if self.nodes@.take(i as int).contains(x) {
                        let k = self.nodes@.take(i as int).index_of(x);
                        assert(t[k] == x);
                    }
                    if leaf {
                        assert(leaves@ == old_leaves.push(pid));
                        if leaves@.contains(x) && x != pid {
                            let k = leaves@.index_of(x);
                            assert(old_leaves[k] == x);
                        }
                        if x == pid {
                            assert(leaves@[old_leaves.len() as int] == pid);
                        } else if old_leaves.contains(x) {
                            let k = old_leaves.index_of(x);
                            assert(leaves@[k] == x);
                        }
                    }
                    assert(t[i as int] == pid);
                }
                assert(t.drop_last() =~= self.nodes@.take(i as int));
                assert(t.last() == pid);
                assert(t.filter(pred) == t.drop_last().filter(pred) + (if pred(pid) { seq![pid] } else { Seq::empty() }));
            }
        }
        proof {
            assert(self.nodes@.take(n as int) =~= self.nodes@);
        }
        leaves
    }
}


/// Largest recorded depth among the nodes of `s`.
pub open spec fn max_depth_of(s: Seq<u32>, d: Map<u32, usize>) -> nat
    decreases s.len(),
{
    if s.len() == 0 {
        0
    } else {
        let rest = max_depth_of(s.drop_last(), d);
        let last = d[s.last()] as nat;
        if last > rest {
            last
        } else {
            rest
        }
    }
}

/// Every node's depth is at most the maximum depth.
pub proof fn lemma_max_depth_bound(s: Seq<u32>, d: Map<u32, usize>, i: int)
    requires
        0 <= i < s.len(),
    ensures
        d[s[i]] <= max_depth_of(s, d),
    decreases s.len(),
{
    if i < s.len() - 1 {
        lemma_max_depth_bound(s.drop_last(), d, i);
    }
}

/// A duplicate-free sequence whose items all occur in another duplicate-free
/// sequence is no longer than it, and is shorter when some item is missing.
proof fn lemma_nodup_subseq_len(a: Seq<u32>, b: Seq<u32>)
    requires
        a.no_duplicates(),
        b.no_duplicates(),
        forall|x: u32| a.contains(x) ==> b.contains(x),
    ensures
        a.len() <= b.len(),
        a.len() == b.len() ==> forall|x: u32| b.contains(x) ==> a.contains(x),
{
    a.unique_seq_to_set();
    b.unique_seq_to_set();
    assert(a.to_set().subset_of(b.to_set()));
    vstd::set_lib::lemma_len_subset(a.to_set(), b.to_set());
    if a.len() == b.len() {
        assert forall|x: u32| b.contains(x) implies a.contains(x) by {
            if !a.contains(x) {
                a.to_set().lemma_subset_not_in_lt(b.to_set(), x);
            }
        }
    }
}

impl ProcessTree {
    /// All children listed for `n` are in `visited`.
    pub open spec fn ready(&self, visited: Set<u32>, n: u32) -> bool {
        forall|c: u32| #[trigger] self.kids(n).contains(c) ==> visited.contains(c)
    }

    /// In a well-formed tree the children listed for `p` are exactly the
    /// nodes whose parent is `p`.
    proof fn lemma_kids_are_children(&self, d: Map<u32, usize>, c: u32, p: u32)
        requires
            self.wf_ranked(d),
        ensures
            self.kids(p).contains(c) <==> self.is_child_of(c, p),
    {
        if self.is_child_of(c, p) {
            assert(self.children@.contains_key(p));
        }
    }

    /// `n` is an unvisited node whose children are all visited.
    pub open spec fn pending(&self, visited: Set<u32>, n: u32) -> bool {
        self.nodes@.contains(n) && !visited.contains(n) && self.ready(visited, n)
    }

    /// Position of the first pending node in `q` (`q.len()` when there is none).
    pub open spec fn first_pending(&self, q: Seq<u32>, visited: Set<u32>) -> nat
        decreases q.len(),
    {
        if q.len() == 0 {
            0
        } else if self.pending(visited, q[0]) {
            0
        } else {
            1 + self.first_pending(q.drop_first(), visited)
        }
    }

    proof fn lemma_first_pending_lt(&self, q: Seq<u32>, visited: Set<u32>, k: int)
        requires
            0 <= k < q.len(),
            self.pending(visited, q[k]),
        ensures
            self.first_pending(q, visited) <= k,
        decreases q.len(),
    {
        if k > 0 && !self.pending(visited, q[0]) {
            assert(q.drop_first()[k - 1] == q[k]);
            self.lemma_first_pending_lt(q.drop_first(), visited, k - 1);
        }
    }

    proof fn lemma_first_pending_push(&self, q: Seq<u32>, x: u32, visited: Set<u32>)
        requires
            self.first_pending(q, visited) < q.len(),
        ensures
            self.first_pending(q.push(x), visited) == self.first_pending(q, visited),
        decreases q.len(),
    {
        assert(q.push(x)[0] == q[0]);
        if !self.pending(visited, q[0]) {
            assert(q.push(x).drop_first() =~= q.drop_first().push(x));
            self.lemma_first_pending_push(q.drop_first(), x, visited);
        }
    }

    /// In a well-formed tree, if some node is unvisited then some node is
    /// pending: follow unvisited children downwards until one is ready.
    proof fn lemma_exists_pending(&self, d: Map<u32, usize>, visited: Set<u32>, n: u32)
        requires
            self.wf_ranked(d),
            self.nodes@.contains(n),
            !visited.contains(n),
        ensures
            exists|m: u32| #[trigger] self.pending(visited, m),
        decreases max_depth_of(self.nodes@, d) - d[n],
    {
        if !self.ready(visited, n) {
            let c = choose|c: u32| #[trigger] self.kids(n).contains(c) && !visited.contains(c);
            self.lemma_kids_are_children(d, c, n);
            assert(self.parents@.contains_key(c));
            let k = self.nodes@.index_of(c);
            lemma_max_depth_bound(self.nodes@, d, k);
            self.lemma_exists_pending(d, visited, c);
        } else {
            assert(self.pending(visited, n));
        }
    }

    /// One step of the leaves-to-root schedule on queue `q` and output
    /// `order`: the first queued node is dropped if already output; output,
    /// with its parent queued unless that is output too, if all its children
    /// are output; and otherwise moved to the back of the queue.
    pub open spec fn upward_step(&self, q: Seq<u32>, order: Seq<u32>) -> (Seq<u32>, Seq<u32>) {
        if q.len() == 0 {
            (q, order)
        } else {
            let pid = q[0];
            let rest = q.drop_first();
            if order.contains(pid) {
                (rest, order)
            } else if self.ready(order.to_set(), pid) {
                let out = order.push(pid);
                if self.parents@.contains_key(pid) && !out.contains(self.parents@[pid]) {
                    (rest.push(self.parents@[pid]), out)
                } else {
                    (rest, out)
                }
            } else {
                (rest.push(pid), order)
            }
        }
    }

    /// Queue and output after `k` steps of the schedule, starting from the
    /// leaves in node order and nothing output.
    pub open spec fn upward_run(&self, k: nat) -> (Seq<u32>, Seq<u32>)
        decreases k,
    {
        if k == 0 {
            (self.nodes@.filter(|pid: u32| self.is_leaf(pid)), Seq::empty())
        } else {
            let prev = self.upward_run((k - 1) as nat);
            self.upward_step(prev.0, prev.1)
        }
    }

    /// The leaves-to-root schedule empties its queue after some number of
    /// steps.
    pub open spec fn upward_halts(&self) -> bool {
        exists|k: nat| (#[trigger] self.upward_run(k)).0.len() == 0
    }

    /// Once the queue is empty the schedule stays where it is.
    proof fn lemma_upward_run_stays(&self, j: nat, k: nat)
        requires
            j <= k,
            self.upward_run(j).0.len() == 0,
        ensures
            self.upward_run(k) == self.upward_run(j),
        decreases k - j,
    {
        if j < k {
            self.lemma_upward_run_stays(j, (k - 1) as nat);
        }
    }

    /// Get nodes in order from leaves to root (for the upward pass).
    ///
    /// The order is the output of the schedule that starts from the leaves
    /// and outputs a node once all its listed children are output, run until
    /// its queue is empty.  The schedule must empty its queue, as it does on
    /// every tree meeting `up_wf` (each tree `build_forest` returns among
    /// them); on such a tree every node occurs exactly once, and every node
    /// comes after all of its children.
    pub fn upward_order(&self) -> (order: Vec<u32>)
        requires
            self.up_wf() || self.upward_halts(),
        ensures
            exists|k: nat| #[trigger] self.upward_run(k) == (Seq::<u32>::empty(), order@),
            order@.no_duplicates(),
            self.up_wf() ==> forall|x: u32| order@.contains(x) <==> self.nodes@.contains(x),
            self.up_wf() ==> forall|i: int, j: int|
                0 <= i < order@.len() && 0 <= j < order@.len() && #[trigger] self.is_child_of(
                    order@[j],
                    order@[i],
                ) ==> j < i,
    {
        let ghost wf = self.up_wf();
        let ghost d = choose|d: Map<u32, usize>| self.wf_ranked(d);
        let ghost k0 = choose|k: nat| (#[trigger] self.upward_run(k)).0.len() == 0;
        let leaves = self.leaves();
        let mut queue: VecDeque<u32> = VecDeque::new();
        let nl = leaves.len();
        for i in 0..nl
            invariant
                nl == leaves@.len(),
                queue@ == leaves@.take(i as int),
        {
            queue.push_back(leaves[i]);
            proof {
                assert(leaves@.take(i + 1) =~= leaves@.take(i as int).push(leaves@[i as int]));
            }
        }
        proof {
            assert(leaves@.take(nl as int) =~= leaves@);
            if wf {
                assert forall|n: u32| self.pending(Set::empty(), n) implies queue@.contains(n) by {
                    if self.children@.contains_key(n) && self.children@[n]@.len() > 0 {
                        let c = self.children@[n]@[0];
                        assert(self.children@[n]@.contains(c));
                        assert(self.kids(n).contains(c));
                    }
                    let k = self.nodes@.index_of(n);
                    assert(self.nodes@[k] == n);
                    assert(leaves@.contains(n));
                }
            }
        }

        let mut order: Vec<u32> = Vec::new();
        let mut visited: HashSet<u32> = HashSet::new();
        let ghost mut steps: nat = 0;
        proof {
            assert(order@.to_set() =~= Set::<u32>::empty());
            assert(self.upward_run(0) == (queue@, order@));
        }
        while queue.len() > 0
            invariant
                wf == self.up_wf(),
                wf ==> self.wf_ranked(d),
                !wf ==> self.upward_run(k0).0.len() == 0,
                self.upward_run(steps) == (queue@, order@),
                visited@ == order@.to_set(),
                order@.no_duplicates(),
                wf ==> forall|x: u32| order@.contains(x) ==> self.nodes@.contains(x),
                wf ==> forall|x: u32| queue@.contains(x) ==> self.nodes@.contains(x),
                wf ==> forall|n: u32| #[trigger] self.pending(visited@, n) ==> queue@.contains(n),
                wf ==> forall|i: int|
                    0 <= i < order@.len() ==> #[trigger] self.ready(visited@, order@[i]),
                wf ==> forall|i: int, j: int|
                    0 <= i < order@.len() && 0 <= j < order@.len() && #[trigger] self.is_child_of(
                        order@[j],
                        order@[i],
                    ) ==> j < i,
            decreases
                (if wf { self.nodes@.len() - order@.len() } else { k0 - steps }),
                (if wf { self.first_pending(queue@, visited@) as int } else { 0 }),
        {
            proof {
                if wf {
                    lemma_nodup_subseq_len(order@, self.nodes@);
                } else if steps >= k0 {
                    self.lemma_upward_run_stays(k0, steps);
                }
            }
            let ghost old_queue = queue@;
            let ghost old_order = order@;
            let ghost old_visited = visited@;
            let pid = match queue.pop_front() {
                Some(p) => p,
                None => {
                    return order;
                },
            };
            assert(queue@ =~= old_queue.drop_first());
            assert(old_queue[0] == pid);
            assert(old_queue.contains(pid));
            assert(forall|x: u32| queue@.contains(x) ==> old_queue.contains(x)) by {
                assert forall|x: u32| queue@.contains(x) implies old_queue.contains(x) by {
                    let k = queue@.index_of(x);
                    assert(old_queue[k + 1] == x);
                }
            }
            if visited.contains(&pid) {
                proof {
                    if wf {
                        assert forall|n: u32| #[trigger] self.pending(visited@, n) implies queue@.contains(n) by {
                            let k = old_queue.index_of(n);
                            assert(old_queue[k] == n);
                            assert(queue@[k - 1] == n);
                        }
                        assert forall|x: u32| queue@.contains(x) implies self.nodes@.contains(x) by {
                            let k = queue@.index_of(x);
                            assert(old_queue[k + 1] == x);
                            assert(old_queue.contains(x));
                        }
                    }
                    assert(old_order.to_set().contains(pid));
                    assert(old_order.contains(pid));
                    assert(self.upward_step(old_queue, old_order) == (queue@, order@));
                    steps = steps + 1;
                }
                continue;
            }
            let all_done = match self.children.get(&pid) {
                None => true,
                Some(c) => children_all_visited(c, &visited),
            };
            if all_done {
                assert(self.ready(visited@, pid)) by {
                    if !self.children@.contains_key(pid) {
                        assert(self.kids(pid) =~= Seq::<u32>::empty());
                    }
                }
                visited.insert(pid);
                order.push(pid);
                proof {
                    assert(order@ == old_order.push(pid));
                    old_order.lemma_push_to_set_commute(pid);
                    assert(order@.to_set() =~= old_order.to_set().insert(pid));
                    assert(!old_order.contains(pid));
                    if wf {
                        assert(self.nodes@.contains(pid));
                        assert forall|x: u32| order@.contains(x) implies self.nodes@.contains(x) by {
                            if x != pid {
                                let k = order@.index_of(x);
                                assert(order@[k] == x);
                                assert(k < old_order.len());
                                assert(old_order[k] == x);
                                assert(old_order.contains(x));
                            }
                        }
                        assert forall|i: int| 0 <= i < order@.len() implies #[trigger] self.ready(visited@, order@[i]) by {
                            if i < old_order.len() {
                                assert(self.ready(old_visited, old_order[i]));
                            }
                        }
                    }
                }
                let ghost tail = queue@;
                match self.parents.get(&pid) {
                    Some(parent_ref) => {
                        let parent = *parent_ref;
                        if !visited.contains(&parent) {
                            queue.push_back(parent);
                        }
                    },
                    None => {},
                }
                proof {
                    assert(queue@ == tail || (self.parents@.contains_key(pid) && queue@ == tail.push(
                        self.parents@[pid],
                    )));
                    if wf {
                        assert forall|x: u32| queue@.contains(x) implies self.nodes@.contains(x) by {
                            let k = queue@.index_of(x);
                            if k < tail.len() {
                                assert(tail[k] == x);
                                assert(old_queue[k + 1] == x);
                                assert(old_queue.contains(x));
                            }
                        }
                        assert forall|i: int, j: int|
                            0 <= i < order@.len() && 0 <= j < order@.len() && #[trigger] self.is_child_of(
                                order@[j],
                                order@[i],
                            ) implies j < i by {
                            let k = old_order.len() as int;
                            if i == k && j == k {
                                assert(d[pid] == d[pid] + 1);
                            } else if j == k {
                                // pid's parent is unvisited: a visited parent is ready,
                                // so pid would already be visited.
                                self.lemma_kids_are_children(d, pid, old_order[i]);
                                assert(self.ready(old_visited, old_order[i]));
                            }
                        }
                        assert forall|n: u32| #[trigger] self.pending(visited@, n) implies queue@.contains(n) by {
                            self.lemma_kids_are_children(d, pid, n);
                            if self.is_child_of(pid, n) {
                                assert(queue@.last() == n);
                            } else {
                                assert(self.ready(old_visited, n)) by {
                                    assert forall|c: u32| #[trigger] self.kids(n).contains(c) implies old_visited.contains(c) by {
                                        assert(visited@.contains(c));
                                    }
                                }
                                assert(self.pending(old_visited, n));
                                assert(old_queue.contains(n));
                                let k = old_queue.index_of(n);
                                assert(k != 0);
                                assert(tail[k - 1] == n);
                                assert(queue@[k - 1] == n);
                            }
                        }
                    }
                    assert(self.ready(old_order.to_set(), pid));
                    assert(self.upward_step(old_queue, old_order) == (queue@, order@)) by {
                        if self.parents@.contains_key(pid) {
                            let par = self.parents@[pid];
                            assert(order@.contains(par) <==> visited@.contains(par));
                        }
                    }
                    steps = steps + 1;
                }
            } else {
                assert(!self.ready(visited@, pid)) by {
                    let c = choose|c: u32| self.children@[pid]@.contains(c) && !visited@.contains(c);
                    assert(self.kids(pid).contains(c));
                }
                proof {
                    if wf {
                        assert(self.nodes@.contains(pid));
                        self.lemma_exists_pending(d, visited@, pid);
                        let m = choose|m: u32| #[trigger] self.pending(visited@, m);
                        assert(old_queue.contains(m));
                        let k = old_queue.index_of(m);
                        assert(k != 0);
                        assert(old_queue.drop_first()[k - 1] == m);
                        self.lemma_first_pending_lt(old_queue.drop_first(), visited@, k - 1);
                        self.lemma_first_pending_push(old_queue.drop_first(), pid, visited@);
                    }
                }
                let ghost tail = queue@;
                queue.push_back(pid);
                proof {
                    if wf {
                        assert forall|x: u32| queue@.contains(x) implies self.nodes@.contains(x) by {
                            if x != pid {
                                let k = queue@.index_of(x);
                                assert(k < tail.len());
                                assert(tail[k] == x);
                                assert(old_queue[k + 1] == x);
                                assert(old_queue.contains(x));
                            }
                        }
                        assert forall|n: u32| #[trigger] self.pending(visited@, n) implies queue@.contains(n) by {
                            let k = old_queue.index_of(n);
                            assert(old_queue[k] == n);
                            assert(k != 0);
                            assert(queue@[k - 1] == n);
                        }
                    }
                    assert(!old_order.contains(pid));
                    assert(queue@ =~= old_queue.drop_first().push(pid));
                    assert(self.upward_step(old_queue, old_order) == (queue@, order@));
                    steps = steps + 1;
                }
            }
        }
        proof {
            if wf {
                assert forall|x: u32| self.nodes@.contains(x) implies order@.contains(x) by {
                    if !order@.contains(x) {
                        self.lemma_exists_pending(d, visited@, x);
                        let m = choose|m: u32| #[trigger] self.pending(visited@, m);
                        assert(queue@.contains(m));
                    }
                }
            }
            assert(queue@ =~= Seq::<u32>::empty());
            assert(self.upward_run(steps) == (Seq::<u32>::empty(), order@));
        }
        order
    }
}

impl ProcessTree {
    /// `c` is listed among the children of `p`, a node of the tree.
    pub open spec fn kid_of(&self, c: u32, p: u32) -> bool {
        self.nodes@.contains(p) && self.kids(p).contains(c)
    }

    /// The node whose children list holds `c` (meaningful for a non-root
    /// node of a tree satisfying `down_wf`).
    pub open spec fn parent_of(&self, c: u32) -> u32 {
        choose|p: u32| self.kid_of(c, p)
    }

    /// What the root-to-leaves traversal needs: the nodes are distinct and
    /// hold the root; every non-root node is listed as the child of exactly
    /// one node; children lists hold nodes, without repeats; and the recorded
    /// depths start at zero at the root and grow by one from a node to each
    /// of its children (so the children relation is acyclic).
    pub open spec fn down_wf(&self) -> bool {
        &&& self.nodes@.no_duplicates()
        &&& self.nodes@.contains(self.root)
        &&& self.depths@.contains_key(self.root)
        &&& self.depths@[self.root] == 0
        &&& forall|n: u32| #[trigger]
            self.nodes@.contains(n) ==> self.depths@.contains_key(n) && (n != self.root
                ==> exists|p: u32| #[trigger] self.kid_of(n, p))
        &&& forall|c: u32, p: u32| #[trigger]
            self.kid_of(c, p) ==> self.nodes@.contains(c) && self.depths@[c] == self.depths@[p] + 1
        &&& forall|p: u32| self.nodes@.contains(p) ==> #[trigger] self.kids(p).no_duplicates()
        &&& forall|c: u32, p: u32, q: u32|
            #[trigger] self.kid_of(c, p) && #[trigger] self.kid_of(c, q) ==> p == q
    }

    /// A listed child has exactly one parent, the chosen one.
    proof fn lemma_parent_unique(&self, c: u32, p: u32)
        requires
            self.down_wf(),
            self.kid_of(c, p),
        ensures
            self.parent_of(c) == p,
            self.kid_of(c, self.parent_of(c)),
    {
    }

    /// A tree that is well formed in full (as every tree `build_forest`
    /// returns is) meets what both traversals need.
    pub proof fn lemma_wf_traversable(&self)
        requires
            self.wf(),
        ensures
            self.up_wf(),
            self.down_wf(),
    {
        assert(self.wf_ranked(self.depths@));
        assert forall|n: u32| #[trigger] self.nodes@.contains(n) implies self.depths@.contains_key(n) && (n
            != self.root ==> exists|p: u32| #[trigger] self.kid_of(n, p)) by {
            if n != self.root {
                let p = self.parents@[n];
                assert(self.kid_of(n, p));
            }
        }
        assert forall|c: u32, p: u32| #[trigger] self.kid_of(c, p) implies self.nodes@.contains(c)
            && self.depths@[c] == self.depths@[p] + 1 by {
            assert(self.children@.contains_key(p));
            assert(self.children@[p]@.contains(c));
            assert(self.is_child_of(c, p));
        }
        assert forall|p: u32| self.nodes@.contains(p) implies #[trigger] self.kids(p).no_duplicates() by {
            if !self.children@.contains_key(p) {
                assert(self.kids(p) =~= Seq::<u32>::empty());
            }
        }
        assert forall|c: u32, p: u32, q: u32| #[trigger] self.kid_of(c, p) && #[trigger] self.kid_of(c, q) implies p
            == q by {
            assert(self.children@[p]@.contains(c));
            assert(self.children@[q]@.contains(c));
            assert(self.is_child_of(c, p));
            assert(self.is_child_of(c, q));
        }
    }
}

impl ProcessTree {
    /// Breadth-first bookkeeping of `downward_order`: `s` is the output so far
    /// followed by the queue.
    spec fn bfs_inv(&self, order: Seq<u32>, s: Seq<u32>) -> bool {
        &&& s.no_duplicates()
        &&& s.len() > 0 && s[0] == self.root
        &&& order.len() <= s.len()
        &&& order == s.take(order.len() as int)
        &&& forall|x: u32| #[trigger] s.contains(x) ==> self.nodes@.contains(x)
        &&& forall|x: u32| #[trigger]
            s.contains(x) && x != self.root ==> self.kid_of(x, self.parent_of(x)) && order.contains(
                self.parent_of(x),
            )
        &&& forall|i: int, c: u32|
            0 <= i < order.len() && #[trigger] self.kid_of(c, order[i]) ==> s.contains(c)
        &&& forall|i: int, j: int|
            0 <= i <= j < s.len() ==> self.depth_of(#[trigger] s[i]) <= self.depth_of(
                #[trigger] s[j],
            )
        &&& forall|j: int|
            order.len() <= j < s.len() ==> self.depth_of(#[trigger] s[j]) <= self.depth_of(
                s[order.len() as int],
            ) + 1
    }

    /// Once the queue is empty, every node has been output: by induction on
    /// depth, each node's parent was output and so the node was enqueued.
    proof fn lemma_bfs_complete(&self, order: Seq<u32>, n: u32, d: nat)
        requires
            self.down_wf(),
            self.bfs_inv(order, order),
            self.nodes@.contains(n),
            self.depth_of(n) == d,
        ensures
            order.contains(n),
        decreases d,
    {
        if n != self.root {
            let p = self.parent_of(n);
            assert(self.kid_of(n, p));
            self.lemma_bfs_complete(order, p, (d - 1) as nat);
            let i = order.index_of(p);
            assert(self.kid_of(n, order[i]));
        } else {
            assert(order[0] == n);
        }
    }

    /// Children of `p` in recorded order (none if `p` has no entry).
    pub open spec fn kids(&self, p: u32) -> Seq<u32> {
        if self.children@.contains_key(p) {
            self.children@[p]@
        } else {
            Seq::empty()
        }
    }

    /// Breadth-first sequence after expanding its first `k` entries: the root,
    /// then the children of each entry in turn, appended in recorded order.
    pub open spec fn bfs_prefix(&self, k: nat) -> Seq<u32>
        decreases k,
    {
        if k == 0 {
            seq![self.root]
        } else {
            let s = self.bfs_prefix((k - 1) as nat);
            if k - 1 < s.len() {
                s + self.kids(s[k - 1])
            } else {
                s
            }
        }
    }

    /// The breadth-first sequence stops growing: after expanding its first
    /// `k` entries it has exactly `k` entries, for some `k`.
    pub open spec fn downward_halts(&self) -> bool {
        exists|k: nat| (#[trigger] self.bfs_prefix(k)).len() == k
    }

    /// Once every entry is expanded the breadth-first sequence stays as it is.
    proof fn lemma_bfs_prefix_stays(&self, j: nat, k: nat)
        requires
            j <= k,
            self.bfs_prefix(j).len() == j,
        ensures
            self.bfs_prefix(k) == self.bfs_prefix(j),
        decreases k - j,
    {
        if j < k {
            self.lemma_bfs_prefix_stays(j, (k - 1) as nat);
        }
    }

    /// The breadth-first sequence starts at the root.
    proof fn lemma_bfs_prefix_head(&self, k: nat)
        ensures
            self.bfs_prefix(k).len() > 0,
            self.bfs_prefix(k)[0] == self.root,
        decreases k,
    {
        if k > 0 {
            self.lemma_bfs_prefix_head((k - 1) as nat);
        }
    }

    /// Get nodes in order from root to leaves (for the downward pass).
    ///
    /// Breadth-first from the root, children in recorded order: the order is
    /// the breadth-first sequence once every entry of it has been expanded.
    /// That must happen, as it does on every tree meeting `down_wf` (each
    /// tree `build_forest` returns among them); on such a tree every node
    /// occurs exactly once, every parent before its children, and depths
    /// never decrease.
    pub fn downward_order(&self) -> (order: Vec<u32>)
        requires
            self.down_wf() || self.downward_halts(),
        ensures
            order@ == self.bfs_prefix(order@.len() as nat),
            order@.len() > 0 && order@[0] == self.root,
            self.down_wf() ==> order@.no_duplicates(),
            self.down_wf() ==> forall|x: u32| order@.contains(x) <==> self.nodes@.contains(x),
            self.down_wf() ==> forall|i: int, j: int|
                0 <= i < order@.len() && 0 <= j < order@.len() && #[trigger] self.kid_of(
                    order@[j],
                    order@[i],
                ) ==> i < j,
            self.down_wf() ==> forall|i: int, j: int|
                0 <= i <= j < order@.len() ==> self.depth_of(#[trigger] order@[i])
                    <= self.depth_of(#[trigger] order@[j]),
    {
        let ghost wf = self.down_wf();
        let ghost k0 = choose|k: nat| (#[trigger] self.bfs_prefix(k)).len() == k;
        let mut order: Vec<u32> = Vec::new();
        let mut queue: VecDeque<u32> = VecDeque::new();
        queue.push_back(self.root);
        proof {
            assert(order@ + queue@ =~= seq![self.root]);
            assert(order@ =~= (order@ + queue@).take(0));
            assert forall|x: u32| #[trigger] (order@ + queue@).contains(x) implies x == self.root by {
                let k = (order@ + queue@).index_of(x);
            }
        }
        while queue.len() > 0
            invariant
                wf == self.down_wf(),
                wf ==> self.bfs_inv(order@, order@ + queue@),
                !wf ==> self.bfs_prefix(k0).len() == k0,
                order@ + queue@ == self.bfs_prefix(order@.len() as nat),
            decreases (if wf { self.nodes@.len() - order@.len() } else { k0 - order@.len() }),
        {
            let ghost s = order@ + queue@;
            let ghost done = order@.len();
            proof {
                if wf {
                    lemma_nodup_subseq_len(s, self.nodes@);
                } else if done >= k0 {
                    self.lemma_bfs_prefix_stays(k0, done as nat);
                }
            }
            let pid = match queue.pop_front() {
                Some(p) => p,
                None => {
                    return order;
                },
            };
            let ghost prev_order = order@;
            order.push(pid);
            proof {
                assert(order@ + queue@ =~= s);
                assert(order@.drop_last() =~= prev_order);
                assert(order@ =~= s.take(order@.len() as int));
                assert(s[order@.len() - 1] == pid);
                assert(s.contains(pid));
            }
            match self.children.get(&pid) {
                Some(children) => {
                    let nc = children.len();
                    let ghost ch = children@;
                    proof {
                        if wf {
                            assert forall|k: int| 0 <= k < ch.len() implies #[trigger] self.kid_of(ch[k], pid) by {
                                assert(ch.contains(ch[k]));
                            }
                        }
                    }
                    for k in 0..nc
                        invariant
                            wf == self.down_wf(),
                            nc == ch.len(),
                            children@ == ch,
                            ch == self.children@[pid]@,
                            self.children@.contains_key(pid),
                            order@.len() > 0,
                            order@.len() <= s.len(),
                            order@.last() == pid,
                            wf ==> forall|k: int| 0 <= k < ch.len() ==> #[trigger] self.kid_of(ch[k], pid),
                            order@ + queue@ == s + ch.take(k as int),
                            wf ==> self.bfs_inv(order@.drop_last(), s),
                            order@ == s.take(order@.len() as int),
                            s == self.bfs_prefix(done as nat),
                            order@.len() == done + 1,
                            s[done as int] == pid,
                    {
                        let c = children[k];
                        assert(c == ch[k as int]);
                        let ghost before = order@ + queue@;
                        queue.push_back(c);
                        proof {
                            assert(ch.take(k + 1) =~= ch.take(k as int).push(c));
                            assert(order@ + queue@ =~= before.push(c));
                        }
                    }
                    proof {
                        assert(ch.take(nc as int) =~= ch);
                        assert(self.kids(pid) == ch);
                        if wf {
                            assert(self.nodes@.contains(pid));
                            assert(self.kids(pid).no_duplicates());
                            self.lemma_bfs_step(order@, s, ch, pid);
                        }
                        assert(self.bfs_prefix((done + 1) as nat) == s + self.kids(pid));
                    }
                },
                None => {
                    proof {
                        if wf {
                            self.lemma_bfs_step(order@, s, Seq::empty(), pid);
                        }
                        assert(s + Seq::<u32>::empty() =~= s);
                        assert(self.kids(pid) =~= Seq::<u32>::empty());
                        assert(self.bfs_prefix((done + 1) as nat) == s + self.kids(pid));
                    }
                },
            }
        }
        proof {
            assert(order@ + queue@ =~= order@);
            self.lemma_bfs_prefix_head(order@.len() as nat);
            if wf {
                assert forall|x: u32| self.nodes@.contains(x) implies order@.contains(x) by {
                    self.lemma_bfs_complete(order@, x, self.depth_of(x) as nat);
                }
            }
        }
        order
    }

    /// One breadth-first step: after outputting `pid` (the first queued node)
    /// and queueing its children `ch`, the bookkeeping still holds.
    proof fn lemma_bfs_step(&self, order: Seq<u32>, s: Seq<u32>, ch: Seq<u32>, pid: u32)
        requires
            self.down_wf(),
            order.len() > 0,
            order.len() <= s.len(),
            order.last() == pid,
            self.bfs_inv(order.drop_last(), s),
            order == s.take(order.len() as int),
            forall|c: u32| #[trigger] self.kid_of(c, pid) <==> ch.contains(c),
            ch.no_duplicates(),
        ensures
            self.bfs_inv(order, s + ch),
    {
        let old_order = order.drop_last();
        let n = s + ch;
        let ol = old_order.len() as int;
        assert(order[ol] == s[ol]);
        assert(s[ol] == pid);
        assert(order =~= old_order.push(pid));
        assert(self.nodes@.contains(pid)) by {
            assert(s.contains(pid));
        }
        // children of pid are new
        assert forall|c: u32| ch.contains(c) implies !s.contains(c) by {
            assert(self.kid_of(c, pid));
            if s.contains(c) {
                assert(c != self.root);
                self.lemma_parent_unique(c, pid);
                assert(old_order.contains(pid));
                let k = old_order.index_of(pid);
                assert(s[k] == pid);
            }
        }
        assert(n.no_duplicates()) by {
            assert forall|i: int, j: int| 0 <= i < j < n.len() implies n[i] != n[j] by {
                if j >= s.len() && i < s.len() {
                    assert(ch.contains(n[j]));
                    assert(s.contains(n[i]));
                } else if i >= s.len() {
                    assert(n[i] == ch[i - s.len()]);
                    assert(n[j] == ch[j - s.len()]);
                }
            }
        }
        assert(n.len() > 0 && n[0] == self.root);
        assert(order =~= n.take(order.len() as int));
        assert forall|x: u32| #[trigger] n.contains(x) implies self.nodes@.contains(x) by {
            let k = n.index_of(x);
            if k >= s.len() {
                assert(ch.contains(x));
                assert(self.kid_of(x, pid));
            } else {
                assert(s[k] == x);
                assert(s.contains(x));
            }
        }
        assert forall|x: u32| #[trigger] n.contains(x) && x != self.root implies self.kid_of(x, self.parent_of(x))
            && order.contains(self.parent_of(x)) by {
            let k = n.index_of(x);
            if k >= s.len() {
                assert(ch.contains(x));
                assert(self.kid_of(x, pid));
                self.lemma_parent_unique(x, pid);
                assert(order[ol] == pid);
            } else {
                assert(s[k] == x);
                assert(s.contains(x));
                let p = self.parent_of(x);
                let m = old_order.index_of(p);
                assert(order[m] == p);
            }
        }
        assert forall|i: int, c: u32| 0 <= i < order.len() && #[trigger] self.kid_of(c, order[i]) implies n.contains(c) by {
            if i == ol {
                assert(ch.contains(c));
                let k = ch.index_of(c);
                assert(n[s.len() + k] == c);
            } else {
                assert(order[i] == old_order[i]);
                assert(s.contains(c));
                let k = s.index_of(c);
                assert(n[k] == c);
            }
        }
        assert forall|i: int| 0 <= i < ch.len() implies self.depth_of(#[trigger] ch[i]) == self.depth_of(pid) + 1 by {
            assert(ch.contains(ch[i]));
            assert(self.kid_of(ch[i], pid));
        }
        assert forall|i: int, j: int| 0 <= i <= j < n.len() implies self.depth_of(#[trigger] n[i]) <= self.depth_of(
            #[trigger] n[j],
        ) by {
            if j >= s.len() {
                assert(n[j] == ch[j - s.len()]);
                if i < s.len() {
                    assert(n[i] == s[i]);
                    if i <= ol {
                        assert(self.depth_of(s[i]) <= self.depth_of(s[ol]));
                    }
                } else {
                    assert(n[i] == ch[i - s.len()]);
                }
            } else {
                assert(n[i] == s[i]);
                assert(n[j] == s[j]);
            }
        }
        assert forall|j: int| order.len() <= j < n.len() implies self.depth_of(#[trigger] n[j]) <= self.depth_of(
            n[order.len() as int],
        ) + 1 by {
            if j >= s.len() {
                assert(n[j] == ch[j - s.len()]);
                if order.len() < s.len() {
                    assert(n[order.len() as int] == s[ol + 1]);
                    assert(self.depth_of(s[ol]) <= self.depth_of(s[ol + 1]));
                } else {
                    assert(n[order.len() as int] == ch[0]);
                }
            } else {
                assert(n[j] == s[j]);
                assert(n[order.len() as int] == s[ol + 1]);
                assert(self.depth_of(s[ol]) <= self.depth_of(s[ol + 1]));
            }
        }
    }
}

/// Whether every item of `items` is in `visited`.
fn children_all_visited(items: &Vec<u32>, visited: &HashSet<u32>) -> (b: bool)
    ensures
        b == forall|x: u32| items@.contains(x) ==> visited@.contains(x),
{
    let n = items.len();
    for i in 0..n
        invariant
            n == items@.len(),
            forall|k: int| 0 <= k < i ==> visited@.contains(#[trigger] items@[k]),
    {
        if !visited.contains(&items[i]) {
            assert(items@.contains(items@[i as int]));
            return false;
        }
    }
    assert forall|x: u32| items@.contains(x) implies visited@.contains(x) by {
        let k = items@.index_of(x);
        assert(visited@.contains(items@[k]));
    }
    true
}


/// Errors from belief propagation.
#[derive(Debug)]
pub enum BeliefPropError {
    EmptyForest,
    CycleDetected(u32),
    InvalidBelief { pid: u32, message: String },
}

/// Summary of a single tree.
#[derive(Debug, Clone)]
pub struct TreeSummary {
    /// Root PID.
    pub root: u32,
    /// Number of nodes.
    pub size: usize,
    /// Maximum depth.
    pub max_depth: usize,
    /// PIDs of all nodes.
    pub node_pids: Vec<u32>,
}

/// Map from PID to parent PID described by a list of `(pid, ppid)` links;
/// a later link for the same PID overrides an earlier one.
pub open spec fn links_map(s: Seq<(u32, u32)>) -> Map<u32, u32>
    decreases s.len(),
{
    if s.len() == 0 {
        Map::empty()
    } else {
        links_map(s.drop_last()).insert(s.last().0, s.last().1)
    }
}

/// No PID occurs twice in the links.
pub open spec fn unique_pids(s: Seq<(u32, u32)>) -> bool {
    forall|i: int, j: int| 0 <= i < j < s.len() ==> s[i].0 != s[j].0
}

proof fn lemma_links_map(s: Seq<(u32, u32)>)
    requires
        unique_pids(s),
    ensures
        forall|p: u32| #[trigger]
            links_map(s).contains_key(p) <==> exists|i: int| 0 <= i < s.len() && s[i].0 == p,
        forall|i: int| 0 <= i < s.len() ==> #[trigger] links_map(s)[s[i].0] == s[i].1,
        links_map(s).dom().finite(),
    decreases s.len(),
{
    if s.len() > 0 {
        let t = s.drop_last();
        lemma_links_map(t);
        assert forall|p: u32| #[trigger]
            links_map(s).contains_key(p) implies exists|i: int| 0 <= i < s.len() && s[i].0 == p by {
            if p != s.last().0 {
                let i = choose|i: int| 0 <= i < t.len() && t[i].0 == p;
                assert(s[i] == t[i]);
            } else {
                assert(s[s.len() - 1].0 == p);
            }
        }
        assert forall|p: u32| (exists|i: int| 0 <= i < s.len() && s[i].0 == p) implies #[trigger]
            links_map(s).contains_key(p) by {
            let i = choose|i: int| 0 <= i < s.len() && s[i].0 == p;
            if i < s.len() - 1 {
                assert(t[i].0 == p);
            }
        }
        assert forall|i: int| 0 <= i < s.len() implies #[trigger] links_map(s)[s[i].0] == s[i].1 by {
            if i < s.len() - 1 {
                assert(t[i] == s[i]);
                assert(links_map(t)[t[i].0] == t[i].1);
            }
        }
    }
}

/// `c` is a child of `p` in the PPID graph of `m`: both are known
/// processes and `p` is the recorded parent of `c`.
pub open spec fn graph_child(m: Map<u32, u32>, c: u32, p: u32) -> bool {
    m.contains_key(c) && m.contains_key(p) && m[c] == p
}

/// `p` roots a tree: its parent is init (PID 1) or not a known process.
pub open spec fn is_forest_root(m: Map<u32, u32>, p: u32) -> bool {
    m.contains_key(p) && (m[p] == 1 || !m.contains_key(m[p]))
}

impl ProcessTree {
    /// This tree is the part of the PPID graph `m` below its root: it is
    /// well-formed, its parent links are those of `m`, and every known child
    /// of a node of the tree is in the tree.  Together with well-formedness
    /// (each non-root node reaches the root through its parents), the nodes
    /// are exactly the root and its descendants.
    pub open spec fn spans(&self, m: Map<u32, u32>) -> bool {
        &&& self.wf()
        &&& m.contains_key(self.root)
        &&& forall|x: u32| #[trigger] self.nodes@.contains(x) ==> m.contains_key(x)
        &&& forall|c: u32| #[trigger]
            self.parents@.contains_key(c) ==> m[c] == self.parents@[c]
        &&& forall|p: u32, c: u32|
            self.nodes@.contains(p) && #[trigger] graph_child(m, c, p) ==> self.nodes@.contains(c)
        &&& self.depths@.dom() == self.nodes@.to_set()
    }
}

/// The PPID links of a set of processes, from which the process forest is
/// built: one map from PID to parent PID.
pub struct ProcessForest {
    processes: HashMap<u32, u32>,
}

impl View for ProcessForest {
    type V = Map<u32, u32>;

    closed spec fn view(&self) -> Map<u32, u32> {
        self.processes@
    }
}

impl ProcessForest {
    /// An empty forest.
    pub fn new() -> (f: ProcessForest)
        ensures
            f@ == Map::<u32, u32>::empty(),
    {
        ProcessForest { processes: HashMap::new() }
    }

    /// Add a process; a process with the same PID is replaced.
    pub fn add_process(&mut self, pid: u32, ppid: u32)
        ensures
            final(self)@ == old(self)@.insert(pid, ppid),
    {
        self.processes.insert(pid, ppid);
    }

    /// Remove all processes.
    pub fn clear(&mut self)
        ensures
            final(self)@ == Map::<u32, u32>::empty(),
    {
        self.processes.clear();
    }

    /// Number of processes.
    pub fn len(&self) -> (n: usize)
        ensures
            n == self@.dom().len(),
    {
        self.processes.len()
    }

    /// Build the process forest from PPID relationships.
    ///
    /// Fails with `EmptyForest` exactly when there are no processes.  Every
    /// tree is the part of the PPID graph below its root, every process is in
    /// some tree, and the trees rooted at forest roots (parent is PID 1 or
    /// unknown) come first, in increasing root order; the remaining trees are
    /// rooted at processes not reachable from any forest root.  No tree is
    /// rooted at a process that an earlier tree holds.
    pub fn build_forest(&self) -> (res: Result<Vec<ProcessTree>, BeliefPropError>)
        ensures
            res is Err <==> self@.dom().len() == 0,
            res matches Err(e) ==> e is EmptyForest,
            res matches Ok(trees) ==> forest_of(self@, trees@),
    {
        let table = LinkTable::from_map(&self.processes);
        table.build_forest()
    }
}

/// The links of a process map as a list of `(pid, ppid)` pairs, in the
/// order the map is walked; each PID occurs once.
struct LinkTable {
    links: Vec<(u32, u32)>,
}

impl View for LinkTable {
    type V = Map<u32, u32>;

    closed spec fn view(&self) -> Map<u32, u32> {
        links_map(self.links@)
    }
}

impl LinkTable {
    #[verifier::type_invariant]
    closed spec fn inv(&self) -> bool {
        unique_pids(self.links@)
    }

    /// The links of `m`, in its walk order.
    fn from_map(m: &HashMap<u32, u32>) -> (t: LinkTable)
        ensures
            t@ == m@,
    {
        let iter = m.iter();
        let ghost rem = vstd::std_specs::iter::IteratorSpec::remaining(&iter);
        proof {
            assert(rem == vstd::std_specs::iter::IteratorSpec::remaining(
                &vstd::std_specs::hash::spec_hash_map_iter(m),
            ));
        }
        let mut links: Vec<(u32, u32)> = Vec::new();
        for pair in it: iter
            invariant
                it.seq() == rem,
                rem == vstd::std_specs::iter::IteratorSpec::remaining(
                    &vstd::std_specs::hash::spec_hash_map_iter(m),
                ),
                links@.len() == it.index(),
                forall|i: int|
                    0 <= i < it.index() ==> #[trigger] links@[i] == (*rem[i].0, *rem[i].1),
        {
            let (k, v) = pair;
            links.push((*k, *v));
        }
        proof {
            assert(rem.no_duplicates());
            assert forall|i: int, j: int| 0 <= i < j < links@.len() implies links@[i].0 != links@[j].0 by {
                if links@[i].0 == links@[j].0 {
                    assert(m@.contains_key(*rem[i].0) && m@[*rem[i].0] == *rem[i].1);
                    assert(m@.contains_key(*rem[j].0) && m@[*rem[j].0] == *rem[j].1);
                    assert(rem[i] == rem[j]);
                }
            }
            lemma_links_map(links@);
            assert forall|p: u32| #[trigger] links_map(links@).contains_key(p) <==> m@.contains_key(p) by {
                if m@.contains_key(p) {
                    assert(rem.contains((&p, &m@[p])));
                    let i = rem.index_of((&p, &m@[p]));
                    assert(links@[i].0 == p);
                }
                if links_map(links@).contains_key(p) {
                    let i = choose|i: int| 0 <= i < links@.len() && links@[i].0 == p;
                    assert(m@.contains_key(*rem[i].0));
                }
            }
            assert forall|p: u32| #[trigger] links_map(links@).contains_key(p) implies links_map(links@)[p] == m@[p] by {
                let i = choose|i: int| 0 <= i < links@.len() && links@[i].0 == p;
                assert(links_map(links@)[links@[i].0] == links@[i].1);
                assert(m@[*rem[i].0] == *rem[i].1);
            }
            assert(links_map(links@) =~= m@);
        }
        LinkTable { links }
    }
}

proof fn lemma_links_len(s: Seq<(u32, u32)>)
    requires
        unique_pids(s),
    ensures
        links_map(s).dom().len() == s.len(),
    decreases s.len(),
{
    if s.len() > 0 {
        let t = s.drop_last();
        lemma_links_len(t);
        lemma_links_map(t);
        assert(!links_map(t).contains_key(s.last().0)) by {
            if links_map(t).contains_key(s.last().0) {
                let k = choose|k: int| 0 <= k < t.len() && t[k].0 == s.last().0;
                assert(s[k].0 == s[s.len() - 1].0);
            }
        }
    }
}

/// First components of a queue of `(pid, depth)` entries.
pub open spec fn fsts(q: Seq<(u32, usize)>) -> Seq<u32> {
    q.map_values(|e: (u32, usize)| e.0)
}

/// Bookkeeping of the breadth-first construction of the tree below `root`:
/// `nodes` have been visited, `queue` holds discovered `(pid, depth)` entries,
/// and the first `n_closed` visited nodes have had all their children
/// discovered.
pub open spec fn bt_inv(
    m: Map<u32, u32>,
    root: u32,
    nodes: Seq<u32>,
    queue: Seq<(u32, usize)>,
    parents: Map<u32, u32>,
    children: Map<u32, Vec<u32>>,
    depths: Map<u32, usize>,
    n_closed: int,
) -> bool {
    let s = nodes + fsts(queue);
    &&& s.no_duplicates()
    &&& s.len() > 0 && s[0] == root
    &&& m.contains_key(root)
    &&& forall|x: u32| #[trigger] s.contains(x) ==> m.contains_key(x)
    &&& forall|c: u32| #[trigger] parents.contains_key(c) <==> (s.contains(c) && c != root)
    &&& forall|c: u32| #[trigger]
        parents.contains_key(c) ==> {
            &&& parents[c] == m[c]
            &&& nodes.contains(m[c])
            &&& children.contains_key(m[c])
            &&& children[m[c]]@.contains(c)
        }
    &&& forall|p: u32| #[trigger]
        children.contains_key(p) ==> {
            &&& nodes.contains(p)
            &&& children[p]@.no_duplicates()
            &&& forall|c: u32| #[trigger]
                children[p]@.contains(c) ==> parents.contains_key(c) && parents[c] == p
        }
    &&& depths.dom() == nodes.to_set()
    &&& forall|i: int| 0 <= i < nodes.len() ==> depths[#[trigger] nodes[i]] <= i
    &&& (nodes.contains(root) ==> depths[root] == 0)
    &&& forall|c: u32| #[trigger]
        nodes.contains(c) && parents.contains_key(c) ==> depths[c] == depths[parents[c]] + 1
    &&& forall|j: int|
        0 <= j < queue.len() ==> {
            &&& (#[trigger] queue[j]).1 <= nodes.len()
            &&& (queue[j].0 == root ==> queue[j].1 == 0)
            &&& (queue[j].0 != root ==> queue[j].1 == depths[parents[queue[j].0]] + 1)
        }
    &&& 0 <= n_closed <= nodes.len()
    &&& forall|i: int, c: u32|
        0 <= i < n_closed && #[trigger] graph_child(m, c, nodes[i]) ==> s.contains(c)
}

proof fn lemma_fsts_push(q: Seq<(u32, usize)>, e: (u32, usize))
    ensures
        fsts(q.push(e)) == fsts(q).push(e.0),
{
    assert(fsts(q.push(e)) =~= fsts(q).push(e.0));
}

proof fn lemma_fsts_drop_first(q: Seq<(u32, usize)>)
    requires
        q.len() > 0,
    ensures
        fsts(q) == seq![q[0].0] + fsts(q.drop_first()),
{
    assert(fsts(q) =~= seq![q[0].0] + fsts(q.drop_first()));
}

/// Visiting the first queued node keeps the bookkeeping (the new node is not
/// yet closed).
proof fn lemma_bt_visit(
    m: Map<u32, u32>,
    root: u32,
    nodes: Seq<u32>,
    queue: Seq<(u32, usize)>,
    parents: Map<u32, u32>,
    children: Map<u32, Vec<u32>>,
    depths: Map<u32, usize>,
)
    requires
        bt_inv(m, root, nodes, queue, parents, children, depths, nodes.len() as int),
        queue.len() > 0,
    ensures
        bt_inv(
            m,
            root,
            nodes.push(queue[0].0),
            queue.drop_first(),
            parents,
            children,
            depths.insert(queue[0].0, queue[0].1),
            nodes.len() as int,
        ),
        !nodes.contains(queue[0].0),
        queue[0].1 <= nodes.len(),
{
    let pid = queue[0].0;
    let d = queue[0].1;
    let s = nodes + fsts(queue);
    let nodes2 = nodes.push(pid);
    let q2 = queue.drop_first();
    let depths2 = depths.insert(pid, d);
    lemma_fsts_drop_first(queue);
    assert(nodes2 + fsts(q2) =~= s);
    assert(s[nodes.len() as int] == pid);
    assert(!nodes.contains(pid)) by {
        if nodes.contains(pid) {
            let k = nodes.index_of(pid);
            assert(s[k] == pid);
        }
    }
    assert forall|x: u32| nodes.contains(x) implies #[trigger] nodes2.contains(x) by {
        let k = nodes.index_of(x);
        assert(nodes2[k] == x);
    }
    assert(nodes2.to_set() =~= nodes.to_set().insert(pid)) by {
        nodes.lemma_push_to_set_commute(pid);
    }
    assert forall|i: int| 0 <= i < nodes2.len() implies depths2[#[trigger] nodes2[i]] <= i by {
        if i < nodes.len() {
            assert(nodes2[i] == nodes[i]);
            assert(nodes.contains(nodes[i]));
        }
    }
    assert forall|c: u32| #[trigger]
        nodes2.contains(c) && parents.contains_key(c) implies depths2[c] == depths2[parents[c]] + 1 by {
        assert(nodes.contains(parents[c]));
        assert(parents[c] != pid);
        if c == pid {
            assert(queue[0].0 != root);
        } else {
            let k = nodes2.index_of(c);
            assert(nodes[k] == c);
            assert(nodes.contains(c));
        }
    }
    assert forall|j: int| 0 <= j < q2.len() implies {
        &&& (#[trigger] q2[j]).1 <= nodes2.len()
        &&& (q2[j].0 == root ==> q2[j].1 == 0)
        &&& (q2[j].0 != root ==> q2[j].1 == depths2[parents[q2[j].0]] + 1)
    } by {
        assert(q2[j] == queue[j + 1]);
        let x = q2[j].0;
        if x != root {
            assert(s[nodes.len() + j + 1] == x);
            assert(s.contains(x));
            assert(parents.contains_key(x));
            assert(nodes.contains(parents[x]));
            assert(parents[x] != pid);
        }
    }
    assert((nodes2.contains(root) ==> depths2[root] == 0)) by {
        if nodes2.contains(root) && pid == root {
            assert(queue[0].0 == root);
        }
    }
    assert forall|p: u32| #[trigger] children.contains_key(p) implies nodes2.contains(p) by {
        assert(nodes.contains(p));
    }
    assert forall|c: u32| #[trigger] parents.contains_key(c) implies nodes2.contains(m[c]) by {
        assert(nodes.contains(m[c]));
    }
    assert forall|i: int, c: u32|
        0 <= i < nodes.len() && #[trigger] graph_child(m, c, nodes2[i]) implies (nodes2 + fsts(q2)).contains(c) by {
        assert(nodes2[i] == nodes[i]);
    }
}

/// Discovering a child `c` of the node being visited keeps the bookkeeping.
proof fn lemma_bt_push(
    m: Map<u32, u32>,
    root: u32,
    nodes: Seq<u32>,
    queue: Seq<(u32, usize)>,
    parents: Map<u32, u32>,
    children: Map<u32, Vec<u32>>,
    depths: Map<u32, usize>,
    c: u32,
    list: Vec<u32>,
)
    requires
        nodes.len() > 0,
        bt_inv(m, root, nodes, queue, parents, children, depths, nodes.len() - 1),
        graph_child(m, c, nodes.last()),
        !nodes.contains(c),
        children.contains_key(nodes.last()) ==> list@ == children[nodes.last()]@.push(c),
        !children.contains_key(nodes.last()) ==> list@ == seq![c],
        children.contains_key(nodes.last()) ==> !children[nodes.last()]@.contains(c),
        depths[nodes.last()] + 1 <= usize::MAX,
    ensures
        !(nodes + fsts(queue)).contains(c),
        bt_inv(
            m,
            root,
            nodes,
            queue.push((c, (depths[nodes.last()] + 1) as usize)),
            parents.insert(c, nodes.last()),
            children.insert(nodes.last(), list),
            depths,
            nodes.len() - 1,
        ),
{
    let pid = nodes.last();
    let d = depths[pid];
    let s = nodes + fsts(queue);
    let e = (c, (d + 1) as usize);
    let q2 = queue.push(e);
    let parents2 = parents.insert(c, pid);
    let children2 = children.insert(pid, list);
    lemma_fsts_push(queue, e);
    let s2 = nodes + fsts(q2);
    assert(s2 =~= s.push(c));
    assert(nodes.contains(pid)) by {
        assert(nodes[nodes.len() - 1] == pid);
    }
    assert(c != root && !parents.contains_key(c) && !s.contains(c)) by {
        if c == root {
            assert(s[0] == root);
            assert(s.contains(root));
        }
        if s.contains(c) && c != root {
            assert(parents.contains_key(c));
            assert(parents[c] == m[c]);
            assert(nodes.contains(m[c]));
            // m[c] == pid, and pid has not been closed: it is the last node,
            // so c could only have been discovered from pid itself.
            assert(children.contains_key(pid));
            assert(children[pid]@.contains(c));
        }
    }
    assert(s2.no_duplicates()) by {
        assert forall|i: int, j: int| 0 <= i < j < s2.len() implies s2[i] != s2[j] by {
            if j == s.len() {
                assert(s.contains(s2[i]));
            }
        }
    }
    assert forall|x: u32| #[trigger] s2.contains(x) implies m.contains_key(x) by {
        if x != c {
            let k = s2.index_of(x);
            assert(s[k] == x);
            assert(s.contains(x));
        }
    }
    assert forall|x: u32| #[trigger] parents2.contains_key(x) <==> (s2.contains(x) && x != root) by {
        if x != c && s2.contains(x) {
            let k = s2.index_of(x);
            assert(s[k] == x);
        }
        if x != c && s.contains(x) {
            let k = s.index_of(x);
            assert(s2[k] == x);
        }
        if x == c {
            assert(s2[s.len() as int] == c);
        }
    }
    assert forall|x: u32| #[trigger] parents2.contains_key(x) implies {
        &&& parents2[x] == m[x]
        &&& nodes.contains(m[x])
        &&& children2.contains_key(m[x])
        &&& children2[m[x]]@.contains(x)
    } by {
        if x == c {
            assert(list@[list@.len() - 1] == c);
        } else if m[x] == pid {
            if children.contains_key(pid) {
                let k = children[pid]@.index_of(x);
                assert(list@[k] == x);
            }
        }
    }
    assert forall|p: u32| #[trigger] children2.contains_key(p) implies {
        &&& nodes.contains(p)
        &&& children2[p]@.no_duplicates()
        &&& forall|x: u32| #[trigger]
            children2[p]@.contains(x) ==> parents2.contains_key(x) && parents2[x] == p
    } by {
        if p == pid {
            if children.contains_key(pid) {
                let old_list = children[pid]@;
                assert(!old_list.contains(c));
                assert forall|i: int, j: int| 0 <= i < j < list@.len() implies list@[i] != list@[j] by {
                    if j == old_list.len() {
                        assert(old_list.contains(list@[i]));
                    }
                }
                assert(list@ == old_list.push(c));
                assert forall|x: u32| #[trigger] list@.contains(x) implies parents2.contains_key(x)
                    && parents2[x] == pid by {
                    if x != c {
                        let k = list@.index_of(x);
                        assert(old_list[k] == x);
                        assert(children[pid]@.contains(x));
                        assert(parents.contains_key(x) && parents[x] == pid);
                    }
                }
            } else {
                assert forall|x: u32| #[trigger] list@.contains(x) implies x == c by {
                    let k = list@.index_of(x);
                }
            }
        } else {
            assert forall|x: u32| #[trigger] children2[p]@.contains(x) implies parents2.contains_key(x)
                && parents2[x] == p by {
                assert(x != c);
            }
        }
    }
    assert forall|x: u32| #[trigger]
        nodes.contains(x) && parents2.contains_key(x) implies depths[x] == depths[parents2[x]] + 1 by {
        assert(x != c);
    }
    assert forall|j: int| 0 <= j < q2.len() implies {
        &&& (#[trigger] q2[j]).1 <= nodes.len()
        &&& (q2[j].0 == root ==> q2[j].1 == 0)
        &&& (q2[j].0 != root ==> q2[j].1 == depths[parents2[q2[j].0]] + 1)
    } by {
        if j < queue.len() {
            assert(q2[j] == queue[j]);
            let x = queue[j].0;
            assert(s[nodes.len() + j] == x);
            assert(s.contains(x));
            assert(x != c);
        } else {
            assert(depths[nodes[nodes.len() - 1]] <= nodes.len() - 1);
        }
    }
    assert forall|i: int, x: u32|
        0 <= i < nodes.len() - 1 && #[trigger] graph_child(m, x, nodes[i]) implies s2.contains(x) by {
        assert(s.contains(x));
        let k = s.index_of(x);
        assert(s2[k] == x);
    }
}

/// Once the queue is empty the bookkeeping describes a tree spanning the part
/// of `m` below `root`.
proof fn lemma_bt_done(
    m: Map<u32, u32>,
    tree: ProcessTree,
)
    requires
        bt_inv(
            m,
            tree.root,
            tree.nodes@,
            Seq::empty(),
            tree.parents@,
            tree.children@,
            tree.depths@,
            tree.nodes@.len() as int,
        ),
    ensures
        tree.spans(m),
{
    let nodes = tree.nodes@;
    assert(fsts(Seq::<(u32, usize)>::empty()) =~= Seq::<u32>::empty());
    assert(nodes + fsts(Seq::<(u32, usize)>::empty()) =~= nodes);
    assert(nodes.contains(tree.root)) by {
        assert(nodes[0] == tree.root);
    }
    assert forall|n: u32| #[trigger] nodes.contains(n) implies tree.depths@.contains_key(n) by {
        assert(nodes.to_set().contains(n));
    }
    assert forall|c: u32| #[trigger] tree.parents@.contains_key(c) implies tree.depths@[c]
        == tree.depths@[tree.parents@[c]] + 1 by {
        assert(nodes.contains(c));
    }
    assert forall|p: u32, c: u32| nodes.contains(p) && #[trigger] graph_child(m, c, p) implies nodes.contains(c) by {
        let i = nodes.index_of(p);
        assert(graph_child(m, c, nodes[i]));
    }
}

impl LinkTable {
    /// Children lists of the PPID graph: for every known process, the known
    /// processes whose parent it is.
    fn adjacency(&self, pids: &HashSet<u32>) -> (adj: HashMap<u32, Vec<u32>>)
        requires
            pids@ == self@.dom(),
        ensures
            forall|p: u32| #[trigger]
                adj@.contains_key(p) ==> adj@[p]@.no_duplicates() && forall|c: u32|
                    #[trigger] adj@[p]@.contains(c) <==> graph_child(self@, c, p),
            forall|c: u32, p: u32| #[trigger] graph_child(self@, c, p) ==> adj@.contains_key(p),
    {
        proof {
            use_type_invariant(self);
            lemma_links_map(self.links@);
        }
        let ghost m = self@;
        let ghost links = self.links@;
        let mut adj: HashMap<u32, Vec<u32>> = HashMap::new();
        let n = self.links.len();
        for i in 0..n
            invariant
                n == links.len(),
                links == self.links@,
                m == links_map(links),
                unique_pids(links),
                pids@ == m.dom(),
                forall|k: int| 0 <= k < links.len() ==> #[trigger] m[links[k].0] == links[k].1,
                forall|p: u32| #[trigger] m.contains_key(p) <==> exists|k: int|
                    0 <= k < links.len() && links[k].0 == p,
                forall|p: u32| #[trigger]
                    adj@.contains_key(p) ==> adj@[p]@.no_duplicates() && forall|c: u32|
                        #[trigger] adj@[p]@.contains(c) <==> exists|k: int|
                            0 <= k < i && links[k].0 == c && links[k].1 == p && m.contains_key(p),
                forall|k: int|
                    0 <= k < i && m.contains_key(#[trigger] links[k].1) ==> adj@.contains_key(
                        links[k].1,
                    ),
        {
            let (pid, ppid) = self.links[i];
            if pids.contains(&ppid) {
                let ghost old_adj = adj@;
                let mut list = match adj.remove(&ppid) {
                    Some(l) => l,
                    None => Vec::new(),
                };
                let ghost old_list = list@;
                proof {
                    assert(!old_list.contains(pid)) by {
                        if old_list.contains(pid) {
                            let k = choose|k: int|
                                0 <= k < i && links[k].0 == pid && links[k].1 == ppid && m.contains_key(
                                    ppid,
                                );
                            assert(links[i as int].0 == pid);
                        }
                    }
                }
                list.push(pid);
                adj.insert(ppid, list);
                proof {
                    assert forall|p: u32| #[trigger] adj@.contains_key(p) implies adj@[p]@.no_duplicates()
                        && forall|c: u32| #[trigger] adj@[p]@.contains(c) <==> exists|k: int|
                            0 <= k < i + 1 && links[k].0 == c && links[k].1 == p && m.contains_key(p) by {
                        if p == ppid {
                            let l = adj@[p]@;
                            assert(l == old_list.push(pid));
                            assert forall|a: int, b: int| 0 <= a < b < l.len() implies l[a] != l[b] by {
                                if b == old_list.len() {
                                    assert(old_list.contains(l[a]));
                                }
                            }
                            assert forall|c: u32| #[trigger] l.contains(c) <==> exists|k: int|
                                0 <= k < i + 1 && links[k].0 == c && links[k].1 == p && m.contains_key(p) by {
                                if l.contains(c) && c != pid {
                                    let j = l.index_of(c);
                                    assert(old_list[j] == c);
                                    assert(old_list.contains(c));
                                }
                                if exists|k: int| 0 <= k < i + 1 && links[k].0 == c && links[k].1 == p
                                    && m.contains_key(p) {
                                    let k = choose|k: int| 0 <= k < i + 1 && links[k].0 == c && links[k].1
                                        == p && m.contains_key(p);
                                    if k < i {
                                        assert(old_list.contains(c));
                                        let j = old_list.index_of(c);
                                        assert(l[j] == c);
                                    } else {
                                        assert(l[old_list.len() as int] == pid);
                                    }
                                }
                            }
                        } else {
                            assert(adj@[p] == old_adj[p]);
                            assert forall|c: u32| #[trigger] adj@[p]@.contains(c) <==> exists|k: int|
                                0 <= k < i + 1 && links[k].0 == c && links[k].1 == p && m.contains_key(p) by {
                                if exists|k: int| 0 <= k < i + 1 && links[k].0 == c && links[k].1 == p
                                    && m.contains_key(p) {
                                    let k = choose|k: int| 0 <= k < i + 1 && links[k].0 == c && links[k].1
                                        == p && m.contains_key(p);
                                    assert(k != i);
                                }
                            }
                        }
                    }
                }
            } else {
                proof {
                    assert(!m.contains_key(ppid));
                    assert forall|p: u32| #[trigger] adj@.contains_key(p) implies adj@[p]@.no_duplicates()
                        && forall|c: u32| #[trigger] adj@[p]@.contains(c) <==> exists|k: int|
                            0 <= k < i + 1 && links[k].0 == c && links[k].1 == p && m.contains_key(p) by {
                        assert forall|c: u32| #[trigger] adj@[p]@.contains(c) <==> exists|k: int|
                            0 <= k < i + 1 && links[k].0 == c && links[k].1 == p && m.contains_key(p) by {
                            if exists|k: int| 0 <= k < i + 1 && links[k].0 == c && links[k].1 == p
                                && m.contains_key(p) {
                                let k = choose|k: int| 0 <= k < i + 1 && links[k].0 == c && links[k].1 == p
                                    && m.contains_key(p);
                                assert(k != i);
                            }
                        }
                    }
                }
            }
        }
        proof {
            assert forall|p: u32| #[trigger] adj@.contains_key(p) implies adj@[p]@.no_duplicates()
                && forall|c: u32| #[trigger] adj@[p]@.contains(c) <==> graph_child(m, c, p) by {
                assert forall|c: u32| #[trigger] adj@[p]@.contains(c) <==> graph_child(m, c, p) by {
                    if adj@[p]@.contains(c) {
                        let k = choose|k: int| 0 <= k < n && links[k].0 == c && links[k].1 == p
                            && m.contains_key(p);
                        assert(m[links[k].0] == links[k].1);
                    }
                    if graph_child(m, c, p) {
                        let k = choose|k: int| 0 <= k < links.len() && links[k].0 == c;
                        assert(m[links[k].0] == links[k].1);
                    }
                }
            }
            assert forall|c: u32, p: u32| #[trigger] graph_child(m, c, p) implies adj@.contains_key(p) by {
                let k = choose|k: int| 0 <= k < links.len() && links[k].0 == c;
                assert(m[links[k].0] == links[k].1);
            }
        }
        adj
    }
}

/// A duplicate-free sequence drawn from a finite set is no longer than the set.
proof fn lemma_nodup_in_set_len(s: Seq<u32>, d: Set<u32>)
    requires
        s.no_duplicates(),
        d.finite(),
        forall|x: u32| s.contains(x) ==> d.contains(x),
    ensures
        s.len() <= d.len(),
{
    s.unique_seq_to_set();
    assert(s.to_set().subset_of(d));
    vstd::set_lib::lemma_len_subset(s.to_set(), d);
}

impl LinkTable {
    /// Build the tree below `root` breadth-first, marking its nodes as
    /// assigned.
    fn build_tree(&self, root: u32, all_pids: &HashSet<u32>, assigned: &mut HashSet<u32>) -> (res:
        Result<ProcessTree, BeliefPropError>)
        requires
            all_pids@ == self@.dom(),
            self@.contains_key(root),
        ensures
            res matches Ok(t) && t.root == root && t.spans(self@) && final(assigned)@ == old(
                assigned,
            )@.union(t.nodes@.to_set()),
    {
        proof {
            use_type_invariant(self);
            lemma_links_map(self.links@);
        }
        let ghost m = self@;
        let mut nodes: Vec<u32> = Vec::new();
        let mut parents: HashMap<u32, u32> = HashMap::new();
        let mut children: HashMap<u32, Vec<u32>> = HashMap::new();
        let mut depths: HashMap<u32, usize> = HashMap::new();
        let adjacency = self.adjacency(all_pids);
        let mut queue: VecDeque<(u32, usize)> = VecDeque::new();
        queue.push_back((root, 0usize));
        let mut visited: HashSet<u32> = HashSet::new();
        proof {
            assert(fsts(queue@) =~= seq![root]);
            assert(nodes@ + fsts(queue@) =~= seq![root]);
            assert(nodes@.to_set() =~= Set::<u32>::empty());
            assert(assigned@ =~= old(assigned)@.union(nodes@.to_set()));
            assert forall|x: u32| #[trigger] seq![root].contains(x) implies x == root by {
                let k = seq![root].index_of(x);
            }
        }
        while queue.len() > 0
            invariant
                m == self@,
                m.dom().finite(),
                all_pids@ == m.dom(),
                forall|p: u32| #[trigger]
                    adjacency@.contains_key(p) ==> adjacency@[p]@.no_duplicates() && forall|c: u32|
                        #[trigger] adjacency@[p]@.contains(c) <==> graph_child(m, c, p),
                forall|c: u32, p: u32| #[trigger] graph_child(m, c, p) ==> adjacency@.contains_key(p),
                bt_inv(m, root, nodes@, queue@, parents@, children@, depths@, nodes@.len() as int),
                visited@ == nodes@.to_set(),
                assigned@ == old(assigned)@.union(nodes@.to_set()),
            decreases m.dom().len() - nodes@.len(),
        {
            proof {
                lemma_bt_visit(m, root, nodes@, queue@, parents@, children@, depths@);
                let sq = nodes@ + fsts(queue@);
                lemma_nodup_in_set_len(sq, m.dom());
            }
            let ghost q0 = queue@;
            let (pid, depth) = queue.pop_front().unwrap();
            if visited.contains(&pid) {
                assert(nodes@.contains(pid));
                continue;
            }
            visited.insert(pid);
            assigned.insert(pid);
            let ghost prev_nodes = nodes@;
            nodes.push(pid);
            depths.insert(pid, depth);
            let nl = nodes.len();
            proof {
                prev_nodes.lemma_push_to_set_commute(pid);
                assert(visited@ =~= nodes@.to_set());
                assert(assigned@ =~= old(assigned)@.union(nodes@.to_set()));
                assert(queue@ == q0.drop_first());
                assert(nodes@.last() == pid);
            }
            match adjacency.get(&pid) {
                Some(child_pids) => {
                    let nc = child_pids.len();
                    for k in 0..nc
                        invariant
                            m == self@,
                            m.dom().finite(),
                            nc == child_pids@.len(),
                            child_pids@.no_duplicates(),
                            forall|c: u32| #[trigger] child_pids@.contains(c) <==> graph_child(m, c, pid),
                            nodes@.len() > 0,
                            nodes@.last() == pid,
                            depths@[pid] == depth,
                            depth <= nodes@.len() - 1,
                            nl == nodes@.len(),
                            bt_inv(m, root, nodes@, queue@, parents@, children@, depths@, nodes@.len() - 1),
                            visited@ == nodes@.to_set(),
                            assigned@ == old(assigned)@.union(nodes@.to_set()),
                            forall|j: int| 0 <= j < k ==> (nodes@ + fsts(queue@)).contains(#[trigger] child_pids@[j]),
                            children@.contains_key(pid) ==> forall|x: u32| #[trigger] children@[pid]@.contains(x)
                                ==> child_pids@.take(k as int).contains(x),
                    {
                        let child_pid = child_pids[k];
                        proof {
                            assert(child_pids@.contains(child_pid));
                        }
                        if !visited.contains(&child_pid) {
                            let ghost prev_children = children@;
                            let ghost prev_queue = queue@;
                            let ghost prev_parents = parents@;
                            let mut list = match children.remove(&pid) {
                                Some(l) => l,
                                None => Vec::new(),
                            };
                            list.push(child_pid);
                            proof {
                                assert(!nodes@.contains(child_pid));
                                if prev_children.contains_key(pid) {
                                    assert(!prev_children[pid]@.contains(child_pid)) by {
                                        if prev_children[pid]@.contains(child_pid) {
                                            let j = child_pids@.take(k as int).index_of(child_pid);
                                            assert(child_pids@[j] == child_pids@[k as int]);
                                        }
                                    }
                                }
                                lemma_bt_push(
                                    m,
                                    root,
                                    nodes@,
                                    prev_queue,
                                    prev_parents,
                                    prev_children,
                                    depths@,
                                    child_pid,
                                    list,
                                );
                            }
                            let ghost new_list = list@;
                            children.insert(pid, list);
                            parents.insert(child_pid, pid);
                            queue.push_back((child_pid, depth + 1));
                            proof {
                                assert(children@ =~= prev_children.insert(pid, children@[pid]));
                                lemma_fsts_push(prev_queue, (child_pid, (depth + 1) as usize));
                                assert forall|j: int| 0 <= j < k + 1 implies (nodes@ + fsts(queue@)).contains(
                                    #[trigger] child_pids@[j],
                                ) by {
                                    let s0 = nodes@ + fsts(prev_queue);
                                    let s1 = nodes@ + fsts(queue@);
                                    assert(s1 =~= s0.push(child_pid));
                                    if j < k {
                                        assert(s0.contains(child_pids@[j]));
                                        let t = s0.index_of(child_pids@[j]);
                                        assert(s1[t] == child_pids@[j]);
                                    } else {
                                        assert(s1[s0.len() as int] == child_pid);
                                    }
                                }
                                assert forall|x: u32| #[trigger] children@[pid]@.contains(x)
                                    implies child_pids@.take(k + 1).contains(x) by {
                                    if x == child_pid {
                                        assert(child_pids@.take(k + 1)[k as int] == x);
                                    } else {
                                        let j = new_list.index_of(x);
                                        assert(j < new_list.len() - 1);
                                        assert(prev_children.contains_key(pid));
                                        assert(prev_children[pid]@[j] == x);
                                        assert(prev_children[pid]@.contains(x));
                                        let t = child_pids@.take(k as int).index_of(x);
                                        assert(child_pids@.take(k + 1)[t] == x);
                                    }
                                }
                            }
                        } else {
                            proof {
                                assert(nodes@.contains(child_pid));
                                let t = nodes@.index_of(child_pid);
                                assert((nodes@ + fsts(queue@))[t] == child_pid);
                                assert forall|j: int| 0 <= j < k + 1 implies (nodes@ + fsts(queue@)).contains(
                                    #[trigger] child_pids@[j],
                                ) by {
                                    if j == k {
                                        assert((nodes@ + fsts(queue@))[t] == child_pids@[j]);
                                    }
                                }
                                if children@.contains_key(pid) {
                                    assert forall|x: u32| #[trigger] children@[pid]@.contains(x)
                                        implies child_pids@.take(k + 1).contains(x) by {
                                        let j = child_pids@.take(k as int).index_of(x);
                                        assert(child_pids@.take(k + 1)[j] == x);
                                    }
                                }
                            }
                        }
                    }
                    proof {
                        let s1 = nodes@ + fsts(queue@);
                        assert forall|i: int, c: u32|
                            0 <= i < nodes@.len() && #[trigger] graph_child(m, c, nodes@[i]) implies s1.contains(c) by {
                            if i == nodes@.len() - 1 {
                                assert(child_pids@.contains(c));
                                let j = child_pids@.index_of(c);
                                assert(s1.contains(child_pids@[j]));
                            }
                        }
                    }
                },
                None => {
                    proof {
                        let s1 = nodes@ + fsts(queue@);
                        assert forall|i: int, c: u32|
                            0 <= i < nodes@.len() && #[trigger] graph_child(m, c, nodes@[i]) implies s1.contains(c) by {
                            if i == nodes@.len() - 1 {
                                assert(graph_child(m, c, pid));
                            }
                        }
                    }
                },
            }
        }
        let tree = ProcessTree { root, nodes, parents, children, depths };
        proof {
            assert(queue@ =~= Seq::<(u32, usize)>::empty());
            lemma_bt_done(m, tree);
        }
        Ok(tree)
    }
}

/// The first `split` trees are rooted at forest roots, in increasing root
/// order, and the others are not rooted at forest roots.
pub open spec fn roots_in_order(m: Map<u32, u32>, trees: Seq<ProcessTree>, split: int) -> bool {
    &&& 0 <= split <= trees.len()
    &&& forall|k: int| 0 <= k < split ==> is_forest_root(m, (#[trigger] trees[k]).root)
    &&& forall|k1: int, k2: int|
        0 <= k1 < k2 < split ==> (#[trigger] trees[k1]).root < (#[trigger] trees[k2]).root
    &&& forall|k: int| split <= k < trees.len() ==> !is_forest_root(m, (#[trigger] trees[k]).root)
}

/// Sorts PIDs in ascending order with std's `slice::sort`.  Trusted: the
/// result is sorted and holds the same PIDs, each as often as before.
#[verifier::external_body]
fn sort_pids(v: &mut Vec<u32>)
    ensures
        final(v)@.to_multiset() == old(v)@.to_multiset(),
        forall|i: int, j: int| 0 <= i < j < final(v)@.len() ==> final(v)@[i] <= final(v)@[j],
{
    v.sort();
}

/// `trees` is a process forest of the PPID graph `m`: there is at least one
/// tree, every tree spans the part of `m` below its root, every process is in
/// some tree, the trees rooted at forest roots come first, in increasing
/// root order, and no tree is rooted inside an earlier tree.
pub open spec fn forest_of(m: Map<u32, u32>, trees: Seq<ProcessTree>) -> bool {
    &&& trees.len() > 0
    &&& all_span(m, trees)
    &&& forall|p: u32| #[trigger]
        m.contains_key(p) ==> exists|k: int| 0 <= k < trees.len() && (#[trigger] trees[k]).nodes@.contains(p)
    &&& exists|split: int| #[trigger] roots_in_order(m, trees, split)
    &&& roots_fresh(trees)
}

/// No tree is rooted at a process that an earlier tree already holds: a
/// tree is only started at a process not yet placed in the forest.
pub open spec fn roots_fresh(t: Seq<ProcessTree>) -> bool {
    forall|k1: int, k2: int|
        0 <= k1 < k2 < t.len() ==> !(#[trigger] t[k1]).nodes@.contains((#[trigger] t[k2]).root)
}

/// `rank` drops from every process to its parent wherever that parent is a
/// known process.
pub open spec fn ranks_parents(m: Map<u32, u32>, rank: spec_fn(u32) -> nat) -> bool {
    forall|c: u32| #[trigger] m.contains_key(c) && m.contains_key(m[c]) ==> rank(m[c]) < rank(c)
}

/// The PPID graph has no cycle: some ranking of the processes drops from
/// each process to its known parent.
pub open spec fn ppid_acyclic(m: Map<u32, u32>) -> bool {
    exists|rank: spec_fn(u32) -> nat| #[trigger] ranks_parents(m, rank)
}

/// Two trees that span `m` and whose roots have no known parent share no
/// process unless they have the same root.
proof fn lemma_shared_node_same_root(m: Map<u32, u32>, t1: ProcessTree, t2: ProcessTree, x: u32)
    requires
        t1.spans(m),
        t2.spans(m),
        !m.contains_key(m[t1.root]),
        !m.contains_key(m[t2.root]),
        t1.nodes@.contains(x),
        t2.nodes@.contains(x),
    ensures
        t1.root == t2.root,
    decreases t1.depths@[x],
{
    if x == t1.root {
        if x != t2.root {
            assert(t2.parents@.contains_key(x));
            assert(t2.nodes@.contains(t2.parents@[x]));
        }
    } else {
        assert(t1.parents@.contains_key(x));
        let p = t1.parents@[x];
        assert(t1.nodes@.contains(p));
        assert(m[x] == p);
        if x == t2.root {
            assert(m.contains_key(p));
        } else {
            assert(t2.parents@.contains_key(x));
            assert(t2.nodes@.contains(p));
            lemma_shared_node_same_root(m, t1, t2, p);
        }
    }
}

/// In an acyclic PPID graph every process lies in one of the first `split`
/// trees, those rooted at forest roots.
proof fn lemma_in_forest_root_tree(
    m: Map<u32, u32>,
    trees: Seq<ProcessTree>,
    split: int,
    rank: spec_fn(u32) -> nat,
    x: u32,
)
    requires
        forest_of(m, trees),
        roots_in_order(m, trees, split),
        ranks_parents(m, rank),
        m.contains_key(x),
    ensures
        exists|j: int| 0 <= j < split && (#[trigger] trees[j]).nodes@.contains(x),
    decreases rank(x),
{
    reveal(all_span);
    if !m.contains_key(m[x]) {
        let j = choose|j: int| 0 <= j < trees.len() && (#[trigger] trees[j]).nodes@.contains(x);
        assert(trees[j].spans(m));
        if j >= split {
            assert(is_forest_root(m, x));
            assert(!is_forest_root(m, trees[j].root));
            assert(trees[j].parents@.contains_key(x));
            assert(trees[j].nodes@.contains(trees[j].parents@[x]));
        }
    } else {
        let p = m[x];
        lemma_in_forest_root_tree(m, trees, split, rank, p);
        let j = choose|j: int| 0 <= j < split && (#[trigger] trees[j]).nodes@.contains(p);
        assert(trees[j].spans(m));
        assert(graph_child(m, x, p));
    }
}

/// Init (PID 1), where it is among the processes, has no known parent and
/// no process 0 below it.
pub open spec fn init_on_top(m: Map<u32, u32>) -> bool {
    m.contains_key(1) ==> !m.contains_key(m[1]) && !(m.contains_key(0) && m[0] == 1)
}

/// Law: when the PPID graph has no cycle and init (PID 1) is on top of it,
/// every tree of the forest is rooted at a forest root with no known parent,
/// and the trees are pairwise disjoint, so each process lies in exactly one
/// tree.
pub proof fn lemma_forest_disjoint(m: Map<u32, u32>, trees: Seq<ProcessTree>)
    requires
        forest_of(m, trees),
        ppid_acyclic(m),
        init_on_top(m),
    ensures
        forall|k: int|
            0 <= k < trees.len() ==> is_forest_root(m, (#[trigger] trees[k]).root) && !m.contains_key(
                m[trees[k].root],
            ),
        forall|k1: int, k2: int, x: u32|
            0 <= k1 < k2 < trees.len() ==> !(#[trigger] trees[k1].nodes@.contains(x)
                && #[trigger] trees[k2].nodes@.contains(x)),
{
    reveal(all_span);
    let rank = choose|rank: spec_fn(u32) -> nat| #[trigger] ranks_parents(m, rank);
    let split = choose|split: int| #[trigger] roots_in_order(m, trees, split);
    assert(roots_fresh(trees));
    assert forall|k: int| 0 <= k < trees.len() implies is_forest_root(m, (#[trigger] trees[k]).root) by {
        if k >= split {
            let r = trees[k].root;
            assert(trees[k].spans(m));
            lemma_in_forest_root_tree(m, trees, split, rank, r);
            let j = choose|j: int| 0 <= j < split && (#[trigger] trees[j]).nodes@.contains(r);
            assert(!trees[j].nodes@.contains(trees[k].root));
        }
    }
    assert forall|k: int| 0 <= k < trees.len() implies !m.contains_key(m[(#[trigger] trees[k]).root]) by {
        let r = trees[k].root;
        assert(trees[k].spans(m));
        if m.contains_key(m[r]) {
            // `r` hangs below init, which roots an earlier tree holding `r`.
            assert(m[r] == 1);
            assert(r != 1 && r != 0);
            lemma_in_forest_root_tree(m, trees, split, rank, 1);
            let j = choose|j: int| 0 <= j < split && (#[trigger] trees[j]).nodes@.contains(1u32);
            assert(trees[j].spans(m));
            if trees[j].root != 1 {
                assert(trees[j].parents@.contains_key(1));
                assert(trees[j].nodes@.contains(trees[j].parents@[1]));
            }
            assert(graph_child(m, r, 1));
            assert(trees[j].nodes@.contains(r));
            assert(k < split);
            if k < j {
                assert(trees[k].root < trees[j].root);
            }
            assert(j != k);
            assert(!trees[j].nodes@.contains(trees[k].root));
        }
    }
    assert forall|k1: int, k2: int, x: u32|
        0 <= k1 < k2 < trees.len() implies !(#[trigger] trees[k1].nodes@.contains(x)
            && #[trigger] trees[k2].nodes@.contains(x)) by {
        if trees[k1].nodes@.contains(x) && trees[k2].nodes@.contains(x) {
            assert(trees[k1].spans(m));
            assert(trees[k2].spans(m));
            assert(!m.contains_key(m[trees[k1].root]));
            assert(!m.contains_key(m[trees[k2].root]));
            lemma_shared_node_same_root(m, trees[k1], trees[k2], x);
            assert(trees[k2].nodes@.contains(trees[k2].root));
            assert(!trees[k1].nodes@.contains(trees[k2].root));
        }
    }
}

/// `a` is exactly the set of nodes of the trees in `t`.
pub open spec fn covers(a: Set<u32>, t: Seq<ProcessTree>) -> bool {
    forall|x: u32| #[trigger]
        a.contains(x) <==> exists|k: int| 0 <= k < t.len() && (#[trigger] t[k]).nodes@.contains(x)
}

/// Every tree in `t` spans its part of the PPID graph `m`.
#[verifier::opaque]
pub open spec fn all_span(m: Map<u32, u32>, t: Seq<ProcessTree>) -> bool {
    forall|k: int| 0 <= k < t.len() ==> (#[trigger] t[k]).spans(m)
}

impl LinkTable {
    /// Build the tree below `root` and append it to `trees`.
    fn add_tree(
        &self,
        root: u32,
        all_pids: &HashSet<u32>,
        assigned: &mut HashSet<u32>,
        trees: &mut Vec<ProcessTree>,
    )
        requires
            all_pids@ == self@.dom(),
            self@.contains_key(root),
            covers(old(assigned)@, old(trees)@),
            all_span(self@, old(trees)@),
            !old(assigned)@.contains(root),
            roots_fresh(old(trees)@),
        ensures
            covers(final(assigned)@, final(trees)@),
            all_span(self@, final(trees)@),
            roots_fresh(final(trees)@),
            final(trees)@.len() == old(trees)@.len() + 1,
            final(trees)@.drop_last() == old(trees)@,
            final(trees)@.last().root == root,
            final(assigned)@.contains(root),
            old(assigned)@.subset_of(final(assigned)@),
    {
        reveal(all_span);
        let ghost old_assigned = assigned@;
        let ghost old_trees = trees@;
        let tree = match self.build_tree(root, all_pids, assigned) {
            Ok(t) => t,
            Err(_) => {
                return;
            },
        };
        trees.push(tree);
        proof {
            assert(trees@ == old_trees.push(tree));
            assert(trees@.drop_last() =~= old_trees);
            assert(tree.nodes@.contains(root)) by {
                assert(tree.wf());
            }
            assert(tree.nodes@.to_set().contains(root));
            assert forall|x: u32| #[trigger] assigned@.contains(x) <==> exists|k: int|
                0 <= k < trees@.len() && (#[trigger] trees@[k]).nodes@.contains(x) by {
                if assigned@.contains(x) && !old_assigned.contains(x) {
                    assert(tree.nodes@.to_set().contains(x));
                    assert(trees@[old_trees.len() as int] == tree);
                }
                if old_assigned.contains(x) {
                    let k = choose|k: int| 0 <= k < old_trees.len() && (#[trigger] old_trees[k]).nodes@.contains(x);
                    assert(trees@[k] == old_trees[k]);
                }
                if exists|k: int| 0 <= k < trees@.len() && (#[trigger] trees@[k]).nodes@.contains(x) {
                    let k = choose|k: int| 0 <= k < trees@.len() && (#[trigger] trees@[k]).nodes@.contains(x);
                    if k < old_trees.len() {
                        assert(old_trees[k] == trees@[k]);
                    } else {
                        assert(tree.nodes@.to_set().contains(x));
                    }
                }
            }
            assert forall|k: int| 0 <= k < trees@.len() implies (#[trigger] trees@[k]).spans(self@) by {
                if k < old_trees.len() {
                    assert(old_trees[k] == trees@[k]);
                }
            }
            assert forall|k1: int, k2: int| 0 <= k1 < k2 < trees@.len() implies !(
            #[trigger] trees@[k1]).nodes@.contains((#[trigger] trees@[k2]).root) by {
                assert(trees@[k1] == old_trees[k1]);
                if k2 < old_trees.len() {
                    assert(trees@[k2] == old_trees[k2]);
                } else if old_trees[k1].nodes@.contains(root) {
                    assert(old_assigned.contains(root));
                }
            }
        }
    }

    /// The forest of the links (see `ProcessForest::build_forest`).
    #[verifier::rlimit(40)]
    fn build_forest(&self) -> (res: Result<Vec<ProcessTree>, BeliefPropError>)
        ensures
            res is Err <==> self@.dom().len() == 0,
            res matches Err(e) ==> e is EmptyForest,
            res matches Ok(trees) ==> forest_of(self@, trees@),
    {
        proof {
            use_type_invariant(self);
            lemma_links_map(self.links@);
            lemma_links_len(self.links@);
        }
        let ghost m = self@;
        let ghost links = self.links@;
        let n = self.links.len();
        if n == 0 {
            return Err(BeliefPropError::EmptyForest);
        }
        let pids = self.pid_set();
        let mut assigned: HashSet<u32> = HashSet::new();
        let mut trees: Vec<ProcessTree> = Vec::new();
        let roots = self.sorted_roots(&pids);
        proof {
            assert(covers(assigned@, trees@));
            reveal(all_span);
        }
        let ghost mut last_a: int = -1;
        let nr = roots.len();
        for j in 0..nr
            invariant
                nr == roots@.len(),
                m == self@,
                pids@ == m.dom(),
                roots@.no_duplicates(),
                forall|a: int, b: int| 0 <= a < b < roots@.len() ==> roots@[a] <= roots@[b],
                forall|x: u32| #[trigger] roots@.contains(x) <==> is_forest_root(m, x),
                covers(assigned@, trees@),
                all_span(m, trees@),
                trees@.len() > 0 ==> 0 <= last_a < j && roots@[last_a] == trees@.last().root,
                roots_in_order(m, trees@, trees@.len() as int),
                roots_fresh(trees@),
                forall|a: int| 0 <= a < j ==> assigned@.contains(#[trigger] roots@[a]),
        {
            let root = roots[j];
            proof {
                assert(roots@.contains(root));
            }
            if !assigned.contains(&root) {
                let ghost old_trees = trees@;
                let ghost old_assigned = assigned@;
                self.add_tree(root, &pids, &mut assigned, &mut trees);
                proof {
                    if old_trees.len() > 0 {
                        assert(roots@[last_a] <= roots@[j as int]);
                        assert(roots@[last_a] != roots@[j as int]);
                    }
                    assert forall|k1: int, k2: int|
                        0 <= k1 < k2 < trees@.len() implies (#[trigger] trees@[k1]).root < (
                        #[trigger] trees@[k2]).root by {
                        assert(old_trees[k1] == trees@[k1]);
                        if k2 == old_trees.len() {
                            if k1 < old_trees.len() - 1 {
                                assert(old_trees[k1].root < old_trees[old_trees.len() - 1].root);
                            }
                        } else {
                            assert(old_trees[k2] == trees@[k2]);
                        }
                    }
                    last_a = j as int;
                    assert forall|k: int| 0 <= k < trees@.len() implies is_forest_root(m, (#[trigger] trees@[k]).root) by {
                        if k < old_trees.len() {
                            assert(old_trees[k] == trees@[k]);
                        } else {
                            assert(roots@.contains(root));
                        }
                    }
                    assert forall|a: int| 0 <= a < j + 1 implies assigned@.contains(#[trigger] roots@[a]) by {
                        if a < j {
                            assert(old_assigned.contains(roots@[a]));
                        }
                    }
                }
            }
        }
        let ghost split = trees@.len() as int;
        proof {
            assert forall|r: u32| is_forest_root(m, r) implies #[trigger] assigned@.contains(r) by {
                assert(roots@.contains(r));
                let a = roots@.index_of(r);
                assert(assigned@.contains(roots@[a]));
            }
        }

        // Processes not reachable from any forest root.
        for i in 0..n
            invariant
                n == links.len(),
                links == self.links@,
                m == self@,
                pids@ == m.dom(),
                forall|p: u32| #[trigger] m.contains_key(p) <==> exists|k: int|
                    0 <= k < links.len() && links[k].0 == p,
                forall|r: u32| is_forest_root(m, r) ==> #[trigger] assigned@.contains(r),
                covers(assigned@, trees@),
                all_span(m, trees@),
                roots_in_order(m, trees@, split),
                roots_fresh(trees@),
                forall|k: int| 0 <= k < i ==> assigned@.contains(#[trigger] links[k].0),
        {
            let pid = self.links[i].0;
            proof {
                assert(m.contains_key(pid));
            }
            if !assigned.contains(&pid) {
                let ghost old_trees = trees@;
                let ghost old_assigned = assigned@;
                self.add_tree(pid, &pids, &mut assigned, &mut trees);
                proof {
                    assert(!is_forest_root(m, pid));
                    assert forall|k: int| 0 <= k < split implies is_forest_root(m, (#[trigger] trees@[k]).root) by {
                        assert(old_trees[k] == trees@[k]);
                    }
                    assert forall|k1: int, k2: int| 0 <= k1 < k2 < split implies (#[trigger] trees@[k1]).root < (
                        #[trigger] trees@[k2]).root by {
                        assert(old_trees[k1] == trees@[k1]);
                        assert(old_trees[k2] == trees@[k2]);
                    }
                    assert forall|k: int| split <= k < trees@.len() implies !is_forest_root(m, (#[trigger] trees@[k]).root) by {
                        if k < old_trees.len() {
                            assert(old_trees[k] == trees@[k]);
                        }
                    }
                    assert forall|k: int| 0 <= k < i + 1 implies assigned@.contains(#[trigger] links[k].0) by {
                        if k < i {
                            assert(old_assigned.contains(links[k].0));
                        }
                    }
                    assert forall|r: u32| is_forest_root(m, r) implies #[trigger] assigned@.contains(r) by {
                        assert(old_assigned.contains(r));
                    }
                }
            }
        }
        proof {
            assert forall|p: u32| #[trigger] m.contains_key(p) implies exists|k: int|
                0 <= k < trees@.len() && (#[trigger] trees@[k]).nodes@.contains(p) by {
                let k = choose|k: int| 0 <= k < links.len() && links[k].0 == p;
                assert(assigned@.contains(links[k].0));
            }
            assert(m.contains_key(links[0].0));
            let k = choose|k: int| 0 <= k < trees@.len() && (#[trigger] trees@[k]).nodes@.contains(links[0].0);
            assert(trees@.len() > 0);
            assert(roots_in_order(self@, trees@, split));
            assert(forest_of(self@, trees@));
        }
        Ok(trees)
    }

    /// The set of known PIDs.
    fn pid_set(&self) -> (pids: HashSet<u32>)
        ensures
            pids@ == self@.dom(),
    {
        proof {
            use_type_invariant(self);
            lemma_links_map(self.links@);
        }
        let ghost links = self.links@;
        let n = self.links.len();
        let mut pids: HashSet<u32> = HashSet::new();
        for i in 0..n
            invariant
                n == links.len(),
                links == self.links@,
                forall|p: u32| #[trigger] pids@.contains(p) <==> exists|k: int|
                    0 <= k < i && links[k].0 == p,
        {
            pids.insert(self.links[i].0);
            proof {
                assert forall|p: u32| #[trigger] pids@.contains(p) <==> exists|k: int|
                    0 <= k < i + 1 && links[k].0 == p by {
                    if p == links[i as int].0 {
                        assert(links[i as int].0 == p);
                    }
                }
            }
        }
        proof {
            assert(pids@ =~= self@.dom());
        }
        pids
    }

    /// Forest roots (parent is init or unknown), in increasing order.
    fn sorted_roots(&self, pids: &HashSet<u32>) -> (roots: Vec<u32>)
        requires
            pids@ == self@.dom(),
        ensures
            roots@.no_duplicates(),
            forall|a: int, b: int| 0 <= a < b < roots@.len() ==> roots@[a] <= roots@[b],
            forall|x: u32| #[trigger] roots@.contains(x) <==> is_forest_root(self@, x),
    {
        proof {
            use_type_invariant(self);
            lemma_links_map(self.links@);
        }
        let ghost m = self@;
        let ghost links = self.links@;
        let n = self.links.len();
        let mut roots: Vec<u32> = Vec::new();
        for i in 0..n
            invariant
                n == links.len(),
                links == self.links@,
                m == links_map(links),
                unique_pids(links),
                pids@ == m.dom(),
                forall|k: int| 0 <= k < links.len() ==> #[trigger] m[links[k].0] == links[k].1,
                forall|p: u32| #[trigger] m.contains_key(p) <==> exists|k: int|
                    0 <= k < links.len() && links[k].0 == p,
                roots@.no_duplicates(),
                forall|p: u32| #[trigger] roots@.contains(p) <==> exists|k: int|
                    0 <= k < i && links[k].0 == p && is_forest_root(m, p),
        {
            let (pid, ppid) = self.links[i];
            proof {
                assert(m[links[i as int].0] == ppid);
                assert(m.contains_key(pid));
            }
            let ghost old_roots = roots@;
            if ppid == 1 || !pids.contains(&ppid) {
                proof {
                    assert(!roots@.contains(pid)) by {
                        if roots@.contains(pid) {
                            let k = choose|k: int| 0 <= k < i && links[k].0 == pid && is_forest_root(m, pid);
                            assert(links[i as int].0 == pid);
                        }
                    }
                }
                roots.push(pid);
                proof {
                    assert(is_forest_root(m, pid));
                    assert forall|p: u32| #[trigger] roots@.contains(p) <==> exists|k: int|
                        0 <= k < i + 1 && links[k].0 == p && is_forest_root(m, p) by {
                        if roots@.contains(p) && p != pid {
                            let t = roots@.index_of(p);
                            assert(old_roots[t] == p);
                            assert(old_roots.contains(p));
                        }
                        if p == pid {
                            assert(roots@[old_roots.len() as int] == pid);
                            assert(links[i as int].0 == p);
                        }
                        if exists|k: int| 0 <= k < i + 1 && links[k].0 == p && is_forest_root(m, p) {
                            let k = choose|k: int| 0 <= k < i + 1 && links[k].0 == p && is_forest_root(m, p);
                            if k < i {
                                assert(old_roots.contains(p));
                                let t = old_roots.index_of(p);
                                assert(roots@[t] == p);
                            }
                        }
                    }
                }
            } else {
                proof {
                    assert(!is_forest_root(m, pid));
                    assert forall|p: u32| #[trigger] roots@.contains(p) <==> exists|k: int|
                        0 <= k < i + 1 && links[k].0 == p && is_forest_root(m, p) by {
                        if exists|k: int| 0 <= k < i + 1 && links[k].0 == p && is_forest_root(m, p) {
                            let k = choose|k: int| 0 <= k < i + 1 && links[k].0 == p && is_forest_root(m, p);
                            assert(k != i);
                        }
                    }
                }
            }
        }
        let ghost unsorted = roots@;
        sort_pids(&mut roots);
        proof {
            unsorted.lemma_multiset_has_no_duplicates();
            assert forall|x: u32| #[trigger] roots@.contains(x) <==> unsorted.contains(x) by {
                vstd::seq_lib::to_multiset_contains(roots@, x);
                vstd::seq_lib::to_multiset_contains(unsorted, x);
            }
            assert forall|x: u32| roots@.to_multiset().contains(x) implies roots@.to_multiset().count(x) == 1 by {
                vstd::seq_lib::to_multiset_contains(roots@, x);
                vstd::seq_lib::to_multiset_contains(unsorted, x);
            }
            roots@.lemma_multiset_has_no_duplicates_conv();
            assert forall|r: u32| is_forest_root(m, r) implies #[trigger] roots@.contains(r) by {
                let k = choose|k: int| 0 <= k < links.len() && links[k].0 == r;
            }
        }
        roots
    }
}


impl ProcessTree {
    /// Summary of this tree: root, size, the largest recorded depth (zero
    /// when no depth is recorded) and node PIDs.
    pub fn summary(&self) -> (t: TreeSummary)
        ensures
            t.root == self.root,
            t.size == self.nodes@.len(),
            forall|p: u32| #[trigger] self.depths@.contains_key(p) ==> self.depths@[p] <= t.max_depth,
            t.max_depth == 0 || exists|p: u32| #[trigger]
                self.depths@.contains_key(p) && self.depths@[p] == t.max_depth,
            t.node_pids@ == self.nodes@,
    {
        let n = self.nodes.len();
        let mut max_depth: usize = 0;
        let ghost m = self.depths@;
        for pair in it: self.depths.iter()
            invariant
                m == self.depths@,
                it.seq() == vstd::std_specs::iter::IteratorSpec::remaining(&vstd::std_specs::hash::spec_hash_map_iter(&self.depths)),
                forall|i: int| 0 <= i < it.index() ==> *(#[trigger] it.seq()[i]).1 <= max_depth,
                max_depth == 0 || exists|i: int|
                    0 <= i < it.index() && *(#[trigger] it.seq()[i]).1 == max_depth,
        {
            let (_, d) = pair;
            if *d > max_depth {
                max_depth = *d;
            }
        }
        proof {
            let v = vstd::std_specs::iter::IteratorSpec::remaining(&vstd::std_specs::hash::spec_hash_map_iter(&self.depths));
            assert forall|p: u32| #[trigger] self.depths@.contains_key(p) implies self.depths@[p] <= max_depth by {
                assert(v.contains((&p, &m[p])));
                let i = v.index_of((&p, &m[p]));
                assert(*v[i].1 <= max_depth);
            }
            if max_depth != 0 {
                let i = choose|i: int| 0 <= i < v.len() && *(#[trigger] v[i]).1 == max_depth;
                assert(m.contains_key(*v[i].0) && m[*v[i].0] == *v[i].1);
            }
        }
        TreeSummary { root: self.root, size: n, max_depth, node_pids: self.nodes.clone() }
    }
}

} // verus!
