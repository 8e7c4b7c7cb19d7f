//! Counting structures of the context-tree-weighting predictor: the
//! Krichevsky-Trofimov symbol counts, the context tree that holds one count
//! table per context, and the discretization vocabulary.
use std::collections::VecDeque;
use vstd::prelude::*;

verus! {

/// Default context depth.
pub fn default_context_depth() -> (d: usize)
    ensures
        d == 6,
{
    6
}

/// Default alphabet size (binary).
pub fn default_alphabet_size() -> (k: usize)
    ensures
        k == 2,
{
    2
}

/// Errors from the CTW predictor's configuration and symbols.
#[derive(Debug)]
pub enum CtwError {
    InvalidContextDepth(usize),
    InvalidAlphabetSize(usize),
    SymbolOutOfRange { symbol: usize, alphabet_size: usize },
}

/// Check a context depth and alphabet size: the depth must be in 1..=12 and
/// the alphabet size in 2..=4; the depth is checked first.
pub fn validate_shape(context_depth: usize, alphabet_size: usize) -> (r: Result<(), CtwError>)
    ensures
        (1 <= context_depth <= 12 && 2 <= alphabet_size <= 4) <==> r is Ok,
        !(1 <= context_depth <= 12) ==> (r matches Err(CtwError::InvalidContextDepth(d)) && d
            == context_depth),
        (1 <= context_depth <= 12 && !(2 <= alphabet_size <= 4)) ==> (r matches Err(
            CtwError::InvalidAlphabetSize(k),
        ) && k == alphabet_size),
{
    if context_depth == 0 || context_depth > 12 {
        return Err(CtwError::InvalidContextDepth(context_depth));
    }
    if alphabet_size < 2 || alphabet_size > 4 {
        return Err(CtwError::InvalidAlphabetSize(alphabet_size));
    }
    Ok(())
}

/// Discretization mode.
#[derive(Debug, Clone, Copy, PartialEq, Eq, Structural)]
pub enum DiscretizationMode {
    /// Binary: below/above single threshold
    Binary,
    /// Ternary: low/medium/high with two thresholds
    Ternary,
    /// Quaternary: idle/light/moderate/heavy with three thresholds
    Quaternary,
}

/// Number of symbols a mode produces.
pub open spec fn mode_alphabet_size(m: DiscretizationMode) -> nat {
    match m {
        DiscretizationMode::Binary => 2,
        DiscretizationMode::Ternary => 3,
        DiscretizationMode::Quaternary => 4,
    }
}

/// Label of a symbol under a mode; symbols past the last label take it.
pub open spec fn symbol_label_spec(m: DiscretizationMode, symbol: usize) -> Seq<char> {
    match m {
        DiscretizationMode::Binary => if symbol == 0 {
            "idle"@
        } else {
            "busy"@
        },
        DiscretizationMode::Ternary => if symbol == 0 {
            "low"@
        } else if symbol == 1 {
            "medium"@
        } else {
            "high"@
        },
        DiscretizationMode::Quaternary => if symbol == 0 {
            "idle"@
        } else if symbol == 1 {
            "light"@
        } else if symbol == 2 {
            "moderate"@
        } else {
            "heavy"@
        },
    }
}

impl DiscretizationMode {
    /// Number of thresholds the mode needs (one less than its symbols).
    pub fn threshold_count(&self) -> (n: usize)
        ensures
            n + 1 == mode_alphabet_size(*self),
    {
        match self {
            DiscretizationMode::Binary => 1,
            DiscretizationMode::Ternary => 2,
            DiscretizationMode::Quaternary => 3,
        }
    }

    /// Alphabet size for this mode.
    pub fn alphabet_size(&self) -> (k: usize)
        ensures
            k == mode_alphabet_size(*self),
    {
        match self {
            DiscretizationMode::Binary => 2,
            DiscretizationMode::Ternary => 3,
            DiscretizationMode::Quaternary => 4,
        }
    }

    /// Label of a symbol.
    pub fn symbol_label(&self, symbol: usize) -> (s: &'static str)
        ensures
            s@ == symbol_label_spec(*self, symbol),
    {
        match self {
            DiscretizationMode::Binary => match symbol {
                0 => "idle",
                _ => "busy",
            },
            DiscretizationMode::Ternary => match symbol {
                0 => "low",
                1 => "medium",
                _ => "high",
            },
            DiscretizationMode::Quaternary => match symbol {
                0 => "idle",
                1 => "light",
                2 => "moderate",
                _ => "heavy",
            },
        }
    }
}

/// Sum of a sequence of counts.
pub open spec fn seq_sum(s: Seq<u64>) -> nat
    decreases s.len(),
{
    if s.len() == 0 {
        0
    } else {
        seq_sum(s.drop_last()) + s.last() as nat
    }
}

proof fn lemma_sum_update(s: Seq<u64>, i: int, v: u64)
    requires
        0 <= i < s.len(),
    ensures
        seq_sum(s.update(i, v)) + s[i] == seq_sum(s) + v,
    decreases s.len(),
{
    if i < s.len() - 1 {
        assert(s.update(i, v).drop_last() =~= s.drop_last().update(i, v));
        lemma_sum_update(s.drop_last(), i, v);
    } else {
        assert(s.update(i, v).drop_last() =~= s.drop_last());
    }
}

proof fn lemma_sum_zeros(n: nat)
    ensures
        seq_sum(Seq::new(n, |i: int| 0u64)) == 0,
    decreases n,
{
    if n > 0 {
        assert(Seq::new(n, |i: int| 0u64).drop_last() =~= Seq::new((n - 1) as nat, |i: int| 0u64));
        lemma_sum_zeros((n - 1) as nat);
    }
}

proof fn lemma_sum_bound(s: Seq<u64>, i: int)
    requires
        0 <= i < s.len(),
    ensures
        s[i] <= seq_sum(s),
    decreases s.len(),
{
    if i < s.len() - 1 {
        lemma_sum_bound(s.drop_last(), i);
    }
}

/// Sum over the symbols of the KT numerators `2 * count + 1`.
pub open spec fn kt_numerator_sum(s: Seq<u64>) -> nat
    decreases s.len(),
{
    if s.len() == 0 {
        0
    } else {
        kt_numerator_sum(s.drop_last()) + 2 * (s.last() as nat) + 1
    }
}

proof fn lemma_kt_numerator_sum(s: Seq<u64>)
    ensures
        kt_numerator_sum(s) == 2 * seq_sum(s) + s.len(),
    decreases s.len(),
{
    if s.len() > 0 {
        lemma_kt_numerator_sum(s.drop_last());
    }
}

/// Counts after observing `symbol`: its count goes up by one when it is in
/// the alphabet; other symbols are ignored.
pub open spec fn counts_after(counts: Seq<u64>, symbol: usize) -> Seq<u64> {
    if symbol < counts.len() {
        counts.update(symbol as int, (counts[symbol as int] + 1) as u64)
    } else {
        counts
    }
}

/// Krichevsky-Trofimov estimator for sequential probability assignment.
///
/// For an alphabet of size k it keeps a count per symbol; the predictive
/// probability of a symbol is `(count + 1/2) / (total + k/2)`.
#[derive(Debug, Clone)]
pub struct KtEstimator {
    counts: Vec<u64>,
    total: u64,
    alphabet_size: usize,
}

impl KtEstimator {
    /// Counts per symbol.
    pub closed spec fn counts(&self) -> Seq<u64> {
        self.counts@
    }

    /// Number of symbols observed.
    pub closed spec fn total(&self) -> u64 {
        self.total
    }

    /// Alphabet size.
    pub closed spec fn size(&self) -> nat {
        self.alphabet_size as nat
    }

    /// One count per symbol, summing to the total.
    pub open spec fn wf(&self) -> bool {
        &&& self.counts().len() == self.size()
        &&& seq_sum(self.counts()) == self.total()
    }

    /// A fresh estimator with all counts zero.
    pub fn new(alphabet_size: usize) -> (kt: KtEstimator)
        ensures
            kt.wf(),
            kt.size() == alphabet_size,
            kt.total() == 0,
            kt.counts() == Seq::new(alphabet_size as nat, |i: int| 0u64),
    {
        let mut counts: Vec<u64> = Vec::new();
        for i in 0..alphabet_size
            invariant
                counts@ == Seq::new(i as nat, |j: int| 0u64),
        {
            counts.push(0);
            proof {
                assert(counts@ =~= Seq::new((i + 1) as nat, |j: int| 0u64));
            }
        }
        proof {
            lemma_sum_zeros(alphabet_size as nat);
        }
        KtEstimator { counts, total: 0, alphabet_size }
    }

    /// Predictive probability of `symbol` as a ratio `(numerator,
    /// denominator)` = `(2 * count + 1, 2 * total + k)`, equal to `(count +
    /// 1/2) / (total + k/2)`; a symbol outside the alphabet counts as unseen.
    pub fn predict(&self, symbol: usize) -> (r: (u128, u128))
        requires
            self.wf(),
        ensures
            r.0 == 2 * (if symbol < self.size() {
                self.counts()[symbol as int] as int
            } else {
                0
            }) + 1,
            r.1 == 2 * self.total() + self.size(),
    {
        let count: u64 = if symbol < self.counts.len() {
            self.counts[symbol]
        } else {
            0
        };
        (2 * (count as u128) + 1, 2 * (self.total as u128) + (self.alphabet_size as u128))
    }

    /// Update with an observed symbol; symbols outside the alphabet are
    /// ignored.
    pub fn update(&mut self, symbol: usize)
        requires
            old(self).wf(),
            old(self).total() < u64::MAX,
        ensures
            final(self).wf(),
            final(self).size() == old(self).size(),
            final(self).counts() == counts_after(old(self).counts(), symbol),
            final(self).total() == if symbol < old(self).size() {
                old(self).total() + 1
            } else {
                old(self).total() as int
            },
    {
        if symbol < self.alphabet_size {
            proof {
                lemma_sum_bound(self.counts@, symbol as int);
                lemma_sum_update(self.counts@, symbol as int, (self.counts@[symbol as int] + 1) as u64);
            }
            let c = self.counts[symbol];
            self.counts.set(symbol, c + 1);
            self.total = self.total + 1;
        }
    }
}

/// The predictive probabilities of all symbols sum to one: the numerators
/// `2 * count + 1` add up to the common denominator `2 * total + k`.
pub proof fn lemma_kt_normalized(kt: KtEstimator)
    requires
        kt.wf(),
    ensures
        kt_numerator_sum(kt.counts()) == 2 * kt.total() + kt.size(),
{
    lemma_kt_numerator_sum(kt.counts());
}


/// Node in the context tree: a count table for its context and one optional
/// child per symbol.
#[derive(Debug)]
pub struct CtwNode {
    kt: KtEstimator,
    children: Vec<Option<Box<CtwNode>>>,
}

impl CtwNode {
    /// Count table of this node.
    pub closed spec fn kt_view(&self) -> KtEstimator {
        self.kt
    }

    /// Number of child slots.
    pub closed spec fn width(&self) -> nat {
        self.children@.len()
    }

    /// The child for `symbol`, if there is one.
    pub closed spec fn child_at(&self, symbol: usize) -> Option<CtwNode> {
        if symbol < self.children@.len() {
            match self.children@[symbol as int] {
                Some(b) => Some(*b),
                None => None,
            }
        } else {
            None
        }
    }
}

/// The node reached from `n` by following the symbols of `ctx`.
pub open spec fn node_at(n: CtwNode, ctx: Seq<usize>) -> Option<CtwNode>
    decreases ctx.len(),
{
    if ctx.len() == 0 {
        Some(n)
    } else {
        match n.child_at(ctx[0]) {
            Some(c) => node_at(c, ctx.drop_first()),
            None => None,
        }
    }
}

/// Counts held for context `ctx`, if the context is in the tree.
pub open spec fn counts_at(n: CtwNode, ctx: Seq<usize>) -> Option<Seq<u64>> {
    match node_at(n, ctx) {
        Some(m) => Some(m.kt_view().counts()),
        None => None,
    }
}

/// Every node of the tree has a well-formed count table over `k` symbols and
/// `k` child slots.
pub open spec fn tree_wf(n: CtwNode, k: nat) -> bool {
    forall|ctx: Seq<usize>| #[trigger]
        node_at(n, ctx) matches Some(m) ==> {
            &&& m.kt_view().wf()
            &&& m.kt_view().size() == k
            &&& m.width() == k
        }
}

/// A node has a well-formed count table over `k` symbols, `k` child slots,
/// and has counted at most `b` symbols.
pub open spec fn node_ok(m: CtwNode, k: nat, b: nat) -> bool {
    &&& m.kt_view().wf()
    &&& m.kt_view().size() == k
    &&& m.width() == k
    &&& m.kt_view().total() <= b
}

/// No node of the tree has counted more than `b` symbols.
pub open spec fn totals_at_most(n: CtwNode, b: nat) -> bool {
    forall|ctx: Seq<usize>| #[trigger] node_at(n, ctx) matches Some(m) ==> m.kt_view().total() <= b
}

/// The contexts updated when observing a symbol: the symbols of `path` from
/// `depth` on, up to `max_depth`.
pub open spec fn update_span(path: Seq<usize>, depth: nat, max_depth: nat) -> Seq<usize>
    decreases path.len() - depth,
{
    if depth < max_depth && depth < path.len() {
        seq![path[depth as int]] + update_span(path, depth + 1, max_depth)
    } else {
        Seq::empty()
    }
}

/// `a` is a prefix of `b`.
pub open spec fn is_prefix_of(a: Seq<usize>, b: Seq<usize>) -> bool {
    a.len() <= b.len() && b.take(a.len() as int) == a
}

/// The counts at `ctx` after observing `symbol` with the tree updated along
/// `path`: contexts on the path (a fresh one starting from zero counts) have
/// the symbol counted, all others are unchanged.
pub open spec fn counts_after_update(
    old_counts: Option<Seq<u64>>,
    ctx: Seq<usize>,
    path: Seq<usize>,
    symbol: usize,
    k: nat,
) -> Option<Seq<u64>> {
    if is_prefix_of(ctx, path) {
        Some(
            counts_after(
                match old_counts {
                    Some(c) => c,
                    None => Seq::new(k, |i: int| 0u64),
                },
                symbol,
            ),
        )
    } else {
        old_counts
    }
}

proof fn lemma_node_at_cons(n: CtwNode, s: usize, rest: Seq<usize>)
    ensures
        node_at(n, seq![s] + rest) == match n.child_at(s) {
            Some(c) => node_at(c, rest),
            None => None,
        },
{
    assert((seq![s] + rest).drop_first() =~= rest);
    assert((seq![s] + rest)[0] == s);
}

impl CtwNode {
    /// A fresh node: zero counts and no children.
    pub fn new(alphabet_size: usize) -> (n: CtwNode)
        ensures
            n.kt_view().wf(),
            n.kt_view().size() == alphabet_size,
            n.kt_view().total() == 0,
            n.kt_view().counts() == Seq::new(alphabet_size as nat, |i: int| 0u64),
            n.width() == alphabet_size,
            forall|s: usize| #[trigger] n.child_at(s) is None,
    {
        let kt = KtEstimator::new(alphabet_size);
        let mut children: Vec<Option<Box<CtwNode>>> = Vec::new();
        for i in 0..alphabet_size
            invariant
                children@.len() == i,
                forall|j: int| 0 <= j < i ==> (#[trigger] children@[j]) is None,
        {
            children.push(None);
        }
        CtwNode { kt, children }
    }

    /// Get child reference.
    pub fn child(&self, symbol: usize) -> (c: Option<&CtwNode>)
        ensures
            match c {
                Some(r) => self.child_at(symbol) == Some(*r),
                None => self.child_at(symbol) is None,
            },
    {
        if symbol < self.children.len() {
            match &self.children[symbol] {
                Some(b) => Some(&**b),
                None => None,
            }
        } else {
            None
        }
    }

    /// Get or create the child node for `symbol`.
    pub fn get_or_create_child(&mut self, symbol: usize, alphabet_size: usize) -> (c: &mut CtwNode)
        requires
            symbol < old(self).width(),
        ensures
            old(self).child_at(symbol) matches Some(o) ==> *c == o,
            old(self).child_at(symbol) is None ==> {
                &&& c.kt_view().wf()
                &&& c.kt_view().size() == alphabet_size
                &&& c.kt_view().total() == 0
                &&& c.kt_view().counts() == Seq::new(alphabet_size as nat, |i: int| 0u64)
                &&& c.width() == alphabet_size
                &&& forall|s: usize| #[trigger] c.child_at(s) is None
            },
            final(self).kt_view() == old(self).kt_view(),
            final(self).width() == old(self).width(),
            final(self).child_at(symbol) == Some(*final(c)),
            forall|s: usize| s != symbol ==> #[trigger] final(self).child_at(s) == old(self).child_at(s),
    {
        if self.children[symbol].is_none() {
            self.children.set(symbol, Some(Box::new(CtwNode::new(alphabet_size))));
        }
        &mut **self.children[symbol].as_mut().unwrap()
    }

    /// Counts of this node's context.
    pub fn kt(&self) -> (kt: &KtEstimator)
        ensures
            *kt == self.kt_view(),
    {
        &self.kt
    }
}

/// A fresh node is the only node of its tree.
proof fn lemma_fresh_node_at(n: CtwNode, ctx: Seq<usize>)
    requires
        forall|s: usize| #[trigger] n.child_at(s) is None,
    ensures
        node_at(n, ctx) == if ctx.len() == 0 {
            Some(n)
        } else {
            None::<CtwNode>
        },
{
    if ctx.len() > 0 {
        assert(n.child_at(ctx[0]) is None);
    }
}

/// Update the counts of `node` and of the nodes along the update span of
/// `path`, creating missing nodes.
pub fn update_node_recursive(
    node: &mut CtwNode,
    path: &Vec<usize>,
    depth: usize,
    symbol: usize,
    alphabet_size: usize,
    max_depth: usize,
    Ghost(bound): Ghost<nat>,
)
    requires
        tree_wf(*old(node), alphabet_size as nat),
        totals_at_most(*old(node), bound),
        bound < u64::MAX,
        forall|i: int| 0 <= i < path@.len() ==> #[trigger] path@[i] < alphabet_size,
    ensures
        tree_wf(*final(node), alphabet_size as nat),
        totals_at_most(*final(node), bound + 1),
        forall|ctx: Seq<usize>| #[trigger]
            counts_at(*final(node), ctx) == counts_after_update(
                counts_at(*old(node), ctx),
                ctx,
                update_span(path@, depth as nat, max_depth as nat),
                symbol,
                alphabet_size as nat,
            ),
    decreases path@.len() - depth,
{
    proof {
        assert(node_at(*node, Seq::empty()) == Some(*node));
    }
    let ghost old_node = *node;
    node.kt.update(symbol);
    let ghost span = update_span(path@, depth as nat, max_depth as nat);
    if depth < max_depth && depth < path.len() {
        let next = path[depth];
        let ghost rest_span = update_span(path@, (depth + 1) as nat, max_depth as nat);
        proof {
            assert(span == seq![next] + rest_span);
        }
        let child = node.get_or_create_child(next, alphabet_size);
        let ghost old_child = *child;
        proof {
            assert forall|ctx: Seq<usize>| #[trigger] node_at(old_child, ctx) is Some implies node_ok(
                node_at(old_child, ctx).unwrap(),
                alphabet_size as nat,
                bound,
            ) by {
                if old_node.child_at(next) is Some {
                    lemma_node_at_cons(old_node, next, ctx);
                    assert(node_at(old_node, seq![next] + ctx) matches Some(_));
                } else {
                    lemma_fresh_node_at(old_child, ctx);
                }
            }
            assert(tree_wf(old_child, alphabet_size as nat));
            assert(totals_at_most(old_child, bound));
        }
        update_node_recursive(child, path, depth + 1, symbol, alphabet_size, max_depth, Ghost(bound));
        proof {
            let new_node = *node;
            let child = new_node.child_at(next).unwrap();
            assert forall|s: usize| s != next implies #[trigger] new_node.child_at(s) == old_node.child_at(s) by {}
            assert forall|ctx: Seq<usize>| #[trigger] counts_at(new_node, ctx) == counts_after_update(
                counts_at(old_node, ctx),
                ctx,
                span,
                symbol,
                alphabet_size as nat,
            ) by {
                if ctx.len() == 0 {
                    assert(is_prefix_of(ctx, span)) by {
                        assert(span.take(0) =~= ctx);
                    }
                } else {
                    let s = ctx[0];
                    let rest = ctx.drop_first();
                    assert(ctx =~= seq![s] + rest);
                    lemma_node_at_cons(new_node, s, rest);
                    lemma_node_at_cons(old_node, s, rest);
                    if s == next {
                        assert(is_prefix_of(ctx, span) <==> is_prefix_of(rest, rest_span)) by {
                            if is_prefix_of(rest, rest_span) {
                                assert(span.take(ctx.len() as int) =~= seq![s] + rest_span.take(rest.len() as int));
                            }
                            if is_prefix_of(ctx, span) {
                                assert(rest_span.take(rest.len() as int) =~= span.take(ctx.len() as int).drop_first());
                            }
                        }
                        assert(counts_at(child, rest) == counts_after_update(
                            counts_at(old_child, rest),
                            rest,
                            rest_span,
                            symbol,
                            alphabet_size as nat,
                        ));
                        assert(counts_at(new_node, ctx) == counts_at(child, rest));
                        if old_node.child_at(next) is None {
                            lemma_fresh_node_at(old_child, rest);
                            assert(counts_at(old_node, ctx) is None);
                            if rest.len() == 0 {
                                assert(is_prefix_of(rest, rest_span)) by {
                                    assert(rest_span.take(0) =~= rest);
                                }
                                assert(counts_at(old_child, rest) == Some(Seq::new(alphabet_size as nat, |i: int| 0u64)));
                            }
                        } else {
                            assert(counts_at(old_node, ctx) == counts_at(old_child, rest));
                        }
                    } else {
                        assert(!is_prefix_of(ctx, span)) by {
                            if is_prefix_of(ctx, span) {
                                assert(span.take(ctx.len() as int)[0] == span[0]);
                            }
                        }
                    }
                }
            }
            assert forall|ctx: Seq<usize>| #[trigger] node_at(new_node, ctx) is Some implies node_ok(
                node_at(new_node, ctx).unwrap(),
                alphabet_size as nat,
                bound + 1,
            ) by {
                if ctx.len() > 0 {
                    let s = ctx[0];
                    let rest = ctx.drop_first();
                    assert(ctx =~= seq![s] + rest);
                    lemma_node_at_cons(new_node, s, rest);
                    lemma_node_at_cons(old_node, s, rest);
                    if s != next {
                        assert(node_at(old_node, ctx) == node_at(new_node, ctx));
                    }
                }
            }
        }
    } else {
        proof {
            let new_node = *node;
            assert(span =~= Seq::<usize>::empty());
            assert forall|s: usize| #[trigger] new_node.child_at(s) == old_node.child_at(s) by {}
            assert forall|ctx: Seq<usize>| #[trigger] counts_at(new_node, ctx) == counts_after_update(
                counts_at(old_node, ctx),
                ctx,
                span,
                symbol,
                alphabet_size as nat,
            ) by {
                if ctx.len() == 0 {
                    assert(is_prefix_of(ctx, span)) by {
                        assert(span.take(0) =~= ctx);
                    }
                } else {
                    let s = ctx[0];
                    let rest = ctx.drop_first();
                    assert(ctx =~= seq![s] + rest);
                    lemma_node_at_cons(new_node, s, rest);
                    lemma_node_at_cons(old_node, s, rest);
                }
            }
            assert forall|ctx: Seq<usize>| #[trigger] node_at(new_node, ctx) is Some implies node_ok(
                node_at(new_node, ctx).unwrap(),
                alphabet_size as nat,
                bound + 1,
            ) by {
                if ctx.len() > 0 {
                    let s = ctx[0];
                    let rest = ctx.drop_first();
                    assert(ctx =~= seq![s] + rest);
                    lemma_node_at_cons(new_node, s, rest);
                    lemma_node_at_cons(old_node, s, rest);
                    assert(node_at(old_node, ctx) == node_at(new_node, ctx));
                }
            }
        }
    }
}


/// The last `depth` items of `s` (all of them when there are fewer).
pub open spec fn window(s: Seq<usize>, depth: nat) -> Seq<usize> {
    if s.len() <= depth {
        s
    } else {
        s.subrange(s.len() - depth, s.len() as int)
    }
}

/// Every symbol's count in `a` is at most its count in `b`.
pub open spec fn counts_le(a: Seq<u64>, b: Seq<u64>) -> bool {
    a.len() == b.len() && forall|i: int| 0 <= i < a.len() ==> #[trigger] a[i] <= b[i]
}

/// A context extended by one symbol is in the tree only below its parent
/// context, and has counted each symbol at most as often as the parent.
pub open spec fn nested_counts(n: CtwNode) -> bool {
    forall|ctx: Seq<usize>, s: usize| #[trigger]
        counts_at(n, ctx.push(s)) matches Some(cc) ==> (counts_at(n, ctx) matches Some(pc)
            && counts_le(cc, pc))
}

/// Counts held anywhere in a well-formed tree cover the whole alphabet.
proof fn lemma_counts_len(n: CtwNode, ctx: Seq<usize>, k: nat)
    requires
        tree_wf(n, k),
        counts_at(n, ctx) is Some,
    ensures
        counts_at(n, ctx).unwrap().len() == k,
{
    assert(node_at(n, ctx) is Some);
}

/// A count table that has counted at most `b < u64::MAX` symbols has room
/// for one more of each.
proof fn lemma_count_room(n: CtwNode, ctx: Seq<usize>, k: nat, b: nat, i: int)
    requires
        tree_wf(n, k),
        totals_at_most(n, b),
        b < u64::MAX,
        counts_at(n, ctx) is Some,
        0 <= i < k,
    ensures
        counts_at(n, ctx).unwrap()[i] < u64::MAX,
{
    let m = node_at(n, ctx).unwrap();
    assert(m.kt_view().wf());
    assert(m.kt_view().total() <= b);
    lemma_sum_bound(m.kt_view().counts(), i);
}

/// Counting the same symbol in two nested tables keeps them nested; so does
/// counting it in the outer table alone.
proof fn lemma_counts_le_after(a: Seq<u64>, b: Seq<u64>, symbol: usize)
    requires
        counts_le(a, b),
        symbol < b.len() ==> b[symbol as int] < u64::MAX,
    ensures
        counts_le(counts_after(a, symbol), counts_after(b, symbol)),
        counts_le(a, counts_after(b, symbol)),
{
}

/// Observing a symbol along `path` keeps contexts nested: a context that
/// is updated has its parent context updated too.
proof fn lemma_nested_after_update(
    old_root: CtwNode,
    new_root: CtwNode,
    path: Seq<usize>,
    symbol: usize,
    k: nat,
    b: nat,
)
    requires
        tree_wf(old_root, k),
        tree_wf(new_root, k),
        totals_at_most(old_root, b),
        b < u64::MAX,
        nested_counts(old_root),
        forall|ctx: Seq<usize>| #[trigger] counts_at(new_root, ctx) == counts_after_update(
            counts_at(old_root, ctx),
            ctx,
            path,
            symbol,
            k,
        ),
    ensures
        nested_counts(new_root),
{
    assert forall|ctx: Seq<usize>, s: usize| #[trigger]
        counts_at(new_root, ctx.push(s)) is Some implies (counts_at(new_root, ctx) is Some
            && counts_le(counts_at(new_root, ctx.push(s)).unwrap(), counts_at(new_root, ctx).unwrap())) by {
        let c = ctx.push(s);
        let oc = counts_at(old_root, c);
        let op = counts_at(old_root, ctx);
        let np = counts_at(new_root, ctx);
        let zeros = Seq::new(k, |i: int| 0u64);
        assert(counts_at(new_root, c) == counts_after_update(oc, c, path, symbol, k));
        assert(np == counts_after_update(op, ctx, path, symbol, k));
        if oc is Some {
            lemma_counts_len(old_root, c, k);
            assert(op is Some && counts_le(oc.unwrap(), op.unwrap()));
        }
        if op is Some {
            lemma_counts_len(old_root, ctx, k);
        }
        let pbase = match op {
            Some(x) => x,
            None => zeros,
        };
        let cbase = match oc {
            Some(x) => x,
            None => zeros,
        };
        assert(pbase.len() == k);
        if symbol < k {
            if op is Some {
                lemma_count_room(old_root, ctx, k, b, symbol as int);
            }
            assert(pbase[symbol as int] < u64::MAX);
        }
        if is_prefix_of(c, path) {
            assert(path.take(ctx.len() as int) =~= path.take(c.len() as int).take(ctx.len() as int));
            assert(c.take(ctx.len() as int) =~= ctx);
            assert(is_prefix_of(ctx, path));
            assert(counts_le(cbase, pbase));
            lemma_counts_le_after(cbase, pbase, symbol);
        } else {
            assert(oc is Some);
            if is_prefix_of(ctx, path) {
                lemma_counts_le_after(cbase, pbase, symbol);
            }
        }
    }
}

/// The counting state of a CTW predictor: the context tree, the recent
/// context, and the marginal (baseline) symbol counts.
pub struct CtwTree {
    context_depth: usize,
    alphabet_size: usize,
    root: CtwNode,
    context: VecDeque<usize>,
    step: usize,
    marginal_counts: Vec<u64>,
    total_symbols: u64,
}

impl CtwTree {
    /// Context depth.
    pub closed spec fn depth(&self) -> nat {
        self.context_depth as nat
    }

    /// Alphabet size.
    pub closed spec fn size(&self) -> nat {
        self.alphabet_size as nat
    }

    /// Root of the context tree.
    pub closed spec fn root_view(&self) -> CtwNode {
        self.root
    }

    /// Most recent symbols, oldest first.
    pub closed spec fn context_view(&self) -> Seq<usize> {
        self.context@
    }

    /// Number of symbols observed.
    pub closed spec fn steps(&self) -> nat {
        self.step as nat
    }

    /// Marginal count of each symbol.
    pub closed spec fn marginal(&self) -> Seq<u64> {
        self.marginal_counts@
    }

    /// Total symbols observed, as counted for the baseline.
    pub closed spec fn total(&self) -> u64 {
        self.total_symbols
    }

    /// The tree is well formed over the alphabet, no context has counted
    /// more symbols than were observed, the context holds at most `depth`
    /// symbols, and the root context holds the marginal counts.
    pub closed spec fn wf(&self) -> bool {
        &&& tree_wf(self.root, self.alphabet_size as nat)
        &&& totals_at_most(self.root, self.total_symbols as nat)
        &&& self.context@.len() <= self.context_depth
        &&& self.marginal_counts@.len() == self.alphabet_size
        &&& counts_at(self.root, Seq::empty()) == Some(self.marginal_counts@)
        &&& self.step == self.total_symbols
        &&& nested_counts(self.root)
    }

    /// Every symbol of the context is in the alphabet.
    pub open spec fn context_in_alphabet(&self) -> bool {
        forall|i: int| 0 <= i < self.context_view().len() ==> #[trigger] self.context_view()[i] < self.size()
    }

    /// A fresh counting state.
    pub fn new(context_depth: usize, alphabet_size: usize) -> (t: CtwTree)
        ensures
            t.wf(),
            t.context_in_alphabet(),
            t.depth() == context_depth,
            t.size() == alphabet_size,
            t.context_view() == Seq::<usize>::empty(),
            t.steps() == 0,
            t.total() == 0,
            t.marginal() == Seq::new(alphabet_size as nat, |i: int| 0u64),
            forall|ctx: Seq<usize>| #[trigger] counts_at(t.root_view(), ctx) == if ctx.len() == 0 {
                Some(Seq::new(alphabet_size as nat, |i: int| 0u64))
            } else {
                None::<Seq<u64>>
            },
    {
        let root = CtwNode::new(alphabet_size);
        let mut marginal_counts: Vec<u64> = Vec::new();
        for i in 0..alphabet_size
            invariant
                marginal_counts@ == Seq::new(i as nat, |j: int| 0u64),
        {
            marginal_counts.push(0);
            proof {
                assert(marginal_counts@ =~= Seq::new((i + 1) as nat, |j: int| 0u64));
            }
        }
        proof {
            assert forall|ctx: Seq<usize>| #[trigger] node_at(root, ctx) is Some implies node_ok(
                node_at(root, ctx).unwrap(),
                alphabet_size as nat,
                0,
            ) by {
                lemma_fresh_node_at(root, ctx);
            }
            assert forall|ctx: Seq<usize>| #[trigger] counts_at(root, ctx) == if ctx.len() == 0 {
                Some(Seq::new(alphabet_size as nat, |i: int| 0u64))
            } else {
                None::<Seq<u64>>
            } by {
                lemma_fresh_node_at(root, ctx);
            }
        }
        CtwTree {
            context_depth,
            alphabet_size,
            root,
            context: VecDeque::new(),
            step: 0,
            marginal_counts,
            total_symbols: 0,
        }
    }

    /// The context as a path from the root: most recent symbol first, at
    /// most `depth` symbols.
    pub fn context_path(&self) -> (path: Vec<usize>)
        requires
            self.wf(),
        ensures
            path@ == self.context_view().reverse(),
            path@.len() <= self.depth(),
            self.context_in_alphabet() ==> forall|i: int|
                0 <= i < path@.len() ==> #[trigger] path@[i] < self.size(),
    {
        let n = self.context.len();
        let mut path: Vec<usize> = Vec::new();
        let mut i = n;
        while i > 0
            invariant
                n == self.context@.len(),
                i <= n,
                path@ == self.context@.subrange(i as int, n as int).reverse(),
            decreases i,
        {
            i = i - 1;
            path.push(self.context[i]);
            proof {
                assert(self.context@.subrange(i as int, n as int).reverse() =~= self.context@.subrange(
                    i + 1,
                    n as int,
                ).reverse().push(self.context@[i as int]));
            }
        }
        proof {
            assert(self.context@.subrange(0, n as int) =~= self.context@);
            assert forall|i: int| self.context_in_alphabet() && 0 <= i < path@.len() implies #[trigger] path@[i] < self.size() by {
                assert(path@[i] == self.context@[n - 1 - i]);
                assert(self.context_view()[n - 1 - i] < self.size());
            }
        }
        path
    }

    /// Observe a symbol: count it in every context along the current
    /// context path (creating missing contexts), slide the context window,
    /// and count it in the marginal counts.  Returns the step number of this
    /// observation (0-based).  A symbol outside the alphabet is counted
    /// nowhere but still enters the context window and the step count; the
    /// context path must then not be followed again while it is in the
    /// window.
    pub fn observe(&mut self, symbol: usize) -> (step: usize)
        requires
            old(self).wf(),
            old(self).context_in_alphabet(),
            old(self).total() < u64::MAX,
            old(self).steps() < usize::MAX,
        ensures
            final(self).wf(),
            final(self).context_in_alphabet() == (symbol < old(self).size() || old(self).depth() == 0),
            step == old(self).steps(),
            final(self).steps() == old(self).steps() + 1,
            final(self).total() == old(self).total() + 1,
            final(self).depth() == old(self).depth(),
            final(self).size() == old(self).size(),
            final(self).context_view() == window(old(self).context_view().push(symbol), old(self).depth()),
            final(self).marginal() == counts_after(old(self).marginal(), symbol),
            forall|ctx: Seq<usize>| #[trigger] counts_at(final(self).root_view(), ctx) == counts_after_update(
                counts_at(old(self).root_view(), ctx),
                ctx,
                old(self).context_view().reverse(),
                symbol,
                old(self).size(),
            ),
    {
        let path = self.context_path();
        let ghost old_ctx = self.context@;
        let depth = self.context_depth;
        let k = self.alphabet_size;
        let bound = Ghost(self.total_symbols as nat);
        let ghost old_root = self.root;
        let mut root = CtwNode::new(0);
        std::mem::swap(&mut root, &mut self.root);
        update_node_recursive(&mut root, &path, 0, symbol, k, depth, bound);
        proof {
            assert(update_span(path@, 0, depth as nat) =~= path@) by {
                lemma_update_span_full(path@, 0, depth as nat);
            }
            assert(counts_at(root, Seq::empty()) == counts_after_update(
                counts_at(old_root, Seq::empty()),
                Seq::<usize>::empty(),
                path@,
                symbol,
                k as nat,
            ));
            assert(is_prefix_of(Seq::<usize>::empty(), path@)) by {
                assert(path@.take(0) =~= Seq::<usize>::empty());
            }
            lemma_nested_after_update(old_root, root, path@, symbol, k as nat, self.total_symbols as nat);
        }
        self.root = root;
        self.context.push_back(symbol);
        if self.context.len() > depth {
            self.context.pop_front();
        }
        if symbol < k {
            let c = self.marginal_counts[symbol];
            proof {
                assert(counts_at(old_root, Seq::empty()) == Some(self.marginal_counts@));
                assert(node_at(old_root, Seq::empty()) == Some(old_root));
                assert(node_ok(old_root, k as nat, self.total_symbols as nat));
                lemma_sum_bound(self.marginal_counts@, symbol as int);
            }
            self.marginal_counts.set(symbol, c + 1);
        }
        self.total_symbols = self.total_symbols + 1;
        let step = self.step;
        self.step = self.step + 1;
        proof {
            assert(self.context@ =~= window(old_ctx.push(symbol), depth as nat));
            assert(self.marginal_counts@ =~= counts_after(old(self).marginal(), symbol));
            let w = old_ctx.push(symbol);
            if w.len() > depth {
                assert(self.context@ =~= w.subrange(w.len() - depth, w.len() as int));
                if depth > 0 {
                    assert(self.context@[depth - 1] == symbol);
                } else {
                    assert(self.context@.len() == 0);
                }
            } else {
                assert(self.context@ =~= w);
                assert(self.context@[w.len() - 1] == symbol);
            }
            if symbol < k || depth == 0 {
                assert forall|i: int| 0 <= i < self.context_view().len() implies #[trigger] self.context_view()[i] < self.size() by {
                    let j = if w.len() > depth { w.len() - depth + i } else { i };
                    assert(self.context@[i] == w[j]);
                    if j < old_ctx.len() {
                        assert(w[j] == old_ctx[j]);
                        assert(old(self).context_view()[j] < old(self).size());
                    }
                }
            } else {
                let last = self.context@.len() - 1;
                assert(self.context_view()[last] == symbol);
                assert(!(self.context_view()[last] < self.size()));
            }
        }
        step
    }

    /// Forget everything observed: the state becomes that of a fresh
    /// predictor with the same depth and alphabet.
    pub fn reset(&mut self)
        ensures
            final(self).wf(),
            final(self).context_in_alphabet(),
            final(self).depth() == old(self).depth(),
            final(self).size() == old(self).size(),
            final(self).context_view() == Seq::<usize>::empty(),
            final(self).steps() == 0,
            final(self).total() == 0,
            final(self).marginal() == Seq::new(old(self).size(), |i: int| 0u64),
            forall|ctx: Seq<usize>| #[trigger] counts_at(final(self).root_view(), ctx) == if ctx.len() == 0 {
                Some(Seq::new(old(self).size(), |i: int| 0u64))
            } else {
                None::<Seq<u64>>
            },
    {
        *self = CtwTree::new(self.context_depth, self.alphabet_size);
    }

    /// The current context (oldest first).
    pub fn current_context(&self) -> (c: Vec<usize>)
        ensures
            c@ == self.context_view(),
    {
        let n = self.context.len();
        let mut c: Vec<usize> = Vec::new();
        for i in 0..n
            invariant
                n == self.context@.len(),
                c@ == self.context@.take(i as int),
        {
            c.push(self.context[i]);
            proof {
                assert(self.context@.take(i + 1) =~= self.context@.take(i as int).push(self.context@[i as int]));
            }
        }
        proof {
            assert(self.context@.take(n as int) =~= self.context@);
        }
        c
    }

    /// Number of symbols observed.
    pub fn step_count(&self) -> (n: usize)
        requires
            self.wf(),
        ensures
            n == self.steps(),
            n == self.total(),
    {
        self.step
    }

    /// Root of the context tree.  The root context always holds exactly the
    /// marginal counts: at the root, the context-tree estimate is the
    /// baseline estimate.
    pub fn root(&self) -> (r: &CtwNode)
        requires
            self.wf(),
        ensures
            *r == self.root_view(),
            counts_at(*r, Seq::empty()) == Some(self.marginal()),
            tree_wf(*r, self.size()),
    {
        &self.root
    }

    /// Baseline (marginal) predictive probability of `symbol` as a ratio
    /// `(2 * count + 1, 2 * total + k)`.
    pub fn baseline_ratio(&self, symbol: usize) -> (r: (u128, u128))
        requires
            self.wf(),
        ensures
            r.0 == 2 * (if symbol < self.size() {
                self.marginal()[symbol as int] as int
            } else {
                0
            }) + 1,
            r.1 == 2 * self.total() + self.size(),
    {
        let count: u64 = if symbol < self.marginal_counts.len() {
            self.marginal_counts[symbol]
        } else {
            0
        };
        (2 * (count as u128) + 1, 2 * (self.total_symbols as u128) + (self.alphabet_size as u128))
    }

}

/// A context extended by one more (older) symbol is in the tree only below
/// the context it extends, and has counted each symbol at most as often.
pub proof fn lemma_context_counts_nested(t: CtwTree, ctx: Seq<usize>, s: usize)
    requires
        t.wf(),
    ensures
        counts_at(t.root_view(), ctx.push(s)) is Some ==> {
            &&& counts_at(t.root_view(), ctx) is Some
            &&& counts_le(
                counts_at(t.root_view(), ctx.push(s)).unwrap(),
                counts_at(t.root_view(), ctx).unwrap(),
            )
        },
{
}

/// No context has counted a symbol more often than the marginal counts
/// hold it: every context's counts are bounded by the baseline's.
pub proof fn lemma_context_counts_bounded(t: CtwTree, ctx: Seq<usize>)
    requires
        t.wf(),
        counts_at(t.root_view(), ctx) is Some,
    ensures
        counts_le(counts_at(t.root_view(), ctx).unwrap(), t.marginal()),
    decreases ctx.len(),
{
    if ctx.len() > 0 {
        let parent = ctx.drop_last();
        assert(parent.push(ctx.last()) =~= ctx);
        lemma_context_counts_nested(t, parent, ctx.last());
        lemma_context_counts_bounded(t, parent);
    }
}

proof fn lemma_update_span_full(path: Seq<usize>, depth: nat, max_depth: nat)
    requires
        path.len() <= max_depth,
        depth <= path.len(),
    ensures
        update_span(path, depth, max_depth) == path.subrange(depth as int, path.len() as int),
    decreases path.len() - depth,
{
    if depth < path.len() {
        lemma_update_span_full(path, depth + 1, max_depth);
        assert(path.subrange(depth as int, path.len() as int) =~= seq![path[depth as int]]
            + path.subrange(depth as int + 1, path.len() as int));
    } else {
        assert(path.subrange(depth as int, path.len() as int) =~= Seq::<usize>::empty());
    }
}
} // verus!
