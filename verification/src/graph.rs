//! Breadth-first search over a distributed adjacency matrix, and the
//! parsing of edge lists.
//!
//! The search runs layer by layer: each step asks for the neighbors of the
//! nodes of the current layer (rows of the adjacency matrix, which may be
//! stored on other PEs), and the caller answers with them.
use vstd::prelude::*;

use rustc_hash::{FxBuildHasher, FxHashSet};

use crate::matrix::{binary_search, strictly_sorted};

verus! {

#[verifier::external_type_specification]
#[verifier::external_body]
pub struct ExFxBuildHasher(FxBuildHasher);

/// An empty set with room for `capacity` nodes, through
/// `HashSet::with_capacity_and_hasher` with rustc-hash's `FxBuildHasher`.
#[verifier::external_body]
fn new_node_set(capacity: usize) -> (s: FxHashSet<usize>)
    ensures
        s@ == Set::<usize>::empty(),
{
    FxHashSet::with_capacity_and_hasher(capacity, FxBuildHasher)
}

/// Whether `s` holds `node`, through `HashSet::contains`; the Fx hasher
/// hashes a node the same way every time, so the set answers by its
/// contents.
#[verifier::external_body]
fn node_set_contains(s: &FxHashSet<usize>, node: usize) -> (r: bool)
    ensures
        r == s@.contains(node),
{
    s.contains(&node)
}

/// Adds `node` to `s`, through `HashSet::insert`.
#[verifier::external_body]
fn node_set_insert(s: &mut FxHashSet<usize>, node: usize)
    ensures
        final(s)@ == old(s)@.insert(node),
{
    s.insert(node);
}

/// Sorts `v` in ascending order, through `slice::sort_unstable`, which
/// the standard library documents as ordering the same elements.
#[verifier::external_body]
fn sort_nodes(v: &mut Vec<usize>)
    ensures
        final(v)@.to_multiset() == old(v)@.to_multiset(),
        forall|i: int, j: int| 0 <= i <= j < final(v)@.len() ==> final(v)@[i] <= final(v)@[j],
{
    v.sort_unstable();
}

/// The lines of a list of `len` lines that PE `pe` of `pes` handles: the
/// list is cut into shares of `len.div_ceil(pes)` lines, and share `pe`
/// (clipped to the list) is `start..end`.
pub fn share_range(len: usize, pe: usize, pes: usize) -> (r: (usize, usize))
    requires
        pes > 0,
        pe * ((len + pes - 1) / pes as int) <= usize::MAX,
    ensures
        r.0 == vstd::math::min(pe * ((len + pes - 1) / pes as int), len as int),
        r.1 == vstd::math::min(r.0 + (len + pes - 1) / pes as int, len as int),
{
    proof {
        let n = len as int;
        let p = pes as int;
        vstd::arithmetic::div_mod::lemma_fundamental_div_mod(n, p);
        vstd::arithmetic::div_mod::lemma_mod_pos_bound(n, p);
        if n % p != 0 {
            assert(n / p < usize::MAX) by (nonlinear_arith)
                requires
                    n == p * (n / p) + n % p,
                    0 < n % p < p,
                    n <= usize::MAX,
            ;
        }
    }
    let per_pe = len / pes + if len % pes == 0 {
        0
    } else {
        1
    };
    proof {
        let n = len as int;
        let p = pes as int;
        let m = n + p - 1;
        vstd::arithmetic::div_mod::lemma_fundamental_div_mod(n, p);
        vstd::arithmetic::div_mod::lemma_fundamental_div_mod(m, p);
        vstd::arithmetic::div_mod::lemma_mod_pos_bound(n, p);
        vstd::arithmetic::div_mod::lemma_mod_pos_bound(m, p);
        let q = n / p;
        let rem = n % p;
        let q2 = m / p;
        let rem2 = m % p;
        assert(per_pe == q2) by (nonlinear_arith)
            requires
                p > 0,
                n == p * q + rem,
                0 <= rem,
                rem < p,
                m == n + p - 1,
                m == p * q2 + rem2,
                0 <= rem2,
                rem2 < p,
                per_pe == q + (if rem == 0 { 0int } else { 1int }),
        ;
    }
    let skip = pe * per_pe;
    let start = if skip < len {
        skip
    } else {
        len
    };
    let end = if len - start < per_pe {
        len
    } else {
        start + per_pe
    };
    (start, end)
}

/// `t` holds the nodes of `s`, each once, in ascending order.
pub open spec fn sorted_dedup_of(s: Seq<usize>, t: Seq<usize>) -> bool {
    &&& strictly_sorted(t)
    &&& forall|x: usize| #[trigger] t.contains(x) <==> s.contains(x)
}

/// Sorts `vec` and removes repeated nodes.
pub fn sort_and_dedup(vec: &mut Vec<usize>)
    ensures
        sorted_dedup_of(old(vec)@, final(vec)@),
{
    broadcast use vstd::seq_lib::group_to_multiset_ensures;

    if vec.len() <= 1 {
        return;
    }
    let ghost orig = vec@;
    sort_nodes(vec);
    assert forall|x: usize| vec@.contains(x) <==> orig.contains(x) by {
        if vec@.contains(x) {
            assert(vec@.to_multiset().count(x) > 0);
        }
        if orig.contains(x) {
            assert(orig.to_multiset().count(x) > 0);
        }
    }
    let mut out: Vec<usize> = Vec::new();
    let mut i: usize = 0;
    while i < vec.len()
        invariant
            i <= vec@.len(),
            forall|a: int, b: int| 0 <= a <= b < vec@.len() ==> vec@[a] <= vec@[b],
            strictly_sorted(out@),
            i > 0 ==> out@.len() > 0 && out@.last() == vec@[i - 1],
            i == 0 ==> out@.len() == 0,
            forall|x: usize| #[trigger] out@.contains(x) <==> vec@.subrange(0, i as int).contains(x),
        decreases vec@.len() - i,
    {
        let x = vec[i];
        let ghost pre = vec@.subrange(0, i as int);
        assert(vec@.subrange(0, i + 1) =~= pre.push(x));
        if out.len() == 0 || out[out.len() - 1] != x {
            let ghost prev = out@;
            out.push(x);
            assert forall|y: usize| #[trigger] out@.contains(y) <==> pre.push(x).contains(y) by {
                if out@.contains(y) {
                    let k = choose|k: int| 0 <= k < out@.len() && out@[k] == y;
                    if k < prev.len() {
                        assert(prev[k] == y);
                        assert(prev.contains(y));
                        assert(pre.contains(y));
                        let m = choose|m: int| 0 <= m < pre.len() && pre[m] == y;
                        assert(pre.push(x)[m] == y);
                    } else {
                        assert(pre.push(x)[pre.len() as int] == y);
                    }
                }
                if pre.push(x).contains(y) {
                    let k = choose|k: int| 0 <= k < pre.push(x).len() && pre.push(x)[k] == y;
                    if k < pre.len() {
                        assert(pre.contains(y));
                        assert(prev.contains(y));
                        let m = choose|m: int| 0 <= m < prev.len() && prev[m] == y;
                        assert(out@[m] == y);
                    } else {
                        assert(out@[out@.len() - 1] == y);
                    }
                }
            }
        } else {
            assert forall|y: usize| #[trigger] out@.contains(y) <==> pre.push(x).contains(y) by {
                if out@.contains(y) {
                    assert(pre.contains(y));
                    let m = choose|m: int| 0 <= m < pre.len() && pre[m] == y;
                    assert(pre.push(x)[m] == y);
                }
                if pre.push(x).contains(y) {
                    let k = choose|k: int| 0 <= k < pre.push(x).len() && pre.push(x)[k] == y;
                    if k < pre.len() {
                        assert(pre.contains(y));
                    } else {
                        assert(out@[out@.len() - 1] == y);
                    }
                }
            }
        }
        i = i + 1;
    }
    assert(vec@.subrange(0, vec@.len() as int) =~= vec@);
    *vec = out;
}


/// Two strictly sorted sequences with the same elements are equal.
pub proof fn lemma_sorted_unique(a: Seq<usize>, b: Seq<usize>)
    requires
        strictly_sorted(a),
        strictly_sorted(b),
        forall|x: usize| #[trigger] a.contains(x) <==> b.contains(x),
    ensures
        a == b,
    decreases a.len(),
{
    if a.len() == 0 {
        if b.len() > 0 {
            assert(b.contains(b[0]));
            assert(a.contains(b[0]));
        }
        assert(a =~= b);
    } else {
        assert(a.contains(a[0]));
        assert(b.contains(a[0]));
        assert(b.len() > 0);
        assert(b.contains(b[0]));
        assert(a.contains(b[0]));
        let ka = choose|k: int| 0 <= k < b.len() && b[k] == a[0];
        let kb = choose|k: int| 0 <= k < a.len() && a[k] == b[0];
        if ka > 0 {
            assert(b[0] < b[ka]);
        }
        if kb > 0 {
            assert(a[0] < a[kb]);
        }
        assert(a[0] == b[0]);
        let ta = a.drop_first();
        let tb = b.drop_first();
        assert forall|x: usize| #[trigger] ta.contains(x) <==> tb.contains(x) by {
            if ta.contains(x) {
                let k = choose|k: int| 0 <= k < ta.len() && ta[k] == x;
                assert(a[k + 1] == x);
                assert(a[0] < x);
                assert(a.contains(x));
                let m = choose|m: int| 0 <= m < b.len() && b[m] == x;
                assert(m != 0);
                assert(tb[m - 1] == x);
            }
            if tb.contains(x) {
                let k = choose|k: int| 0 <= k < tb.len() && tb[k] == x;
                assert(b[k + 1] == x);
                assert(b[0] < x);
                assert(b.contains(x));
                assert(a.contains(x));
                let m = choose|m: int| 0 <= m < a.len() && a[m] == x;
                assert(m != 0);
                assert(ta[m - 1] == x);
            }
        }
        lemma_sorted_unique(ta, tb);
        assert(a =~= b) by {
            assert forall|k: int| 0 <= k < a.len() implies a[k] == b[k] by {
                if k > 0 {
                    assert(a[k] == ta[k - 1]);
                    assert(b[k] == tb[k - 1]);
                }
            }
        }
    }
}

/// Layers a search explores before it gives up.
pub const MAX_LAYERS: usize = 20000;

/// Node `n` occurs in one of the neighbor lists.
pub open spec fn listed(lists: Seq<Vec<usize>>, n: usize) -> bool {
    exists|a: int, b: int| 0 <= a < lists.len() && 0 <= b < lists[a]@.len() && lists[a]@[b] == n
}

/// Node `n` occurs in one of the neighbor lists before position `j` of
/// list `i`.
pub open spec fn listed_before(lists: Seq<Vec<usize>>, i: int, j: int, n: usize) -> bool {
    exists|a: int, b: int|
        0 <= a < lists.len() && 0 <= b < lists[a]@.len() && lists[a]@[b] == n && (a < i || (a == i
            && b < j))
}

/// The nodes of `lists` that `seen` does not hold, each as often as it
/// occurs, in the order of the lists.
fn unseen_neighbors(lists: &Vec<Vec<usize>>, seen: &FxHashSet<usize>) -> (r: Vec<usize>)
    ensures
        forall|x: usize| #[trigger] r@.contains(x) <==> listed(lists@, x) && !seen@.contains(x),
{
    let mut out: Vec<usize> = Vec::new();
    let mut i: usize = 0;
    while i < lists.len()
        invariant
            i <= lists@.len(),
            forall|x: usize|
                #[trigger] out@.contains(x) <==> listed_before(lists@, i as int, 0, x) && !seen@.contains(x),
        decreases lists@.len() - i,
    {
        let list = &lists[i];
        let mut j: usize = 0;
        while j < list.len()
            invariant
                i < lists@.len(),
                *list == lists@[i as int],
                j <= list@.len(),
                forall|x: usize|
                    #[trigger] out@.contains(x) <==> listed_before(lists@, i as int, j as int, x)
                        && !seen@.contains(x),
            decreases list@.len() - j,
        {
            let n = list[j];
            let ghost prev = out@;
            if !node_set_contains(seen, n) {
                out.push(n);
            }
            assert forall|x: usize| #[trigger] out@.contains(x) <==> listed_before(lists@, i as int, j + 1, x)
                && !seen@.contains(x) by {
                if out@.contains(x) {
                    let k = choose|k: int| 0 <= k < out@.len() && out@[k] == x;
                    if k < prev.len() {
                        assert(prev.contains(x));
                        let (a, b) = choose|a: int, b: int|
                            0 <= a < lists@.len() && 0 <= b < lists@[a]@.len() && lists@[a]@[b] == x && (a
                                < i || (a == i && b < j));
                        assert(listed_before(lists@, i as int, j + 1, x));
                    } else {
                        assert(lists@[i as int]@[j as int] == x);
                        assert(listed_before(lists@, i as int, j + 1, x));
                    }
                }
                if listed_before(lists@, i as int, j + 1, x) && !seen@.contains(x) {
                    let (a, b) = choose|a: int, b: int|
                        0 <= a < lists@.len() && 0 <= b < lists@[a]@.len() && lists@[a]@[b] == x && (a < i
                            || (a == i && b < j + 1));
                    if a == i && b == j {
                        assert(out@[out@.len() - 1] == x);
                    } else {
                        assert(listed_before(lists@, i as int, j as int, x));
                        assert(prev.contains(x));
                        let k = choose|k: int| 0 <= k < prev.len() && prev[k] == x;
                        assert(out@[k] == x);
                    }
                }
            }
            j = j + 1;
        }
        assert forall|x: usize| listed_before(lists@, i as int, j as int, x) <==> listed_before(
            lists@,
            i + 1,
            0,
            x,
        ) by {
            if listed_before(lists@, i + 1, 0, x) {
                let (a, b) = choose|a: int, b: int|
                    0 <= a < lists@.len() && 0 <= b < lists@[a]@.len() && lists@[a]@[b] == x && (a < i + 1
                        || (a == i + 1 && b < 0));
                assert(listed_before(lists@, i as int, j as int, x));
            }
        }
        i = i + 1;
    }
    assert forall|x: usize| listed_before(lists@, i as int, 0, x) <==> listed(lists@, x) by {
        if listed(lists@, x) {
            let (a, b) = choose|a: int, b: int|
                0 <= a < lists@.len() && 0 <= b < lists@[a]@.len() && lists@[a]@[b] == x;
            assert(listed_before(lists@, i as int, 0, x));
        }
    }
    out
}

/// What a search step leads to.
pub enum BfsStep {
    /// The search ended: the number of layers to the target, or
    /// `usize::MAX` when the target was not reached.
    Done(usize),
    /// The neighbors of these nodes are needed next, in this order.
    Expand(Vec<usize>),
}

/// The outcome of reaching layer number `layers` with the nodes `t`:
/// the search ends unreached when the layer is empty or past the limit,
/// ends reached when the layer holds the target, and goes on otherwise.
pub open spec fn layer_outcome(t: Seq<usize>, layers: int, to: usize) -> Option<usize> {
    if t.len() == 0 || layers > MAX_LAYERS {
        Some(usize::MAX)
    } else if t.contains(to) {
        Some(layers as usize)
    } else {
        None
    }
}

/// A breadth-first search from one node to another, one layer at a time.
pub struct BfsSearch {
    from: usize,
    to: usize,
    targets: Vec<usize>,
    seen: FxHashSet<usize>,
    layers: usize,
    started: bool,
    done: bool,
}

impl BfsSearch {
    /// The node searched for.
    pub closed spec fn target(&self) -> usize {
        self.to
    }

    /// The nodes of the current layer.
    pub closed spec fn frontier(&self) -> Seq<usize> {
        self.targets@
    }

    /// The nodes of the layers before the current one.
    pub closed spec fn visited(&self) -> Set<usize> {
        self.seen@
    }

    /// The number of the current layer.
    pub closed spec fn layer(&self) -> int {
        self.layers as int
    }

    /// Whether the first layer has been formed.
    pub closed spec fn is_started(&self) -> bool {
        self.started
    }

    /// Whether the search has ended.
    pub closed spec fn is_done(&self) -> bool {
        self.done
    }

    /// The nodes whose neighbors the next step needs, in order.
    pub closed spec fn pending(&self) -> Seq<usize> {
        if self.started {
            self.targets@
        } else {
            seq![self.from]
        }
    }

    /// A search that has not ended has a strictly sorted current layer and
    /// a layer number within the limit.
    pub closed spec fn wf(&self) -> bool {
        !self.done ==> (self.started ==> strictly_sorted(self.targets@) && 1 <= self.layers
            <= MAX_LAYERS) && (!self.started ==> self.seen@ == Set::<usize>::empty())
    }

    /// Starts a search from `from` to `to`: done at distance 0 when they
    /// are the same node, and otherwise asking for the neighbors of `from`.
    pub fn new(from: usize, to: usize) -> (r: (BfsSearch, BfsStep))
        ensures
            r.0.wf(),
            r.0.target() == to,
            from == to ==> r.1 == BfsStep::Done(0) && r.0.is_done(),
            from != to ==> !r.0.is_done() && !r.0.is_started() && r.0.pending() == seq![from],
            from != to ==> (r.1 matches BfsStep::Expand(v) && v@ == seq![from]),
    {
        let search = BfsSearch {
            from,
            to,
            targets: Vec::new(),
            seen: new_node_set(65536),
            layers: 0,
            started: false,
            done: from == to,
        };
        if from == to {
            (search, BfsStep::Done(0))
        } else {
            let mut v = Vec::new();
            v.push(from);
            assert(v@ =~= seq![from]);
            (search, BfsStep::Expand(v))
        }
    }

    /// Ends the search or asks for the next layer's neighbors, once the
    /// current layer has been formed.
    fn check_layer(&mut self) -> (r: BfsStep)
        requires
            old(self).started,
            !old(self).done,
            strictly_sorted(old(self).targets@),
            1 <= old(self).layers,
        ensures
            final(self).targets == old(self).targets,
            final(self).seen == old(self).seen,
            final(self).layers == old(self).layers,
            final(self).started == old(self).started,
            final(self).from == old(self).from,
            final(self).to == old(self).to,
            final(self).done == (layer_outcome(old(self).targets@, old(self).layers as int, old(self).to)
                is Some),
            match layer_outcome(old(self).targets@, old(self).layers as int, old(self).to) {
                Some(d) => r == BfsStep::Done(d),
                None => r matches BfsStep::Expand(v) && v@ == old(self).targets@,
            },
    {
        if self.targets.len() == 0 || self.layers > MAX_LAYERS {
            self.done = true;
            return BfsStep::Done(usize::MAX);
        }
        proof {
            assert forall|i: int, j: int| 0 <= i <= j < self.targets@.len() implies self.targets@[i]
                <= self.targets@[j] by {
                if i < j {
                }
            }
        }
        match binary_search(self.targets.as_slice(), self.to) {
            Ok(_) => {
                self.done = true;
                BfsStep::Done(self.layers)
            },
            Err(at) => {
                assert(!self.targets@.contains(self.to)) by {
                    if self.targets@.contains(self.to) {
                        let k = choose|k: int| 0 <= k < self.targets@.len() && self.targets@[k] == self.to;
                        if k < at {
                        } else {
                        }
                    }
                }
                let mut v: Vec<usize> = Vec::new();
                let mut k: usize = 0;
                while k < self.targets.len()
                    invariant
                        k <= self.targets@.len(),
                        v@ == self.targets@.subrange(0, k as int),
                    decreases self.targets@.len() - k,
                {
                    v.push(self.targets[k]);
                    k = k + 1;
                }
                assert(v@ =~= self.targets@);
                BfsStep::Expand(v)
            },
        }
    }
}

/// Adds every node of `nodes` to `seen`.
fn insert_all(seen: &mut FxHashSet<usize>, nodes: &Vec<usize>)
    ensures
        final(seen)@ == old(seen)@.union(nodes@.to_set()),
{
    let ghost orig = seen@;
    let mut k: usize = 0;
    while k < nodes.len()
        invariant
            k <= nodes@.len(),
            seen@ == orig.union(nodes@.subrange(0, k as int).to_set()),
        decreases nodes@.len() - k,
    {
        let ghost before = seen@;
        node_set_insert(seen, nodes[k]);
        proof {
            let pre = nodes@.subrange(0, k as int);
            let x0 = nodes@[k as int];
            assert(nodes@.subrange(0, k + 1) =~= pre.push(x0));
            assert forall|x: usize| #[trigger] seen@.contains(x) <==> orig.union(
                nodes@.subrange(0, k + 1).to_set(),
            ).contains(x) by {
                let post = pre.push(x0);
                assert(post.to_set().contains(x) <==> post.contains(x));
                assert(pre.to_set().contains(x) <==> pre.contains(x));
                if post.contains(x) {
                    let m = choose|m: int| 0 <= m < post.len() && post[m] == x;
                    if m < pre.len() {
                        assert(pre[m] == x);
                    }
                }
                if pre.contains(x) {
                    let m = choose|m: int| 0 <= m < pre.len() && pre[m] == x;
                    assert(post[m] == x);
                }
                if x == x0 {
                    assert(post[pre.len() as int] == x);
                }
            }
            assert(seen@ =~= orig.union(nodes@.subrange(0, k + 1).to_set()));
        }
        k = k + 1;
    }
    assert(nodes@.subrange(0, nodes@.len() as int) =~= nodes@);
}

/// `t` is a next layer: the nodes listed as neighbors that were not
/// visited before, each once, in ascending order.
pub open spec fn next_layer(lists: Seq<Vec<usize>>, visited: Set<usize>, t: Seq<usize>) -> bool {
    &&& strictly_sorted(t)
    &&& forall|x: usize| #[trigger] t.contains(x) <==> listed(lists, x) && !visited.contains(x)
}

impl BfsSearch {
    /// Takes the neighbor lists of the pending nodes (in the order
    /// `pending` gives them) and forms the next layer.
    ///
    /// The first step makes the neighbors of the start node the first
    /// layer. Each later step marks the current layer visited and makes
    /// the next layer from the neighbors not visited before it; when that
    /// layer is the current one again, the search ends unreached. Then the
    /// new layer ends the search or asks for its neighbors, as
    /// `layer_outcome` says.
    pub fn advance(&mut self, neighbors: Vec<Vec<usize>>) -> (r: BfsStep)
        requires
            old(self).wf(),
            !old(self).is_done(),
            neighbors@.len() == old(self).pending().len(),
        ensures
            final(self).wf(),
            final(self).target() == old(self).target(),
            final(self).is_started(),
            !old(self).is_started() ==> final(self).visited() == old(self).visited() && final(self).layer() == 1 && sorted_dedup_of(neighbors@[0]@, final(self).frontier()),
            old(self).is_started() ==> final(self).visited() == old(self).visited().union(
                old(self).frontier().to_set(),
            ),
            old(self).is_started() && next_layer(neighbors@, old(self).visited(), old(self).frontier())
                ==> r == BfsStep::Done(usize::MAX) && final(self).is_done(),
            old(self).is_started() && !next_layer(neighbors@, old(self).visited(), old(self).frontier())
                ==> next_layer(neighbors@, old(self).visited(), final(self).frontier()) && final(self).layer() == old(self).layer() + 1,
            !old(self).is_started() || !next_layer(
                neighbors@,
                old(self).visited(),
                old(self).frontier(),
            ) ==> match layer_outcome(final(self).frontier(), final(self).layer(), final(self).target()) {
                Some(d) => r == BfsStep::Done(d) && final(self).is_done(),
                None => (r matches BfsStep::Expand(v) && v@ == final(self).frontier()) && !final(self).is_done(),
            },
    {
        if !self.started {
            let mut ns = neighbors;
            let mut first = ns.swap_remove(0);
            sort_and_dedup(&mut first);
            self.targets = first;
            self.layers = 1;
            self.started = true;
            return self.check_layer();
        }
        let mut scratch = unseen_neighbors(&neighbors, &self.seen);
        let ghost old_seen = self.seen@;
        insert_all(&mut self.seen, &self.targets);
        sort_and_dedup(&mut scratch);
        let stalled = scratch == self.targets;
        proof {
            if next_layer(neighbors@, old_seen, self.targets@) {
                lemma_sorted_unique(scratch@, self.targets@);
            }
            if stalled {
                assert(scratch@ =~= self.targets@);
            }
        }
        if self.layers > MAX_LAYERS || stalled {
            self.done = true;
            return BfsStep::Done(usize::MAX);
        }
        self.targets = scratch;
        self.layers = self.layers + 1;
        self.check_layer()
    }
}

/// `b` is an ASCII digit.
pub open spec fn is_digit(b: u8) -> bool {
    48 <= b <= 57
}

/// The number the decimal digits `s` spell.
pub open spec fn digits_value(s: Seq<u8>) -> int
    decreases s.len(),
{
    if s.len() == 0 {
        0
    } else {
        digits_value(s.drop_last()) * 10 + (s.last() - 48)
    }
}

/// The text after an optional leading `+`.
pub open spec fn digits_part(s: Seq<u8>) -> Seq<u8> {
    if s.len() > 0 && s[0] == 43 {
        s.subrange(1, s.len() as int)
    } else {
        s
    }
}

/// Every byte of `d` is an ASCII digit.
pub open spec fn all_digits(d: Seq<u8>) -> bool {
    forall|i: int| 0 <= i < d.len() ==> is_digit(#[trigger] d[i])
}

/// The number `str::parse::<usize>` reads from the text `s`: an optional
/// `+`, then one or more ASCII digits, spelling a number that fits in a
/// `usize`.
pub open spec fn parse_usize_spec(s: Seq<u8>) -> Option<usize> {
    let d = digits_part(s);
    if d.len() > 0 && all_digits(d) && digits_value(d) <= usize::MAX {
        Some(digits_value(d) as usize)
    } else {
        None
    }
}

/// A longer run of digits spells at least the number of its prefix.
proof fn lemma_digits_prefix(d: Seq<u8>, k: int)
    requires
        0 <= k <= d.len(),
        forall|i: int| 0 <= i < d.len() ==> is_digit(#[trigger] d[i]),
    ensures
        0 <= digits_value(d.subrange(0, k)) <= digits_value(d),
    decreases d.len() - k,
{
    if k < d.len() {
        lemma_digits_prefix(d, k + 1);
        assert(d.subrange(0, k + 1).drop_last() =~= d.subrange(0, k));
    } else {
        assert(d.subrange(0, k) =~= d);
    }
    lemma_digits_nonneg(d.subrange(0, k));
}

/// Digits spell a number that is not negative.
proof fn lemma_digits_nonneg(d: Seq<u8>)
    requires
        forall|i: int| 0 <= i < d.len() ==> is_digit(#[trigger] d[i]),
    ensures
        digits_value(d) >= 0,
    decreases d.len(),
{
    if d.len() > 0 {
        assert forall|i: int| 0 <= i < d.drop_last().len() implies is_digit(#[trigger] d.drop_last()[i]) by {
            assert(d.drop_last()[i] == d[i]);
        }
        lemma_digits_nonneg(d.drop_last());
    }
}

/// Reads a `usize` from the text `s` as `str::parse::<usize>` does.
pub fn parse_usize(s: &[u8]) -> (r: Option<usize>)
    ensures
        r == parse_usize_spec(s@),
{
    let len = s.len();
    let start: usize = if len > 0 && s[0] == 43 {
        1
    } else {
        0
    };
    let ghost d = digits_part(s@);
    assert(d =~= s@.subrange(start as int, len as int));
    if start == len {
        return None;
    }
    let mut i = start;
    while i < len
        invariant
            start <= i <= len,
            len == s@.len(),
            d =~= s@.subrange(start as int, len as int),
            d == digits_part(s@),
            forall|j: int| 0 <= j < i - start ==> is_digit(#[trigger] d[j]),
        decreases len - i,
    {
        if s[i] < 48 || s[i] > 57 {
            assert(d[i - start] == s@[i as int]);
            assert(!is_digit(d[i - start]));
            assert(!all_digits(d));
            return None;
        }
        i = i + 1;
    }
    let mut value: usize = 0;
    let mut i = start;
    while i < len
        invariant
            start <= i <= len,
            len == s@.len(),
            d =~= s@.subrange(start as int, len as int),
            d == digits_part(s@),
            forall|j: int| 0 <= j < d.len() ==> is_digit(#[trigger] d[j]),
            value == digits_value(d.subrange(0, i - start)),
        decreases len - i,
    {
        assert(d[i - start] == s@[i as int]);
        assert(is_digit(d[i - start]));
        let digit = (s[i] - 48) as usize;
        assert(d.subrange(0, i - start + 1).drop_last() =~= d.subrange(0, i - start));
        assert(d.subrange(0, i - start + 1).last() == s@[i as int]);
        match value.checked_mul(10) {
            None => {
                proof {
                    lemma_digits_prefix(d, i - start + 1);
                    assert(value * 10 > usize::MAX);
                    assert(digits_value(d.subrange(0, i - start + 1)) == value * 10 + digit);
                    assert(digits_value(d) > usize::MAX);
                }
                return None;
            },
            Some(v10) => match v10.checked_add(digit) {
                None => {
                    proof {
                        lemma_digits_prefix(d, i - start + 1);
                    }
                    return None;
                },
                Some(v) => {
                    value = v;
                },
            },
        }
        i = i + 1;
    }
    assert(d.subrange(0, len - start) =~= d);
    Some(value)
}

/// The first position of a `,` in `s`, if it has one.
pub open spec fn first_comma(s: Seq<u8>) -> Option<int> {
    if exists|k: int| 0 <= k < s.len() && s[k] == 44 {
        Some(
            choose|k: int|
                0 <= k < s.len() && s[k] == 44 && forall|j: int| 0 <= j < k ==> s[j] != 44,
        )
    } else {
        None
    }
}

/// The edge a line `from,to` describes, as `parse_edge` reads it: the text
/// is split at its first comma and both parts are read as `usize`.
pub open spec fn parse_edge_spec(s: Seq<u8>) -> Option<(usize, usize)> {
    match first_comma(s) {
        None => None,
        Some(k) => match (parse_usize_spec(s.subrange(0, k)), parse_usize_spec(
            s.subrange(k + 1, s.len() as int),
        )) {
            (Some(a), Some(b)) => Some((a, b)),
            _ => None,
        },
    }
}

/// Reads an edge from a line `from,to` of an edge list.
pub fn parse_edge(line: &[u8]) -> (r: Option<(usize, usize)>)
    ensures
        r == parse_edge_spec(line@),
{
    let mut k: usize = 0;
    while k < line.len()
        invariant
            k <= line@.len(),
            forall|j: int| 0 <= j < k ==> line@[j] != 44,
        ensures
            k <= line@.len(),
            forall|j: int| 0 <= j < k ==> line@[j] != 44,
            k < line@.len() ==> line@[k as int] == 44,
        decreases line@.len() - k,
    {
        if line[k] == 44 {
            break;
        }
        k = k + 1;
    }
    if k == line.len() {
        assert(first_comma(line@) is None);
        return None;
    }
    assert(line@[k as int] == 44);
    proof {
        let c = choose|c: int|
            0 <= c < line@.len() && line@[c] == 44 && forall|j: int| 0 <= j < c ==> line@[j] != 44;
        assert(0 <= k < line@.len() && line@[k as int] == 44 && forall|j: int| 0 <= j < k ==> line@[j] != 44);
        if c < k {
        } else if c > k {
        }
        assert(first_comma(line@) == Some(k as int));
    }
    let a = parse_usize(&line[0..k]);
    let b = parse_usize(&line[k + 1..line.len()]);
    match (a, b) {
        (Some(a), Some(b)) => Some((a, b)),
        _ => None,
    }
}

/// Sorting and removing repeats determines the result: any two results
/// for the same nodes are equal.
pub proof fn law_sort_and_dedup_unique(s: Seq<usize>, t1: Seq<usize>, t2: Seq<usize>)
    requires
        sorted_dedup_of(s, t1),
        sorted_dedup_of(s, t2),
    ensures
        t1 == t2,
{
    assert forall|x: usize| #[trigger] t1.contains(x) <==> t2.contains(x) by {
        assert(t1.contains(x) <==> s.contains(x));
        assert(t2.contains(x) <==> s.contains(x));
    }
    lemma_sorted_unique(t1, t2);
}

/// Sorting and removing repeats a second time changes nothing.
pub proof fn law_sort_and_dedup_idempotent(s: Seq<usize>, t: Seq<usize>, u: Seq<usize>)
    requires
        sorted_dedup_of(s, t),
        sorted_dedup_of(t, u),
    ensures
        u == t,
{
    assert forall|x: usize| #[trigger] u.contains(x) <==> t.contains(x) by {
        assert(u.contains(x) <==> t.contains(x));
    }
    lemma_sorted_unique(u, t);
}

/// A layer formed from neighbor lists holds no node visited before, and
/// only nodes that some list names.
pub proof fn law_layer_unvisited(lists: Seq<Vec<usize>>, visited: Set<usize>, t: Seq<usize>)
    requires
        next_layer(lists, visited, t),
    ensures
        forall|i: int| 0 <= i < t.len() ==> !visited.contains(#[trigger] t[i]) && listed(lists, t[i]),
{
    assert forall|i: int| 0 <= i < t.len() implies !visited.contains(#[trigger] t[i]) && listed(
        lists,
        t[i],
    ) by {
        assert(t.contains(t[i]));
    }
}

} // verus!
