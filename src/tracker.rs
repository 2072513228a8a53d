use vstd::prelude::*;

verus! {

/// One tracked component: a named unit of work, open from `start` until its
/// guard is released. Times are nanoseconds on the caller's monotonic clock.
#[derive(Clone, Debug)]
pub struct ComponentNode {
    pub id: usize,
    pub name: String,
    pub parent: Option<usize>,
    pub start: u64,
    pub end: Option<u64>,
    /// The call chain (thread or explicit context) that opened the node.
    pub chain: u64,
    /// Position among the children of the same parent, in creation order.
    pub seq: usize,
}

/// The handle of an open component; `id` is `None` when tracking was disabled.
#[derive(Clone, Debug)]
pub struct ComponentGuard {
    pub id: Option<usize>,
}

pub open spec fn is_active(n: ComponentNode) -> bool {
    n.end is None
}

pub open spec fn open_on(n: ComponentNode, c: u64) -> bool {
    n.chain == c && is_active(n)
}

/// The newest node below index `k` that is still open on chain `c`: the top
/// of that chain's active stack.
pub open spec fn top_below(nodes: Seq<ComponentNode>, c: u64, k: int) -> Option<usize>
    decreases k,
{
    if k <= 0 {
        None
    } else if open_on(nodes[k - 1], c) {
        Some((k - 1) as usize)
    } else {
        top_below(nodes, c, k - 1)
    }
}

/// How many nodes below index `k` are still open on chain `c`.
pub open spec fn open_below(nodes: Seq<ComponentNode>, c: u64, k: int) -> nat
    decreases k,
{
    if k <= 0 {
        0
    } else {
        open_below(nodes, c, k - 1) + if open_on(nodes[k - 1], c) {
            1nat
        } else {
            0nat
        }
    }
}

/// How many nodes below index `k` have parent `p`.
pub open spec fn children_below(nodes: Seq<ComponentNode>, p: Option<usize>, k: int) -> nat
    decreases k,
{
    if k <= 0 {
        0
    } else {
        children_below(nodes, p, k - 1) + if nodes[k - 1].parent == p {
            1nat
        } else {
            0nat
        }
    }
}

/// Number of ancestors of node `i`.
pub open spec fn depth(nodes: Seq<ComponentNode>, i: int) -> nat
    decreases i,
{
    match nodes[i].parent {
        Some(p) => if 0 <= p < i {
            1 + depth(nodes, p as int)
        } else {
            0
        },
        None => 0,
    }
}

/// Number of parent-child edges.
pub open spec fn edge_count(nodes: Seq<ComponentNode>, k: int) -> nat
    decreases k,
{
    if k <= 0 {
        0
    } else {
        edge_count(nodes, k - 1) + if nodes[k - 1].parent is Some {
            1nat
        } else {
            0nat
        }
    }
}

/// The well-formedness of a node table whose times are all at most `clock`.
pub open spec fn table_wf(nodes: Seq<ComponentNode>, clock: u64) -> bool {
    forall|i: int| 0 <= i < nodes.len() ==> #[trigger] node_wf(nodes, clock, i)
}

pub open spec fn node_wf(nodes: Seq<ComponentNode>, clock: u64, i: int) -> bool {
    let n = nodes[i];
    &&& n.id == i
    &&& n.start <= clock
    &&& (forall|j: int| 0 <= j < i ==> #[trigger] nodes[j].start <= n.start)
    &&& match n.end {
        Some(e) => n.start <= e <= clock,
        None => true,
    }
    &&& match n.parent {
        Some(p) => {
            &&& p < i
            &&& nodes[p as int].chain == n.chain
            &&& nodes[p as int].start <= n.start
            &&& (nodes[p as int].end is Some ==> (n.end is Some && n.end.unwrap()
                <= nodes[p as int].end.unwrap()))
        },
        None => true,
    }
    &&& (is_active(n) ==> n.parent == top_below(nodes, n.chain, i))
    &&& n.seq == children_below(nodes, n.parent, i)
}

/// `n` with its end set to `t`.
pub open spec fn closed_at(n: ComponentNode, t: u64) -> ComponentNode {
    ComponentNode { end: Some(t), ..n }
}

/// Whether the node of a guard with `id` is the top of its chain's active stack.
pub open spec fn releasable(nodes: Seq<ComponentNode>, id: Option<usize>) -> bool {
    match id {
        Some(i) => i < nodes.len() && top_below(nodes, nodes[i as int].chain, nodes.len() as int)
            == Some(i),
        None => false,
    }
}

/// The table of every component opened so far, in creation order.
pub struct ComponentTracker {
    nodes: Vec<ComponentNode>,
    clock: u64,
}

proof fn lemma_top_below_props(nodes: Seq<ComponentNode>, c: u64, k: int)
    requires
        0 <= k <= nodes.len(),
        k <= usize::MAX,
    ensures
        match top_below(nodes, c, k) {
            Some(x) => {
                &&& x < k
                &&& open_on(nodes[x as int], c)
                &&& forall|j: int| x < j < k ==> !open_on(#[trigger] nodes[j], c)
                &&& open_below(nodes, c, k) == open_below(nodes, c, x as int) + 1
            },
            None => {
                &&& forall|j: int| 0 <= j < k ==> !open_on(#[trigger] nodes[j], c)
                &&& open_below(nodes, c, k) == 0
            },
        },
    decreases k,
{
    if k > 0 {
        lemma_top_below_props(nodes, c, k - 1);
    }
}

/// `top_below` reads only which nodes below `k` are open on `c`.
proof fn lemma_top_below_same(a: Seq<ComponentNode>, b: Seq<ComponentNode>, c: u64, k: int)
    requires
        0 <= k <= a.len(),
        k <= b.len(),
        forall|j: int| 0 <= j < k ==> open_on(a[j], c) == open_on(b[j], c),
    ensures
        top_below(a, c, k) == top_below(b, c, k),
    decreases k,
{
    if k > 0 {
        lemma_top_below_same(a, b, c, k - 1);
    }
}

/// `children_below` reads only the parents below `k`.
proof fn lemma_children_below_same(
    a: Seq<ComponentNode>,
    b: Seq<ComponentNode>,
    p: Option<usize>,
    k: int,
)
    requires
        0 <= k <= a.len(),
        k <= b.len(),
        forall|j: int| 0 <= j < k ==> a[j].parent == b[j].parent,
    ensures
        children_below(a, p, k) == children_below(b, p, k),
    decreases k,
{
    if k > 0 {
        lemma_children_below_same(a, b, p, k - 1);
    }
}

proof fn lemma_children_below_bound(nodes: Seq<ComponentNode>, p: Option<usize>, k: int)
    requires
        0 <= k,
    ensures
        children_below(nodes, p, k) <= k,
    decreases k,
{
    if k > 0 {
        lemma_children_below_bound(nodes, p, k - 1);
    }
}

impl ComponentTracker {
    /// The nodes, in creation order.
    pub closed spec fn nodes(&self) -> Seq<ComponentNode> {
        self.nodes@
    }

    /// The latest time the tracker has seen; every recorded time is at most this.
    pub closed spec fn clock(&self) -> u64 {
        self.clock
    }

    pub open spec fn wf(&self) -> bool {
        &&& table_wf(self.nodes(), self.clock())
        &&& self.nodes().len() <= usize::MAX
    }

    pub fn new() -> (r: ComponentTracker)
        ensures
            r.wf(),
            r.nodes() == Seq::<ComponentNode>::empty(),
            r.clock() == 0,
    {
        ComponentTracker { nodes: Vec::new(), clock: 0 }
    }

    /// Every node so far, in creation order; open nodes have no end.
    pub fn components(&self) -> (r: &Vec<ComponentNode>)
        ensures
            r@ == self.nodes(),
    {
        &self.nodes
    }

    /// The latest time the tracker has seen.
    pub fn now_floor(&self) -> (r: u64)
        ensures
            r == self.clock(),
    {
        self.clock
    }

    /// The node on top of chain `c`'s active stack.
    pub fn current(&self, c: u64) -> (r: Option<usize>)
        ensures
            r == top_below(self.nodes(), c, self.nodes().len() as int),
    {
        let mut k: usize = self.nodes.len();
        while k > 0
            invariant
                k <= self.nodes@.len(),
                top_below(self.nodes@, c, self.nodes@.len() as int) == top_below(
                    self.nodes@,
                    c,
                    k as int,
                ),
            decreases k,
        {
            let n = &self.nodes[k - 1];
            if n.chain == c && n.end.is_none() {
                return Some(k - 1);
            }
            k = k - 1;
        }
        None
    }

    fn count_children(&self, p: Option<usize>) -> (r: usize)
        ensures
            r == children_below(self.nodes(), p, self.nodes().len() as int),
    {
        let mut cnt: usize = 0;
        let mut k: usize = 0;
        while k < self.nodes.len()
            invariant
                k <= self.nodes@.len(),
                cnt == children_below(self.nodes@, p, k as int),
            decreases self.nodes@.len() - k,
        {
            proof {
                lemma_children_below_bound(self.nodes@, p, k as int);
            }
            let same = match (self.nodes[k].parent, p) {
                (Some(a), Some(b)) => a == b,
                (None, None) => true,
                _ => false,
            };
            if same {
                cnt = cnt + 1;
            }
            k = k + 1;
        }
        cnt
    }

    /// Opens a component named `name` on chain `c` at time `now`. Its parent
    /// is the node on top of that chain's active stack, and it becomes the new
    /// top. A time earlier than one already seen counts as that time.
    pub fn track(&mut self, name: &str, c: u64, now: u64) -> (g: ComponentGuard)
        requires
            old(self).wf(),
            old(self).nodes().len() < usize::MAX,
        ensures
            final(self).wf(),
            ({
                let old_nodes = old(self).nodes();
                let n = final(self).nodes().last();
                let t = if now < old(self).clock() { old(self).clock() } else { now };
                &&& final(self).nodes().len() == old_nodes.len() + 1
                &&& final(self).nodes().drop_last() == old_nodes
                &&& n.id == old_nodes.len()
                &&& n.name@ == name@
                &&& n.parent == top_below(old_nodes, c, old_nodes.len() as int)
                &&& n.start == t
                &&& n.end is None
                &&& n.chain == c
                &&& n.seq == children_below(old_nodes, n.parent, old_nodes.len() as int)
                &&& final(self).clock() == t
                &&& g.id == Some(n.id)
            }),
    {
        let t = if now < self.clock {
            self.clock
        } else {
            now
        };
        let parent = self.current(c);
        let seq = self.count_children(parent);
        let id = self.nodes.len();
        let ghost before = self.nodes@;
        proof {
            lemma_top_below_props(before, c, before.len() as int);
        }
        self.nodes.push(
            ComponentNode {
                id,
                name: name.to_owned(),
                parent,
                start: t,
                end: None,
                chain: c,
                seq,
            },
        );
        self.clock = t;
        let ghost after = self.nodes@;
        assert(after.drop_last() =~= before);
        assert forall|i: int| 0 <= i < after.len() implies #[trigger] node_wf(after, t, i) by {
            lemma_top_below_same(before, after, after[i].chain, i);
            lemma_children_below_same(before, after, after[i].parent, i);
            if i < before.len() {
                assert(node_wf(before, old(self).clock, i));
                assert(after[i] == before[i]);
            } else {
                assert forall|j: int| 0 <= j < i implies #[trigger] after[j].start <= t by {
                    assert(node_wf(before, old(self).clock, j));
                }
            }
        }
        ComponentGuard { id: Some(id) }
    }

    /// Closes the component of `guard` at time `now` when it is the top of its
    /// chain's active stack. A guard released out of order, or one whose node
    /// is already closed or unknown, changes nothing and gives `false`.
    pub fn release(&mut self, guard: &ComponentGuard, now: u64) -> (r: bool)
        requires
            old(self).wf(),
        ensures
            final(self).wf(),
            r == releasable(old(self).nodes(), guard.id),
            r ==> ({
                let i = guard.id.unwrap() as int;
                let t = if now < old(self).clock() { old(self).clock() } else { now };
                let o = old(self).nodes()[i];
                &&& final(self).nodes() == old(self).nodes().update(i, closed_at(o, t))
                &&& final(self).clock() == t
            }),
            !r ==> final(self).nodes() == old(self).nodes() && final(self).clock() == old(
                self,
            ).clock(),
    {
        let i = match guard.id {
            Some(i) => i,
            None => {
                return false;
            },
        };
        if i >= self.nodes.len() {
            return false;
        }
        let c = self.nodes[i].chain;
        match self.current(c) {
            Some(top) => {
                if top != i {
                    return false;
                }
            },
            None => {
                return false;
            },
        }
        let t = if now < self.clock {
            self.clock
        } else {
            now
        };
        let ghost before = self.nodes@;
        let ghost len = before.len() as int;
        proof {
            lemma_top_below_props(before, c, len);
        }
        let o = &self.nodes[i];
        let closed = ComponentNode {
            id: o.id,
            name: o.name.clone(),
            parent: o.parent,
            start: o.start,
            end: Some(t),
            chain: o.chain,
            seq: o.seq,
        };
        self.nodes.set(i, closed);
        self.clock = t;
        let ghost after = self.nodes@;
        assert(after[i as int].name@ == before[i as int].name@);
        assert(after =~= before.update(i as int, closed_at(before[i as int], t)));
        assert forall|k: int| 0 <= k < after.len() implies #[trigger] node_wf(after, t, k) by {
            assert(node_wf(before, old(self).clock, k));
            lemma_children_below_same(before, after, after[k].parent, k);
            if k != i {
                assert(after[k] == before[k]);
                if is_active(after[k]) {
                    if after[k].chain == c {
                        assert(k < i);
                    }
                    lemma_top_below_same(before, after, after[k].chain, k);
                }
                if after[k].parent == Some(i) {
                    if is_active(before[k]) {
                        assert(k > i);
                        assert(!open_on(before[k], c));
                    }
                }
            }
            assert forall|j: int| 0 <= j < k implies #[trigger] after[j].start <= after[k].start by {
                assert(before[j].start <= before[k].start);
            }
        }
        true
    }
}

/// Components nested on one call chain form a path: an open node's depth in
/// the tree equals the number of components open on its chain before it, that
/// is, its nesting depth.
pub proof fn lemma_nesting_depth(tr: ComponentTracker, i: int)
    requires
        tr.wf(),
        0 <= i < tr.nodes().len(),
        is_active(tr.nodes()[i]),
    ensures
        depth(tr.nodes(), i) == open_below(tr.nodes(), tr.nodes()[i].chain, i),
    decreases i,
{
    let nodes = tr.nodes();
    let c = nodes[i].chain;
    assert(node_wf(nodes, tr.clock(), i));
    lemma_top_below_props(nodes, c, i);
    match nodes[i].parent {
        Some(p) => {
            lemma_nesting_depth(tr, p as int);
        },
        None => {},
    }
}

/// A parent starts no later than its child and, once closed, ends no earlier
/// than it; a closed parent has only closed children.
pub proof fn lemma_parent_encloses_child(tr: ComponentTracker, i: int)
    requires
        tr.wf(),
        0 <= i < tr.nodes().len(),
        tr.nodes()[i].parent is Some,
    ensures
        ({
            let n = tr.nodes()[i];
            let p = tr.nodes()[n.parent.unwrap() as int];
            &&& n.parent.unwrap() < i
            &&& p.start <= n.start
            &&& p.chain == n.chain
            &&& (p.end is Some ==> n.end is Some && n.end.unwrap() <= p.end.unwrap())
        }),
{
    assert(node_wf(tr.nodes(), tr.clock(), i));
}

/// Sibling positions count up from zero in creation order.
pub proof fn lemma_sibling_order(tr: ComponentTracker, i: int, j: int)
    requires
        tr.wf(),
        0 <= i < j < tr.nodes().len(),
        tr.nodes()[i].parent == tr.nodes()[j].parent,
    ensures
        tr.nodes()[i].seq < tr.nodes()[j].seq,
    decreases j,
{
    let nodes = tr.nodes();
    assert(node_wf(nodes, tr.clock(), i));
    assert(node_wf(nodes, tr.clock(), j));
    lemma_children_below_mono(nodes, nodes[i].parent, i + 1, j);
}

proof fn lemma_children_below_mono(nodes: Seq<ComponentNode>, p: Option<usize>, a: int, b: int)
    requires
        0 <= a <= b,
    ensures
        children_below(nodes, p, a) <= children_below(nodes, p, b),
    decreases b,
{
    if a < b {
        lemma_children_below_mono(nodes, p, a, b - 1);
    }
}

/// Creation order is chronological: a node created later starts no earlier,
/// so listing nodes in creation order lists them by start, ties by id.
pub proof fn lemma_creation_order_is_chronological(tr: ComponentTracker, i: int, j: int)
    requires
        tr.wf(),
        0 <= i < j < tr.nodes().len(),
    ensures
        tr.nodes()[i].start <= tr.nodes()[j].start,
        tr.nodes()[i].id < tr.nodes()[j].id,
{
    assert(node_wf(tr.nodes(), tr.clock(), i));
    assert(node_wf(tr.nodes(), tr.clock(), j));
}

} // verus!
