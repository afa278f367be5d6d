//! The instances a scene graph yields: every node, visited in pre-order,
//! instantiates each of its meshes.
use vstd::prelude::*;

verus! {

/// A node of a scene graph, reduced to what decides the instances: the
/// meshes it instantiates and its children, in order.
pub struct SceneNode {
    pub meshes: Vec<u32>,
    pub children: Vec<SceneNode>,
}

/// One mesh instance: the pre-order number of the node that places it, and
/// the mesh it instantiates.
#[derive(Clone, Copy)]
pub struct NodeInstance {
    pub node: usize,
    pub mesh_idx: usize,
}

/// Number of nodes in the subtree of `n`.
pub open spec fn node_count(n: SceneNode) -> nat
    decreases n,
{
    1 + children_count(n.children@)
}

/// Number of nodes in the subtrees of the nodes `cs`.
pub open spec fn children_count(cs: Seq<SceneNode>) -> nat
    decreases cs,
{
    if cs.len() == 0 {
        0
    } else {
        children_count(cs.drop_last()) + node_count(cs.last())
    }
}

/// The instances of the subtree of `n` whose root is numbered `first`, as
/// pairs `(node number, mesh)`: the root's meshes in order, then those of
/// each child subtree in turn, numbering the nodes in pre-order.
pub open spec fn node_instances(n: SceneNode, first: int) -> Seq<(int, int)>
    decreases n,
{
    Seq::new(n.meshes@.len(), |i: int| (first, n.meshes@[i] as int)) + children_instances(
        n.children@,
        first + 1,
    )
}

/// The instances of the subtrees of `cs`, the first numbered from `first`.
pub open spec fn children_instances(cs: Seq<SceneNode>, first: int) -> Seq<(int, int)>
    decreases cs,
{
    if cs.len() == 0 {
        Seq::empty()
    } else {
        children_instances(cs.drop_last(), first) + node_instances(
            cs.last(),
            first + children_count(cs.drop_last()),
        )
    }
}

/// The nodes of the subtree of `n` in pre-order: the node itself, then the
/// nodes of each child subtree in turn.
pub open spec fn preorder(n: SceneNode) -> Seq<SceneNode>
    decreases n,
{
    seq![n] + preorder_children(n.children@)
}

/// The nodes of the subtrees of `cs`, each in pre-order, one after another.
pub open spec fn preorder_children(cs: Seq<SceneNode>) -> Seq<SceneNode>
    decreases cs,
{
    if cs.len() == 0 {
        Seq::empty()
    } else {
        preorder_children(cs.drop_last()) + preorder(cs.last())
    }
}

/// The instances of a list of nodes numbered from `first` on: every mesh
/// of the node at position `j`, in order, paired with the number
/// `first + j`.
pub open spec fn listed_instances(nodes: Seq<SceneNode>, first: int) -> Seq<(int, int)>
    decreases nodes.len(),
{
    if nodes.len() == 0 {
        Seq::empty()
    } else {
        let last = nodes.last();
        listed_instances(nodes.drop_last(), first) + Seq::new(
            last.meshes@.len(),
            |i: int| (first + nodes.len() - 1, last.meshes@[i] as int),
        )
    }
}

proof fn lemma_listed_instances_append(a: Seq<SceneNode>, b: Seq<SceneNode>, first: int)
    ensures
        listed_instances(a + b, first) == listed_instances(a, first) + listed_instances(b, first + a.len()),
    decreases b.len(),
{
    if b.len() == 0 {
        assert(a + b =~= a);
        assert(listed_instances(a, first) + Seq::<(int, int)>::empty() =~= listed_instances(a, first));
    } else {
        lemma_listed_instances_append(a, b.drop_last(), first);
        assert((a + b).drop_last() =~= a + b.drop_last());
        assert((a + b).last() == b.last());
        assert(listed_instances(a + b, first) =~= listed_instances(a, first) + listed_instances(b, first + a.len()));
    }
}

/// Every node counts once in the pre-order numbering, with or without
/// meshes: the subtree of `n` has as many numbers as nodes, and its
/// instances are exactly those of its pre-order node list, each mesh
/// paired with the number of the node that holds it.
pub proof fn lemma_instances_follow_preorder(n: SceneNode, first: int)
    ensures
        preorder(n).len() == node_count(n),
        preorder(n)[0] == n,
        node_instances(n, first) == listed_instances(preorder(n), first),
    decreases n,
{
    lemma_children_follow_preorder(n.children@, first + 1);
    let own = Seq::new(n.meshes@.len(), |i: int| (first, n.meshes@[i] as int));
    lemma_listed_instances_append(seq![n], preorder_children(n.children@), first);
    let single = seq![n];
    assert(single.drop_last() =~= Seq::<SceneNode>::empty());
    assert(single.last() == n);
    assert(listed_instances(Seq::<SceneNode>::empty(), first) =~= Seq::<(int, int)>::empty());
    assert(listed_instances(single, first) == listed_instances(single.drop_last(), first) + Seq::new(
        n.meshes@.len(),
        |i: int| (first + single.len() - 1, n.meshes@[i] as int),
    ));
    assert(listed_instances(single, first) =~= Seq::<(int, int)>::empty() + own);
    assert(listed_instances(seq![n], first) =~= own);
}

/// The children version of `lemma_instances_follow_preorder`.
pub proof fn lemma_children_follow_preorder(cs: Seq<SceneNode>, first: int)
    ensures
        preorder_children(cs).len() == children_count(cs),
        children_instances(cs, first) == listed_instances(preorder_children(cs), first),
    decreases cs,
{
    if cs.len() > 0 {
        let rest = cs.drop_last();
        lemma_children_follow_preorder(rest, first);
        lemma_instances_follow_preorder(cs.last(), first + children_count(rest));
        lemma_listed_instances_append(preorder_children(rest), preorder(cs.last()), first);
    } else {
        assert(listed_instances(Seq::<SceneNode>::empty(), first) =~= Seq::<(int, int)>::empty());
    }
}

/// The instance as a pair of integers.
pub open spec fn instance_pair(inst: NodeInstance) -> (int, int) {
    (inst.node as int, inst.mesh_idx as int)
}

/// Appends the instances of the subtree of `node`, whose root is numbered
/// `first`, to `out`; returns the number that the next node in pre-order
/// gets.
fn collect_instances(node: &SceneNode, first: usize, out: &mut Vec<NodeInstance>) -> (next: usize)
    requires
        first + node_count(*node) <= usize::MAX,
    ensures
        next == first + node_count(*node),
        final(out)@.map_values(|x: NodeInstance| instance_pair(x)) == old(out)@.map_values(
            |x: NodeInstance| instance_pair(x),
        ) + node_instances(*node, first as int),
    decreases node,
{
    let ghost start = out@.map_values(|x: NodeInstance| instance_pair(x));
    let ghost own = Seq::new(node.meshes@.len(), |i: int| (first as int, node.meshes@[i] as int));
    let mut m: usize = 0;
    while m < node.meshes.len()
        invariant
            m <= node.meshes@.len(),
            own == Seq::new(node.meshes@.len(), |i: int| (first as int, node.meshes@[i] as int)),
            out@.map_values(|x: NodeInstance| instance_pair(x)) == start + own.subrange(0, m as int),
        decreases node.meshes@.len() - m,
    {
        let ghost prev = out@;
        out.push(NodeInstance { node: first, mesh_idx: node.meshes[m] as usize });
        proof {
            assert(out@.map_values(|x: NodeInstance| instance_pair(x)) =~= prev.map_values(
                |x: NodeInstance| instance_pair(x),
            ).push(own[m as int]));
            assert(own.subrange(0, m + 1) =~= own.subrange(0, m as int).push(own[m as int]));
            assert(out@.map_values(|x: NodeInstance| instance_pair(x)) =~= start + own.subrange(0, m + 1));
        }
        m = m + 1;
    }
    proof {
        assert(own.subrange(0, m as int) =~= own);
    }
    let ghost cs = node.children@;
    let mut next: usize = first + 1;
    let mut c: usize = 0;
    while c < node.children.len()
        invariant
            c <= cs.len(),
            cs == node.children@,
            first + node_count(*node) <= usize::MAX,
            node_count(*node) == 1 + children_count(cs),
            next == first + 1 + children_count(cs.subrange(0, c as int)),
            out@.map_values(|x: NodeInstance| instance_pair(x)) == start + own + children_instances(
                cs.subrange(0, c as int),
                first + 1,
            ),
        decreases cs.len() - c,
    {
        let ghost before = out@.map_values(|x: NodeInstance| instance_pair(x));
        proof {
            let sub = cs.subrange(0, c + 1);
            assert(sub.drop_last() =~= cs.subrange(0, c as int));
            assert(sub.last() == cs[c as int]);
            lemma_children_count_prefix(cs, c + 1);
            assert(children_count(sub) == children_count(cs.subrange(0, c as int)) + node_count(cs[c as int]));
        }
        next = collect_instances(&node.children[c], next, out);
        proof {
            let sub = cs.subrange(0, c + 1);
            assert(sub.drop_last() =~= cs.subrange(0, c as int));
            assert(children_instances(sub, first + 1) == children_instances(cs.subrange(0, c as int), first + 1)
                + node_instances(cs[c as int], first + 1 + children_count(cs.subrange(0, c as int))));
            assert(out@.map_values(|x: NodeInstance| instance_pair(x)) =~= start + own + children_instances(sub, first + 1));
        }
        c = c + 1;
    }
    proof {
        assert(cs.subrange(0, c as int) =~= cs);
    }
    next
}

proof fn lemma_children_count_prefix(cs: Seq<SceneNode>, k: int)
    requires
        0 <= k <= cs.len(),
    ensures
        children_count(cs.subrange(0, k)) <= children_count(cs),
    decreases cs.len() - k,
{
    if k < cs.len() {
        lemma_children_count_prefix(cs, k + 1);
        assert(cs.subrange(0, k + 1).drop_last() =~= cs.subrange(0, k));
    } else {
        assert(cs.subrange(0, k) =~= cs);
    }
}

/// The mesh instances of the scene graph rooted at `root`, nodes numbered in
/// pre-order from zero: the root's meshes first, then each child subtree in
/// turn.
pub fn load_nodes(root: &SceneNode) -> (r: Vec<NodeInstance>)
    requires
        node_count(*root) <= usize::MAX,
    ensures
        r@.map_values(|x: NodeInstance| instance_pair(x)) == node_instances(*root, 0),
        // the meshes of the nodes in pre-order, each paired with its node's
        // position in that order
        r@.map_values(|x: NodeInstance| instance_pair(x)) == listed_instances(preorder(*root), 0),
{
    proof {
        lemma_instances_follow_preorder(*root, 0);
    }
    let mut out: Vec<NodeInstance> = Vec::new();
    let _ = collect_instances(root, 0, &mut out);
    proof {
        assert(out@.map_values(|x: NodeInstance| instance_pair(x)) =~= Seq::<(int, int)>::empty() + node_instances(*root, 0));
    }
    out
}

} // verus!
