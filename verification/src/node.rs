use vstd::prelude::*;
use crate::error::Span;

verus! {

/// The closed set of syntax-tree node kinds.  Operator-chain nodes
/// (`Product`, `Sum`, `BoolExpr`) alternate operand and operator children and
/// therefore always have an odd number of children; the parser never builds
/// an even-length chain.
#[derive(Clone, Copy, PartialEq, Eq, Structural, Debug)]
pub enum NodeValue {
    NULL,
    Id,
    Number,
    Add,
    Sub,
    Mul,
    Div,
    GT,
    GTE,
    EQ,
    LT,
    LTE,
    Product,
    Sum,
    Expr,
    Root,
    VarAssign,
    FnDef,
    FnCall,
    FnDefArgSet,
    FnCallArgSet,
    Extern,
    FnDecl,
    BoolExpr,
    True,
    False,
    If,
}

impl NodeValue {
    /// The node kind that stands for an absent optional production.
    pub fn null() -> (r: Self)
        ensures
            r == NodeValue::NULL,
    {
        Self::NULL
    }
}

/// A concrete-syntax-tree node: a kind, the source range it covers, and its
/// ordered children.  Nodes never copy source text; they refer back into the
/// original input by spans.
pub struct Node {
    pub node: NodeValue,
    pub span: Span,
    pub children: Vec<Node>,
}

/// The mathematical shape of a node, used throughout the contracts.
pub ghost struct NodeV {
    pub node: NodeValue,
    pub span: Span,
    pub children: Seq<NodeV>,
}

pub open spec fn node_view(n: Node) -> NodeV
    decreases n,
{
    NodeV { node: n.node, span: n.span, children: nodes_view(n.children@) }
}

pub open spec fn nodes_view(s: Seq<Node>) -> Seq<NodeV>
    decreases s,
{
    if s.len() == 0 {
        seq![]
    } else {
        seq![node_view(s[0])] + nodes_view(s.drop_first())
    }
}

impl View for Node {
    type V = NodeV;

    open spec fn view(&self) -> NodeV {
        node_view(*self)
    }
}

pub broadcast proof fn lemma_nodes_view_index(s: Seq<Node>)
    ensures
        (#[trigger] nodes_view(s)).len() == s.len(),
        forall|i: int| 0 <= i < s.len() ==> nodes_view(s)[i] == node_view(s[i]),
    decreases s,
{
    if s.len() > 0 {
        lemma_nodes_view_index(s.drop_first());
        assert forall|i: int| 0 <= i < s.len() implies nodes_view(s)[i] == node_view(s[i]) by {
            if i > 0 {
                assert(s.drop_first()[i - 1] == s[i]);
            }
        }
    }
}

pub proof fn lemma_nodes_view_push(s: Seq<Node>, x: Node)
    ensures
        nodes_view(s.push(x)) == nodes_view(s).push(node_view(x)),
{
    lemma_nodes_view_index(s);
    lemma_nodes_view_index(s.push(x));
    assert(nodes_view(s.push(x)) =~= nodes_view(s).push(node_view(x)));
}

pub proof fn lemma_nodes_view_concat(a: Seq<Node>, b: Seq<Node>)
    ensures
        nodes_view(a + b) == nodes_view(a) + nodes_view(b),
{
    lemma_nodes_view_index(a);
    lemma_nodes_view_index(b);
    lemma_nodes_view_index(a + b);
    assert(nodes_view(a + b) =~= nodes_view(a) + nodes_view(b));
}

/// A deep copy of a node; the copy has the same view.
pub fn clone_node(n: &Node) -> (r: Node)
    ensures
        r@ == n@,
    decreases *n,
{
    let mut cs: Vec<Node> = Vec::new();
    let mut k: usize = 0;
    while k < n.children.len()
        invariant
            k <= n.children@.len(),
            cs@.len() == k,
            forall|j: int| 0 <= j < k ==> #[trigger] cs@[j]@ == n.children@[j]@,
        decreases n.children@.len() - k,
    {
        cs.push(clone_node(&n.children[k]));
        k = k + 1;
    }
    proof {
        lemma_nodes_view_index(cs@);
        lemma_nodes_view_index(n.children@);
        assert forall|j: int| 0 <= j < cs@.len() implies nodes_view(cs@)[j]
            == nodes_view(n.children@)[j] by {
            assert(cs@[j]@ == n.children@[j]@);
        }
        assert(nodes_view(cs@) =~= nodes_view(n.children@));
    }
    Node { node: n.node, span: n.span, children: cs }
}

/// Deep copies of the nodes from index `from` on.
pub fn clone_nodes_from(v: &Vec<Node>, from: usize) -> (r: Vec<Node>)
    requires
        from <= v@.len(),
    ensures
        nodes_view(r@) == nodes_view(v@).skip(from as int),
{
    let mut r: Vec<Node> = Vec::new();
    let mut k = from;
    while k < v.len()
        invariant
            from <= k <= v@.len(),
            r@.len() == k - from,
            forall|j: int| 0 <= j < r@.len() ==> #[trigger] r@[j]@ == v@[from + j]@,
        decreases v@.len() - k,
    {
        r.push(clone_node(&v[k]));
        k = k + 1;
    }
    proof {
        lemma_nodes_view_index(r@);
        lemma_nodes_view_index(v@);
        assert forall|j: int| 0 <= j < r@.len() implies nodes_view(r@)[j]
            == nodes_view(v@).skip(from as int)[j] by {
            assert(r@[j]@ == v@[from + j]@);
            assert(nodes_view(v@).skip(from as int)[j] == nodes_view(v@)[from + j]);
        }
        assert(nodes_view(r@) =~= nodes_view(v@).skip(from as int));
    }
    r
}

} // verus!


