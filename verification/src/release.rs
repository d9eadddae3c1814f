//! Safe destruction of recursive trees. A tree's depth is author-controlled,
//! so releasing one by recursive descent risks unbounded call-stack growth.
//! These routines dismantle a tree with an explicit work list instead: each
//! popped node hands its children over to the list, so the auxiliary memory
//! is bounded by the node count while the call stack stays flat.

use vstd::prelude::*;

use crate::node::Node;
use crate::node::NoNestingNode;
use crate::node::NodeWithID;

verus! {

/// The number of nodes of a stage-1 tree.
pub open spec fn node_size(n: Node) -> nat
    decreases n,
{
    match n {
        Node::Multiple(v) => 1 + node_size_sum(v@),
        Node::RegexExt(b, _) => 1 + node_size(*b),
        Node::Symbol(l, _, r) => 1 + node_size(*l) + node_size(*r),
        Node::Group(b) => 1 + node_size(*b),
        _ => 1,
    }
}

/// The node count of a sequence of stage-1 trees.
pub open spec fn node_size_sum(s: Seq<Node>) -> nat
    decreases s,
{
    if s.len() == 0 {
        0
    } else {
        node_size(s[0]) + node_size_sum(s.drop_first())
    }
}

/// Popping the last tree takes its size out of the sum.
proof fn lemma_node_size_sum_last(s: Seq<Node>)
    requires
        s.len() > 0,
    ensures
        node_size_sum(s) == node_size_sum(s.drop_last()) + node_size(s.last()),
    decreases s,
{
    if s.len() == 1 {
        assert(s.drop_last() =~= Seq::empty());
        assert(s.drop_first() =~= Seq::empty());
    } else {
        lemma_node_size_sum_last(s.drop_first());
        assert(s.drop_first().drop_last() =~= s.drop_last().drop_first());
        assert(s.drop_last()[0] == s[0]);
        assert(s.drop_first().last() == s.last());
    }
}

/// Pushing one tree adds its size to the sum.
proof fn lemma_node_size_sum_push(s: Seq<Node>, x: Node)
    ensures
        node_size_sum(s.push(x)) == node_size_sum(s) + node_size(x),
{
    lemma_node_size_sum_last(s.push(x));
    assert(s.push(x).drop_last() =~= s);
}

/// Releases a stage-1 tree without recursion: a work list of detached
/// sub-trees is drained until nothing is left, so the call stack stays flat
/// however deep the tree nests.
#[verifier::loop_isolation(false)]
pub fn release_node(n: Node) {
    let mut stack: Vec<Node> = Vec::new();
    proof {
        lemma_node_size_sum_push(Seq::empty(), n);
    }
    stack.push(n);
    while stack.len() > 0
        decreases node_size_sum(stack@),
    {
        let ghost pre = stack@;
        let top = stack.pop().unwrap();
        proof {
            lemma_node_size_sum_last(pre);
        }
        match top {
            Node::Multiple(mut nodes) => {
                while nodes.len() > 0
                    invariant
                        node_size_sum(stack@) + node_size_sum(nodes@) + 1 <= node_size_sum(pre),
                    decreases nodes.len(),
                {
                    let ghost before_inner = nodes@;
                    let child = nodes.pop().unwrap();
                    proof {
                        lemma_node_size_sum_last(before_inner);
                        lemma_node_size_sum_push(stack@, child);
                    }
                    stack.push(child);
                }
            },
            Node::RegexExt(b, _) => {
                proof {
                    lemma_node_size_sum_push(stack@, *b);
                }
                stack.push(*b);
            },
            Node::Symbol(l, _, r) => {
                proof {
                    lemma_node_size_sum_push(stack@, *l);
                }
                stack.push(*l);
                proof {
                    lemma_node_size_sum_push(stack@, *r);
                }
                stack.push(*r);
            },
            Node::Group(b) => {
                proof {
                    lemma_node_size_sum_push(stack@, *b);
                }
                stack.push(*b);
            },
            _ => {},
        }
    }
}

/// The number of nodes of a stage-2 tree.
pub open spec fn id_node_size(n: NodeWithID) -> nat
    decreases n,
{
    match n {
        NodeWithID::Multiple(v) => 1 + id_node_size_sum(v@),
        NodeWithID::RegexExt(b, _) => 1 + id_node_size(*b),
        NodeWithID::Symbol(l, _, r) => 1 + id_node_size(*l) + id_node_size(*r),
        NodeWithID::Group(b) => 1 + id_node_size(*b),
        _ => 1,
    }
}

/// The node count of a sequence of stage-2 trees.
pub open spec fn id_node_size_sum(s: Seq<NodeWithID>) -> nat
    decreases s,
{
    if s.len() == 0 {
        0
    } else {
        id_node_size(s[0]) + id_node_size_sum(s.drop_first())
    }
}

/// Popping the last tree takes its size out of the sum.
proof fn lemma_id_node_size_sum_last(s: Seq<NodeWithID>)
    requires
        s.len() > 0,
    ensures
        id_node_size_sum(s) == id_node_size_sum(s.drop_last()) + id_node_size(s.last()),
    decreases s,
{
    if s.len() == 1 {
        assert(s.drop_last() =~= Seq::empty());
        assert(s.drop_first() =~= Seq::empty());
    } else {
        lemma_id_node_size_sum_last(s.drop_first());
        assert(s.drop_first().drop_last() =~= s.drop_last().drop_first());
        assert(s.drop_last()[0] == s[0]);
        assert(s.drop_first().last() == s.last());
    }
}

/// Pushing one tree adds its size to the sum.
proof fn lemma_id_node_size_sum_push(s: Seq<NodeWithID>, x: NodeWithID)
    ensures
        id_node_size_sum(s.push(x)) == id_node_size_sum(s) + id_node_size(x),
{
    lemma_id_node_size_sum_last(s.push(x));
    assert(s.push(x).drop_last() =~= s);
}

/// Releases a stage-2 tree without recursion, as `release_node` does.
#[verifier::loop_isolation(false)]
pub fn release_node_with_id(n: NodeWithID) {
    let mut stack: Vec<NodeWithID> = Vec::new();
    proof {
        lemma_id_node_size_sum_push(Seq::empty(), n);
    }
    stack.push(n);
    while stack.len() > 0
        decreases id_node_size_sum(stack@),
    {
        let ghost pre = stack@;
        let top = stack.pop().unwrap();
        proof {
            lemma_id_node_size_sum_last(pre);
        }
        match top {
            NodeWithID::Multiple(mut nodes) => {
                while nodes.len() > 0
                    invariant
                        id_node_size_sum(stack@) + id_node_size_sum(nodes@) + 1
                            <= id_node_size_sum(pre),
                    decreases nodes.len(),
                {
                    let ghost before_inner = nodes@;
                    let child = nodes.pop().unwrap();
                    proof {
                        lemma_id_node_size_sum_last(before_inner);
                        lemma_id_node_size_sum_push(stack@, child);
                    }
                    stack.push(child);
                }
            },
            NodeWithID::RegexExt(b, _) => {
                proof {
                    lemma_id_node_size_sum_push(stack@, *b);
                }
                stack.push(*b);
            },
            NodeWithID::Symbol(l, _, r) => {
                proof {
                    lemma_id_node_size_sum_push(stack@, *l);
                }
                stack.push(*l);
                proof {
                    lemma_id_node_size_sum_push(stack@, *r);
                }
                stack.push(*r);
            },
            NodeWithID::Group(b) => {
                proof {
                    lemma_id_node_size_sum_push(stack@, *b);
                }
                stack.push(*b);
            },
            _ => {},
        }
    }
}

/// The number of nodes of a stage-3 tree.
pub open spec fn nn_node_size(n: NoNestingNode) -> nat
    decreases n,
{
    match n {
        NoNestingNode::Concatenations(v) => 1 + nn_node_size_sum(v@),
        NoNestingNode::Alternations(v) => 1 + nn_node_size_sum(v@),
        _ => 1,
    }
}

/// The node count of a sequence of stage-3 trees.
pub open spec fn nn_node_size_sum(s: Seq<NoNestingNode>) -> nat
    decreases s,
{
    if s.len() == 0 {
        0
    } else {
        nn_node_size(s[0]) + nn_node_size_sum(s.drop_first())
    }
}

/// Popping the last tree takes its size out of the sum.
proof fn lemma_nn_node_size_sum_last(s: Seq<NoNestingNode>)
    requires
        s.len() > 0,
    ensures
        nn_node_size_sum(s) == nn_node_size_sum(s.drop_last()) + nn_node_size(s.last()),
    decreases s,
{
    if s.len() == 1 {
        assert(s.drop_last() =~= Seq::empty());
        assert(s.drop_first() =~= Seq::empty());
    } else {
        lemma_nn_node_size_sum_last(s.drop_first());
        assert(s.drop_first().drop_last() =~= s.drop_last().drop_first());
        assert(s.drop_last()[0] == s[0]);
        assert(s.drop_first().last() == s.last());
    }
}

/// Pushing one tree adds its size to the sum.
proof fn lemma_nn_node_size_sum_push(s: Seq<NoNestingNode>, x: NoNestingNode)
    ensures
        nn_node_size_sum(s.push(x)) == nn_node_size_sum(s) + nn_node_size(x),
{
    lemma_nn_node_size_sum_last(s.push(x));
    assert(s.push(x).drop_last() =~= s);
}

/// Releases a stage-3 tree without recursion, as `release_node` does.
#[verifier::loop_isolation(false)]
pub fn release_no_nesting(n: NoNestingNode) {
    let mut stack: Vec<NoNestingNode> = Vec::new();
    proof {
        lemma_nn_node_size_sum_push(Seq::empty(), n);
    }
    stack.push(n);
    while stack.len() > 0
        decreases nn_node_size_sum(stack@),
    {
        let ghost pre = stack@;
        let top = stack.pop().unwrap();
        proof {
            lemma_nn_node_size_sum_last(pre);
        }
        match top {
            NoNestingNode::Concatenations(mut nodes) => {
                while nodes.len() > 0
                    invariant
                        nn_node_size_sum(stack@) + nn_node_size_sum(nodes@) + 1
                            <= nn_node_size_sum(pre),
                    decreases nodes.len(),
                {
                    let ghost before_inner = nodes@;
                    let child = nodes.pop().unwrap();
                    proof {
                        lemma_nn_node_size_sum_last(before_inner);
                        lemma_nn_node_size_sum_push(stack@, child);
                    }
                    stack.push(child);
                }
            },
            NoNestingNode::Alternations(mut nodes) => {
                while nodes.len() > 0
                    invariant
                        nn_node_size_sum(stack@) + nn_node_size_sum(nodes@) + 1
                            <= nn_node_size_sum(pre),
                    decreases nodes.len(),
                {
                    let ghost before_inner = nodes@;
                    let child = nodes.pop().unwrap();
                    proof {
                        lemma_nn_node_size_sum_last(before_inner);
                        lemma_nn_node_size_sum_push(stack@, child);
                    }
                    stack.push(child);
                }
            },
            _ => {},
        }
    }
}

} // verus!
