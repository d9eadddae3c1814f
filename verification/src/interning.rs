//! Interning pass (stage 1 to stage 2): every textual identifier of the raw
//! tree is replaced by its interned symbol, preserving tree shape. Texts are
//! interned depth first, left to right, so the resulting table state is a
//! function of the input tree and the table state before the pass.

use vstd::prelude::*;

use crate::interner::Interner;
use crate::interner::intern_len_after;
use crate::interner::intern_map_after;
use crate::interner::intern_sym;
use crate::interner::interner_len;
use crate::interner::interner_map;
use crate::interner::interner_wf;
use crate::interner::lemma_intern_preserves_wf;
use crate::nesting::resolved;
use crate::nesting::resolved_seq;
use crate::node::Excepted;
use crate::node::ExceptedWithID;
use crate::node::IdTree;
use crate::node::Node;
use crate::node::NodeWithID;
use crate::node::id_view;
use crate::node::id_view_seq;
use crate::node::lemma_id_view_seq_append;

verus! {

/// The result of interning one tree: the interned tree and the table
/// contents and count after the pass.
pub struct IdOut {
    pub tree: IdTree,
    pub map: Map<Seq<char>, u32>,
    pub len: nat,
}

/// The result of interning a sequence of sibling trees, in order.
pub struct IdSeqOut {
    pub trees: Seq<IdTree>,
    pub map: Map<Seq<char>, u32>,
    pub len: nat,
}

/// How many texts a tree carries: the bound on how many new symbols the
/// pass can create.
pub open spec fn text_count(n: Node) -> nat
    decreases n,
{
    match n {
        Node::Multiple(v) => text_count_seq(v@),
        Node::RegexExt(b, _) => text_count(*b),
        Node::Symbol(l, _, r) => text_count(*l) + text_count(*r),
        Node::Group(b) => text_count(*b),
        _ => 1,
    }
}

/// The texts carried by a sequence of sibling trees.
pub open spec fn text_count_seq(s: Seq<Node>) -> nat
    decreases s,
{
    if s.len() == 0 {
        0
    } else {
        text_count(s[0]) + text_count_seq(s.drop_first())
    }
}

/// The interned form of an excepted element.
pub open spec fn intern_excepted_spec(e: Excepted, m: Map<Seq<char>, u32>, len: nat) -> (
    ExceptedWithID,
    Map<Seq<char>, u32>,
    nat,
) {
    match e {
        Excepted::Terminal(t) => (
            ExceptedWithID::Terminal(intern_sym(m, len, t@)),
            intern_map_after(m, len, t@),
            intern_len_after(m, len, t@),
        ),
        Excepted::Nonterminal(t) => (
            ExceptedWithID::Nonterminal(intern_sym(m, len, t@)),
            intern_map_after(m, len, t@),
            intern_len_after(m, len, t@),
        ),
    }
}

/// The interning pass over one tree, given the table contents and count
/// before it: shape is preserved, every text becomes its symbol, and the
/// table grows by exactly the texts not interned before.
pub open spec fn intern_tree_spec(n: Node, m: Map<Seq<char>, u32>, len: nat) -> IdOut
    decreases n,
{
    match n {
        Node::Terminal(s) => IdOut {
            tree: IdTree::Terminal(intern_sym(m, len, s@)),
            map: intern_map_after(m, len, s@),
            len: intern_len_after(m, len, s@),
        },
        Node::RegexString(s) => IdOut {
            tree: IdTree::RegexString(intern_sym(m, len, s@)),
            map: intern_map_after(m, len, s@),
            len: intern_len_after(m, len, s@),
        },
        Node::Nonterminal(s) => IdOut {
            tree: IdTree::Nonterminal(intern_sym(m, len, s@)),
            map: intern_map_after(m, len, s@),
            len: intern_len_after(m, len, s@),
        },
        Node::Multiple(v) => {
            let o = intern_seq_spec(v@, m, len);
            IdOut { tree: IdTree::Multiple(o.trees), map: o.map, len: o.len }
        },
        Node::RegexExt(b, k) => {
            let o = intern_tree_spec(*b, m, len);
            IdOut { tree: IdTree::RegexExt(Box::new(o.tree), k), map: o.map, len: o.len }
        },
        Node::Symbol(l, k, r) => {
            let ol = intern_tree_spec(*l, m, len);
            let or = intern_tree_spec(*r, ol.map, ol.len);
            IdOut {
                tree: IdTree::Symbol(Box::new(ol.tree), k, Box::new(or.tree)),
                map: or.map,
                len: or.len,
            }
        },
        Node::Group(b) => {
            let o = intern_tree_spec(*b, m, len);
            IdOut { tree: IdTree::Group(Box::new(o.tree)), map: o.map, len: o.len }
        },
        Node::EXCEPT(e, bound) => {
            let (ew, m2, l2) = intern_excepted_spec(e, m, len);
            IdOut { tree: IdTree::EXCEPT(ew, bound), map: m2, len: l2 }
        },
    }
}

/// The interning pass over a sequence of sibling trees, left to right.
pub open spec fn intern_seq_spec(s: Seq<Node>, m: Map<Seq<char>, u32>, len: nat) -> IdSeqOut
    decreases s,
{
    if s.len() == 0 {
        IdSeqOut { trees: Seq::empty(), map: m, len }
    } else {
        let o = intern_tree_spec(s[0], m, len);
        let rest = intern_seq_spec(s.drop_first(), o.map, o.len);
        IdSeqOut { trees: seq![o.tree] + rest.trees, map: rest.map, len: rest.len }
    }
}

/// The interning pass keeps the table well formed, extends it by at most
/// the tree's texts, keeps every earlier entry, and leaves no placeholder
/// in the interned tree.
pub proof fn lemma_intern_tree_props(n: Node, m: Map<Seq<char>, u32>, len: nat)
    requires
        interner_wf(m, len),
        len + text_count(n) <= 0xFFFF_FFFFnat,
    ensures
        interner_wf(intern_tree_spec(n, m, len).map, intern_tree_spec(n, m, len).len),
        len <= intern_tree_spec(n, m, len).len,
        intern_tree_spec(n, m, len).len <= len + text_count(n),
        forall|u: Seq<char>| #[trigger] m.contains_key(u) ==> intern_tree_spec(n, m, len)
            .map.contains_key(u) && intern_tree_spec(n, m, len).map[u] == m[u],
        resolved(intern_tree_spec(n, m, len).tree),
    decreases n,
{
    match n {
        Node::Terminal(s) => lemma_intern_preserves_wf_bounded(m, len, s@),
        Node::RegexString(s) => lemma_intern_preserves_wf_bounded(m, len, s@),
        Node::Nonterminal(s) => lemma_intern_preserves_wf_bounded(m, len, s@),
        Node::Multiple(v) => lemma_intern_seq_props(v@, m, len),
        Node::RegexExt(b, _) => lemma_intern_tree_props(*b, m, len),
        Node::Symbol(l, _, r) => {
            lemma_intern_tree_props(*l, m, len);
            let ol = intern_tree_spec(*l, m, len);
            lemma_intern_tree_props(*r, ol.map, ol.len);
        },
        Node::Group(b) => lemma_intern_tree_props(*b, m, len),
        Node::EXCEPT(e, _) => match e {
            Excepted::Terminal(t) => lemma_intern_preserves_wf_bounded(m, len, t@),
            Excepted::Nonterminal(t) => lemma_intern_preserves_wf_bounded(m, len, t@),
        },
    }
}

/// Interning one text grows the count by at most one, keeps every earlier
/// entry, and keeps the table well formed while the count has headroom.
proof fn lemma_intern_preserves_wf_bounded(m: Map<Seq<char>, u32>, len: nat, t: Seq<char>)
    requires
        interner_wf(m, len),
        len < 0xFFFF_FFFFnat,
    ensures
        interner_wf(intern_map_after(m, len, t), intern_len_after(m, len, t)),
        len <= intern_len_after(m, len, t) <= len + 1,
        forall|u: Seq<char>| #[trigger] m.contains_key(u) ==> intern_map_after(m, len, t)
            .contains_key(u) && intern_map_after(m, len, t)[u] == m[u],
{
    if !m.contains_key(t) {
        lemma_intern_preserves_wf(m, len, t);
    }
}

/// The sequence form of `lemma_intern_tree_props`.
pub proof fn lemma_intern_seq_props(s: Seq<Node>, m: Map<Seq<char>, u32>, len: nat)
    requires
        interner_wf(m, len),
        len + text_count_seq(s) <= 0xFFFF_FFFFnat,
    ensures
        interner_wf(intern_seq_spec(s, m, len).map, intern_seq_spec(s, m, len).len),
        len <= intern_seq_spec(s, m, len).len,
        intern_seq_spec(s, m, len).len <= len + text_count_seq(s),
        forall|u: Seq<char>| #[trigger] m.contains_key(u) ==> intern_seq_spec(s, m, len)
            .map.contains_key(u) && intern_seq_spec(s, m, len).map[u] == m[u],
        resolved_seq(intern_seq_spec(s, m, len).trees),
        intern_seq_spec(s, m, len).trees.len() == s.len(),
    decreases s,
{
    if s.len() > 0 {
        lemma_intern_tree_props(s[0], m, len);
        let o = intern_tree_spec(s[0], m, len);
        lemma_intern_seq_props(s.drop_first(), o.map, o.len);
        let rest = intern_seq_spec(s.drop_first(), o.map, o.len);
        assert((seq![o.tree] + rest.trees)[0] == o.tree);
        assert((seq![o.tree] + rest.trees).drop_first() =~= rest.trees);
    }
}

/// Interns every text of one raw tree, preserving its shape. The table is
/// threaded through depth first, left to right.
#[verifier::loop_isolation(false)]
pub fn intern_node(n: &Node, it: &mut Interner) -> (r: NodeWithID)
    requires
        interner_wf(interner_map(*old(it)), interner_len(*old(it))),
        interner_len(*old(it)) + text_count(*n) <= 0xFFFF_FFFFu32,
    ensures
        id_view(r) == intern_tree_spec(
            *n,
            interner_map(*old(it)),
            interner_len(*old(it)),
        ).tree,
        interner_map(*final(it)) == intern_tree_spec(
            *n,
            interner_map(*old(it)),
            interner_len(*old(it)),
        ).map,
        interner_len(*final(it)) == intern_tree_spec(
            *n,
            interner_map(*old(it)),
            interner_len(*old(it)),
        ).len,
    decreases *n,
{
    proof {
        lemma_intern_tree_props(*n, interner_map(*old(it)), interner_len(*old(it)));
    }
    match n {
        Node::Terminal(s) => NodeWithID::Terminal(it.intern(s.as_str())),
        Node::RegexString(s) => NodeWithID::RegexString(it.intern(s.as_str())),
        Node::Nonterminal(s) => NodeWithID::Nonterminal(it.intern(s.as_str())),
        Node::EXCEPT(e, bound) => match e {
            Excepted::Terminal(t) => NodeWithID::EXCEPT(
                ExceptedWithID::Terminal(it.intern(t.as_str())),
                *bound,
            ),
            Excepted::Nonterminal(t) => NodeWithID::EXCEPT(
                ExceptedWithID::Nonterminal(it.intern(t.as_str())),
                *bound,
            ),
        },
        Node::Group(b) => NodeWithID::Group(Box::new(intern_node(&**b, it))),
        Node::RegexExt(b, k) => NodeWithID::RegexExt(Box::new(intern_node(&**b, it)), *k),
        Node::Symbol(l, k, r) => {
            let ghost m0 = interner_map(*it);
            let ghost l0 = interner_len(*it);
            let ln = intern_node(&**l, it);
            proof {
                lemma_intern_tree_props(*(*l), m0, l0);
            }
            let rn = intern_node(&**r, it);
            NodeWithID::Symbol(Box::new(ln), *k, Box::new(rn))
        },
        Node::Multiple(v) => {
            let ghost m0 = interner_map(*it);
            let ghost l0 = interner_len(*it);
            let ghost full = intern_seq_spec(v@, m0, l0);
            let mut out: Vec<NodeWithID> = Vec::new();
            proof {
                assert(v@.skip(0) =~= v@);
                assert(id_view_seq(Seq::empty()) =~= Seq::empty());
            }
            let mut i: usize = 0;
            while i < v.len()
                invariant
                    i <= v@.len(),
                    interner_wf(interner_map(*it), interner_len(*it)),
                    interner_len(*it) + text_count_seq(v@.skip(i as int)) <= 0xFFFF_FFFFu32,
                    full.trees == id_view_seq(out@) + intern_seq_spec(
                        v@.skip(i as int),
                        interner_map(*it),
                        interner_len(*it),
                    ).trees,
                    full.map == intern_seq_spec(
                        v@.skip(i as int),
                        interner_map(*it),
                        interner_len(*it),
                    ).map,
                    full.len == intern_seq_spec(
                        v@.skip(i as int),
                        interner_map(*it),
                        interner_len(*it),
                    ).len,
                decreases v.len() - i,
            {
                proof {
                    assert(decreases_to!(*n => (*n)->Multiple_0));
                    assert(decreases_to!((*n)->Multiple_0 => (*n)->Multiple_0[i as int]));
                    assert((*n)->Multiple_0 == *v);
                    assert(decreases_to!(*n => v@[i as int]));
                    assert(v@.skip(i as int)[0] == v@[i as int]);
                    assert(v@.skip(i as int).drop_first() =~= v@.skip(i + 1));
                }
                let ghost mc = interner_map(*it);
                let ghost lc = interner_len(*it);
                let ghost o = intern_tree_spec(v@[i as int], mc, lc);
                let child = intern_node(&v[i], it);
                proof {
                    lemma_intern_tree_props(v@[i as int], mc, lc);
                    let rest = intern_seq_spec(v@.skip(i + 1), o.map, o.len);
                    assert(out@.push(child) =~= out@ + seq![child]);
                    lemma_id_view_seq_append(out@, seq![child]);
                    assert(seq![child].drop_first() =~= Seq::<NodeWithID>::empty());
                    assert(seq![child][0] == child);
                    assert(id_view_seq(seq![child]) =~= seq![id_view(child)]);
                    assert((id_view_seq(out@) + seq![o.tree]) + rest.trees =~= id_view_seq(out@)
                        + (seq![o.tree] + rest.trees));
                }
                out.push(child);
                i = i + 1;
            }
            proof {
                assert(v@.skip(v@.len() as int) =~= Seq::empty());
                assert(id_view_seq(out@) + Seq::empty() =~= id_view_seq(out@));
            }
            NodeWithID::Multiple(out)
        },
    }
}

} // verus!
