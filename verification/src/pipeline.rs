//! The full lowering of one grammar rule: interning, nesting removal,
//! operator flattening and the final collapse, composed in order. The
//! canonical output is an exact function of the raw tree and the symbol
//! table's state, so lowering the same tree twice over equal table states
//! yields identical output.

use vstd::prelude::*;

use crate::finalize::except_sym;
use crate::finalize::fin_atom;
use crate::finalize::fin_dnf;
use crate::finalize::finalize_rhs;
use crate::flatten::alt_fold;
use crate::flatten::flat_spec;
use crate::flatten::flatten;
use crate::interner::Interner;
use crate::interner::interner_len;
use crate::interner::interner_map;
use crate::interner::interner_wf;
use crate::interning::intern_node;
use crate::interning::intern_tree_spec;
use crate::interning::lemma_intern_tree_props;
use crate::interning::text_count;
use crate::nesting::remove_nesting;
use crate::nesting::repeat_count;
use crate::nesting::rn_spec;
use crate::nesting::rules_view;
use crate::node::ExceptedWithID;
use crate::node::FinalNode;
use crate::node::FinalRhs;
use crate::node::IdTree;
use crate::node::NoNestingNode;
use crate::node::nn_view;
use crate::node::Node;
use crate::node::NnTree;
use crate::node::OperatorFlattenedNode;
use crate::node::RegexExtKind;
use crate::node::final_rhs_view;
use crate::release::release_no_nesting;
use crate::release::release_node_with_id;

verus! {

/// The canonical form of one lowered synthetic rule.
pub open spec fn lower_rule_spec(p: (u32, NnTree)) -> (u32, Seq<Seq<FinalNode>>) {
    (p.0, fin_dnf(flat_spec(p.1)))
}

/// The canonical output of lowering one raw tree over a table with
/// contents `m` and count `len`: the rule's own disjunction, and the
/// synthetic rules born from repetition operators, in emission order.
pub open spec fn lower_spec(n: Node, m: Map<Seq<char>, u32>, len: nat) -> (
    Seq<Seq<FinalNode>>,
    Seq<(u32, Seq<Seq<FinalNode>>)>,
) {
    let o = intern_tree_spec(n, m, len);
    let r = rn_spec(o.tree, o.len);
    (fin_dnf(flat_spec(r.node)), r.rules.map(|i: int, p: (u32, NnTree)| lower_rule_spec(p)))
}

/// The models of lowered synthetic rules.
pub open spec fn lowered_rules_view(s: Seq<(u32, FinalRhs)>) -> Seq<(u32, Seq<Seq<FinalNode>>)> {
    s.map(|i: int, p: (u32, FinalRhs)| (p.0, final_rhs_view(p.1)))
}

/// Lowers one grammar rule's raw tree to its final canonical form, together
/// with the synthetic rules its repetitions expand into. Synthetic rules
/// take consecutive symbols starting at the table's count, which no
/// interned identifier carries. The result is exactly `lower_spec` of the
/// tree and the table's prior state: lowering is deterministic, and every
/// intermediate tree is released iteratively.
#[verifier::loop_isolation(false)]
pub fn lower_rhs(n: &Node, it: &mut Interner) -> (out: (FinalRhs, Vec<(u32, FinalRhs)>))
    requires
        interner_wf(interner_map(*old(it)), interner_len(*old(it))),
        interner_len(*old(it)) + text_count(*n) <= 0xFFFF_FFFFu32,
        intern_tree_spec(*n, interner_map(*old(it)), interner_len(*old(it))).len
            + repeat_count(
            intern_tree_spec(*n, interner_map(*old(it)), interner_len(*old(it))).tree,
        ) <= u32::MAX,
    ensures
        final_rhs_view(out.0) == lower_spec(
            *n,
            interner_map(*old(it)),
            interner_len(*old(it)),
        ).0,
        lowered_rules_view(out.1@) == lower_spec(
            *n,
            interner_map(*old(it)),
            interner_len(*old(it)),
        ).1,
        interner_map(*final(it)) == intern_tree_spec(
            *n,
            interner_map(*old(it)),
            interner_len(*old(it)),
        ).map,
        interner_len(*final(it)) == intern_tree_spec(
            *n,
            interner_map(*old(it)),
            interner_len(*old(it)),
        ).len,
        interner_wf(interner_map(*final(it)), interner_len(*final(it))),
{
    let ghost m0 = interner_map(*old(it));
    let ghost l0 = interner_len(*old(it));
    let ghost o = intern_tree_spec(*n, m0, l0);
    proof {
        lemma_intern_tree_props(*n, m0, l0);
    }
    let staged = intern_node(n, it);
    let fresh_count = it.len();
    let fresh: u32 = fresh_count as u32;
    let ghost r = rn_spec(o.tree, o.len);
    let mut rules: Vec<(u32, NoNestingNode)> = Vec::new();
    let (flat_tree, _next) = remove_nesting(&staged, fresh, &mut rules);
    release_node_with_id(staged);
    let rhs = flatten(&flat_tree);
    release_no_nesting(flat_tree);
    let out_rhs = finalize_rhs(&rhs);
    let mut lowered: Vec<(u32, FinalRhs)> = Vec::new();
    proof {
        assert(Seq::empty() + r.rules =~= r.rules);
        assert(rules_view(rules@) == r.rules);
    }
    let mut i: usize = 0;
    while i < rules.len()
        invariant
            i <= rules@.len(),
            rules_view(rules@) == r.rules,
            lowered@.len() == i,
            forall|k: int| 0 <= k < i ==> #[trigger] lowered@[k].0 == rules@[k].0
                && final_rhs_view(lowered@[k].1) == fin_dnf(flat_spec(nn_view(rules@[k].1))),
        decreases rules.len() - i,
    {
        let body_rhs = flatten(&rules[i].1);
        let body_final = finalize_rhs(&body_rhs);
        let sym = rules[i].0;
        lowered.push((sym, body_final));
        i = i + 1;
    }
    while rules.len() > 0
        decreases rules.len(),
    {
        let last = rules.pop();
        match last {
            Some(p) => release_no_nesting(p.1),
            None => {},
        }
    }
    proof {
        assert(lowered_rules_view(lowered@) =~= lower_spec(*n, m0, l0).1);
    }
    (out_rhs, lowered)
}

/// Lowering is deterministic: any two results whose models meet
/// `lower_rhs`'s contract for the same raw tree and the same table state
/// are identical, alternation for alternation and rule for rule.
pub proof fn lemma_lowering_deterministic(
    n: Node,
    m: Map<Seq<char>, u32>,
    len: nat,
    r1: FinalRhs,
    s1: Seq<(u32, FinalRhs)>,
    r2: FinalRhs,
    s2: Seq<(u32, FinalRhs)>,
)
    requires
        final_rhs_view(r1) == lower_spec(n, m, len).0,
        lowered_rules_view(s1) == lower_spec(n, m, len).1,
        final_rhs_view(r2) == lower_spec(n, m, len).0,
        lowered_rules_view(s2) == lower_spec(n, m, len).1,
    ensures
        final_rhs_view(r1) == final_rhs_view(r2),
        lowered_rules_view(s1) == lowered_rules_view(s2),
{
}

/// The expansion of an optional sub-tree: its flattened alternation set,
/// followed by one empty atom sequence.
pub proof fn lemma_optional_expansion(x: IdTree, fresh: nat)
    ensures
        flat_spec(rn_spec(IdTree::RegexExt(Box::new(x), RegexExtKind::Optional), fresh).node)
            == flat_spec(rn_spec(x, fresh).node).push(Seq::empty()),
{
    let xn = rn_spec(x, fresh).node;
    let node = rn_spec(IdTree::RegexExt(Box::new(x), RegexExtKind::Optional), fresh).node;
    let empty_cat = NnTree::Concatenations(Seq::empty());
    assert(node == NnTree::Alternations(seq![xn, empty_cat]));
    let cs = seq![xn, empty_cat];
    assert(cs.drop_first() =~= seq![empty_cat]);
    assert(seq![empty_cat].drop_first() =~= Seq::<NnTree>::empty());
    assert(flat_spec(empty_cat) =~= seq![Seq::<OperatorFlattenedNode>::empty()]);
    assert(Seq::empty() + flat_spec(xn) =~= flat_spec(xn));
    assert(flat_spec(node) == alt_fold(cs, Seq::empty()));
    assert(alt_fold(cs, Seq::empty()) == alt_fold(
        seq![empty_cat],
        flat_spec(xn),
    ));
    assert(alt_fold(seq![empty_cat], flat_spec(xn))
        == alt_fold(
        Seq::<NnTree>::empty(),
        flat_spec(xn) + flat_spec(empty_cat),
    ));
    assert(alt_fold(Seq::<NnTree>::empty(), flat_spec(xn) + flat_spec(empty_cat))
        == flat_spec(xn) + flat_spec(empty_cat));
    assert(flat_spec(xn) + seq![Seq::<OperatorFlattenedNode>::empty()] =~= flat_spec(xn).push(
        Seq::empty(),
    ));
}

/// An exception atom passes nesting removal and flattening structurally
/// unchanged, and collapses at the final stage to its bare symbol.
pub proof fn lemma_exception_preserved(e: ExceptedWithID, b: Option<usize>, fresh: nat)
    ensures
        rn_spec(IdTree::EXCEPT(e, b), fresh).node == NnTree::EXCEPT(e, b),
        flat_spec(NnTree::EXCEPT(e, b)) == seq![seq![OperatorFlattenedNode::EXCEPT(e, b)]],
        fin_atom(OperatorFlattenedNode::EXCEPT(e, b)) == FinalNode::EXCEPT(except_sym(e), b),
{
}

} // verus!
