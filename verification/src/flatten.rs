//! Operator flattening (stage 3 to stage 4): distribute concatenation over
//! alternation until a rule's right-hand side is a flat disjunction of atom
//! sequences, in source order.

use vstd::prelude::*;

use crate::node::Alternation;
use crate::node::NnTree;
use crate::node::NoNestingNode;
use crate::node::OperatorFlattenedNode;
use crate::node::Rhs;
use crate::node::alt_seq_view;
use crate::node::lemma_nn_view_seq;
use crate::node::nn_view;
use crate::node::nn_view_seq;
use crate::node::rhs_view;

verus! {

/// One alternation `x` prefixed onto every alternation of `b`, in order.
pub open spec fn row_product(
    x: Seq<OperatorFlattenedNode>,
    b: Seq<Seq<OperatorFlattenedNode>>,
) -> Seq<Seq<OperatorFlattenedNode>> {
    Seq::new(b.len(), |j: int| x + b[j])
}

/// The distribution of one alternation set over another: every alternation
/// of `a` followed by every alternation of `b`, outer order first.
pub open spec fn product(
    a: Seq<Seq<OperatorFlattenedNode>>,
    b: Seq<Seq<OperatorFlattenedNode>>,
) -> Seq<Seq<OperatorFlattenedNode>>
    decreases a.len(),
{
    if a.len() == 0 {
        Seq::empty()
    } else {
        row_product(a[0], b) + product(a.drop_first(), b)
    }
}

/// The alternation set denoted by a stage-3 tree: a leaf atom is one
/// single-atom alternation; an n-ary alternation is the union of its
/// children's sets in source order; an n-ary concatenation is the product of
/// its children's sets. An unresolved placeholder denotes nothing.
pub open spec fn flat_spec(t: NnTree) -> Seq<Seq<OperatorFlattenedNode>>
    decreases t,
{
    match t {
        NnTree::Unknown => Seq::empty(),
        NnTree::Terminal(s) => seq![seq![OperatorFlattenedNode::Terminal(s)]],
        NnTree::RegexString(s) => seq![seq![OperatorFlattenedNode::RegexString(s)]],
        NnTree::Nonterminal(s) => seq![seq![OperatorFlattenedNode::Nonterminal(s)]],
        NnTree::EXCEPT(e, b) => seq![seq![OperatorFlattenedNode::EXCEPT(e, b)]],
        NnTree::Concatenations(cs) => cat_fold(cs, seq![Seq::empty()]),
        NnTree::Alternations(cs) => alt_fold(cs, Seq::empty()),
    }
}

/// Folds the product of the children's alternation sets, left to right.
pub open spec fn cat_fold(
    cs: Seq<NnTree>,
    acc: Seq<Seq<OperatorFlattenedNode>>,
) -> Seq<Seq<OperatorFlattenedNode>>
    decreases cs,
{
    if cs.len() == 0 {
        acc
    } else {
        cat_fold(cs.drop_first(), product(acc, flat_spec(cs[0])))
    }
}

/// Folds the union of the children's alternation sets, left to right.
pub open spec fn alt_fold(
    cs: Seq<NnTree>,
    acc: Seq<Seq<OperatorFlattenedNode>>,
) -> Seq<Seq<OperatorFlattenedNode>>
    decreases cs,
{
    if cs.len() == 0 {
        acc
    } else {
        alt_fold(cs.drop_first(), acc + flat_spec(cs[0]))
    }
}

/// Appends two atom sequences.
#[verifier::loop_isolation(false)]
fn concat_atoms(
    x: &Vec<OperatorFlattenedNode>,
    y: &Vec<OperatorFlattenedNode>,
) -> (r: Vec<OperatorFlattenedNode>)
    ensures
        r@ == x@ + y@,
{
    let mut r: Vec<OperatorFlattenedNode> = Vec::new();
    let mut i: usize = 0;
    while i < x.len()
        invariant
            i <= x.len(),
            r@ == x@.take(i as int),
        decreases x.len() - i,
    {
        r.push(x[i]);
        proof {
            assert(x@.take(i + 1 as int) =~= x@.take(i as int).push(x@[i as int]));
        }
        i = i + 1;
    }
    let mut j: usize = 0;
    while j < y.len()
        invariant
            j <= y.len(),
            r@ == x@ + y@.take(j as int),
        decreases y.len() - j,
    {
        r.push(y[j]);
        proof {
            assert(x@ + y@.take(j + 1 as int) =~= (x@ + y@.take(j as int)).push(y@[j as int]));
        }
        j = j + 1;
    }
    proof {
        assert(x@.take(x@.len() as int) =~= x@);
        assert(y@.take(y@.len() as int) =~= y@);
    }
    r
}

/// One alternation prefixed onto every alternation of `b`.
#[verifier::loop_isolation(false)]
fn row_exec(x: &Alternation, b: &Vec<Alternation>) -> (r: Vec<Alternation>)
    ensures
        alt_seq_view(r@) == row_product(x.concatenations@, alt_seq_view(b@)),
{
    let mut r: Vec<Alternation> = Vec::new();
    let mut j: usize = 0;
    while j < b.len()
        invariant
            j <= b.len(),
            r@.len() == j,
            forall|k: int| 0 <= k < j ==> #[trigger] r@[k].concatenations@ == x.concatenations@
                + b@[k].concatenations@,
        decreases b.len() - j,
    {
        let atoms = concat_atoms(&x.concatenations, &b[j].concatenations);
        r.push(Alternation { concatenations: atoms });
        j = j + 1;
    }
    proof {
        assert(alt_seq_view(r@) =~= row_product(x.concatenations@, alt_seq_view(b@)));
    }
    r
}

/// The distribution of one alternation list over another.
#[verifier::loop_isolation(false)]
fn product_exec(a: &Vec<Alternation>, b: &Vec<Alternation>) -> (r: Vec<Alternation>)
    ensures
        alt_seq_view(r@) == product(alt_seq_view(a@), alt_seq_view(b@)),
{
    let ghost av = alt_seq_view(a@);
    let ghost bv = alt_seq_view(b@);
    let mut r: Vec<Alternation> = Vec::new();
    proof {
        assert(alt_seq_view(r@) =~= Seq::empty());
        assert(av.skip(0) =~= av);
        assert(Seq::empty() + product(av, bv) =~= product(av, bv));
    }
    let mut i: usize = 0;
    while i < a.len()
        invariant
            i <= a.len(),
            av == alt_seq_view(a@),
            bv == alt_seq_view(b@),
            alt_seq_view(r@) + product(av.skip(i as int), bv) == product(av, bv),
        decreases a.len() - i,
    {
        let mut row = row_exec(&a[i], b);
        proof {
            let rest = av.skip(i as int);
            assert(rest[0] == a@[i as int].concatenations@);
            assert(rest.drop_first() =~= av.skip(i + 1));
            assert(product(rest, bv) == row_product(a@[i as int].concatenations@, bv) + product(
                av.skip(i + 1),
                bv,
            ));
            assert(alt_seq_view(r@ + row@) =~= alt_seq_view(r@) + alt_seq_view(row@));
            assert((alt_seq_view(r@) + alt_seq_view(row@)) + product(av.skip(i + 1), bv)
                =~= alt_seq_view(r@) + (alt_seq_view(row@) + product(av.skip(i + 1), bv)));
        }
        r.append(&mut row);
        i = i + 1;
    }
    proof {
        assert(av.skip(a@.len() as int) =~= Seq::empty());
        assert(alt_seq_view(r@) + product(av.skip(a@.len() as int), bv) =~= alt_seq_view(r@));
    }
    r
}

/// Lowers a stage-3 tree to its flat disjunction of atom sequences, in
/// source order: the disjunctive normal form of the rule's right-hand side.
#[verifier::loop_isolation(false)]
pub fn flatten(n: &NoNestingNode) -> (r: Rhs)
    ensures
        rhs_view(r) == flat_spec(nn_view(*n)),
    decreases *n,
{
    match n {
        NoNestingNode::Unknown => {
            proof {
                assert(alt_seq_view(Seq::empty()) =~= Seq::<Seq<OperatorFlattenedNode>>::empty());
            }
            Rhs { alternations: Vec::new() }
        },
        NoNestingNode::Terminal(s) => atom_rhs(OperatorFlattenedNode::Terminal(*s)),
        NoNestingNode::RegexString(s) => atom_rhs(OperatorFlattenedNode::RegexString(*s)),
        NoNestingNode::Nonterminal(s) => atom_rhs(OperatorFlattenedNode::Nonterminal(*s)),
        NoNestingNode::EXCEPT(e, b) => atom_rhs(OperatorFlattenedNode::EXCEPT(*e, *b)),
        NoNestingNode::Concatenations(v) => {
            let ghost cs = nn_view_seq(v@);
            proof {
                lemma_nn_view_seq(v@);
            }
            let mut acc: Vec<Alternation> = Vec::new();
            acc.push(Alternation { concatenations: Vec::new() });
            proof {
                assert(alt_seq_view(acc@) =~= seq![Seq::<OperatorFlattenedNode>::empty()]);
                assert(cs.skip(0) =~= cs);
            }
            let mut i: usize = 0;
            while i < v.len()
                invariant
                    i <= v.len(),
                    cs == nn_view_seq(v@),
                    cs.len() == v@.len(),
                    forall|k: int| 0 <= k < v@.len() ==> cs[k] == nn_view(v@[k]),
                    cat_fold(cs.skip(i as int), alt_seq_view(acc@)) == cat_fold(
                        cs,
                        seq![Seq::<OperatorFlattenedNode>::empty()],
                    ),
                decreases v.len() - i,
            {
                proof {
                    assert(decreases_to!(*n => (*n)->Concatenations_0));
                    assert(decreases_to!((*n)->Concatenations_0 => (*n)->Concatenations_0[i as int]));
                    assert((*n)->Concatenations_0 == *v);
                    assert(decreases_to!(*n => v@[i as int]));
                }
                let child = flatten(&v[i]);
                let next = product_exec(&acc, &child.alternations);
                proof {
                    let rest = cs.skip(i as int);
                    assert(rest[0] == cs[i as int]);
                    assert(rest.drop_first() =~= cs.skip(i + 1));
                    assert(cat_fold(rest, alt_seq_view(acc@)) == cat_fold(
                        cs.skip(i + 1),
                        product(alt_seq_view(acc@), flat_spec(cs[i as int])),
                    ));
                }
                acc = next;
                i = i + 1;
            }
            proof {
                assert(cs.skip(v@.len() as int) =~= Seq::empty());
            }
            Rhs { alternations: acc }
        },
        NoNestingNode::Alternations(v) => {
            let ghost cs = nn_view_seq(v@);
            proof {
                lemma_nn_view_seq(v@);
            }
            let mut acc: Vec<Alternation> = Vec::new();
            proof {
                assert(alt_seq_view(acc@) =~= Seq::<Seq<OperatorFlattenedNode>>::empty());
                assert(cs.skip(0) =~= cs);
            }
            let mut i: usize = 0;
            while i < v.len()
                invariant
                    i <= v.len(),
                    cs == nn_view_seq(v@),
                    cs.len() == v@.len(),
                    forall|k: int| 0 <= k < v@.len() ==> cs[k] == nn_view(v@[k]),
                    alt_fold(cs.skip(i as int), alt_seq_view(acc@)) == alt_fold(cs, Seq::empty()),
                decreases v.len() - i,
            {
                proof {
                    assert(decreases_to!(*n => (*n)->Alternations_0));
                    assert(decreases_to!((*n)->Alternations_0 => (*n)->Alternations_0[i as int]));
                    assert((*n)->Alternations_0 == *v);
                    assert(decreases_to!(*n => v@[i as int]));
                }
                let mut child = flatten(&v[i]);
                proof {
                    let rest = cs.skip(i as int);
                    assert(rest[0] == cs[i as int]);
                    assert(rest.drop_first() =~= cs.skip(i + 1));
                    assert(alt_fold(rest, alt_seq_view(acc@)) == alt_fold(
                        cs.skip(i + 1),
                        alt_seq_view(acc@) + flat_spec(cs[i as int]),
                    ));
                    assert(alt_seq_view(acc@ + child.alternations@) =~= alt_seq_view(acc@)
                        + alt_seq_view(child.alternations@));
                }
                acc.append(&mut child.alternations);
                i = i + 1;
            }
            proof {
                assert(cs.skip(v@.len() as int) =~= Seq::empty());
            }
            Rhs { alternations: acc }
        },
    }
}

/// A leaf atom of a stage-3 tree.
pub open spec fn is_atom(t: NnTree) -> bool {
    match t {
        NnTree::Terminal(_) => true,
        NnTree::RegexString(_) => true,
        NnTree::Nonterminal(_) => true,
        NnTree::EXCEPT(_, _) => true,
        _ => false,
    }
}

/// The stage-4 atom a stage-3 leaf denotes.
pub open spec fn atom_of(t: NnTree) -> OperatorFlattenedNode
    recommends
        is_atom(t),
{
    match t {
        NnTree::Terminal(s) => OperatorFlattenedNode::Terminal(s),
        NnTree::RegexString(s) => OperatorFlattenedNode::RegexString(s),
        NnTree::Nonterminal(s) => OperatorFlattenedNode::Nonterminal(s),
        NnTree::EXCEPT(e, b) => OperatorFlattenedNode::EXCEPT(e, b),
        _ => OperatorFlattenedNode::Terminal(0),
    }
}

/// The empty-prefix alternation set is the unit of distribution.
pub proof fn lemma_unit_product(x: Seq<Seq<OperatorFlattenedNode>>)
    ensures
        product(seq![Seq::empty()], x) == x,
{
    let unit = seq![Seq::<OperatorFlattenedNode>::empty()];
    assert(unit.drop_first() =~= Seq::<Seq<OperatorFlattenedNode>>::empty());
    assert(product(Seq::<Seq<OperatorFlattenedNode>>::empty(), x)
        == Seq::<Seq<OperatorFlattenedNode>>::empty());
    assert forall|j: int| 0 <= j < x.len() implies (Seq::<OperatorFlattenedNode>::empty()
        + x[j]) == x[j] by {
        assert(Seq::<OperatorFlattenedNode>::empty() + x[j] =~= x[j]);
    }
    assert(row_product(Seq::empty(), x) =~= x);
    assert(row_product(Seq::empty(), x) + Seq::<Seq<OperatorFlattenedNode>>::empty()
        =~= row_product(Seq::empty(), x));
}

/// Distribution of concatenation over alternation: a two-way alternation
/// of atoms followed by an atom flattens to the two combined sequences, in
/// source order.
pub proof fn lemma_distribution_concat(a: NnTree, b: NnTree, c: NnTree)
    requires
        is_atom(a),
        is_atom(b),
        is_atom(c),
    ensures
        flat_spec(NnTree::Concatenations(seq![NnTree::Alternations(seq![a, b]), c]))
            == seq![seq![atom_of(a), atom_of(c)], seq![atom_of(b), atom_of(c)]],
{
    let alt = NnTree::Alternations(seq![a, b]);
    let fa = seq![seq![atom_of(a)]];
    let fb = seq![seq![atom_of(b)]];
    let fc = seq![seq![atom_of(c)]];
    assert(flat_spec(a) == fa);
    assert(flat_spec(b) == fb);
    assert(flat_spec(c) == fc);
    assert(seq![a, b].drop_first() =~= seq![b]);
    assert(seq![b].drop_first() =~= Seq::<NnTree>::empty());
    assert(alt_fold(seq![a, b], Seq::empty()) == alt_fold(seq![b], Seq::empty() + fa));
    assert(alt_fold(seq![b], Seq::empty() + fa) == alt_fold(
        Seq::<NnTree>::empty(),
        (Seq::empty() + fa) + fb,
    ));
    assert((Seq::empty() + fa) + fb =~= seq![seq![atom_of(a)], seq![atom_of(b)]]);
    assert(flat_spec(alt) == seq![seq![atom_of(a)], seq![atom_of(b)]]);
    let cs = seq![alt, c];
    assert(cs.drop_first() =~= seq![c]);
    assert(seq![c].drop_first() =~= Seq::<NnTree>::empty());
    let unit = seq![Seq::<OperatorFlattenedNode>::empty()];
    assert(cat_fold(cs, unit) == cat_fold(seq![c], product(unit, flat_spec(alt))));
    lemma_unit_product(flat_spec(alt));
    assert(cat_fold(seq![c], flat_spec(alt)) == cat_fold(
        Seq::<NnTree>::empty(),
        product(flat_spec(alt), fc),
    ));
    let ra = seq![atom_of(a)];
    let rb = seq![atom_of(b)];
    assert(seq![ra, rb].drop_first() =~= seq![rb]);
    assert(seq![rb].drop_first() =~= Seq::<Seq<OperatorFlattenedNode>>::empty());
    assert(ra + seq![atom_of(c)] =~= seq![atom_of(a), atom_of(c)]);
    assert(rb + seq![atom_of(c)] =~= seq![atom_of(b), atom_of(c)]);
    assert(row_product(ra, fc) =~= seq![seq![atom_of(a), atom_of(c)]]);
    assert(row_product(rb, fc) =~= seq![seq![atom_of(b), atom_of(c)]]);
    assert(seq![rb][0] == rb);
    assert(product(seq![rb], fc) == row_product(rb, fc) + product(
        Seq::<Seq<OperatorFlattenedNode>>::empty(),
        fc,
    ));
    assert(row_product(rb, fc) + Seq::<Seq<OperatorFlattenedNode>>::empty() =~= row_product(
        rb,
        fc,
    ));
    assert(product(seq![rb], fc) =~= seq![seq![atom_of(b), atom_of(c)]]);
    assert(product(seq![ra, rb], fc) =~= seq![
        seq![atom_of(a), atom_of(c)],
        seq![atom_of(b), atom_of(c)],
    ]);
}

/// Distribution the other way round: an alternation whose children are a
/// two-atom concatenation and an atom flattens to those two alternatives.
pub proof fn lemma_distribution_alt(a: NnTree, b: NnTree, c: NnTree)
    requires
        is_atom(a),
        is_atom(b),
        is_atom(c),
    ensures
        flat_spec(NnTree::Alternations(seq![NnTree::Concatenations(seq![a, b]), c]))
            == seq![seq![atom_of(a), atom_of(b)], seq![atom_of(c)]],
{
    let cat = NnTree::Concatenations(seq![a, b]);
    let fa = seq![seq![atom_of(a)]];
    let fb = seq![seq![atom_of(b)]];
    assert(flat_spec(a) == fa);
    assert(flat_spec(b) == fb);
    let unit = seq![Seq::<OperatorFlattenedNode>::empty()];
    assert(seq![a, b].drop_first() =~= seq![b]);
    assert(seq![b].drop_first() =~= Seq::<NnTree>::empty());
    assert(cat_fold(seq![a, b], unit) == cat_fold(seq![b], product(unit, fa)));
    lemma_unit_product(fa);
    assert(cat_fold(seq![b], fa) == cat_fold(Seq::<NnTree>::empty(), product(fa, fb)));
    assert(seq![atom_of(a)] + seq![atom_of(b)] =~= seq![atom_of(a), atom_of(b)]);
    assert(fa.drop_first() =~= Seq::<Seq<OperatorFlattenedNode>>::empty());
    assert(row_product(seq![atom_of(a)], fb) =~= seq![seq![atom_of(a), atom_of(b)]]);
    assert(fa[0] == seq![atom_of(a)]);
    assert(product(fa, fb) == row_product(seq![atom_of(a)], fb) + product(
        Seq::<Seq<OperatorFlattenedNode>>::empty(),
        fb,
    ));
    assert(row_product(seq![atom_of(a)], fb) + Seq::<Seq<OperatorFlattenedNode>>::empty()
        =~= row_product(seq![atom_of(a)], fb));
    assert(product(fa, fb) =~= seq![seq![atom_of(a), atom_of(b)]]);
    assert(flat_spec(cat) == seq![seq![atom_of(a), atom_of(b)]]);
    let cs = seq![cat, c];
    assert(cs.drop_first() =~= seq![c]);
    assert(seq![c].drop_first() =~= Seq::<NnTree>::empty());
    assert(alt_fold(cs, Seq::empty()) == alt_fold(seq![c], Seq::empty() + flat_spec(cat)));
    assert(alt_fold(seq![c], Seq::empty() + flat_spec(cat)) == alt_fold(
        Seq::<NnTree>::empty(),
        (Seq::empty() + flat_spec(cat)) + flat_spec(c),
    ));
    assert((Seq::empty() + flat_spec(cat)) + flat_spec(c) =~= seq![
        seq![atom_of(a), atom_of(b)],
        seq![atom_of(c)],
    ]);
}

/// One atom as a whole right-hand side: a single one-atom alternation.
fn atom_rhs(a: OperatorFlattenedNode) -> (r: Rhs)
    ensures
        rhs_view(r) == seq![seq![a]],
{
    let mut atoms: Vec<OperatorFlattenedNode> = Vec::new();
    atoms.push(a);
    let mut alts: Vec<Alternation> = Vec::new();
    alts.push(Alternation { concatenations: atoms });
    proof {
        assert(alt_seq_view(alts@) =~= seq![seq![a]]);
    }
    Rhs { alternations: alts }
}

} // verus!
