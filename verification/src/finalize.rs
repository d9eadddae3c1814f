//! Final collapse (stage 4 to stage 5): the tagged excepted payload of an
//! exception atom becomes a bare symbol; the downstream consumer resolves
//! the terminal-versus-nonterminal distinction by symbol-table lookup.

use vstd::prelude::*;

use crate::node::Alternation;
use crate::node::ExceptedWithID;
use crate::node::FinalAlternation;
use crate::node::FinalNode;
use crate::node::FinalRhs;
use crate::node::OperatorFlattenedNode;
use crate::node::Rhs;
use crate::node::final_alt_seq_view;
use crate::node::final_rhs_view;
use crate::node::rhs_view;

verus! {

/// The bare symbol carried by an excepted element.
pub open spec fn except_sym(e: ExceptedWithID) -> u32 {
    match e {
        ExceptedWithID::Terminal(s) => s,
        ExceptedWithID::Nonterminal(s) => s,
    }
}

/// The canonical form of one atom: identical, except that the excepted
/// payload collapses to its bare symbol.
pub open spec fn fin_atom(a: OperatorFlattenedNode) -> FinalNode {
    match a {
        OperatorFlattenedNode::Terminal(s) => FinalNode::Terminal(s),
        OperatorFlattenedNode::RegexString(s) => FinalNode::RegexString(s),
        OperatorFlattenedNode::Nonterminal(s) => FinalNode::Nonterminal(s),
        OperatorFlattenedNode::EXCEPT(e, b) => FinalNode::EXCEPT(except_sym(e), b),
    }
}

/// The canonical form of one alternation, atom by atom.
pub open spec fn fin_row(s: Seq<OperatorFlattenedNode>) -> Seq<FinalNode> {
    s.map(|i: int, a: OperatorFlattenedNode| fin_atom(a))
}

/// The canonical form of a whole disjunction, alternation by alternation.
pub open spec fn fin_dnf(d: Seq<Seq<OperatorFlattenedNode>>) -> Seq<Seq<FinalNode>> {
    d.map(|i: int, r: Seq<OperatorFlattenedNode>| fin_row(r))
}

/// Collapses one atom to its canonical form.
fn fin_atom_exec(a: OperatorFlattenedNode) -> (r: FinalNode)
    ensures
        r == fin_atom(a),
{
    match a {
        OperatorFlattenedNode::Terminal(s) => FinalNode::Terminal(s),
        OperatorFlattenedNode::RegexString(s) => FinalNode::RegexString(s),
        OperatorFlattenedNode::Nonterminal(s) => FinalNode::Nonterminal(s),
        OperatorFlattenedNode::EXCEPT(e, b) => match e {
            ExceptedWithID::Terminal(s) => FinalNode::EXCEPT(s, b),
            ExceptedWithID::Nonterminal(s) => FinalNode::EXCEPT(s, b),
        },
    }
}

/// Collapses one alternation to its canonical form, preserving atom order.
#[verifier::loop_isolation(false)]
fn fin_alternation(a: &Alternation) -> (r: FinalAlternation)
    ensures
        r.concatenations@ == fin_row(a.concatenations@),
{
    let mut out: Vec<FinalNode> = Vec::new();
    let mut i: usize = 0;
    while i < a.concatenations.len()
        invariant
            i <= a.concatenations.len(),
            out@.len() == i,
            forall|k: int| 0 <= k < i ==> out@[k] == fin_atom(a.concatenations@[k]),
        decreases a.concatenations.len() - i,
    {
        out.push(fin_atom_exec(a.concatenations[i]));
        i = i + 1;
    }
    proof {
        assert(out@ =~= fin_row(a.concatenations@));
    }
    FinalAlternation { concatenations: out }
}

/// Lowers a stage-4 right-hand side to the final canonical form, preserving
/// the order of alternations and of atoms.
#[verifier::loop_isolation(false)]
pub fn finalize_rhs(r: &Rhs) -> (f: FinalRhs)
    ensures
        final_rhs_view(f) == fin_dnf(rhs_view(*r)),
{
    let mut out: Vec<FinalAlternation> = Vec::new();
    let mut i: usize = 0;
    while i < r.alternations.len()
        invariant
            i <= r.alternations.len(),
            out@.len() == i,
            forall|k: int| 0 <= k < i ==> out@[k].concatenations@ == fin_row(
                r.alternations@[k].concatenations@,
            ),
        decreases r.alternations.len() - i,
    {
        out.push(fin_alternation(&r.alternations[i]));
        i = i + 1;
    }
    proof {
        assert(final_alt_seq_view(out@) =~= fin_dnf(rhs_view(*r)));
    }
    FinalRhs { alternations: out }
}

} // verus!
