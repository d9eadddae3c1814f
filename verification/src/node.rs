//! The five successive tree shapes of the lowering pipeline, together with
//! their mathematical models.
//!
//! Stage 1 (`Node`) is the raw recursive tree with textual identifiers.
//! Stage 2 (`NodeWithID`) is the same shape with every identifier replaced by
//! an interned symbol. Stage 3 (`NoNestingNode`) keeps only n-ary
//! concatenation and alternation containers around atomic leaves. Stage 4
//! (`Rhs` over `OperatorFlattenedNode`) is a disjunction of atom sequences.
//! Stage 5 (`FinalRhs` over `FinalNode`) is the same shape with the exception
//! atom collapsed to a bare symbol.

use vstd::prelude::*;

verus! {

/// A repetition operator attached to a sub-tree.
#[derive(Debug, Clone, Copy, PartialEq, Eq, Hash)]
pub enum RegexExtKind {
    Repeat0,
    Repeat1,
    Optional,
}

/// The kind of a binary composition node.
#[derive(Debug, Clone, Copy, PartialEq, Eq)]
pub enum SymbolKind {
    Concatenation,
    Alternation,
}

/// The excepted element of an exception atom, before interning.
#[derive(Debug, Clone)]
pub enum Excepted {
    Terminal(String),
    Nonterminal(String),
}

/// The excepted element of an exception atom, after interning.
#[derive(Debug, Clone, Copy, Hash, Eq, PartialEq, PartialOrd, Ord)]
pub enum ExceptedWithID {
    Terminal(u32),
    Nonterminal(u32),
}

/// Stage 1: the raw recursive tree produced by parsing grammar source.
#[derive(Debug)]
pub enum Node {
    Terminal(String),
    RegexString(String),
    Nonterminal(String),
    Multiple(Vec<Node>),
    RegexExt(Box<Node>, RegexExtKind),
    Symbol(Box<Node>, SymbolKind, Box<Node>),
    Group(Box<Node>),
    EXCEPT(Excepted, Option<usize>),
}

/// Stage 2: structurally identical to stage 1, every identifier interned;
/// `Unknown` is a placeholder that must not survive past this stage.
#[derive(Debug)]
pub enum NodeWithID {
    Terminal(u32),
    RegexString(u32),
    Nonterminal(u32),
    Multiple(Vec<NodeWithID>),
    RegexExt(Box<NodeWithID>, RegexExtKind),
    Symbol(Box<NodeWithID>, SymbolKind, Box<NodeWithID>),
    Group(Box<NodeWithID>),
    EXCEPT(ExceptedWithID, Option<usize>),
    Unknown,
}

/// Stage 3: binary composition and grouping replaced by n-ary containers.
#[derive(Debug)]
pub enum NoNestingNode {
    Unknown,
    Terminal(u32),
    RegexString(u32),
    Nonterminal(u32),
    Concatenations(Vec<NoNestingNode>),
    Alternations(Vec<NoNestingNode>),
    EXCEPT(ExceptedWithID, Option<usize>),
}

/// Stage 4: an atomic grammar element of a flattened alternation.
#[derive(Debug, Clone, Copy, Hash, Eq, PartialEq, PartialOrd, Ord)]
pub enum OperatorFlattenedNode {
    Terminal(u32),
    RegexString(u32),
    Nonterminal(u32),
    EXCEPT(ExceptedWithID, Option<usize>),
}

/// Stage 5: same as stage 4, the excepted payload collapsed to a bare symbol.
#[derive(Debug, Clone, Copy, Hash, Eq, PartialEq, PartialOrd, Ord)]
pub enum FinalNode {
    Terminal(u32),
    RegexString(u32),
    Nonterminal(u32),
    EXCEPT(u32, Option<usize>),
}

/// Stage 4: one rule's right-hand side, a disjunction of alternations.
#[derive(Debug, Clone, Hash, Eq, PartialEq)]
pub struct Rhs {
    pub alternations: Vec<Alternation>,
}

/// Stage 4: an ordered sequence of atoms that must all match in order.
#[derive(Debug, Clone, Hash, Eq, PartialEq, PartialOrd, Ord)]
pub struct Alternation {
    pub concatenations: Vec<OperatorFlattenedNode>,
}

/// Stage 5: one rule's canonical right-hand side.
#[derive(Debug, Clone, Hash, Eq, PartialEq)]
pub struct FinalRhs {
    pub alternations: Vec<FinalAlternation>,
}

/// Stage 5: an ordered sequence of canonical atoms.
#[derive(Debug, Clone, Hash, Eq, PartialEq, PartialOrd, Ord)]
pub struct FinalAlternation {
    pub concatenations: Vec<FinalNode>,
}

/// Mathematical model of a stage-2 tree.
pub enum IdTree {
    Terminal(u32),
    RegexString(u32),
    Nonterminal(u32),
    Multiple(Seq<IdTree>),
    RegexExt(Box<IdTree>, RegexExtKind),
    Symbol(Box<IdTree>, SymbolKind, Box<IdTree>),
    Group(Box<IdTree>),
    EXCEPT(ExceptedWithID, Option<usize>),
    Unknown,
}

/// Mathematical model of a stage-3 tree.
pub enum NnTree {
    Unknown,
    Terminal(u32),
    RegexString(u32),
    Nonterminal(u32),
    Concatenations(Seq<NnTree>),
    Alternations(Seq<NnTree>),
    EXCEPT(ExceptedWithID, Option<usize>),
}

/// The model of a stage-2 tree: the exec tree with `Vec` children read back
/// as sequences.
pub open spec fn id_view(n: NodeWithID) -> IdTree
    decreases n,
{
    match n {
        NodeWithID::Terminal(s) => IdTree::Terminal(s),
        NodeWithID::RegexString(s) => IdTree::RegexString(s),
        NodeWithID::Nonterminal(s) => IdTree::Nonterminal(s),
        NodeWithID::Multiple(v) => IdTree::Multiple(id_view_seq(v@)),
        NodeWithID::RegexExt(b, k) => IdTree::RegexExt(Box::new(id_view(*b)), k),
        NodeWithID::Symbol(l, k, r) => IdTree::Symbol(
            Box::new(id_view(*l)),
            k,
            Box::new(id_view(*r)),
        ),
        NodeWithID::Group(b) => IdTree::Group(Box::new(id_view(*b))),
        NodeWithID::EXCEPT(e, b) => IdTree::EXCEPT(e, b),
        NodeWithID::Unknown => IdTree::Unknown,
    }
}

/// The models of a sequence of stage-2 trees, in order.
pub open spec fn id_view_seq(s: Seq<NodeWithID>) -> Seq<IdTree>
    decreases s,
{
    if s.len() == 0 {
        Seq::empty()
    } else {
        seq![id_view(s[0])] + id_view_seq(s.drop_first())
    }
}

/// `id_view_seq` maps `id_view` over the sequence, element by element.
pub proof fn lemma_id_view_seq(s: Seq<NodeWithID>)
    ensures
        id_view_seq(s).len() == s.len(),
        forall|i: int| 0 <= i < s.len() ==> id_view_seq(s)[i] == id_view(s[i]),
    decreases s,
{
    if s.len() > 0 {
        lemma_id_view_seq(s.drop_first());
    }
}

/// `id_view_seq` distributes over appending.
pub proof fn lemma_id_view_seq_append(a: Seq<NodeWithID>, b: Seq<NodeWithID>)
    ensures
        id_view_seq(a + b) == id_view_seq(a) + id_view_seq(b),
    decreases a,
{
    if a.len() == 0 {
        assert(a + b =~= b);
        assert(id_view_seq(a) + id_view_seq(b) =~= id_view_seq(b));
    } else {
        assert((a + b).drop_first() =~= a.drop_first() + b);
        lemma_id_view_seq_append(a.drop_first(), b);
        assert((seq![id_view(a[0])] + id_view_seq(a.drop_first())) + id_view_seq(b)
            =~= seq![id_view((a + b)[0])] + (id_view_seq(a.drop_first()) + id_view_seq(b)));
    }
}

/// The model of a stage-3 tree.
pub open spec fn nn_view(n: NoNestingNode) -> NnTree
    decreases n,
{
    match n {
        NoNestingNode::Unknown => NnTree::Unknown,
        NoNestingNode::Terminal(s) => NnTree::Terminal(s),
        NoNestingNode::RegexString(s) => NnTree::RegexString(s),
        NoNestingNode::Nonterminal(s) => NnTree::Nonterminal(s),
        NoNestingNode::Concatenations(v) => NnTree::Concatenations(nn_view_seq(v@)),
        NoNestingNode::Alternations(v) => NnTree::Alternations(nn_view_seq(v@)),
        NoNestingNode::EXCEPT(e, b) => NnTree::EXCEPT(e, b),
    }
}

/// The models of a sequence of stage-3 trees, in order.
pub open spec fn nn_view_seq(s: Seq<NoNestingNode>) -> Seq<NnTree>
    decreases s,
{
    if s.len() == 0 {
        Seq::empty()
    } else {
        seq![nn_view(s[0])] + nn_view_seq(s.drop_first())
    }
}

/// `nn_view_seq` maps `nn_view` over the sequence, element by element.
pub proof fn lemma_nn_view_seq(s: Seq<NoNestingNode>)
    ensures
        nn_view_seq(s).len() == s.len(),
        forall|i: int| 0 <= i < s.len() ==> nn_view_seq(s)[i] == nn_view(s[i]),
    decreases s,
{
    if s.len() > 0 {
        lemma_nn_view_seq(s.drop_first());
    }
}

/// `nn_view_seq` distributes over appending.
pub proof fn lemma_nn_view_seq_append(a: Seq<NoNestingNode>, b: Seq<NoNestingNode>)
    ensures
        nn_view_seq(a + b) == nn_view_seq(a) + nn_view_seq(b),
    decreases a,
{
    if a.len() == 0 {
        assert(a + b =~= b);
        assert(nn_view_seq(a) + nn_view_seq(b) =~= nn_view_seq(b));
    } else {
        assert((a + b).drop_first() =~= a.drop_first() + b);
        lemma_nn_view_seq_append(a.drop_first(), b);
        assert((seq![nn_view(a[0])] + nn_view_seq(a.drop_first())) + nn_view_seq(b)
            =~= seq![nn_view((a + b)[0])] + (nn_view_seq(a.drop_first()) + nn_view_seq(b)));
    }
}

/// The model of a sequence of stage-4 alternations: each alternation read
/// back as its atom sequence.
pub open spec fn alt_seq_view(s: Seq<Alternation>) -> Seq<Seq<OperatorFlattenedNode>> {
    s.map(|i: int, a: Alternation| a.concatenations@)
}

/// The model of a stage-4 right-hand side: a sequence of alternations, each
/// a sequence of atoms.
pub open spec fn rhs_view(r: Rhs) -> Seq<Seq<OperatorFlattenedNode>> {
    alt_seq_view(r.alternations@)
}

/// The model of a sequence of stage-5 alternations.
pub open spec fn final_alt_seq_view(s: Seq<FinalAlternation>) -> Seq<Seq<FinalNode>> {
    s.map(|i: int, a: FinalAlternation| a.concatenations@)
}

/// The model of a stage-5 right-hand side.
pub open spec fn final_rhs_view(r: FinalRhs) -> Seq<Seq<FinalNode>> {
    final_alt_seq_view(r.alternations@)
}

} // verus!
