//! Nesting removal (stage 2 to stage 3): grouping, n-ary sequence nodes,
//! binary composition and repetition operators are eliminated in favour of
//! flat `Concatenations` / `Alternations` containers around leaf atoms.
//!
//! Repetition operators are expanded here. An optional sub-tree becomes an
//! alternation with an empty concatenation. Zero-or-more and one-or-more
//! sub-trees become synthetic recursive rules under generated nonterminal
//! symbols. The caller supplies a first free symbol and the generated
//! symbols are taken consecutively from there; a caller that passes the
//! interning table's count therefore gets rules whose symbols collide with
//! no interned identifier.

use vstd::prelude::*;

use crate::node::IdTree;
use crate::node::NnTree;
use crate::node::NoNestingNode;
use crate::node::NodeWithID;
use crate::node::RegexExtKind;
use crate::node::SymbolKind;
use crate::node::id_view;
use crate::node::id_view_seq;
use crate::node::lemma_id_view_seq;
use crate::node::lemma_nn_view_seq;
use crate::node::lemma_nn_view_seq_append;
use crate::node::nn_view;
use crate::node::nn_view_seq;

verus! {

/// A stage-2 tree is resolved when no `Unknown` placeholder is left in it;
/// one that survives interning is an internal-consistency failure.
pub open spec fn resolved(t: IdTree) -> bool
    decreases t,
{
    match t {
        IdTree::Unknown => false,
        IdTree::Multiple(cs) => resolved_seq(cs),
        IdTree::RegexExt(b, _) => resolved(*b),
        IdTree::Symbol(l, _, r) => resolved(*l) && resolved(*r),
        IdTree::Group(b) => resolved(*b),
        _ => true,
    }
}

/// All trees of a sequence are resolved.
pub open spec fn resolved_seq(s: Seq<IdTree>) -> bool
    decreases s,
{
    if s.len() == 0 {
        true
    } else {
        resolved(s[0]) && resolved_seq(s.drop_first())
    }
}

/// `resolved_seq` holds element by element.
pub proof fn lemma_resolved_seq(s: Seq<IdTree>)
    ensures
        resolved_seq(s) <==> (forall|i: int| 0 <= i < s.len() ==> resolved(s[i])),
    decreases s,
{
    if s.len() > 0 {
        lemma_resolved_seq(s.drop_first());
        if resolved_seq(s) {
            assert forall|i: int| 0 <= i < s.len() implies resolved(s[i]) by {
                if i > 0 {
                    assert(s.drop_first()[i - 1] == s[i]);
                }
            }
        }
        if forall|i: int| 0 <= i < s.len() ==> resolved(s[i]) {
            assert forall|i: int| 0 <= i < s.drop_first().len() implies resolved(
                s.drop_first()[i],
            ) by {
                assert(s.drop_first()[i] == s[i + 1]);
            }
            assert(resolved(s[0]));
        }
    }
}

/// How many synthetic nonterminal symbols expanding the repetitions of a
/// tree consumes: one for zero-or-more, two for one-or-more.
pub open spec fn repeat_count(t: IdTree) -> nat
    decreases t,
{
    match t {
        IdTree::Multiple(cs) => repeat_count_seq(cs),
        IdTree::RegexExt(b, k) => match k {
            RegexExtKind::Repeat0 => 1 + repeat_count(*b),
            RegexExtKind::Repeat1 => 2 + repeat_count(*b),
            RegexExtKind::Optional => repeat_count(*b),
        },
        IdTree::Symbol(l, _, r) => repeat_count(*l) + repeat_count(*r),
        IdTree::Group(b) => repeat_count(*b),
        _ => 0,
    }
}

/// The symbols consumed by a sequence of trees, in order.
pub open spec fn repeat_count_seq(s: Seq<IdTree>) -> nat
    decreases s,
{
    if s.len() == 0 {
        0
    } else {
        repeat_count(s[0]) + repeat_count_seq(s.drop_first())
    }
}

/// The result of removing nesting from one tree: the flat tree, the
/// synthetic rules emitted along the way, and the next free symbol.
pub struct NnOut {
    pub node: NnTree,
    pub rules: Seq<(u32, NnTree)>,
    pub next: nat,
}

/// The result of removing nesting from a sequence of sibling trees.
pub struct NnSeqOut {
    pub nodes: Seq<NnTree>,
    pub rules: Seq<(u32, NnTree)>,
    pub next: nat,
}

/// A child of an n-ary concatenation is spliced into its parent when it is
/// itself a concatenation, preserving associativity structurally.
pub open spec fn splice_cat(t: NnTree) -> Seq<NnTree> {
    match t {
        NnTree::Concatenations(cs) => cs,
        _ => seq![t],
    }
}

/// A child of an n-ary alternation is spliced likewise.
pub open spec fn splice_alt(t: NnTree) -> Seq<NnTree> {
    match t {
        NnTree::Alternations(cs) => cs,
        _ => seq![t],
    }
}

/// Splices every tree of a sequence into one flat child list.
pub open spec fn splice_cat_all(s: Seq<NnTree>) -> Seq<NnTree>
    decreases s,
{
    if s.len() == 0 {
        Seq::empty()
    } else {
        splice_cat(s[0]) + splice_cat_all(s.drop_first())
    }
}

/// The body of the synthetic zero-or-more rule for a lowered sub-tree
/// `inner` under the rule's own symbol `sym`: repeat `inner` then recurse,
/// or match nothing.
pub open spec fn star_body(inner: NnTree, sym: u32) -> NnTree {
    NnTree::Alternations(
        seq![
            NnTree::Concatenations(seq![inner, NnTree::Nonterminal(sym)]),
            NnTree::Concatenations(Seq::empty()),
        ],
    )
}

/// The nesting removal of one stage-2 tree, with `fresh` the first unused
/// symbol for synthetic rules.
pub open spec fn rn_spec(t: IdTree, fresh: nat) -> NnOut
    decreases t,
{
    match t {
        IdTree::Terminal(s) => NnOut {
            node: NnTree::Terminal(s),
            rules: Seq::empty(),
            next: fresh,
        },
        IdTree::RegexString(s) => NnOut {
            node: NnTree::RegexString(s),
            rules: Seq::empty(),
            next: fresh,
        },
        IdTree::Nonterminal(s) => NnOut {
            node: NnTree::Nonterminal(s),
            rules: Seq::empty(),
            next: fresh,
        },
        IdTree::EXCEPT(e, b) => NnOut {
            node: NnTree::EXCEPT(e, b),
            rules: Seq::empty(),
            next: fresh,
        },
        IdTree::Unknown => NnOut { node: NnTree::Unknown, rules: Seq::empty(), next: fresh },
        IdTree::Group(b) => rn_spec(*b, fresh),
        IdTree::Multiple(cs) => {
            let o = rn_seq(cs, fresh);
            NnOut {
                node: NnTree::Concatenations(splice_cat_all(o.nodes)),
                rules: o.rules,
                next: o.next,
            }
        },
        IdTree::Symbol(l, k, r) => {
            let ol = rn_spec(*l, fresh);
            let or = rn_spec(*r, ol.next);
            let node = match k {
                SymbolKind::Concatenation => NnTree::Concatenations(
                    splice_cat(ol.node) + splice_cat(or.node),
                ),
                SymbolKind::Alternation => NnTree::Alternations(
                    splice_alt(ol.node) + splice_alt(or.node),
                ),
            };
            NnOut { node, rules: ol.rules + or.rules, next: or.next }
        },
        IdTree::RegexExt(b, k) => match k {
            RegexExtKind::Optional => {
                let o = rn_spec(*b, fresh);
                NnOut {
                    node: NnTree::Alternations(
                        seq![o.node, NnTree::Concatenations(Seq::empty())],
                    ),
                    rules: o.rules,
                    next: o.next,
                }
            },
            RegexExtKind::Repeat0 => {
                let o = rn_spec(*b, fresh + 1);
                NnOut {
                    node: NnTree::Nonterminal(fresh as u32),
                    rules: o.rules + seq![(fresh as u32, star_body(o.node, fresh as u32))],
                    next: o.next,
                }
            },
            RegexExtKind::Repeat1 => {
                let o = rn_spec(*b, fresh + 2);
                NnOut {
                    node: NnTree::Nonterminal(fresh as u32),
                    rules: o.rules + seq![
                        (
                            fresh as u32,
                            NnTree::Concatenations(
                                seq![o.node, NnTree::Nonterminal((fresh + 1) as u32)],
                            ),
                        ),
                        ((fresh + 1) as u32, star_body(NnTree::Nonterminal(fresh as u32), (fresh + 1) as u32)),
                    ],
                    next: o.next,
                }
            },
        },
    }
}

/// The nesting removal of a sequence of sibling trees, threading the next
/// free symbol left to right.
pub open spec fn rn_seq(s: Seq<IdTree>, fresh: nat) -> NnSeqOut
    decreases s,
{
    if s.len() == 0 {
        NnSeqOut { nodes: Seq::empty(), rules: Seq::empty(), next: fresh }
    } else {
        let o = rn_spec(s[0], fresh);
        let rest = rn_seq(s.drop_first(), o.next);
        NnSeqOut {
            nodes: seq![o.node] + rest.nodes,
            rules: o.rules + rest.rules,
            next: rest.next,
        }
    }
}

/// Nesting removal consumes exactly the synthetic symbols the repetition
/// count announces.
pub proof fn lemma_rn_next(t: IdTree, fresh: nat)
    ensures
        rn_spec(t, fresh).next == fresh + repeat_count(t),
    decreases t,
{
    match t {
        IdTree::Multiple(cs) => lemma_rn_seq_next(cs, fresh),
        IdTree::RegexExt(b, k) => match k {
            RegexExtKind::Optional => lemma_rn_next(*b, fresh),
            RegexExtKind::Repeat0 => lemma_rn_next(*b, fresh + 1),
            RegexExtKind::Repeat1 => lemma_rn_next(*b, fresh + 2),
        },
        IdTree::Symbol(l, _, r) => {
            lemma_rn_next(*l, fresh);
            lemma_rn_next(*r, rn_spec(*l, fresh).next);
        },
        IdTree::Group(b) => lemma_rn_next(*b, fresh),
        _ => {},
    }
}

/// The sequence form of `lemma_rn_next`.
pub proof fn lemma_rn_seq_next(s: Seq<IdTree>, fresh: nat)
    ensures
        rn_seq(s, fresh).next == fresh + repeat_count_seq(s),
    decreases s,
{
    if s.len() > 0 {
        lemma_rn_next(s[0], fresh);
        lemma_rn_seq_next(s.drop_first(), rn_spec(s[0], fresh).next);
    }
}

/// Every synthetic rule takes a symbol from the half-open range between
/// the supplied first free symbol and the returned next one, and no two
/// synthetic rules share a symbol: with a first free symbol at or above
/// the interning table's count, generated rules collide with nothing.
pub proof fn lemma_rn_rules_fresh(t: IdTree, fresh: nat)
    requires
        fresh + repeat_count(t) <= u32::MAX,
    ensures
        forall|i: int| 0 <= i < rn_spec(t, fresh).rules.len() ==> fresh <= (#[trigger] rn_spec(
            t,
            fresh,
        ).rules[i]).0 as nat && ((rn_spec(t, fresh).rules[i]).0 as nat) < rn_spec(t, fresh).next,
        forall|i: int, j: int| 0 <= i < j < rn_spec(t, fresh).rules.len() ==> (rn_spec(
            t,
            fresh,
        ).rules[i]).0 != (rn_spec(t, fresh).rules[j]).0,
    decreases t,
{
    match t {
        IdTree::Multiple(cs) => {
            lemma_rn_seq_rules_fresh(cs, fresh);
            let o = rn_seq(cs, fresh);
            assert forall|i: int| 0 <= i < rn_spec(t, fresh).rules.len() implies fresh <= (
            #[trigger] rn_spec(t, fresh).rules[i]).0 as nat && ((rn_spec(t, fresh).rules[i]).0
                as nat) < rn_spec(t, fresh).next by {
                assert(rn_spec(t, fresh).rules[i] == o.rules[i]);
            }
            assert forall|i: int, j: int| 0 <= i < j < rn_spec(t, fresh).rules.len() implies (
            rn_spec(t, fresh).rules[i]).0 != (rn_spec(t, fresh).rules[j]).0 by {
                assert(rn_spec(t, fresh).rules[i] == o.rules[i]);
                assert(rn_spec(t, fresh).rules[j] == o.rules[j]);
            }
        },
        IdTree::Group(b) => lemma_rn_rules_fresh(*b, fresh),
        IdTree::Symbol(l, _, r) => {
            lemma_rn_next(*l, fresh);
            lemma_rn_rules_fresh(*l, fresh);
            let ol = rn_spec(*l, fresh);
            lemma_rn_next(*r, ol.next);
            lemma_rn_rules_fresh(*r, ol.next);
            let orr = rn_spec(*r, ol.next);
            assert forall|i: int| 0 <= i < (ol.rules + orr.rules).len() implies fresh <= (
            #[trigger] (ol.rules + orr.rules)[i]).0 as nat && (((ol.rules + orr.rules)[i]).0
                as nat) < orr.next by {
                if i < ol.rules.len() {
                    assert((ol.rules + orr.rules)[i] == ol.rules[i]);
                } else {
                    assert((ol.rules + orr.rules)[i] == orr.rules[i - ol.rules.len()]);
                }
            }
            assert forall|i: int, j: int| 0 <= i < j < (ol.rules + orr.rules).len() implies (((
            ol.rules + orr.rules)[i]).0) != (((ol.rules + orr.rules)[j]).0) by {
                if j < ol.rules.len() {
                    assert((ol.rules + orr.rules)[i] == ol.rules[i]);
                    assert((ol.rules + orr.rules)[j] == ol.rules[j]);
                } else if i >= ol.rules.len() {
                    assert((ol.rules + orr.rules)[i] == orr.rules[i - ol.rules.len()]);
                    assert((ol.rules + orr.rules)[j] == orr.rules[j - ol.rules.len()]);
                } else {
                    assert((ol.rules + orr.rules)[i] == ol.rules[i]);
                    assert((ol.rules + orr.rules)[j] == orr.rules[j - ol.rules.len()]);
                }
            }
        },
        IdTree::RegexExt(b, k) => match k {
            RegexExtKind::Optional => lemma_rn_rules_fresh(*b, fresh),
            RegexExtKind::Repeat0 => {
                lemma_rn_next(*b, fresh + 1);
                lemma_rn_rules_fresh(*b, fresh + 1);
                let o = rn_spec(*b, fresh + 1);
                let own = seq![(fresh as u32, star_body(o.node, fresh as u32))];
                assert forall|i: int| 0 <= i < (o.rules + own).len() implies fresh <= (
                #[trigger] (o.rules + own)[i]).0 as nat && (((o.rules + own)[i]).0 as nat)
                    < o.next by {
                    if i < o.rules.len() {
                        assert((o.rules + own)[i] == o.rules[i]);
                    } else {
                        assert((o.rules + own)[i] == own[0]);
                    }
                }
                assert forall|i: int, j: int| 0 <= i < j < (o.rules + own).len() implies (((
                o.rules + own)[i]).0) != (((o.rules + own)[j]).0) by {
                    if j < o.rules.len() {
                        assert((o.rules + own)[i] == o.rules[i]);
                        assert((o.rules + own)[j] == o.rules[j]);
                    } else {
                        assert((o.rules + own)[i] == o.rules[i]);
                        assert((o.rules + own)[j] == own[0]);
                    }
                }
            },
            RegexExtKind::Repeat1 => {
                lemma_rn_next(*b, fresh + 2);
                lemma_rn_rules_fresh(*b, fresh + 2);
                let o = rn_spec(*b, fresh + 2);
                let own = seq![
                    (
                        fresh as u32,
                        NnTree::Concatenations(
                            seq![o.node, NnTree::Nonterminal((fresh + 1) as u32)],
                        ),
                    ),
                    (
                        (fresh + 1) as u32,
                        star_body(NnTree::Nonterminal(fresh as u32), (fresh + 1) as u32),
                    ),
                ];
                assert forall|i: int| 0 <= i < (o.rules + own).len() implies fresh <= (
                #[trigger] (o.rules + own)[i]).0 as nat && (((o.rules + own)[i]).0 as nat)
                    < o.next by {
                    if i < o.rules.len() {
                        assert((o.rules + own)[i] == o.rules[i]);
                    } else {
                        assert((o.rules + own)[i] == own[i - o.rules.len()]);
                    }
                }
                assert forall|i: int, j: int| 0 <= i < j < (o.rules + own).len() implies (((
                o.rules + own)[i]).0) != (((o.rules + own)[j]).0) by {
                    if j < o.rules.len() {
                        assert((o.rules + own)[i] == o.rules[i]);
                        assert((o.rules + own)[j] == o.rules[j]);
                    } else if i >= o.rules.len() {
                        assert((o.rules + own)[i] == own[i - o.rules.len()]);
                        assert((o.rules + own)[j] == own[j - o.rules.len()]);
                    } else {
                        assert((o.rules + own)[i] == o.rules[i]);
                        assert((o.rules + own)[j] == own[j - o.rules.len()]);
                    }
                }
            },
        },
        _ => {},
    }
}

/// The sequence form of `lemma_rn_rules_fresh`.
pub proof fn lemma_rn_seq_rules_fresh(s: Seq<IdTree>, fresh: nat)
    requires
        fresh + repeat_count_seq(s) <= u32::MAX,
    ensures
        forall|i: int| 0 <= i < rn_seq(s, fresh).rules.len() ==> fresh <= (#[trigger] rn_seq(
            s,
            fresh,
        ).rules[i]).0 as nat && ((rn_seq(s, fresh).rules[i]).0 as nat) < rn_seq(s, fresh).next,
        forall|i: int, j: int| 0 <= i < j < rn_seq(s, fresh).rules.len() ==> (rn_seq(
            s,
            fresh,
        ).rules[i]).0 != (rn_seq(s, fresh).rules[j]).0,
    decreases s,
{
    if s.len() > 0 {
        lemma_rn_next(s[0], fresh);
        lemma_rn_rules_fresh(s[0], fresh);
        let o = rn_spec(s[0], fresh);
        lemma_rn_seq_next(s.drop_first(), o.next);
        lemma_rn_seq_rules_fresh(s.drop_first(), o.next);
        let rest = rn_seq(s.drop_first(), o.next);
        assert forall|i: int| 0 <= i < (o.rules + rest.rules).len() implies fresh <= (
        #[trigger] (o.rules + rest.rules)[i]).0 as nat && (((o.rules + rest.rules)[i]).0 as nat)
            < rest.next by {
            if i < o.rules.len() {
                assert((o.rules + rest.rules)[i] == o.rules[i]);
            } else {
                assert((o.rules + rest.rules)[i] == rest.rules[i - o.rules.len()]);
            }
        }
        assert forall|i: int, j: int| 0 <= i < j < (o.rules + rest.rules).len() implies (((
        o.rules + rest.rules)[i]).0) != (((o.rules + rest.rules)[j]).0) by {
            if j < o.rules.len() {
                assert((o.rules + rest.rules)[i] == o.rules[i]);
                assert((o.rules + rest.rules)[j] == o.rules[j]);
            } else if i >= o.rules.len() {
                assert((o.rules + rest.rules)[i] == rest.rules[i - o.rules.len()]);
                assert((o.rules + rest.rules)[j] == rest.rules[j - o.rules.len()]);
            } else {
                assert((o.rules + rest.rules)[i] == o.rules[i]);
                assert((o.rules + rest.rules)[j] == rest.rules[j - o.rules.len()]);
            }
        }
    }
}

/// The models of emitted rules: each synthetic symbol with its body's model.
pub open spec fn rules_view(s: Seq<(u32, NoNestingNode)>) -> Seq<(u32, NnTree)> {
    s.map(|i: int, p: (u32, NoNestingNode)| (p.0, nn_view(p.1)))
}

/// Splices a lowered child into a concatenation child list.
#[verifier::loop_isolation(false)]
fn push_spliced_cat(parts: &mut Vec<NoNestingNode>, child: NoNestingNode)
    ensures
        nn_view_seq(final(parts)@) == nn_view_seq(old(parts)@) + splice_cat(nn_view(child)),
{
    let ghost cv = nn_view(child);
    match child {
        NoNestingNode::Concatenations(mut xs) => {
            proof {
                lemma_nn_view_seq_append(old(parts)@, xs@);
                assert(splice_cat(cv) == nn_view_seq(xs@));
            }
            parts.append(&mut xs);
        },
        other => {
            proof {
                lemma_nn_view_seq_append(old(parts)@, seq![other]);
                assert(seq![other].drop_first() =~= Seq::<NoNestingNode>::empty());
                assert(nn_view_seq(Seq::<NoNestingNode>::empty()) =~= Seq::<NnTree>::empty());
                assert(seq![other][0] == other);
                assert(nn_view_seq(seq![other]) =~= seq![nn_view(other)]);
                assert(splice_cat(cv) == seq![nn_view(other)]);
            }
            parts.push(other);
            proof {
                assert(old(parts)@ + seq![other] =~= parts@);
            }
        },
    }
}

/// Splices a lowered child into an alternation child list.
#[verifier::loop_isolation(false)]
fn push_spliced_alt(parts: &mut Vec<NoNestingNode>, child: NoNestingNode)
    ensures
        nn_view_seq(final(parts)@) == nn_view_seq(old(parts)@) + splice_alt(nn_view(child)),
{
    let ghost cv = nn_view(child);
    match child {
        NoNestingNode::Alternations(mut xs) => {
            proof {
                lemma_nn_view_seq_append(old(parts)@, xs@);
                assert(splice_alt(cv) == nn_view_seq(xs@));
            }
            parts.append(&mut xs);
        },
        other => {
            proof {
                lemma_nn_view_seq_append(old(parts)@, seq![other]);
                assert(seq![other].drop_first() =~= Seq::<NoNestingNode>::empty());
                assert(nn_view_seq(Seq::<NoNestingNode>::empty()) =~= Seq::<NnTree>::empty());
                assert(seq![other][0] == other);
                assert(nn_view_seq(seq![other]) =~= seq![nn_view(other)]);
                assert(splice_alt(cv) == seq![nn_view(other)]);
            }
            parts.push(other);
            proof {
                assert(old(parts)@ + seq![other] =~= parts@);
            }
        },
    }
}

/// Removes nesting from one resolved stage-2 tree. `fresh` is the first
/// symbol free for synthetic rules; the emitted rules are appended to
/// `rules` in order, and the returned symbol is the next free one.
#[verifier::loop_isolation(false)]
pub fn remove_nesting(n: &NodeWithID, fresh: u32, rules: &mut Vec<(u32, NoNestingNode)>) -> (r: (
    NoNestingNode,
    u32,
))
    requires
        resolved(id_view(*n)),
        fresh as nat + repeat_count(id_view(*n)) <= u32::MAX,
    ensures
        nn_view(r.0) == rn_spec(id_view(*n), fresh as nat).node,
        r.1 as nat == rn_spec(id_view(*n), fresh as nat).next,
        rules_view(final(rules)@) == rules_view(old(rules)@) + rn_spec(
            id_view(*n),
            fresh as nat,
        ).rules,
    decreases *n,
{
    proof {
        lemma_rn_next(id_view(*n), fresh as nat);
    }
    match n {
        NodeWithID::Terminal(s) => {
            proof {
                assert(rules_view(rules@) =~= rules_view(rules@) + Seq::empty());
            }
            (NoNestingNode::Terminal(*s), fresh)
        },
        NodeWithID::RegexString(s) => {
            proof {
                assert(rules_view(rules@) =~= rules_view(rules@) + Seq::empty());
            }
            (NoNestingNode::RegexString(*s), fresh)
        },
        NodeWithID::Nonterminal(s) => {
            proof {
                assert(rules_view(rules@) =~= rules_view(rules@) + Seq::empty());
            }
            (NoNestingNode::Nonterminal(*s), fresh)
        },
        NodeWithID::EXCEPT(e, b) => {
            proof {
                assert(rules_view(rules@) =~= rules_view(rules@) + Seq::empty());
            }
            (NoNestingNode::EXCEPT(*e, *b), fresh)
        },
        NodeWithID::Unknown => {
            proof {
                assert(false);
            }
            (NoNestingNode::Unknown, fresh)
        },
        NodeWithID::Group(b) => remove_nesting(&**b, fresh, rules),
        NodeWithID::RegexExt(b, k) => {
            let ghost bv = id_view(**b);
            match *k {
                RegexExtKind::Optional => {
                    let (inner, nf) = remove_nesting(&**b, fresh, rules);
                    let mut parts: Vec<NoNestingNode> = Vec::new();
                    parts.push(inner);
                    parts.push(NoNestingNode::Concatenations(Vec::new()));
                    proof {
                        lemma_nn_view_seq(parts@);
                        assert(nn_view_seq(parts@) =~= seq![
                            rn_spec(bv, fresh as nat).node,
                            NnTree::Concatenations(Seq::empty()),
                        ]);
                    }
                    (NoNestingNode::Alternations(parts), nf)
                },
                RegexExtKind::Repeat0 => {
                    let sym = fresh;
                    let (inner, nf) = remove_nesting(&**b, fresh + 1, rules);
                    let ghost o = rn_spec(bv, fresh as nat + 1);
                    let ghost mid = rules@;
                    let mut seqv: Vec<NoNestingNode> = Vec::new();
                    seqv.push(inner);
                    seqv.push(NoNestingNode::Nonterminal(sym));
                    let mut alts: Vec<NoNestingNode> = Vec::new();
                    alts.push(NoNestingNode::Concatenations(seqv));
                    alts.push(NoNestingNode::Concatenations(Vec::new()));
                    let body = NoNestingNode::Alternations(alts);
                    proof {
                        lemma_nn_view_seq(seqv@);
                        assert(nn_view_seq(seqv@) =~= seq![o.node, NnTree::Nonterminal(sym)]);
                        lemma_nn_view_seq(alts@);
                        assert(nn_view_seq(alts@) =~= seq![
                            NnTree::Concatenations(seq![o.node, NnTree::Nonterminal(sym)]),
                            NnTree::Concatenations(Seq::empty()),
                        ]);
                        assert(nn_view(body) == star_body(o.node, sym));
                    }
                    rules.push((sym, body));
                    proof {
                        assert(rules_view(rules@) =~= rules_view(mid) + seq![
                            (sym, star_body(o.node, sym)),
                        ]);
                        assert(rules_view(old(rules)@) + (o.rules + seq![
                            (sym, star_body(o.node, sym)),
                        ]) =~= (rules_view(old(rules)@) + o.rules) + seq![
                            (sym, star_body(o.node, sym)),
                        ]);
                    }
                    (NoNestingNode::Nonterminal(sym), nf)
                },
                RegexExtKind::Repeat1 => {
                    let sym = fresh;
                    let sym2 = fresh + 1;
                    let (inner, nf) = remove_nesting(&**b, fresh + 2, rules);
                    let ghost o = rn_spec(bv, fresh as nat + 2);
                    let ghost mid = rules@;
                    let mut seqv: Vec<NoNestingNode> = Vec::new();
                    seqv.push(inner);
                    seqv.push(NoNestingNode::Nonterminal(sym2));
                    let head = NoNestingNode::Concatenations(seqv);
                    let mut alts: Vec<NoNestingNode> = Vec::new();
                    let mut star_seq: Vec<NoNestingNode> = Vec::new();
                    star_seq.push(NoNestingNode::Nonterminal(sym));
                    star_seq.push(NoNestingNode::Nonterminal(sym2));
                    alts.push(NoNestingNode::Concatenations(star_seq));
                    alts.push(NoNestingNode::Concatenations(Vec::new()));
                    let tail = NoNestingNode::Alternations(alts);
                    proof {
                        lemma_nn_view_seq(seqv@);
                        assert(nn_view_seq(seqv@) =~= seq![o.node, NnTree::Nonterminal(sym2)]);
                        lemma_nn_view_seq(star_seq@);
                        assert(nn_view_seq(star_seq@) =~= seq![
                            NnTree::Nonterminal(sym),
                            NnTree::Nonterminal(sym2),
                        ]);
                        lemma_nn_view_seq(alts@);
                        assert(nn_view_seq(alts@) =~= seq![
                            NnTree::Concatenations(
                                seq![NnTree::Nonterminal(sym), NnTree::Nonterminal(sym2)],
                            ),
                            NnTree::Concatenations(Seq::empty()),
                        ]);
                        assert(nn_view(tail) == star_body(NnTree::Nonterminal(sym), sym2));
                    }
                    rules.push((sym, head));
                    rules.push((sym2, tail));
                    proof {
                        let emitted = seq![
                            (sym, NnTree::Concatenations(seq![o.node, NnTree::Nonterminal(sym2)])),
                            (sym2, star_body(NnTree::Nonterminal(sym), sym2)),
                        ];
                        assert(rules_view(rules@) =~= rules_view(mid) + emitted);
                        assert(rules_view(old(rules)@) + (o.rules + emitted) =~= (rules_view(
                            old(rules)@,
                        ) + o.rules) + emitted);
                    }
                    (NoNestingNode::Nonterminal(sym), nf)
                },
            }
        },
        NodeWithID::Symbol(l, k, rr) => {
            let ghost lv = id_view(**l);
            let ghost rv = id_view(**rr);
            proof {
                lemma_rn_next(lv, fresh as nat);
            }
            let (ln, f1) = remove_nesting(&**l, fresh, rules);
            let (rn2, f2) = remove_nesting(&**rr, f1, rules);
            let ghost ol = rn_spec(lv, fresh as nat);
            let ghost orr = rn_spec(rv, ol.next);
            proof {
                assert((rules_view(old(rules)@) + ol.rules) + orr.rules =~= rules_view(
                    old(rules)@,
                ) + (ol.rules + orr.rules));
            }
            let mut parts: Vec<NoNestingNode> = Vec::new();
            match *k {
                SymbolKind::Concatenation => {
                    push_spliced_cat(&mut parts, ln);
                    push_spliced_cat(&mut parts, rn2);
                    proof {
                        assert(nn_view_seq(parts@) =~= splice_cat(ol.node) + splice_cat(orr.node));
                    }
                    (NoNestingNode::Concatenations(parts), f2)
                },
                SymbolKind::Alternation => {
                    push_spliced_alt(&mut parts, ln);
                    push_spliced_alt(&mut parts, rn2);
                    proof {
                        assert(nn_view_seq(parts@) =~= splice_alt(ol.node) + splice_alt(orr.node));
                    }
                    (NoNestingNode::Alternations(parts), f2)
                },
            }
        },
        NodeWithID::Multiple(v) => {
            let ghost cs = id_view_seq(v@);
            let ghost full = rn_seq(cs, fresh as nat);
            proof {
                lemma_id_view_seq(v@);
                lemma_resolved_seq(cs);
                assert(cs.skip(0) =~= cs);
                assert(nn_view_seq(Seq::empty()) =~= Seq::empty());
                assert(Seq::empty() + splice_cat_all(full.nodes) =~= splice_cat_all(full.nodes));
                assert(rules_view(rules@) + full.rules =~= rules_view(rules@) + full.rules);
            }
            let mut out: Vec<NoNestingNode> = Vec::new();
            let mut cur: u32 = fresh;
            let mut i: usize = 0;
            while i < v.len()
                invariant
                    i <= v@.len(),
                    cur as nat + repeat_count_seq(cs.skip(i as int)) <= u32::MAX,
                    splice_cat_all(full.nodes) == nn_view_seq(out@) + splice_cat_all(
                        rn_seq(cs.skip(i as int), cur as nat).nodes,
                    ),
                    rules_view(old(rules)@) + full.rules == rules_view(rules@) + rn_seq(
                        cs.skip(i as int),
                        cur as nat,
                    ).rules,
                    full.next == rn_seq(cs.skip(i as int), cur as nat).next,
                decreases v.len() - i,
            {
                proof {
                    assert(decreases_to!(*n => (*n)->Multiple_0));
                    assert(decreases_to!((*n)->Multiple_0 => (*n)->Multiple_0[i as int]));
                    assert((*n)->Multiple_0 == *v);
                    assert(decreases_to!(*n => v@[i as int]));
                    assert(cs.skip(i as int)[0] == cs[i as int]);
                    assert(cs.skip(i as int).drop_first() =~= cs.skip(i + 1));
                    lemma_rn_next(cs[i as int], cur as nat);
                }
                let ghost o = rn_spec(cs[i as int], cur as nat);
                let ghost rest_next = rn_seq(cs.skip(i + 1), o.next);
                let ghost before = rules@;
                let (child, nf) = remove_nesting(&v[i], cur, rules);
                proof {
                    let ss = seq![o.node] + rest_next.nodes;
                    assert(ss[0] == o.node);
                    assert(ss.drop_first() =~= rest_next.nodes);
                    assert(splice_cat_all(ss) == splice_cat(o.node) + splice_cat_all(
                        rest_next.nodes,
                    ));
                    assert((nn_view_seq(out@) + splice_cat(o.node)) + splice_cat_all(
                        rest_next.nodes,
                    ) =~= nn_view_seq(out@) + (splice_cat(o.node) + splice_cat_all(
                        rest_next.nodes,
                    )));
                    assert((rules_view(before) + o.rules) + rest_next.rules =~= rules_view(
                        before,
                    ) + (o.rules + rest_next.rules));
                }
                push_spliced_cat(&mut out, child);
                cur = nf;
                i = i + 1;
            }
            proof {
                assert(cs.skip(v@.len() as int) =~= Seq::empty());
                assert(nn_view_seq(out@) + Seq::empty() =~= nn_view_seq(out@));
                assert(rules_view(rules@) + Seq::empty() =~= rules_view(rules@));
            }
            (NoNestingNode::Concatenations(out), cur)
        },
    }
}

} // verus!
