//! The proof data model: terms, formulas, sequents, proof nodes and proofs.
//!
//! All values are plain immutable trees. Every type has a deep view into
//! mathematical sequences, which the contracts of the rest of the crate are
//! stated over. Structural spec predicates on proofs (node lookup, cut
//! shape, id uniqueness) live here as well.

use vstd::prelude::*;

verus! {

broadcast use vstd::std_specs::vec::group_vec_axioms;

/// A first-order term: either a structured node or a bare textual shorthand
/// for a variable.
#[derive(Debug, PartialEq, Eq)]
pub enum Term {
    Node(TermNode),
    Text(String),
}

/// The structured form of a term: a variable or a function application.
#[derive(Debug, PartialEq, Eq)]
pub enum TermNode {
    Var(String),
    Func { name: String, args: Vec<Term> },
}

/// A first-order formula: either a structured node or a bare textual
/// shorthand for a propositional variable.
#[derive(Debug, PartialEq, Eq)]
pub enum Formula {
    Node(FormulaNode),
    Text(String),
}

/// The structured form of a formula.
#[derive(Debug, PartialEq, Eq)]
pub enum FormulaNode {
    Var(String),
    Bot,
    Top,
    Pred { name: String, args: Vec<Term> },
    And(Box<Formula>, Box<Formula>),
    Or(Box<Formula>, Box<Formula>),
    Imp(Box<Formula>, Box<Formula>),
    Forall(String, Box<Formula>),
    Exists(String, Box<Formula>),
}

/// A sequent: an ordered context of antecedent formulas and one goal formula.
#[derive(Debug, PartialEq, Eq)]
pub struct Sequent {
    pub ctx: Vec<Formula>,
    pub thm: Formula,
}

/// One identified derivation step: an id, a rule name, the ids of the
/// premises it rests on, and the sequent it derives.
#[derive(Debug, PartialEq, Eq)]
pub struct ProofNode {
    pub id: String,
    pub rule: String,
    pub premises: Vec<String>,
    pub sequent: Sequent,
}

/// A proof: an id-indexed collection of nodes and a distinguished root id.
#[derive(Debug, PartialEq, Eq)]
pub struct Proof {
    pub nodes: Vec<ProofNode>,
    pub root: String,
}

/// Deep view of a [`Term`].
pub enum TermV {
    Node(TermNodeV),
    Text(Seq<char>),
}

/// Deep view of a [`TermNode`].
pub enum TermNodeV {
    Var(Seq<char>),
    Func { name: Seq<char>, args: Seq<TermV> },
}

/// Deep view of a [`Formula`].
pub enum FormulaV {
    Node(Box<FormulaNodeV>),
    Text(Seq<char>),
}

/// Deep view of a [`FormulaNode`].
pub enum FormulaNodeV {
    Var(Seq<char>),
    Bot,
    Top,
    Pred { name: Seq<char>, args: Seq<TermV> },
    And(FormulaV, FormulaV),
    Or(FormulaV, FormulaV),
    Imp(FormulaV, FormulaV),
    Forall(Seq<char>, FormulaV),
    Exists(Seq<char>, FormulaV),
}

/// Deep view of a [`Sequent`].
pub struct SequentV {
    pub ctx: Seq<FormulaV>,
    pub thm: FormulaV,
}

/// Deep view of a [`ProofNode`].
pub struct ProofNodeV {
    pub id: Seq<char>,
    pub rule: Seq<char>,
    pub premises: Seq<Seq<char>>,
    pub sequent: SequentV,
}

/// Deep view of a [`Proof`].
pub struct ProofV {
    pub nodes: Seq<ProofNodeV>,
    pub root: Seq<char>,
}

/// Deep view of a term, as a mathematical value.
pub open spec fn term_dv(t: Term) -> TermV
    decreases t,
{
    match t {
        Term::Node(tn) => TermV::Node(tnode_dv(tn)),
        Term::Text(s) => TermV::Text(s@),
    }
}

/// Deep view of a structured term node.
pub open spec fn tnode_dv(tn: TermNode) -> TermNodeV
    decreases tn,
{
    match tn {
        TermNode::Var(s) => TermNodeV::Var(s@),
        TermNode::Func { name, args } => {
            proof {
                assert(decreases_to!(tn => args));
                assert(decreases_to!(args => args@));
            }
            TermNodeV::Func { name: name@, args: terms_dv(args@) }
        },
    }
}

/// Deep view of a sequence of terms, element by element.
pub open spec fn terms_dv(s: Seq<Term>) -> Seq<TermV>
    decreases s,
{
    if s.len() == 0 {
        Seq::empty()
    } else {
        proof {
            assert(decreases_to!(s => s[0]));
            assert(decreases_to!(s => s.subrange(1, s.len() as int)));
        }
        seq![term_dv(s[0])] + terms_dv(s.subrange(1, s.len() as int))
    }
}

/// Deep view of a formula.
pub open spec fn formula_dv(f: Formula) -> FormulaV
    decreases f,
{
    match f {
        Formula::Node(fnode) => FormulaV::Node(Box::new(fnode_dv(fnode))),
        Formula::Text(s) => FormulaV::Text(s@),
    }
}

/// Deep view of a structured formula node.
pub open spec fn fnode_dv(fnode: FormulaNode) -> FormulaNodeV
    decreases fnode,
{
    match fnode {
        FormulaNode::Var(s) => FormulaNodeV::Var(s@),
        FormulaNode::Bot => FormulaNodeV::Bot,
        FormulaNode::Top => FormulaNodeV::Top,
        FormulaNode::Pred { name, args } => FormulaNodeV::Pred {
            name: name@,
            args: terms_dv(args@),
        },
        FormulaNode::And(a, b) => FormulaNodeV::And(formula_dv(*a), formula_dv(*b)),
        FormulaNode::Or(a, b) => FormulaNodeV::Or(formula_dv(*a), formula_dv(*b)),
        FormulaNode::Imp(a, b) => FormulaNodeV::Imp(formula_dv(*a), formula_dv(*b)),
        FormulaNode::Forall(x, f) => FormulaNodeV::Forall(x@, formula_dv(*f)),
        FormulaNode::Exists(x, f) => FormulaNodeV::Exists(x@, formula_dv(*f)),
    }
}

impl DeepView for Term {
    type V = TermV;

    open spec fn deep_view(&self) -> TermV {
        term_dv(*self)
    }
}

impl DeepView for TermNode {
    type V = TermNodeV;

    open spec fn deep_view(&self) -> TermNodeV {
        tnode_dv(*self)
    }
}

impl DeepView for Formula {
    type V = FormulaV;

    open spec fn deep_view(&self) -> FormulaV {
        formula_dv(*self)
    }
}

impl DeepView for FormulaNode {
    type V = FormulaNodeV;

    open spec fn deep_view(&self) -> FormulaNodeV {
        fnode_dv(*self)
    }
}

impl DeepView for Sequent {
    type V = SequentV;

    open spec fn deep_view(&self) -> SequentV {
        SequentV {
            ctx: Seq::new(self.ctx.len() as nat, |i: int| formula_dv(self.ctx[i])),
            thm: formula_dv(self.thm),
        }
    }
}

impl DeepView for ProofNode {
    type V = ProofNodeV;

    open spec fn deep_view(&self) -> ProofNodeV {
        ProofNodeV {
            id: self.id@,
            rule: self.rule@,
            premises: self.premises.deep_view(),
            sequent: self.sequent.deep_view(),
        }
    }
}

impl DeepView for Proof {
    type V = ProofV;

    open spec fn deep_view(&self) -> ProofV {
        ProofV { nodes: self.nodes.deep_view(), root: self.root@ }
    }
}

/// The elements of `terms_dv(s)` are the deep views of the elements of `s`.
pub proof fn lemma_terms_dv_index(s: Seq<Term>)
    ensures
        terms_dv(s).len() == s.len(),
        forall|i: int| 0 <= i < s.len() ==> terms_dv(s)[i] == term_dv(s[i]),
    decreases s.len(),
{
    if s.len() > 0 {
        lemma_terms_dv_index(s.subrange(1, s.len() as int));
    }
}

/// Whether a node applies the structural cut rule.
pub open spec fn is_cut(n: ProofNodeV) -> bool {
    n.rule == "Cut"@
}

/// Whether a node is a cut in the shape the eliminator rewrites: rule `Cut`
/// with exactly two premises.
pub open spec fn is_binary_cut(n: ProofNodeV) -> bool {
    is_cut(n) && n.premises.len() == 2
}

/// The first node carrying `id`, scanning in list order.
pub open spec fn node_with_id(nodes: Seq<ProofNodeV>, id: Seq<char>) -> Option<ProofNodeV>
    decreases nodes.len(),
{
    if nodes.len() == 0 {
        None
    } else if nodes[0].id == id {
        Some(nodes[0])
    } else {
        node_with_id(nodes.subrange(1, nodes.len() as int), id)
    }
}

/// Whether some node carries `id`.
pub open spec fn id_resolves(nodes: Seq<ProofNodeV>, id: Seq<char>) -> bool {
    node_with_id(nodes, id) is Some
}

/// Whether some node carries `id`, as a direct existence statement.
pub open spec fn resolves(nodes: Seq<ProofNodeV>, id: Seq<char>) -> bool {
    exists|i: int| 0 <= i < nodes.len() && (#[trigger] nodes[i]).id == id
}

/// No two distinct nodes carry the same id.
pub open spec fn unique_ids(nodes: Seq<ProofNodeV>) -> bool {
    forall|i: int, j: int|
        0 <= i < j < nodes.len() ==> nodes[i].id != nodes[j].id
}

/// Every cut node has exactly two premises.
pub open spec fn cuts_binary(nodes: Seq<ProofNodeV>) -> bool {
    forall|i: int| 0 <= i < nodes.len() && is_cut(#[trigger] nodes[i]) ==> nodes[i].premises.len() == 2
}

/// No node cites a cut node as a premise; cuts occur only as the root or as
/// nodes nothing else depends on.
pub open spec fn no_cut_premises(nodes: Seq<ProofNodeV>) -> bool {
    forall|i: int, j: int, k: int|
        0 <= i < nodes.len() && is_cut(#[trigger] nodes[i]) && 0 <= j < nodes.len() && 0 <= k
            < nodes[j].premises.len() ==> #[trigger] nodes[j].premises[k] != nodes[i].id
}

/// Whether some node is a cut with exactly two premises.
pub open spec fn has_binary_cut(nodes: Seq<ProofNodeV>) -> bool {
    exists|i: int| 0 <= i < nodes.len() && is_binary_cut(#[trigger] nodes[i])
}

/// `node_with_id` finds a node exactly when one with that id is in the list.
pub proof fn lemma_node_with_id(nodes: Seq<ProofNodeV>, id: Seq<char>)
    ensures
        id_resolves(nodes, id) <==> exists|i: int|
            0 <= i < nodes.len() && (#[trigger] nodes[i]).id == id,
        match node_with_id(nodes, id) {
            Some(n) => exists|i: int|
                0 <= i < nodes.len() && #[trigger] nodes[i] == n && n.id == id,
            None => true,
        },
    decreases nodes.len(),
{
    if nodes.len() > 0 && nodes[0].id != id {
        lemma_node_with_id(nodes.subrange(1, nodes.len() as int), id);
        let rest = nodes.subrange(1, nodes.len() as int);
        if exists|i: int| 0 <= i < nodes.len() && (#[trigger] nodes[i]).id == id {
            let i = choose|i: int| 0 <= i < nodes.len() && (#[trigger] nodes[i]).id == id;
            assert(rest[i - 1] == nodes[i]);
        }
        if id_resolves(nodes, id) {
            let n = node_with_id(nodes, id)->Some_0;
            let i = choose|i: int| 0 <= i < rest.len() && #[trigger] rest[i] == n && n.id == id;
            assert(nodes[i + 1] == n);
        }
    }
}

/// `node_with_id` answers with the node at the first matching index.
pub proof fn lemma_node_with_id_at(nodes: Seq<ProofNodeV>, id: Seq<char>, i: int)
    requires
        0 <= i < nodes.len(),
        nodes[i].id == id,
        forall|j: int| 0 <= j < i ==> (#[trigger] nodes[j]).id != id,
    ensures
        node_with_id(nodes, id) == Some(nodes[i]),
    decreases i,
{
    if i > 0 {
        let rest = nodes.subrange(1, nodes.len() as int);
        assert(rest[i - 1] == nodes[i]);
        assert forall|j: int| 0 <= j < i - 1 implies (#[trigger] rest[j]).id != id by {
            assert(rest[j] == nodes[j + 1]);
        }
        lemma_node_with_id_at(rest, id, i - 1);
    }
}

/// `node_with_id` finds nothing when no node matches.
pub proof fn lemma_node_with_id_none(nodes: Seq<ProofNodeV>, id: Seq<char>)
    requires
        forall|j: int| 0 <= j < nodes.len() ==> (#[trigger] nodes[j]).id != id,
    ensures
        node_with_id(nodes, id) is None,
    decreases nodes.len(),
{
    if nodes.len() > 0 {
        let rest = nodes.subrange(1, nodes.len() as int);
        assert forall|j: int| 0 <= j < rest.len() implies (#[trigger] rest[j]).id != id by {
            assert(rest[j] == nodes[j + 1]);
        }
        lemma_node_with_id_none(rest, id);
    }
}

/// With pairwise-distinct ids, `node_with_id` answers with the one node
/// that carries the id.
pub proof fn lemma_node_with_id_unique(nodes: Seq<ProofNodeV>, i: int)
    requires
        unique_ids(nodes),
        0 <= i < nodes.len(),
    ensures
        node_with_id(nodes, nodes[i].id) == Some(nodes[i]),
{
    lemma_node_with_id_at(nodes, nodes[i].id, i);
}

/// Copy a term, preserving its deep view.
pub fn clone_term(t: &Term) -> (r: Term)
    ensures
        term_dv(r) == term_dv(*t),
    decreases t,
{
    match t {
        Term::Node(tn) => Term::Node(clone_tnode(tn)),
        Term::Text(s) => Term::Text(s.clone()),
    }
}

/// Copy a structured term node, preserving its deep view.
#[verifier::loop_isolation(false)]
pub fn clone_tnode(tn: &TermNode) -> (r: TermNode)
    ensures
        tnode_dv(r) == tnode_dv(*tn),
    decreases tn,
{
    match tn {
        TermNode::Var(s) => TermNode::Var(s.clone()),
        TermNode::Func { name, args } => {
            let mut out: Vec<Term> = Vec::new();
            let mut i: usize = 0;
            while i < args.len()
                invariant
                    i <= args.len(),
                    out.len() == i,
                    forall|j: int| 0 <= j < i ==> term_dv(out[j]) == term_dv(args[j]),
                decreases args.len() - i,
            {
                proof {
                    assert(decreases_to!(tn => args));
                    assert(decreases_to!(args => args@));
                    assert(decreases_to!(args@ => args@[i as int]));
                }
                let c = clone_term(&args[i]);
                out.push(c);
                i += 1;
            }
            proof {
                lemma_terms_dv_index(out@);
                lemma_terms_dv_index(args@);
                assert(terms_dv(out@) =~= terms_dv(args@));
            }
            TermNode::Func { name: name.clone(), args: out }
        },
    }
}

/// Copy a formula, preserving its deep view.
pub fn clone_formula(f: &Formula) -> (r: Formula)
    ensures
        formula_dv(r) == formula_dv(*f),
    decreases f,
{
    match f {
        Formula::Node(fnode) => Formula::Node(clone_fnode(fnode)),
        Formula::Text(s) => Formula::Text(s.clone()),
    }
}

/// Copy a structured formula node, preserving its deep view.
pub fn clone_fnode(fnode: &FormulaNode) -> (r: FormulaNode)
    ensures
        fnode_dv(r) == fnode_dv(*fnode),
    decreases fnode,
{
    match fnode {
        FormulaNode::Var(s) => FormulaNode::Var(s.clone()),
        FormulaNode::Bot => FormulaNode::Bot,
        FormulaNode::Top => FormulaNode::Top,
        FormulaNode::Pred { name, args } => {
            let mut out: Vec<Term> = Vec::new();
            let mut i: usize = 0;
            while i < args.len()
                invariant
                    i <= args.len(),
                    out.len() == i,
                    forall|j: int| 0 <= j < i ==> term_dv(out[j]) == term_dv(args[j]),
                decreases args.len() - i,
            {
                let c = clone_term(&args[i]);
                out.push(c);
                i += 1;
            }
            proof {
                lemma_terms_dv_index(out@);
                lemma_terms_dv_index(args@);
                assert(terms_dv(out@) =~= terms_dv(args@));
            }
            FormulaNode::Pred { name: name.clone(), args: out }
        },
        FormulaNode::And(a, b) => FormulaNode::And(
            Box::new(clone_formula(a)),
            Box::new(clone_formula(b)),
        ),
        FormulaNode::Or(a, b) => FormulaNode::Or(
            Box::new(clone_formula(a)),
            Box::new(clone_formula(b)),
        ),
        FormulaNode::Imp(a, b) => FormulaNode::Imp(
            Box::new(clone_formula(a)),
            Box::new(clone_formula(b)),
        ),
        FormulaNode::Forall(x, f) => FormulaNode::Forall(x.clone(), Box::new(clone_formula(f))),
        FormulaNode::Exists(x, f) => FormulaNode::Exists(x.clone(), Box::new(clone_formula(f))),
    }
}

/// Copy a sequent, preserving its deep view.
pub fn clone_sequent(s: &Sequent) -> (r: Sequent)
    ensures
        r.deep_view() == s.deep_view(),
{
    let mut ctx: Vec<Formula> = Vec::new();
    let mut i: usize = 0;
    while i < s.ctx.len()
        invariant
            i <= s.ctx.len(),
            ctx.len() == i,
            forall|j: int| 0 <= j < i ==> formula_dv(ctx[j]) == formula_dv(s.ctx[j]),
        decreases s.ctx.len() - i,
    {
        let c = clone_formula(&s.ctx[i]);
        ctx.push(c);
        i += 1;
    }
    let r = Sequent { ctx, thm: clone_formula(&s.thm) };
    proof {
        assert(r.deep_view().ctx =~= s.deep_view().ctx);
    }
    r
}

/// Copy a list of ids, preserving its deep view.
pub fn clone_strings(v: &Vec<String>) -> (r: Vec<String>)
    ensures
        r.deep_view() == v.deep_view(),
{
    let mut out: Vec<String> = Vec::new();
    let mut i: usize = 0;
    while i < v.len()
        invariant
            i <= v.len(),
            out.len() == i,
            forall|j: int| 0 <= j < i ==> out[j]@ == v[j]@,
        decreases v.len() - i,
    {
        out.push(v[i].clone());
        i += 1;
    }
    proof {
        assert(out.deep_view() =~= v.deep_view());
    }
    out
}

/// Copy a proof node, preserving its deep view.
pub fn clone_node(n: &ProofNode) -> (r: ProofNode)
    ensures
        r.deep_view() == n.deep_view(),
{
    ProofNode {
        id: n.id.clone(),
        rule: n.rule.clone(),
        premises: clone_strings(&n.premises),
        sequent: clone_sequent(&n.sequent),
    }
}

/// Copy a whole proof, preserving its deep view.
pub fn clone_proof(p: &Proof) -> (r: Proof)
    ensures
        r.deep_view() == p.deep_view(),
{
    let mut nodes: Vec<ProofNode> = Vec::new();
    let mut i: usize = 0;
    while i < p.nodes.len()
        invariant
            i <= p.nodes.len(),
            nodes.len() == i,
            forall|j: int| 0 <= j < i ==> nodes[j].deep_view() == p.nodes[j].deep_view(),
        decreases p.nodes.len() - i,
    {
        let c = clone_node(&p.nodes[i]);
        nodes.push(c);
        i += 1;
    }
    let r = Proof { nodes, root: p.root.clone() };
    proof {
        assert(r.deep_view().nodes =~= p.deep_view().nodes);
    }
    r
}

} // verus!
