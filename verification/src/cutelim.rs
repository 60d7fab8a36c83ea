//! Cut elimination over the proof graph.
//!
//! The eliminator repeatedly picks the first node whose rule is `Cut` and
//! which has exactly two premises, removes it (redirecting the root to the
//! cut's first premise when the cut is the root), and prunes every node no
//! longer reachable from the root along premise edges. A cut tagged with
//! fewer premises does not match the rewrite's precondition and is left
//! alone, keeping the eliminator total.

use vstd::prelude::*;

use vstd::set_lib::lemma_len_subset;

use crate::ast::Proof;
use crate::ast::ProofNode;
use crate::ast::ProofNodeV;
use crate::ast::ProofV;
use crate::ast::clone_node;
use crate::ast::clone_proof;
use crate::ast::cuts_binary;
use crate::ast::has_binary_cut;
use crate::ast::is_binary_cut;
use crate::ast::is_cut;
use crate::ast::lemma_node_with_id_at;
use crate::ast::lemma_node_with_id_none;
use crate::ast::no_cut_premises;
use crate::ast::node_with_id;
use crate::ast::resolves;
use crate::ast::unique_ids;
use crate::frag::cut_count;
use crate::frag::frag_nodes;
use crate::frag::lemma_cut_count_filter_le;
use crate::frag::lemma_cut_count_filter_lt;
use crate::frag::lemma_cut_count_zero;
use crate::seqs::lemma_filter_push;
use crate::text::str_eq;
use crate::validator::prem_dangling;
use crate::validator::rule_of;
use crate::validator::wf;

verus! {

/// A premise edge: `b` is a premise of the first node that carries `a`.
pub open spec fn edge(nodes: Seq<ProofNodeV>, a: Seq<char>, b: Seq<char>) -> bool {
    match node_with_id(nodes, a) {
        Some(n) => n.premises.contains(b),
        None => false,
    }
}

/// A walk along premise edges: non-empty, with consecutive ids joined by
/// [`edge`].
pub open spec fn is_path(nodes: Seq<ProofNodeV>, path: Seq<Seq<char>>) -> bool
    decreases path.len(),
{
    path.len() >= 1 && (path.len() == 1 || (edge(nodes, path[0], path[1]) && is_path(
        nodes,
        path.subrange(1, path.len() as int),
    )))
}

/// Whether `id` can be reached from `root` along premise edges.
pub open spec fn reachable(nodes: Seq<ProofNodeV>, root: Seq<char>, id: Seq<char>) -> bool {
    exists|path: Seq<Seq<char>>|
        is_path(nodes, path) && path.first() == root && path.last() == id
}

/// The predicate pruning keeps: the node's id is reachable from the root.
pub open spec fn keep_node(nodes: Seq<ProofNodeV>, root: Seq<char>) -> spec_fn(ProofNodeV) -> bool {
    |n: ProofNodeV| reachable(nodes, root, n.id)
}

/// What pruning leaves: exactly the nodes whose id is reachable from the
/// root, in their original order.
pub open spec fn prune_spec(nodes: Seq<ProofNodeV>, root: Seq<char>) -> Seq<ProofNodeV> {
    nodes.filter(keep_node(nodes, root))
}

/// The root reaches itself.
pub proof fn lemma_reach_root(nodes: Seq<ProofNodeV>, root: Seq<char>)
    ensures
        reachable(nodes, root, root),
{
    let path = seq![root];
    assert(is_path(nodes, path) && path.first() == root && path.last() == root);
}

proof fn lemma_path_push(nodes: Seq<ProofNodeV>, path: Seq<Seq<char>>, b: Seq<char>)
    requires
        is_path(nodes, path),
        edge(nodes, path.last(), b),
    ensures
        is_path(nodes, path.push(b)),
    decreases path.len(),
{
    let ext = path.push(b);
    assert(ext[0] == path[0]);
    if path.len() == 1 {
        assert(ext.subrange(1, ext.len() as int) =~= seq![b]);
        assert(is_path(nodes, seq![b]));
        assert(edge(nodes, ext[0], ext[1]));
        assert(is_path(nodes, ext));
    } else {
        let rest = path.subrange(1, path.len() as int);
        lemma_path_push(nodes, rest, b);
        assert(ext.subrange(1, ext.len() as int) =~= rest.push(b));
        assert(edge(nodes, ext[0], ext[1]));
        assert(is_path(nodes, ext));
    }
}

/// Reachability is closed under premise edges.
pub proof fn lemma_reach_step(
    nodes: Seq<ProofNodeV>,
    root: Seq<char>,
    a: Seq<char>,
    b: Seq<char>,
)
    requires
        reachable(nodes, root, a),
        edge(nodes, a, b),
    ensures
        reachable(nodes, root, b),
{
    let path = choose|path: Seq<Seq<char>>|
        is_path(nodes, path) && path.first() == root && path.last() == a;
    lemma_path_push(nodes, path, b);
    let ext = path.push(b);
    assert(is_path(nodes, ext) && ext.first() == root && ext.last() == b);
}

proof fn lemma_path_in_closed(nodes: Seq<ProofNodeV>, ids: Seq<Seq<char>>, path: Seq<Seq<char>>)
    requires
        is_path(nodes, path),
        ids.contains(path.first()),
        forall|a: Seq<char>, b: Seq<char>|
            ids.contains(a) && edge(nodes, a, b) ==> ids.contains(b),
    ensures
        ids.contains(path.last()),
    decreases path.len(),
{
    if path.len() > 1 {
        let rest = path.subrange(1, path.len() as int);
        assert(ids.contains(path[1]));
        lemma_path_in_closed(nodes, ids, rest);
    }
}

/// The premise ids of every node, gathered in order.
pub open spec fn prem_ids(nodes: Seq<ProofNodeV>) -> Seq<Seq<char>>
    decreases nodes.len(),
{
    if nodes.len() == 0 {
        Seq::empty()
    } else {
        nodes[0].premises + prem_ids(nodes.subrange(1, nodes.len() as int))
    }
}

proof fn lemma_prem_ids_contain(nodes: Seq<ProofNodeV>, i: int, k: int)
    requires
        0 <= i < nodes.len(),
        0 <= k < nodes[i].premises.len(),
    ensures
        prem_ids(nodes).contains(nodes[i].premises[k]),
    decreases i,
{
    if i == 0 {
        assert(prem_ids(nodes)[k] == nodes[0].premises[k]);
    } else {
        let rest = nodes.subrange(1, nodes.len() as int);
        assert(rest[i - 1] == nodes[i]);
        lemma_prem_ids_contain(rest, i - 1, k);
        let j = choose|j: int|
            0 <= j < prem_ids(rest).len() && prem_ids(rest)[j] == rest[i - 1].premises[k];
        assert(prem_ids(nodes)[nodes[0].premises.len() + j] == prem_ids(rest)[j]);
    }
}

/// Whether some node of `nodes` carries the id `x`, by linear scan.
fn contains_id(v: &Vec<String>, x: &String) -> (b: bool)
    ensures
        b == v.deep_view().contains(x@),
{
    let mut i: usize = 0;
    while i < v.len()
        invariant
            i <= v.len(),
            forall|j: int| 0 <= j < i ==> v.deep_view()[j] != x@,
        decreases v.len() - i,
    {
        if v[i] == *x {
            proof {
                assert(v.deep_view()[i as int] == x@);
            }
            return true;
        }
        i = i + 1;
    }
    false
}

/// The first node carrying `id`, in list order.
fn find_node<'a>(nodes: &'a Vec<ProofNode>, id: &String) -> (r: Option<&'a ProofNode>)
    ensures
        match r {
            Some(n) => node_with_id(nodes.deep_view(), id@) == Some(n.deep_view()),
            None => node_with_id(nodes.deep_view(), id@) is None,
        },
{
    let mut i: usize = 0;
    while i < nodes.len()
        invariant
            i <= nodes.len(),
            forall|j: int| 0 <= j < i ==> (#[trigger] nodes.deep_view()[j]).id != id@,
        decreases nodes.len() - i,
    {
        if nodes[i].id == *id {
            proof {
                lemma_node_with_id_at(nodes.deep_view(), id@, i as int);
            }
            return Some(&nodes[i]);
        }
        i = i + 1;
    }
    proof {
        lemma_node_with_id_none(nodes.deep_view(), id@);
    }
    None
}

/// Keep exactly the nodes reachable from `root`, in their original order.
///
/// Works a depth-first search over premise edges from the root, then keeps
/// the nodes whose id the search visited. An id the search meets that no
/// node carries is simply not expanded.
fn prune_reachable(nodes: &Vec<ProofNode>, root: &String) -> (r: Vec<ProofNode>)
    ensures
        r.deep_view() == prune_spec(nodes.deep_view(), root@),
{
    broadcast use vstd::seq_lib::seq_to_set_is_finite;
    broadcast use vstd::set::group_set_axioms;

    let ghost nv = nodes.deep_view();
    let ghost rv = root@;
    let ghost univ = prem_ids(nv).to_set().insert(rv);
    let mut keep: Vec<String> = Vec::new();
    let mut stack: Vec<String> = Vec::new();
    stack.push(root.clone());
    proof {
        lemma_reach_root(nv, rv);
        assert(stack.deep_view() =~= seq![rv]);
        assert(stack.deep_view()[0] == rv);
        assert(stack.deep_view().contains(rv));
    }
    while stack.len() > 0
        invariant
            nv == nodes.deep_view(),
            rv == root@,
            univ == prem_ids(nv).to_set().insert(rv),
            univ.finite(),
            keep.deep_view().no_duplicates(),
            keep.deep_view().len() <= univ.len(),
            forall|j: int|
                0 <= j < keep.deep_view().len() ==> univ.contains(#[trigger] keep.deep_view()[j]),
            forall|j: int|
                0 <= j < stack.deep_view().len() ==> univ.contains(#[trigger] stack.deep_view()[j]),
            forall|j: int|
                0 <= j < keep.deep_view().len() ==> reachable(
                    nv,
                    rv,
                    #[trigger] keep.deep_view()[j],
                ),
            forall|j: int|
                0 <= j < stack.deep_view().len() ==> reachable(
                    nv,
                    rv,
                    #[trigger] stack.deep_view()[j],
                ),
            keep.deep_view().contains(rv) || stack.deep_view().contains(rv),
            forall|j: int|
                0 <= j < keep.deep_view().len() ==> match node_with_id(
                    nv,
                    #[trigger] keep.deep_view()[j],
                ) {
                    Some(n) => forall|q: int|
                        0 <= q < n.premises.len() ==> keep.deep_view().contains(
                            #[trigger] n.premises[q],
                        ) || stack.deep_view().contains(n.premises[q]),
                    None => true,
                },
        decreases univ.len() - keep.deep_view().len(), stack.deep_view().len(),
    {
        let ghost kv0 = keep.deep_view();
        let ghost sv0 = stack.deep_view();
        let id = stack.pop().unwrap();
        let ghost sv1 = stack.deep_view();
        proof {
            assert(id@ == sv0.last());
            assert(sv1 =~= sv0.drop_last());
            assert forall|x: Seq<char>| sv0.contains(x) implies sv1.contains(x) || x == id@ by {
                let j = choose|j: int| 0 <= j < sv0.len() && sv0[j] == x;
                if j < sv0.len() - 1 {
                    assert(sv1[j] == x);
                }
            }
            assert(reachable(nv, rv, id@)) by {
                assert(sv0[sv0.len() - 1] == id@);
            }
            assert(univ.contains(id@)) by {
                assert(sv0[sv0.len() - 1] == id@);
            }
        }
        if !contains_id(&keep, &id) {
            keep.push(id.clone());
            let ghost kv1 = keep.deep_view();
            proof {
                assert(kv1 =~= kv0.push(id@));
                crate::seqs::lemma_push_contains(kv0, id@);
                assert(!kv0.contains(id@));
                assert(kv1.no_duplicates()) by {
                    assert forall|a: int, b: int| 0 <= a < b < kv1.len() implies kv1[a]
                        != kv1[b] by {
                        if b == kv1.len() - 1 {
                            assert(kv1[a] == kv0[a]);
                            assert(kv0.contains(kv0[a]));
                        }
                    }
                }
                assert(kv1.to_set().subset_of(univ)) by {
                    assert forall|x: Seq<char>| kv1.to_set().contains(x) implies univ.contains(
                        x,
                    ) by {
                        let j = choose|j: int| 0 <= j < kv1.len() && kv1[j] == x;
                        if j < kv1.len() - 1 {
                            assert(kv0[j] == x);
                        }
                    }
                }
                kv1.unique_seq_to_set();
                lemma_len_subset(kv1.to_set(), univ);
                // the old closure facts, carried to the grown keep and the
                // popped stack
                assert forall|j: int|
                    0 <= j < kv1.len() - 1 implies match node_with_id(nv, #[trigger] kv1[j]) {
                    Some(n) => forall|q: int|
                        0 <= q < n.premises.len() ==> kv1.contains(#[trigger] n.premises[q])
                            || sv1.contains(n.premises[q]),
                    None => true,
                } by {
                    assert(kv1[j] == kv0[j]);
                    match node_with_id(nv, kv0[j]) {
                        Some(n) => {
                            assert forall|q: int| 0 <= q < n.premises.len() implies kv1.contains(
                                #[trigger] n.premises[q],
                            ) || sv1.contains(n.premises[q]) by {
                                if kv0.contains(n.premises[q]) {
                                } else {
                                    assert(sv0.contains(n.premises[q]));
                                }
                            }
                        },
                        None => {},
                    }
                }
            }
            match find_node(nodes, &id) {
                Some(n) => {
                    let ghost nnv = n.deep_view();
                    let m = n.premises.len();
                    let mut k: usize = 0;
                    while k < m
                        invariant
                            nv == nodes.deep_view(),
                            rv == root@,
                            univ == prem_ids(nv).to_set().insert(rv),
                            univ.finite(),
                            m == n.premises.len(),
                            k <= m,
                            nnv == n.deep_view(),
                            node_with_id(nv, id@) == Some(nnv),
                            reachable(nv, rv, id@),
                            keep.deep_view() == kv1,
                            kv1 == kv0.push(id@),
                            kv1.no_duplicates(),
                            kv1.len() <= univ.len(),
                            forall|j: int| 0 <= j < kv1.len() ==> univ.contains(
                                #[trigger] kv1[j],
                            ),
                            forall|j: int|
                                0 <= j < stack.deep_view().len() ==> univ.contains(
                                    #[trigger] stack.deep_view()[j],
                                ),
                            forall|j: int| 0 <= j < kv1.len() ==> reachable(
                                nv,
                                rv,
                                #[trigger] kv1[j],
                            ),
                            forall|j: int|
                                0 <= j < stack.deep_view().len() ==> reachable(
                                    nv,
                                    rv,
                                    #[trigger] stack.deep_view()[j],
                                ),
                            kv1.contains(rv) || stack.deep_view().contains(rv),
                            forall|j: int|
                                0 <= j < kv1.len() - 1 ==> match node_with_id(
                                    nv,
                                    #[trigger] kv1[j],
                                ) {
                                    Some(nj) => forall|q: int|
                                        0 <= q < nj.premises.len() ==> kv1.contains(
                                            #[trigger] nj.premises[q],
                                        ) || stack.deep_view().contains(nj.premises[q]),
                                    None => true,
                                },
                            forall|q: int|
                                0 <= q < k ==> kv1.contains(#[trigger] nnv.premises[q])
                                    || stack.deep_view().contains(nnv.premises[q]),
                        decreases m - k,
                    {
                        let ghost pre_stack = stack.deep_view();
                        stack.push(n.premises[k].clone());
                        proof {
                            let ghost b = nnv.premises[k as int];
                            assert(stack.deep_view() =~= pre_stack.push(b));
                            crate::seqs::lemma_push_contains(pre_stack, b);
                            crate::ast::lemma_node_with_id(nv, id@);
                            let ix = choose|ix: int|
                                0 <= ix < nv.len() && #[trigger] nv[ix] == nnv && nnv.id == id@;
                            lemma_prem_ids_contain(nv, ix, k as int);
                            assert(prem_ids(nv).to_set().contains(b));
                            assert(univ.contains(b));
                            assert(edge(nv, id@, b)) by {
                                assert(nnv.premises.contains(b));
                            }
                            lemma_reach_step(nv, rv, id@, b);
                        }
                        k = k + 1;
                    }
                    proof {
                        assert forall|j: int|
                            0 <= j < keep.deep_view().len() implies match node_with_id(
                            nv,
                            #[trigger] keep.deep_view()[j],
                        ) {
                            Some(nj) => forall|q: int|
                                0 <= q < nj.premises.len() ==> keep.deep_view().contains(
                                    #[trigger] nj.premises[q],
                                ) || stack.deep_view().contains(nj.premises[q]),
                            None => true,
                        } by {
                            if j == kv1.len() - 1 {
                                assert(kv1[j] == id@);
                                assert(node_with_id(nv, kv1[j]) == Some(nnv));
                            }
                        }
                    }
                },
                None => {},
            }
        } else {
            proof {
                assert(kv0.contains(id@));
                assert forall|j: int|
                    0 <= j < kv0.len() implies match node_with_id(nv, #[trigger] kv0[j]) {
                    Some(n) => forall|q: int|
                        0 <= q < n.premises.len() ==> kv0.contains(#[trigger] n.premises[q])
                            || sv1.contains(n.premises[q]),
                    None => true,
                } by {
                    match node_with_id(nv, kv0[j]) {
                        Some(n) => {
                            assert forall|q: int| 0 <= q < n.premises.len() implies kv0.contains(
                                #[trigger] n.premises[q],
                            ) || sv1.contains(n.premises[q]) by {
                                if !kv0.contains(n.premises[q]) {
                                    assert(sv0.contains(n.premises[q]));
                                }
                            }
                        },
                        None => {},
                    }
                }
            }
        }
    }
    let ghost kv = keep.deep_view();
    proof {
        assert forall|a: Seq<char>, b: Seq<char>| kv.contains(a) && edge(nv, a, b) implies
            kv.contains(b) by {
            let j = choose|j: int| 0 <= j < kv.len() && kv[j] == a;
            assert(match node_with_id(nv, kv[j]) {
                Some(nj) => forall|q: int|
                    0 <= q < nj.premises.len() ==> kv.contains(#[trigger] nj.premises[q]),
                None => true,
            });
            let nj = node_with_id(nv, a)->Some_0;
            let q = choose|q: int| 0 <= q < nj.premises.len() && nj.premises[q] == b;
        }
        assert forall|x: Seq<char>| reachable(nv, rv, x) implies kv.contains(x) by {
            let path = choose|path: Seq<Seq<char>>|
                is_path(nv, path) && path.first() == rv && path.last() == x;
            lemma_path_in_closed(nv, kv, path);
        }
    }
    let mut out: Vec<ProofNode> = Vec::new();
    let mut i: usize = 0;
    proof {
        assert(nv.take(0) =~= Seq::<ProofNodeV>::empty());
        reveal(Seq::filter);
    }
    while i < nodes.len()
        invariant
            nv == nodes.deep_view(),
            rv == root@,
            kv == keep.deep_view(),
            i <= nodes.len(),
            forall|j: int| 0 <= j < kv.len() ==> reachable(nv, rv, #[trigger] kv[j]),
            forall|x: Seq<char>| reachable(nv, rv, x) ==> kv.contains(x),
            out.deep_view() == nv.take(i as int).filter(keep_node(nv, rv)),
        decreases nodes.len() - i,
    {
        proof {
            assert(nv.take(i as int + 1) =~= nv.take(i as int).push(nv[i as int]));
            lemma_filter_push(nv.take(i as int), nv[i as int], keep_node(nv, rv));
        }
        if contains_id(&keep, &nodes[i].id) {
            let c = clone_node(&nodes[i]);
            let ghost pre_out = out.deep_view();
            proof {
                let j = choose|j: int| 0 <= j < kv.len() && kv[j] == nv[i as int].id;
                assert(reachable(nv, rv, nv[i as int].id));
            }
            out.push(c);
            proof {
                assert(out.deep_view() =~= pre_out.push(nv[i as int]));
            }
        } else {
            proof {
                assert(!reachable(nv, rv, nv[i as int].id));
            }
        }
        i = i + 1;
    }
    proof {
        assert(nv.take(nodes@.len() as int) =~= nv);
    }
    out
}

/// The predicate that keeps every node but those with the given id.
pub open spec fn drops_id(id: Seq<char>) -> spec_fn(ProofNodeV) -> bool {
    |n: ProofNodeV| n.id != id
}

/// `nodes` without every node that carries `id`.
pub open spec fn remove_id(nodes: Seq<ProofNodeV>, id: Seq<char>) -> Seq<ProofNodeV> {
    nodes.filter(drops_id(id))
}

/// The first index whose node is a cut with exactly two premises, or the
/// length when there is none.
pub open spec fn first_binary_cut(nodes: Seq<ProofNodeV>) -> int
    decreases nodes.len(),
{
    if nodes.len() == 0 {
        0
    } else if is_binary_cut(nodes[0]) {
        0
    } else {
        1 + first_binary_cut(nodes.subrange(1, nodes.len() as int))
    }
}

proof fn lemma_first_binary_cut_at(nodes: Seq<ProofNodeV>, i: int)
    requires
        0 <= i < nodes.len(),
        is_binary_cut(nodes[i]),
        forall|j: int| 0 <= j < i ==> !is_binary_cut(#[trigger] nodes[j]),
    ensures
        first_binary_cut(nodes) == i,
    decreases i,
{
    if i > 0 {
        let rest = nodes.subrange(1, nodes.len() as int);
        assert(rest[i - 1] == nodes[i]);
        assert forall|j: int| 0 <= j < i - 1 implies !is_binary_cut(#[trigger] rest[j]) by {
            assert(rest[j] == nodes[j + 1]);
        }
        lemma_first_binary_cut_at(rest, i - 1);
    }
}

proof fn lemma_first_binary_cut_props(nodes: Seq<ProofNodeV>)
    requires
        has_binary_cut(nodes),
    ensures
        0 <= first_binary_cut(nodes) < nodes.len(),
        is_binary_cut(nodes[first_binary_cut(nodes)]),
        forall|j: int| 0 <= j < first_binary_cut(nodes) ==> !is_binary_cut(#[trigger] nodes[j]),
    decreases nodes.len(),
{
    if !is_binary_cut(nodes[0]) {
        let rest = nodes.subrange(1, nodes.len() as int);
        assert(has_binary_cut(rest)) by {
            let i = choose|i: int| 0 <= i < nodes.len() && is_binary_cut(#[trigger] nodes[i]);
            assert(rest[i - 1] == nodes[i]);
        }
        lemma_first_binary_cut_props(rest);
        let f = first_binary_cut(nodes);
        assert(nodes[f] == rest[f - 1]);
        assert forall|j: int| 0 <= j < f implies !is_binary_cut(#[trigger] nodes[j]) by {
            if j > 0 {
                assert(nodes[j] == rest[j - 1]);
            }
        }
    }
}

/// One elimination step: the first two-premise cut node leaves the proof.
/// If it was the root, the root moves to the cut's first premise; then
/// everything unreachable from the root is pruned.
pub open spec fn step_spec(p: ProofV) -> ProofV {
    let i = first_binary_cut(p.nodes);
    let c = p.nodes[i];
    let root2 = if c.id == p.root {
        c.premises[0]
    } else {
        p.root
    };
    ProofV { root: root2, nodes: prune_spec(remove_id(p.nodes, c.id), root2) }
}

/// Each elimination step drops at least the cut node itself.
pub proof fn lemma_step_shrinks(p: ProofV)
    requires
        has_binary_cut(p.nodes),
    ensures
        step_spec(p).nodes.len() < p.nodes.len(),
{
    lemma_first_binary_cut_props(p.nodes);
    let i = first_binary_cut(p.nodes);
    let c = p.nodes[i];
    crate::seqs::lemma_filter_len_lt(p.nodes, drops_id(c.id), i);
    crate::seqs::lemma_filter_len(
        remove_id(p.nodes, c.id),
        keep_node(remove_id(p.nodes, c.id), step_spec(p).root),
    );
}

/// The whole-proof elimination, as a mathematical function: elimination
/// steps are applied until no two-premise cut remains.
pub open spec fn elim_spec(p: ProofV) -> ProofV
    decreases p.nodes.len(),
    via elim_spec_decreases
{
    if has_binary_cut(p.nodes) {
        elim_spec(step_spec(p))
    } else {
        p
    }
}

#[via_fn]
proof fn elim_spec_decreases(p: ProofV) {
    if has_binary_cut(p.nodes) {
        lemma_step_shrinks(p);
    }
}

/// Whether the node is a cut with exactly two premises.
fn node_is_binary_cut(n: &ProofNode) -> (b: bool)
    ensures
        b == is_binary_cut(n.deep_view()),
{
    str_eq(&n.rule, "Cut") && n.premises.len() == 2
}

/// Remove one two-premise cut node, the first in list order, redirecting
/// the root to the cut's first premise when the cut is the root, and prune
/// what the removal disconnected. Answers whether anything was removed.
fn eliminate_one_cut(p: &mut Proof) -> (changed: bool)
    ensures
        changed == has_binary_cut(old(p).deep_view().nodes),
        changed ==> final(p).deep_view() == step_spec(old(p).deep_view()),
        !changed ==> final(p).deep_view() == old(p).deep_view(),
{
    let ghost pv = old(p).deep_view();
    let n = p.nodes.len();
    let mut i: usize = 0;
    while i < n
        invariant
            *p == *old(p),
            pv == old(p).deep_view(),
            n == p.nodes.len(),
            i <= n,
            forall|j: int| 0 <= j < i ==> !is_binary_cut(#[trigger] pv.nodes[j]),
        decreases n - i,
    {
        if node_is_binary_cut(&p.nodes[i]) {
            proof {
                assert(pv.nodes[i as int] == p.nodes[i as int].deep_view());
                lemma_first_binary_cut_at(pv.nodes, i as int);
                assert(has_binary_cut(pv.nodes));
            }
            let ghost c = pv.nodes[i as int];
            let cut_id: String = p.nodes[i].id.clone();
            if p.nodes[i].id == p.root {
                let new_root = p.nodes[i].premises[0].clone();
                p.root = new_root;
            }
            proof {
                assert(p.root@ == step_spec(pv).root);
            }
            let mut kept: Vec<ProofNode> = Vec::new();
            let mut j: usize = 0;
            proof {
                assert(pv.nodes.take(0) =~= Seq::<ProofNodeV>::empty());
                reveal(Seq::filter);
            }
            while j < n
                invariant
                    n == p.nodes.len(),
                    j <= n,
                    p.nodes.deep_view() == pv.nodes,
                    cut_id@ == c.id,
                    kept.deep_view() == pv.nodes.take(j as int).filter(drops_id(c.id)),
                decreases n - j,
            {
                proof {
                    assert(pv.nodes.take(j as int + 1) =~= pv.nodes.take(j as int).push(
                        pv.nodes[j as int],
                    ));
                    lemma_filter_push(pv.nodes.take(j as int), pv.nodes[j as int], drops_id(c.id));
                }
                if !(p.nodes[j].id == cut_id) {
                    let cn = clone_node(&p.nodes[j]);
                    let ghost pre = kept.deep_view();
                    kept.push(cn);
                    proof {
                        assert(kept.deep_view() =~= pre.push(pv.nodes[j as int]));
                    }
                }
                j = j + 1;
            }
            proof {
                assert(pv.nodes.take(n as int) =~= pv.nodes);
                assert(kept.deep_view() == remove_id(pv.nodes, c.id));
            }
            let pruned = prune_reachable(&kept, &p.root);
            p.nodes = pruned;
            proof {
                assert(final(p).deep_view().nodes == step_spec(pv).nodes);
                assert(final(p).deep_view() == step_spec(pv));
            }
            return true;
        }
        i = i + 1;
    }
    proof {
        assert(!has_binary_cut(pv.nodes));
        assert(final(p).deep_view() == pv);
    }
    false
}

/// Eliminate every two-premise cut: elimination steps run until none is
/// left. The result is exactly [`elim_spec`] of the input; the input is
/// not changed.
pub fn cut_eliminate_all(p: &Proof) -> (r: Proof)
    ensures
        r.deep_view() == elim_spec(p.deep_view()),
{
    let mut q = clone_proof(p);
    loop
        invariant_except_break
            elim_spec(q.deep_view()) == elim_spec(p.deep_view()),
        ensures
            q.deep_view() == elim_spec(p.deep_view()),
        decreases q.nodes.len(),
    {
        let ghost qv = q.deep_view();
        let changed = eliminate_one_cut(&mut q);
        if !changed {
            proof {
                assert(elim_spec(qv) == qv);
            }
            break;
        }
        proof {
            lemma_step_shrinks(qv);
            assert(elim_spec(qv) == elim_spec(step_spec(qv)));
        }
    }
    q
}

/// What [`cut_eliminate_root`] computes: when the root node is a cut with
/// exactly two premises, the root moves to that cut's first premise, the
/// cut's nodes leave, and the unreachable remainder is pruned; otherwise
/// the proof is unchanged.
pub open spec fn root_step_spec(p: ProofV) -> ProofV {
    match node_with_id(p.nodes, p.root) {
        Some(c) => if is_binary_cut(c) {
            ProofV {
                root: c.premises[0],
                nodes: prune_spec(remove_id(p.nodes, c.id), c.premises[0]),
            }
        } else {
            p
        },
        None => p,
    }
}

/// Eliminate the root when it is a cut with exactly two premises: the root
/// becomes the cut's first premise and the unreachable nodes are dropped.
/// Any other proof comes back unchanged.
pub fn cut_eliminate_root(p: &Proof) -> (r: Proof)
    ensures
        r.deep_view() == root_step_spec(p.deep_view()),
{
    let ghost pv = p.deep_view();
    let mut plan: Option<(String, String)> = None;
    match find_node(&p.nodes, &p.root) {
        Some(rn) => {
            if node_is_binary_cut(rn) {
                plan = Some((rn.id.clone(), rn.premises[0].clone()));
            }
        },
        None => {},
    }
    match plan {
        Some((cut_id, new_root)) => {
            let ghost c = node_with_id(pv.nodes, pv.root)->Some_0;
            let n = p.nodes.len();
            let mut kept: Vec<ProofNode> = Vec::new();
            let mut j: usize = 0;
            proof {
                assert(pv.nodes.take(0) =~= Seq::<ProofNodeV>::empty());
                reveal(Seq::filter);
            }
            while j < n
                invariant
                    n == p.nodes.len(),
                    j <= n,
                    p.nodes.deep_view() == pv.nodes,
                    cut_id@ == c.id,
                    kept.deep_view() == pv.nodes.take(j as int).filter(drops_id(c.id)),
                decreases n - j,
            {
                proof {
                    assert(pv.nodes.take(j as int + 1) =~= pv.nodes.take(j as int).push(
                        pv.nodes[j as int],
                    ));
                    lemma_filter_push(pv.nodes.take(j as int), pv.nodes[j as int], drops_id(c.id));
                }
                if !(p.nodes[j].id == cut_id) {
                    let cn = clone_node(&p.nodes[j]);
                    let ghost pre = kept.deep_view();
                    kept.push(cn);
                    proof {
                        assert(kept.deep_view() =~= pre.push(pv.nodes[j as int]));
                    }
                }
                j = j + 1;
            }
            proof {
                assert(pv.nodes.take(n as int) =~= pv.nodes);
                assert(kept.deep_view() == remove_id(pv.nodes, c.id));
            }
            let pruned = prune_reachable(&kept, &new_root);
            let r = Proof { nodes: pruned, root: new_root };
            proof {
                assert(r.deep_view().nodes == root_step_spec(pv).nodes);
                assert(r.deep_view() == root_step_spec(pv));
            }
            r
        },
        None => clone_proof(p),
    }
}

proof fn lemma_filter_unique_ids(s: Seq<ProofNodeV>, p: spec_fn(ProofNodeV) -> bool)
    requires
        unique_ids(s),
    ensures
        unique_ids(s.filter(p)),
    decreases s.len(),
{
    reveal(Seq::filter);
    if s.len() > 0 {
        let dl = s.drop_last();
        assert(unique_ids(dl)) by {
            assert forall|a: int, b: int| 0 <= a < b < dl.len() implies dl[a].id != dl[b].id by {
                assert(dl[a] == s[a] && dl[b] == s[b]);
            }
        }
        lemma_filter_unique_ids(dl, p);
        if p(s.last()) {
            let fd = dl.filter(p);
            assert forall|a: int| 0 <= a < fd.len() implies fd[a].id != s.last().id by {
                crate::seqs::lemma_filter_elem(dl, p, a);
                let j = choose|j: int| 0 <= j < dl.len() && #[trigger] dl[j] == fd[a];
                assert(dl[j] == s[j]);
            }
            assert forall|a: int, b: int|
                0 <= a < b < s.filter(p).len() implies s.filter(p)[a].id != s.filter(
                p,
            )[b].id by {
                if b < s.filter(p).len() - 1 {
                    assert(s.filter(p)[a] == fd[a] && s.filter(p)[b] == fd[b]);
                } else {
                    assert(s.filter(p)[a] == fd[a] && s.filter(p)[b] == s.last());
                }
            }
        }
    }
}

proof fn lemma_step_elements(p: ProofV, a: int)
    requires
        has_binary_cut(p.nodes),
        0 <= a < step_spec(p).nodes.len(),
    ensures
        exists|j: int| 0 <= j < p.nodes.len() && #[trigger] p.nodes[j] == step_spec(p).nodes[a],
{
    let i = first_binary_cut(p.nodes);
    let c = p.nodes[i];
    let removed = remove_id(p.nodes, c.id);
    let root2 = step_spec(p).root;
    crate::seqs::lemma_filter_elem(removed, keep_node(removed, root2), a);
    let b = choose|b: int| 0 <= b < removed.len() && #[trigger] removed[b] == step_spec(p).nodes[a];
    crate::seqs::lemma_filter_elem(p.nodes, drops_id(c.id), b);
}

proof fn lemma_elim_no_binary_cut(p: ProofV)
    ensures
        !has_binary_cut(elim_spec(p).nodes),
    decreases p.nodes.len(),
{
    if has_binary_cut(p.nodes) {
        lemma_step_shrinks(p);
        lemma_elim_no_binary_cut(step_spec(p));
    }
}

/// Idempotence of cut elimination: for a well-formed proof, eliminating a
/// second time changes nothing — the root and the node list stay as they
/// were after the first elimination.
pub proof fn lemma_eliminate_idempotent(p: ProofV)
    requires
        wf(p),
    ensures
        elim_spec(elim_spec(p)) == elim_spec(p),
{
    lemma_elim_no_binary_cut(p);
}

proof fn lemma_elim_cut_free_inner(p: ProofV)
    requires
        cuts_binary(p.nodes),
    ensures
        forall|i: int|
            0 <= i < elim_spec(p).nodes.len() ==> !is_cut(#[trigger] elim_spec(p).nodes[i]),
    decreases p.nodes.len(),
{
    if has_binary_cut(p.nodes) {
        lemma_step_shrinks(p);
        assert(cuts_binary(step_spec(p).nodes)) by {
            assert forall|i: int|
                0 <= i < step_spec(p).nodes.len() && is_cut(
                    #[trigger] step_spec(p).nodes[i],
                ) implies step_spec(p).nodes[i].premises.len() == 2 by {
                lemma_step_elements(p, i);
                let j = choose|j: int|
                    0 <= j < p.nodes.len() && #[trigger] p.nodes[j] == step_spec(p).nodes[i];
            }
        }
        lemma_elim_cut_free_inner(step_spec(p));
        assert(elim_spec(p) == elim_spec(step_spec(p)));
    } else {
        assert forall|i: int| 0 <= i < p.nodes.len() implies !is_cut(#[trigger] p.nodes[i]) by {
            if is_cut(p.nodes[i]) {
                assert(is_binary_cut(p.nodes[i]));
                assert(has_binary_cut(p.nodes));
            }
        }
    }
}

/// Cut-freedom of elimination: a well-formed proof whose cuts all carry
/// exactly two premises comes out of elimination with no cut node at all.
pub proof fn lemma_eliminate_cut_free(p: ProofV)
    requires
        wf(p),
        cuts_binary(p.nodes),
    ensures
        forall|i: int|
            0 <= i < elim_spec(p).nodes.len() ==> !is_cut(#[trigger] elim_spec(p).nodes[i]),
        cut_count(elim_spec(p).nodes) == 0,
{
    lemma_elim_cut_free_inner(p);
    lemma_cut_count_zero(elim_spec(p).nodes);
}

proof fn lemma_elim_frag_inner(p: ProofV)
    ensures
        frag_nodes(elim_spec(p).nodes) <= frag_nodes(p.nodes),
        has_binary_cut(p.nodes) ==> frag_nodes(elim_spec(p).nodes) < frag_nodes(p.nodes),
        cut_count(elim_spec(p).nodes) <= cut_count(p.nodes),
        elim_spec(p).nodes.len() <= p.nodes.len(),
    decreases p.nodes.len(),
{
    if has_binary_cut(p.nodes) {
        lemma_first_binary_cut_props(p.nodes);
        let i = first_binary_cut(p.nodes);
        let c = p.nodes[i];
        let removed = remove_id(p.nodes, c.id);
        let root2 = step_spec(p).root;
        lemma_step_shrinks(p);
        crate::seqs::lemma_filter_len_lt(p.nodes, drops_id(c.id), i);
        lemma_cut_count_filter_lt(p.nodes, drops_id(c.id), i);
        lemma_cut_count_filter_le(removed, keep_node(removed, root2));
        crate::seqs::lemma_filter_len(removed, keep_node(removed, root2));
        lemma_elim_frag_inner(step_spec(p));
    }
}

/// Whether the root node exists and is a cut with exactly two premises.
pub open spec fn root_is_binary_cut(p: ProofV) -> bool {
    match node_with_id(p.nodes, p.root) {
        Some(n) => is_binary_cut(n),
        None => false,
    }
}

/// Monotone fragility: elimination never raises the fragility of a
/// well-formed proof, and lowers it strictly whenever the root is a cut
/// with exactly two premises.
pub proof fn lemma_eliminate_fragility(p: ProofV)
    requires
        wf(p),
    ensures
        frag_nodes(elim_spec(p).nodes) <= frag_nodes(p.nodes),
        elim_spec(p).nodes.len() <= p.nodes.len(),
        cut_count(elim_spec(p).nodes) <= cut_count(p.nodes),
        root_is_binary_cut(p) ==> frag_nodes(elim_spec(p).nodes) < frag_nodes(p.nodes),
{
    lemma_elim_frag_inner(p);
    if root_is_binary_cut(p) {
        crate::ast::lemma_node_with_id(p.nodes, p.root);
        let n = node_with_id(p.nodes, p.root)->Some_0;
        let i = choose|i: int| 0 <= i < p.nodes.len() && #[trigger] p.nodes[i] == n && n.id == p.root;
        assert(has_binary_cut(p.nodes));
    }
}

proof fn lemma_step_preserves(p: ProofV)
    requires
        wf(p),
        unique_ids(p.nodes),
        no_cut_premises(p.nodes),
        has_binary_cut(p.nodes),
    ensures
        wf(step_spec(p)),
        unique_ids(step_spec(p).nodes),
        no_cut_premises(step_spec(p).nodes),
{
    broadcast use Seq::lemma_filter_contains, Seq::lemma_filter_pred;

    lemma_first_binary_cut_props(p.nodes);
    let i = first_binary_cut(p.nodes);
    let c = p.nodes[i];
    let removed = remove_id(p.nodes, c.id);
    let root2 = step_spec(p).root;
    let pruned = prune_spec(removed, root2);
    assert(pruned == step_spec(p).nodes);

    lemma_filter_unique_ids(p.nodes, drops_id(c.id));
    lemma_filter_unique_ids(removed, keep_node(removed, root2));

    assert forall|a: int| #![trigger pruned[a]] 0 <= a < pruned.len() implies exists|b: int|
        0 <= b < removed.len() && #[trigger] removed[b] == pruned[a] by {
        crate::seqs::lemma_filter_elem(removed, keep_node(removed, root2), a);
    }
    assert forall|b: int| #![trigger removed[b]] 0 <= b < removed.len() implies exists|j: int|
        0 <= j < p.nodes.len() && #[trigger] p.nodes[j] == removed[b] by {
        crate::seqs::lemma_filter_elem(p.nodes, drops_id(c.id), b);
    }

    // every rule of the result is known
    assert forall|a: int| 0 <= a < pruned.len() implies rule_of(
        (#[trigger] pruned[a]).rule,
    ) is Some by {
        let b = choose|b: int| 0 <= b < removed.len() && #[trigger] removed[b] == pruned[a];
        let j = choose|j: int| 0 <= j < p.nodes.len() && #[trigger] p.nodes[j] == removed[b];
    }

    // no premise of the result names a cut of the result
    assert forall|x: int, y: int, k: int|
        0 <= x < pruned.len() && is_cut(#[trigger] pruned[x]) && 0 <= y < pruned.len() && 0 <= k
            < pruned[y].premises.len() implies #[trigger] pruned[y].premises[k]
        != pruned[x].id by {
        let bx = choose|b: int| 0 <= b < removed.len() && #[trigger] removed[b] == pruned[x];
        let jx = choose|j: int| 0 <= j < p.nodes.len() && #[trigger] p.nodes[j] == removed[bx];
        let by = choose|b: int| 0 <= b < removed.len() && #[trigger] removed[b] == pruned[y];
        let jy = choose|j: int| 0 <= j < p.nodes.len() && #[trigger] p.nodes[j] == removed[by];
        assert(is_cut(p.nodes[jx]));
        assert(p.nodes[jy].premises[k] == pruned[y].premises[k]);
    }

    // the new root survives: it is not the cut's id, and its node is kept
    assert(root2 != c.id && resolves(p.nodes, root2)) by {
        if c.id == p.root {
            assert(!prem_dangling(p.nodes, p.nodes[i]));
            assert(resolves(p.nodes, c.premises[0]));
            assert(c.premises[0] != c.id);
        } else {
            assert(resolves(p.nodes, p.root));
        }
    }
    let jw = choose|j: int| 0 <= j < p.nodes.len() && (#[trigger] p.nodes[j]).id == root2;
    assert(drops_id(c.id)(p.nodes[jw]));
    assert(removed.contains(p.nodes[jw]));
    let bw = choose|b: int| 0 <= b < removed.len() && removed[b] == p.nodes[jw];
    lemma_reach_root(removed, root2);
    assert(keep_node(removed, root2)(removed[bw]));
    assert(pruned.contains(removed[bw]));
    assert(resolves(pruned, root2)) by {
        let aw = choose|a: int| 0 <= a < pruned.len() && pruned[a] == p.nodes[jw];
    }

    // every premise of every kept node names a kept node
    assert forall|a: int| 0 <= a < pruned.len() implies !prem_dangling(
        pruned,
        #[trigger] pruned[a],
    ) by {
        let na = pruned[a];
        let ba = choose|b: int| 0 <= b < removed.len() && #[trigger] removed[b] == pruned[a];
        let ja = choose|j: int| 0 <= j < p.nodes.len() && #[trigger] p.nodes[j] == removed[ba];
        assert(keep_node(removed, root2)(na));
        assert(reachable(removed, root2, na.id));
        crate::ast::lemma_node_with_id_unique(removed, ba);
        assert forall|k: int| 0 <= k < na.premises.len() implies resolves(
            pruned,
            #[trigger] na.premises[k],
        ) by {
            let q = na.premises[k];
            assert(edge(removed, na.id, q)) by {
                assert(na.premises.contains(q));
            }
            lemma_reach_step(removed, root2, na.id, q);
            assert(!prem_dangling(p.nodes, p.nodes[ja]));
            assert(p.nodes[ja].premises[k] == q);
            assert(resolves(p.nodes, q));
            let jq = choose|j: int| 0 <= j < p.nodes.len() && (#[trigger] p.nodes[j]).id == q;
            assert(q != c.id) by {
                assert(is_cut(p.nodes[i]));
            }
            assert(drops_id(c.id)(p.nodes[jq]));
            assert(removed.contains(p.nodes[jq]));
            let bq = choose|b: int| 0 <= b < removed.len() && removed[b] == p.nodes[jq];
            assert(keep_node(removed, root2)(removed[bq]));
            assert(pruned.contains(removed[bq]));
            let aq = choose|a2: int| 0 <= a2 < pruned.len() && pruned[a2] == p.nodes[jq];
        }
    }
}

/// Preservation of well-formedness: elimination keeps a proof well-formed,
/// provided its node ids are pairwise distinct and no node cites a cut as
/// a premise. Id uniqueness and the no-cut-premise shape are preserved as
/// well.
pub proof fn lemma_eliminate_wf(p: ProofV)
    requires
        wf(p),
        unique_ids(p.nodes),
        no_cut_premises(p.nodes),
    ensures
        wf(elim_spec(p)),
        unique_ids(elim_spec(p).nodes),
        no_cut_premises(elim_spec(p).nodes),
    decreases p.nodes.len(),
{
    if has_binary_cut(p.nodes) {
        lemma_step_shrinks(p);
        lemma_step_preserves(p);
        lemma_eliminate_wf(step_spec(p));
    }
}

} // verus!
