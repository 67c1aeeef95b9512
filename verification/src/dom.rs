//! The document tree: text, element and comment nodes held in an arena,
//! with an ordered child list per node and a non-owning parent back-reference
//! (an index), used for upward traversal and for the cycle check in `append`.
//!
//! The tree invariant `wf` says that every stored index is in range, that a
//! child edge always agrees with the child's parent reference, and that every
//! chain of parent references dies out — the parent/child relation is a
//! rooted forest, so no node is its own descendant.

use vstd::prelude::*;
use vstd::set_lib::{lemma_int_range, lemma_len_subset, set_int_range};
use crate::text::{chars_eq_chars, clone_chars, lower_chars, push_str_chars, push_vec_chars, str_to_chars, trim_chars, lower_spec, trim_spec};

verus! {

/// Attribute list of an element; keys are unique once normalized.
pub type AttrMap = Vec<(Vec<char>, Vec<char>)>;

#[derive(Debug)]
pub struct ElementData {
    pub tag_name: Vec<char>,
    pub attrs: AttrMap,
}

#[derive(Debug)]
pub enum NodeType {
    Text(Vec<char>),
    Element(ElementData),
    Comment(Vec<char>),
}

/// One arena slot: the node's payload, its parent back-reference and its
/// ordered child list (all as arena indices).
#[derive(Debug)]
pub struct NodeData {
    pub node_type: NodeType,
    pub parent: Option<usize>,
    pub children: Vec<usize>,
}

/// The arena holding a document's nodes.
#[derive(Debug)]
pub struct Dom {
    pub nodes: Vec<NodeData>,
}

/// Rejected tree mutations: appending a node to itself, or appending one of
/// the parent's ancestors (which would close a cycle).
#[derive(Debug, Clone, Copy, PartialEq, Eq, Structural)]
pub enum TreeInvariantViolation {
    SelfReference,
    Cycle,
}

// ----------------------------------------------------------------------------
// the ancestor chain
// ----------------------------------------------------------------------------
/// The node reached from `i` by following `k` parent references
/// (`None` once the chain has ended).
pub open spec fn kth_anc(s: Seq<NodeData>, i: int, k: nat) -> Option<int>
    decreases k,
{
    if k == 0 {
        Some(i)
    } else if 0 <= i < s.len() {
        match s[i].parent {
            None => None,
            Some(p) => kth_anc(s, p as int, (k - 1) as nat),
        }
    } else {
        None
    }
}

/// The chain of parent references starting at `i` dies out.
pub open spec fn dies(s: Seq<NodeData>, i: int) -> bool {
    exists|k: nat| kth_anc(s, i, k) == None::<int>
}

/// `a` lies on the chain of parent references starting at `b` (including `b`).
pub open spec fn on_chain(s: Seq<NodeData>, a: int, b: int) -> bool {
    exists|k: nat| kth_anc(s, b, k) == Some(a)
}

pub open spec fn parents_ok(s: Seq<NodeData>) -> bool {
    forall|i: int|
        0 <= i < s.len() ==> match (#[trigger] s[i]).parent {
            None => true,
            Some(p) => (p as int) < s.len(),
        }
}

pub open spec fn edges_ok(s: Seq<NodeData>) -> bool {
    forall|i: int, j: int|
        0 <= i < s.len() && 0 <= j < s[i].children@.len() ==> {
            &&& ((#[trigger] s[i].children@[j]) as int) < s.len()
            &&& s[s[i].children@[j] as int].parent == Some(i as usize)
        }
}

pub open spec fn all_die(s: Seq<NodeData>) -> bool {
    forall|i: int| 0 <= i < s.len() ==> dies(s, i)
}

pub open spec fn wf_nodes(s: Seq<NodeData>) -> bool {
    parents_ok(s) && edges_ok(s) && all_die(s)
}

/// The number of steps after which the chain from `i` first dies.
pub open spec fn death(s: Seq<NodeData>, i: int) -> nat {
    choose|k: nat|
        kth_anc(s, i, k) == None::<int> && (forall|j: nat| j < k ==> kth_anc(s, i, j) != None::<int>)
}

proof fn lemma_exists_min(s: Seq<NodeData>, i: int, k: nat)
    requires
        kth_anc(s, i, k) == None::<int>,
    ensures
        exists|m: nat|
            kth_anc(s, i, m) == None::<int> && (forall|j: nat| j < m ==> kth_anc(s, i, j) != None::<int>),
    decreases k,
{
    if exists|j: nat| j < k && kth_anc(s, i, j) == None::<int> {
        let j = choose|j: nat| j < k && kth_anc(s, i, j) == None::<int>;
        lemma_exists_min(s, i, j);
    } else {
        assert(forall|j: nat| j < k ==> kth_anc(s, i, j) != None::<int>);
    }
}

pub proof fn lemma_death_props(s: Seq<NodeData>, i: int)
    requires
        dies(s, i),
    ensures
        kth_anc(s, i, death(s, i)) == None::<int>,
        forall|j: nat| j < death(s, i) ==> kth_anc(s, i, j) != None::<int>,
{
    let k = choose|k: nat| kth_anc(s, i, k) == None::<int>;
    lemma_exists_min(s, i, k);
}

proof fn lemma_none_stable(s: Seq<NodeData>, i: int, k: nat, k2: nat)
    requires
        kth_anc(s, i, k) == None::<int>,
        k <= k2,
    ensures
        kth_anc(s, i, k2) == None::<int>,
    decreases k2,
{
    if k2 > k {
        if k == 0 {
            assert(false);
        } else if 0 <= i < s.len() {
            match s[i].parent {
                None => {},
                Some(p) => {
                    lemma_none_stable(s, p as int, (k - 1) as nat, (k2 - 1) as nat);
                },
            }
        }
    }
}

proof fn lemma_compose(s: Seq<NodeData>, i: int, a: nat, b: nat, m: int)
    requires
        kth_anc(s, i, a) == Some(m),
    ensures
        kth_anc(s, i, a + b) == kth_anc(s, m, b),
    decreases a,
{
    if a > 0 {
        assert(0 <= i < s.len());
        let p = s[i].parent.unwrap();
        lemma_compose(s, p as int, (a - 1) as nat, b, m);
    }
}

proof fn lemma_pump(s: Seq<NodeData>, i: int, c: nat, j: nat)
    requires
        kth_anc(s, i, c) == Some(i),
    ensures
        kth_anc(s, i, (j * c) as nat) == Some(i),
    decreases j,
{
    if j == 0 {
        assert(j * c == 0);
    } else {
        lemma_pump(s, i, c, (j - 1) as nat);
        lemma_compose(s, i, ((j - 1) * c) as nat, c, i);
        assert((j - 1) * c + c == j * c) by (nonlinear_arith);
    }
}

proof fn lemma_cycle_contra(s: Seq<NodeData>, i: int, c: nat)
    requires
        kth_anc(s, i, c) == Some(i),
        c >= 1,
    ensures
        !dies(s, i),
{
    if dies(s, i) {
        let k0 = choose|k: nat| kth_anc(s, i, k) == None::<int>;
        lemma_pump(s, i, c, k0);
        assert(k0 * c >= k0) by (nonlinear_arith)
            requires
                c >= 1,
                k0 >= 0,
        ;
        lemma_none_stable(s, i, k0, (k0 * c) as nat);
        assert(false);
    }
}

proof fn lemma_step_all(s: Seq<NodeData>, i: int, p: usize)
    requires
        0 <= i < s.len(),
        s[i].parent == Some(p),
    ensures
        forall|k: nat| kth_anc(s, i, (k + 1) as nat) == kth_anc(s, p as int, k),
{
    assert forall|k: nat| kth_anc(s, i, (k + 1) as nat) == kth_anc(s, p as int, k) by {
        assert(kth_anc(s, i, (k + 1) as nat) == kth_anc(s, p as int, k));
    }
}

proof fn lemma_kth_one(s: Seq<NodeData>, i: int)
    requires
        0 <= i < s.len(),
    ensures
        kth_anc(s, i, 1) == (match s[i].parent {
            None => None::<int>,
            Some(p) => Some(p as int),
        }),
{
    match s[i].parent {
        None => {},
        Some(p) => {
            assert(kth_anc(s, p as int, 0) == Some(p as int));
        },
    }
}

/// A child's chain dies one step later than its parent's.
pub proof fn lemma_death_child(s: Seq<NodeData>, c: int, p: usize)
    requires
        0 <= c < s.len(),
        s[c].parent == Some(p),
        dies(s, p as int),
    ensures
        dies(s, c),
        death(s, c) == death(s, p as int) + 1,
{
    lemma_step_all(s, c, p);
    lemma_death_props(s, p as int);
    let dp = death(s, p as int);
    assert(kth_anc(s, c, (dp + 1) as nat) == None::<int>);
    lemma_death_props(s, c);
    let dc = death(s, c);
    assert(dc <= dp + 1);
    assert(dc >= 1);
    assert(kth_anc(s, p as int, (dc - 1) as nat) == kth_anc(s, c, dc));
    assert(kth_anc(s, p as int, (dc - 1) as nat) == None::<int>);
    assert(dc - 1 >= dp);
}

proof fn lemma_death_bound_rec(s: Seq<NodeData>, i: int, seen: Set<int>)
    requires
        parents_ok(s),
        all_die(s),
        0 <= i < s.len(),
        seen.finite(),
        seen.subset_of(set_int_range(0, s.len() as int)),
        forall|k: nat, m: int| kth_anc(s, i, k) == Some(m) ==> !seen.contains(m),
    ensures
        death(s, i) <= s.len() - seen.len(),
    decreases s.len() - seen.len(),
{
    lemma_int_range(0, s.len() as int);
    lemma_len_subset(seen, set_int_range(0, s.len() as int));
    assert(kth_anc(s, i, 0) == Some(i));
    assert(!seen.contains(i));
    let seen2 = seen.insert(i);
    assert(seen2.subset_of(set_int_range(0, s.len() as int)));
    lemma_len_subset(seen2, set_int_range(0, s.len() as int));
    assert(seen2.len() == seen.len() + 1);
    lemma_death_props(s, i);
    match s[i].parent {
        None => {
            assert(kth_anc(s, i, 1) == None::<int>);
            assert(death(s, i) <= 1);
        },
        Some(p) => {
            lemma_step_all(s, i, p);
            assert forall|k: nat, m: int|
                kth_anc(s, p as int, k) == Some(m) implies !seen2.contains(m) by {
                assert(kth_anc(s, i, (k + 1) as nat) == Some(m));
                if m == i {
                    lemma_cycle_contra(s, i, (k + 1) as nat);
                }
            }
            lemma_death_bound_rec(s, p as int, seen2);
            lemma_death_child(s, i, p);
        },
    }
}

/// In a well-formed arena no chain is longer than the number of nodes.
pub proof fn lemma_death_bound(s: Seq<NodeData>, i: int)
    requires
        wf_nodes(s),
        0 <= i < s.len(),
    ensures
        death(s, i) <= s.len(),
{
    assert(Set::<int>::empty().subset_of(set_int_range(0, s.len() as int)));
    lemma_death_bound_rec(s, i, Set::empty());
}

// ----------------------------------------------------------------------------
// re-pointing one parent reference keeps every chain finite
// ----------------------------------------------------------------------------
/// `s2` is `s1` with node `c`'s parent reference set to `p` (payloads and
/// child lists may differ; only parent references matter to the chains).
pub open spec fn reparented(s1: Seq<NodeData>, s2: Seq<NodeData>, c: int, p: usize) -> bool {
    &&& s2.len() == s1.len()
    &&& forall|i: int|
        0 <= i < s1.len() ==> (#[trigger] s2[i]).parent == if i == c {
            Some(p)
        } else {
            s1[i].parent
        }
}

proof fn lemma_frame(s1: Seq<NodeData>, s2: Seq<NodeData>, c: int, p: usize, x: int, k: nat)
    requires
        reparented(s1, s2, c, p),
        forall|j: nat| j < k ==> kth_anc(s1, x, j) != Some(c),
    ensures
        kth_anc(s2, x, k) == kth_anc(s1, x, k),
    decreases k,
{
    if k > 0 {
        assert(kth_anc(s1, x, 0) == Some(x));
        assert(x != c);
        if 0 <= x < s1.len() {
            match s1[x].parent {
                None => {},
                Some(px) => {
                    lemma_step_all(s1, x, px);
                    assert forall|j: nat| j < (k - 1) as nat implies kth_anc(s1, px as int, j)
                        != Some(c) by {
                        assert(kth_anc(s1, x, (j + 1) as nat) == kth_anc(s1, px as int, j));
                    }
                    lemma_frame(s1, s2, c, p, px as int, (k - 1) as nat);
                    assert(s2[x].parent == Some(px));
                },
            }
        }
    }
}

proof fn lemma_min_hit(s: Seq<NodeData>, x: int, c: int, j: nat)
    requires
        kth_anc(s, x, j) == Some(c),
    ensures
        exists|m: nat|
            kth_anc(s, x, m) == Some(c) && (forall|t: nat| t < m ==> kth_anc(s, x, t) != Some(c)),
    decreases j,
{
    if exists|t: nat| t < j && kth_anc(s, x, t) == Some(c) {
        let t = choose|t: nat| t < j && kth_anc(s, x, t) == Some(c);
        lemma_min_hit(s, x, c, t);
    } else {
        assert(forall|t: nat| t < j ==> kth_anc(s, x, t) != Some(c));
    }
}

/// Re-pointing `c`'s parent to `p` keeps all chains finite, provided `c` was
/// nowhere on `p`'s own chain.
proof fn lemma_reparent_dies(s1: Seq<NodeData>, s2: Seq<NodeData>, c: int, p: usize, x: int)
    requires
        reparented(s1, s2, c, p),
        0 <= c < s1.len(),
        (p as int) < s1.len(),
        forall|i: int| 0 <= i < s1.len() ==> dies(s1, i),
        forall|k: nat| kth_anc(s1, p as int, k) != Some(c),
        0 <= x < s2.len(),
    ensures
        dies(s2, x),
{
    // p's chain is unchanged and still dies
    assert(dies(s1, p as int));
    let dp = choose|k: nat| kth_anc(s1, p as int, k) == None::<int>;
    if exists|j: nat| kth_anc(s1, x, j) == Some(c) {
        let j0 = choose|j: nat| kth_anc(s1, x, j) == Some(c);
        lemma_min_hit(s1, x, c, j0);
        let jm = choose|m: nat|
            kth_anc(s1, x, m) == Some(c) && (forall|t: nat| t < m ==> kth_anc(s1, x, t) != Some(
                c,
            ));
        lemma_frame(s1, s2, c, p, x, jm);
        assert(kth_anc(s2, x, jm) == Some(c));
        assert(s2[c].parent == Some(p));
        lemma_kth_one(s2, c);
        assert(kth_anc(s2, c, 1) == Some(p as int));
        lemma_compose(s2, x, jm, 1, c);
        assert(kth_anc(s2, x, (jm + 1) as nat) == Some(p as int));
        lemma_frame(s1, s2, c, p, p as int, dp);
        assert(kth_anc(s2, p as int, dp) == None::<int>);
        lemma_compose(s2, x, (jm + 1) as nat, dp, p as int);
        assert(kth_anc(s2, x, (jm + 1 + dp) as nat) == None::<int>);
    } else {
        assert(dies(s1, x));
        let dx = choose|k: nat| kth_anc(s1, x, k) == None::<int>;
        lemma_frame(s1, s2, c, p, x, dx);
        assert(kth_anc(s2, x, dx) == None::<int>);
    }
}

/// Chains are unchanged when an arena only grows or edits child lists and
/// payloads, leaving every existing parent reference as it was.
proof fn lemma_same_parents_anc(s1: Seq<NodeData>, s2: Seq<NodeData>, x: int, k: nat)
    requires
        s2.len() >= s1.len(),
        parents_ok(s1),
        forall|i: int| 0 <= i < s1.len() ==> (#[trigger] s2[i]).parent == s1[i].parent,
        0 <= x < s1.len(),
    ensures
        kth_anc(s2, x, k) == kth_anc(s1, x, k),
    decreases k,
{
    if k > 0 {
        match s1[x].parent {
            None => {},
            Some(px) => {
                lemma_same_parents_anc(s1, s2, px as int, (k - 1) as nat);
            },
        }
    }
}

// ----------------------------------------------------------------------------
// attribute lookup / update at the spec level
// ----------------------------------------------------------------------------
pub open spec fn attrs_view(attrs: AttrMap) -> Seq<(Seq<char>, Seq<char>)> {
    attrs@.map_values(|p: (Vec<char>, Vec<char>)| (p.0@, p.1@))
}

/// Index of the first entry with key `k`.
pub open spec fn find_key_spec(m: Seq<(Seq<char>, Seq<char>)>, k: Seq<char>) -> Option<int>
    decreases m.len(),
{
    if m.len() == 0 {
        None
    } else if m[0].0 == k {
        Some(0int)
    } else {
        match find_key_spec(m.drop_first(), k) {
            None => None,
            Some(i) => Some(i + 1),
        }
    }
}

pub open spec fn attr_lookup_spec(m: Seq<(Seq<char>, Seq<char>)>, k: Seq<char>) -> Option<
    Seq<char>,
> {
    match find_key_spec(m, k) {
        None => None,
        Some(i) => Some(m[i].1),
    }
}

pub open spec fn attr_set_spec(
    m: Seq<(Seq<char>, Seq<char>)>,
    k: Seq<char>,
    v: Seq<char>,
) -> Seq<(Seq<char>, Seq<char>)> {
    match find_key_spec(m, k) {
        None => m.push((k, v)),
        Some(i) => m.update(i, (k, v)),
    }
}

pub open spec fn attr_remove_spec(m: Seq<(Seq<char>, Seq<char>)>, k: Seq<char>) -> Seq<
    (Seq<char>, Seq<char>),
> {
    match find_key_spec(m, k) {
        None => m,
        Some(i) => m.remove(i),
    }
}

pub proof fn lemma_find_key_props(m: Seq<(Seq<char>, Seq<char>)>, k: Seq<char>)
    ensures
        match find_key_spec(m, k) {
            None => forall|j: int| 0 <= j < m.len() ==> (#[trigger] m[j]).0 != k,
            Some(i) => 0 <= i < m.len() && m[i].0 == k && forall|j: int|
                0 <= j < i ==> (#[trigger] m[j]).0 != k,
        },
    decreases m.len(),
{
    if m.len() == 0 {
    } else if m[0].0 == k {
    } else {
        lemma_find_key_props(m.drop_first(), k);
        assert(forall|j: int| 1 <= j < m.len() ==> m[j] == #[trigger] m.drop_first()[j - 1]);
        match find_key_spec(m.drop_first(), k) {
            None => {
                assert forall|j: int| 0 <= j < m.len() implies (#[trigger] m[j]).0 != k by {
                    if j >= 1 {
                        assert(m.drop_first()[j - 1].0 != k);
                    }
                }
            },
            Some(i) => {
                assert(m[i + 1] == m.drop_first()[i]);
                assert forall|j: int| 0 <= j < i + 1 implies (#[trigger] m[j]).0 != k by {
                    if j >= 1 {
                        assert(m.drop_first()[j - 1].0 != k);
                    }
                }
            },
        }
    }
}

/// `s` with every occurrence of `c` removed, order kept.
pub open spec fn remove_id(s: Seq<usize>, c: usize) -> Seq<usize>
    decreases s.len(),
{
    if s.len() == 0 {
        s
    } else {
        let rest = remove_id(s.drop_last(), c);
        if s.last() == c {
            rest
        } else {
            rest.push(s.last())
        }
    }
}

proof fn lemma_remove_id_elems(s: Seq<usize>, c: usize)
    ensures
        forall|j: int|
            0 <= j < remove_id(s, c).len() ==> (#[trigger] remove_id(s, c)[j]) != c && s.contains(
                remove_id(s, c)[j],
            ),
    decreases s.len(),
{
    if s.len() > 0 {
        lemma_remove_id_elems(s.drop_last(), c);
        let rest = remove_id(s.drop_last(), c);
        assert forall|j: int|
            0 <= j < remove_id(s, c).len() implies (#[trigger] remove_id(s, c)[j]) != c
            && s.contains(remove_id(s, c)[j]) by {
            if s.last() != c && j == remove_id(s, c).len() - 1 {
                assert(remove_id(s, c)[j] == s.last());
                assert(s[s.len() - 1] == s.last());
            } else {
                assert(remove_id(s, c)[j] == rest[j]);
                assert(s.drop_last().contains(rest[j]));
                let t = choose|t: int| 0 <= t < s.drop_last().len() && s.drop_last()[t] == rest[j];
                assert(s[t] == rest[j]);
            }
        }
    }
}

/// What a successful `append(parent, child)` does to the arena: `child`'s
/// parent reference now names `parent`, `child` is appended to `parent`'s
/// child list, `child` leaves its former parent's child list, and everything
/// else is untouched.
pub open spec fn append_effect(
    pre: Seq<NodeData>,
    post: Seq<NodeData>,
    parent: usize,
    child: usize,
) -> bool {
    let qo = pre[child as int].parent;
    &&& post.len() == pre.len()
    &&& post[child as int].parent == Some(parent)
    &&& post[child as int].node_type == pre[child as int].node_type
    &&& post[child as int].children@ == pre[child as int].children@
    &&& post[parent as int].children@ == pre[parent as int].children@.push(child)
    &&& post[parent as int].node_type == pre[parent as int].node_type
    &&& post[parent as int].parent == pre[parent as int].parent
    &&& match qo {
        Some(q) => q == parent || (post[q as int].children@ == remove_id(
            pre[q as int].children@,
            child,
        ) && post[q as int].node_type == pre[q as int].node_type && post[q as int].parent
            == pre[q as int].parent),
        None => true,
    }
    &&& forall|j: int|
        0 <= j < pre.len() && j != child && j != parent && (match qo {
            Some(q) => j != q,
            None => true,
        }) ==> post[j] == #[trigger] pre[j]
}

/// After a successful `append`, the arena is well-formed again.
proof fn lemma_append_restore_wf(s0: Seq<NodeData>, s2: Seq<NodeData>, parent: usize, child: usize)
    requires
        s0.len() <= usize::MAX,
        wf_nodes(s0),
        (parent as int) < s0.len(),
        (child as int) < s0.len(),
        child != parent,
        forall|k: nat| kth_anc(s0, parent as int, k) != Some(child as int),
        append_effect(s0, s2, parent, child),
    ensures
        wf_nodes(s2),
{
    let qo = s0[child as int].parent;
    assert(reparented(s0, s2, child as int, parent)) by {
        assert forall|i: int|
            0 <= i < s0.len() implies (#[trigger] s2[i]).parent == (if i == child as int {
            Some(parent)
        } else {
            s0[i].parent
        }) by {
            if i != child as int && i != parent as int {
                match qo {
                    Some(q) => {
                        if i != q as int {
                            assert(s2[i] == s0[i]);
                        }
                    },
                    None => {
                        assert(s2[i] == s0[i]);
                    },
                }
            }
        }
    }
    assert forall|x: int| 0 <= x < s2.len() implies dies(s2, x) by {
        lemma_reparent_dies(s0, s2, child as int, parent, x);
    }
    assert(parents_ok(s2)) by {
        assert forall|i: int| 0 <= i < s2.len() implies match (#[trigger] s2[i]).parent {
            None => true,
            Some(p) => (p as int) < s2.len(),
        } by {
            if i != child as int {
                assert(s2[i].parent == s0[i].parent);
            }
        }
    }
    assert(edges_ok(s2)) by {
        assert forall|i: int, j: int|
            0 <= i < s2.len() && 0 <= j < s2[i].children@.len() implies {
            &&& ((#[trigger] s2[i].children@[j]) as int) < s2.len()
            &&& s2[s2[i].children@[j] as int].parent == Some(i as usize)
        } by {
            let x = s2[i].children@[j];
            if i == parent as int {
                if j < s0[parent as int].children@.len() {
                    assert(x == s0[parent as int].children@[j]);
                    assert(s0[x as int].parent == Some(parent));
                    assert(x as int == child ==> qo == Some(parent));
                    if x as int != child {
                        assert(s2[x as int].parent == s0[x as int].parent);
                    }
                } else {
                    assert(x == child);
                }
            } else if (match qo {
                Some(q) => q as int == i,
                None => false,
            }) && i != child as int {
                // i is the former parent: its child list lost `child`
                let q = qo.unwrap();
                assert(q != parent);
                assert(s2[i].children@ == remove_id(s0[i].children@, child));
                lemma_remove_id_elems(s0[i].children@, child);
                assert(x != child);
                assert(s0[i].children@.contains(x));
                let t = choose|t: int|
                    0 <= t < s0[i].children@.len() && s0[i].children@[t] == x;
                assert(s0[s0[i].children@[t] as int].parent == Some(i as usize));
                assert(s2[x as int].parent == s0[x as int].parent);
            } else {
                assert(s2[i].children@ == s0[i].children@);
                assert(s0[x as int].parent == Some(i as usize));
                if x as int == child {
                    assert(qo == Some(i as usize));
                    if i == child as int {
                        lemma_kth_one(s0, child as int);
                        lemma_cycle_contra(s0, child as int, 1);
                        assert(dies(s0, child as int));
                    }
                    assert(false);
                }
                assert(s2[x as int].parent == s0[x as int].parent);
            }
        }
    }
}

impl Dom {
    pub open spec fn wf(&self) -> bool {
        wf_nodes(self.nodes@)
    }

    pub fn new() -> (r: Dom)
        ensures
            r.wf(),
            r.nodes@.len() == 0,
    {
        Dom { nodes: Vec::new() }
    }

    pub fn len(&self) -> (r: usize)
        ensures
            r == self.nodes@.len(),
    {
        self.nodes.len()
    }

    /// Create a fresh, parentless, childless node and return its id.
    pub fn new_node(&mut self, node_type: NodeType) -> (id: usize)
        requires
            old(self).wf(),
        ensures
            final(self).wf(),
            id as int == old(self).nodes@.len(),
            final(self).nodes@.len() == old(self).nodes@.len() + 1,
            final(self).nodes@[id as int].node_type == node_type,
            final(self).nodes@[id as int].parent is None,
            final(self).nodes@[id as int].children@.len() == 0,
            forall|j: int|
                0 <= j < old(self).nodes@.len() ==> final(self).nodes@[j] == old(self).nodes@[j],
    {
        let id = self.nodes.len();
        self.nodes.push(NodeData { node_type, parent: None, children: Vec::new() });
        proof {
            let s1 = old(self).nodes@;
            let s2 = self.nodes@;
            assert forall|x: int| 0 <= x < s2.len() implies dies(s2, x) by {
                if x < s1.len() {
                    assert(dies(s1, x));
                    let dx = choose|k: nat| kth_anc(s1, x, k) == None::<int>;
                    lemma_same_parents_anc(s1, s2, x, dx);
                } else {
                    assert(kth_anc(s2, x, 1) == None::<int>);
                }
            }
            assert(edges_ok(s2)) by {
                assert forall|i: int, j: int|
                    0 <= i < s2.len() && 0 <= j < s2[i].children@.len() implies {
                    &&& ((#[trigger] s2[i].children@[j]) as int) < s2.len()
                    &&& s2[s2[i].children@[j] as int].parent == Some(i as usize)
                } by {
                    assert(i < s1.len());
                    assert(s2[i] == s1[i]);
                    assert(((s1[i].children@[j]) as int) < s1.len());
                }
            }
        }
        id
    }

    /// Append `child` under `parent`.  Fails with `SelfReference` when the two
    /// are the same node and with `Cycle` when `child` already lies on
    /// `parent`'s ancestor chain; succeeds for every other pairing, moving
    /// `child` out of its former parent's child list.
    #[verifier::rlimit(100)]
    pub fn append(&mut self, parent: usize, child: usize) -> (r: Result<
        (),
        TreeInvariantViolation,
    >)
        requires
            old(self).wf(),
            parent < old(self).nodes@.len(),
            child < old(self).nodes@.len(),
        ensures
            final(self).wf(),
            (r == Err::<(), TreeInvariantViolation>(TreeInvariantViolation::SelfReference)) <==> (
            child == parent),
            (r == Err::<(), TreeInvariantViolation>(TreeInvariantViolation::Cycle)) <==> (child
                != parent && on_chain(old(self).nodes@, child as int, parent as int)),
            r is Err ==> final(self).nodes@ == old(self).nodes@,
            r is Ok ==> append_effect(old(self).nodes@, final(self).nodes@, parent, child),
    {
        let ghost s0 = self.nodes@;
        let n = self.nodes.len();
        proof {
            assert(s0.len() <= usize::MAX);
        }
        if parent == child {
            return Err(TreeInvariantViolation::SelfReference);
        }
        // walk parent's ancestor chain, looking for child
        let mut cur: usize = parent;
        let ghost mut steps: nat = 0nat;
        let mut found_cycle = false;
        let mut walking = true;
        proof {
            assert(dies(s0, parent as int));
            lemma_death_props(s0, parent as int);
            assert(kth_anc(s0, parent as int, 0) == Some(parent as int));
        }
        while walking
            invariant
                self.nodes@ == s0,
                wf_nodes(s0),
                parent < s0.len(),
                child < s0.len(),
                child != parent,
                walking ==> !found_cycle,
                walking ==> cur < s0.len() && kth_anc(s0, parent as int, steps) == Some(
                    cur as int,
                ),
                forall|j: nat| j < steps ==> kth_anc(s0, parent as int, j) != Some(child as int),
                !walking ==> (found_cycle <==> on_chain(s0, child as int, parent as int)),
                walking ==> steps < death(s0, parent as int),
            decreases
                    death(s0, parent as int) - steps,
                    (if walking {
                        1int
                    } else {
                        0int
                    }),
        {
            proof {
                lemma_death_props(s0, parent as int);
            }
            if cur == child {
                found_cycle = true;
                walking = false;
                proof {
                    assert(kth_anc(s0, parent as int, steps) == Some(child as int));
                }
            } else {
                let nref = &self.nodes[cur];
                match nref.parent {
                    None => {
                        walking = false;
                        proof {
                            lemma_compose(s0, parent as int, steps, 1, cur as int);
                            assert(kth_anc(s0, cur as int, 1) == None::<int>);
                            assert(kth_anc(s0, parent as int, (steps + 1) as nat) == None::<int>);
                            assert forall|k: nat|
                                kth_anc(s0, parent as int, k) != Some(child as int) by {
                                if k == steps {
                                } else if k > steps {
                                    lemma_none_stable(
                                        s0,
                                        parent as int,
                                        (steps + 1) as nat,
                                        k,
                                    );
                                }
                            }
                        }
                    },
                    Some(p) => {
                        proof {
                            lemma_compose(s0, parent as int, steps, 1, cur as int);
                            assert(s0[cur as int].parent == Some(p));
                            lemma_kth_one(s0, cur as int);
                            assert(kth_anc(s0, cur as int, 1) == Some(p as int));
                            steps = steps + 1;
                            if steps >= death(s0, parent as int) {
                                lemma_none_stable(
                                    s0,
                                    parent as int,
                                    death(s0, parent as int),
                                    steps,
                                );
                            }
                        }
                        cur = p;
                    },
                }
            }
        }
        if found_cycle {
            return Err(TreeInvariantViolation::Cycle);
        }
        proof {
            // child's own parent cannot be child itself
            if s0[child as int].parent == Some(child) {
                lemma_kth_one(s0, child as int);
                lemma_cycle_contra(s0, child as int, 1);
                assert(dies(s0, child as int));
            }
        }
        // detach child from its former parent's child list
        let q_opt = self.nodes[child].parent;
        proof {
            assert(q_opt == s0[child as int].parent);
        }
        if let Some(q) = q_opt {
            if q != parent {
                let mut qn = self.nodes.remove(q);
                proof {
                    assert(qn == s0[q as int]);
                }
                let ghost cs = qn.children@;
                let mut kept: Vec<usize> = Vec::new();
                let mut k: usize = 0;
                while k < qn.children.len()
                    invariant
                        0 <= k <= cs.len(),
                        qn.children@ == cs,
                        kept@ == remove_id(cs.take(k as int), child),
                    decreases cs.len() - k,
                {
                    let x = qn.children[k];
                    proof {
                        assert(cs.take(k + 1).drop_last() =~= cs.take(k as int));
                        assert(cs.take(k + 1).last() == x);
                    }
                    if x != child {
                        kept.push(x);
                    }
                    k = k + 1;
                }
                proof {
                    assert(cs.take(cs.len() as int) =~= cs);
                }
                qn.children = kept;
                self.nodes.insert(q, qn);
                proof {
                    assert(self.nodes@ =~= s0.update(q as int, qn));
                }
            }
        }
        let ghost s1 = self.nodes@;
        // point child's parent reference at parent
        let mut cn = self.nodes.remove(child);
        proof {
            assert(cn == s1[child as int]);
        }
        cn.parent = Some(parent);
        self.nodes.insert(child, cn);
        proof {
            assert(self.nodes@ =~= s1.update(child as int, cn));
        }
        let ghost s1b = self.nodes@;
        // append child to parent's child list
        let mut pn = self.nodes.remove(parent);
        proof {
            assert(pn == s1b[parent as int]);
        }
        pn.children.push(child);
        self.nodes.insert(parent, pn);
        proof {
            let s2 = self.nodes@;
            assert(s2 =~= s1b.update(parent as int, pn));
            let ghost qo = s0[child as int].parent;
            assert(append_effect(s0, s2, parent, child)) by {
                assert forall|j: int|
                    0 <= j < s0.len() && j != child && j != parent && (match qo {
                        Some(q) => j != q,
                        None => true,
                    }) implies s2[j] == #[trigger] s0[j] by {}
            }
            lemma_append_restore_wf(s0, s2, parent, child);
        }
        Ok(())
    }
}

/// Payload edits (a changed `node_type`) never disturb the tree shape.
proof fn lemma_payload_update_wf(s1: Seq<NodeData>, s2: Seq<NodeData>)
    requires
        wf_nodes(s1),
        s2.len() == s1.len(),
        forall|i: int|
            0 <= i < s1.len() ==> (#[trigger] s2[i]).parent == s1[i].parent && s2[i].children
                == s1[i].children,
    ensures
        wf_nodes(s2),
{
    assert forall|x: int| 0 <= x < s2.len() implies dies(s2, x) by {
        assert(dies(s1, x));
        let dx = choose|k: nat| kth_anc(s1, x, k) == None::<int>;
        lemma_same_parents_anc(s1, s2, x, dx);
    }
    assert(edges_ok(s2)) by {
        assert forall|i: int, j: int|
            0 <= i < s2.len() && 0 <= j < s2[i].children@.len() implies {
            &&& ((#[trigger] s2[i].children@[j]) as int) < s2.len()
            &&& s2[s2[i].children@[j] as int].parent == Some(i as usize)
        } by {
            assert(s2[i].children == s1[i].children);
            let x = s1[i].children@[j];
            assert((x as int) < s1.len() && s1[x as int].parent == Some(i as usize));
        }
    }
}

/// The attribute list of the node, empty for text and comment nodes.
pub open spec fn node_attrs(s: Seq<NodeData>, id: int) -> Seq<(Seq<char>, Seq<char>)> {
    match s[id].node_type {
        NodeType::Element(ed) => attrs_view(ed.attrs),
        _ => Seq::empty(),
    }
}

impl Dom {
    /// Whether `id` names a text node.
    pub fn is_text(&self, id: usize) -> (r: bool)
        requires
            id < self.nodes@.len(),
        ensures
            r == (self.nodes@[id as int].node_type is Text),
    {
        let nref = &self.nodes[id];
        match &nref.node_type {
            NodeType::Text(_) => true,
            _ => false,
        }
    }

    /// Whether `id` names an element node.
    pub fn is_element(&self, id: usize) -> (r: bool)
        requires
            id < self.nodes@.len(),
        ensures
            r == (self.nodes@[id as int].node_type is Element),
    {
        let nref = &self.nodes[id];
        match &nref.node_type {
            NodeType::Element(_) => true,
            _ => false,
        }
    }

    /// Whether `id` names a comment node.
    pub fn is_comment(&self, id: usize) -> (r: bool)
        requires
            id < self.nodes@.len(),
        ensures
            r == (self.nodes@[id as int].node_type is Comment),
    {
        let nref = &self.nodes[id];
        match &nref.node_type {
            NodeType::Comment(_) => true,
            _ => false,
        }
    }

    /// The element's tag name, `None` for other nodes.
    pub fn tag_name(&self, id: usize) -> (r: Option<Vec<char>>)
        requires
            id < self.nodes@.len(),
        ensures
            match self.nodes@[id as int].node_type {
                NodeType::Element(ed) => r matches Some(t) && t@ == ed.tag_name@,
                _ => r is None,
            },
    {
        let nref = &self.nodes[id];
        match &nref.node_type {
            NodeType::Element(ed) => Some(clone_chars(&ed.tag_name)),
            _ => None,
        }
    }

    /// The text node's content, `None` for other nodes.
    pub fn text(&self, id: usize) -> (r: Option<Vec<char>>)
        requires
            id < self.nodes@.len(),
        ensures
            match self.nodes@[id as int].node_type {
                NodeType::Text(t) => r matches Some(c) && c@ == t@,
                _ => r is None,
            },
    {
        let nref = &self.nodes[id];
        match &nref.node_type {
            NodeType::Text(t) => Some(clone_chars(t)),
            _ => None,
        }
    }

    /// The node's parent id, `None` at a root.
    pub fn parent(&self, id: usize) -> (r: Option<usize>)
        requires
            id < self.nodes@.len(),
        ensures
            r == self.nodes@[id as int].parent,
    {
        let nref = &self.nodes[id];
        nref.parent
    }

    /// A copy of the node's ordered child list.
    pub fn children(&self, id: usize) -> (r: Vec<usize>)
        requires
            id < self.nodes@.len(),
        ensures
            r@ == self.nodes@[id as int].children@,
    {
        let nref = &self.nodes[id];
        let mut r: Vec<usize> = Vec::new();
        let mut i: usize = 0;
        while i < nref.children.len()
            invariant
                0 <= i <= nref.children@.len(),
                r@ == nref.children@.subrange(0, i as int),
            decreases nref.children@.len() - i,
        {
            r.push(nref.children[i]);
            proof {
                assert(r@ =~= nref.children@.subrange(0, i + 1));
            }
            i = i + 1;
        }
        proof {
            assert(r@ =~= nref.children@);
        }
        r
    }

    /// Attribute lookup, case-sensitive on the stored (normalized) key.
    pub fn get_attr(&self, id: usize, name: &str) -> (r: Option<Vec<char>>)
        requires
            id < self.nodes@.len(),
        ensures
            match attr_lookup_spec(node_attrs(self.nodes@, id as int), name@) {
                None => r is None,
                Some(v) => r matches Some(rv) && rv@ == v,
            },
    {
        let nref = &self.nodes[id];
        match &nref.node_type {
            NodeType::Element(ed) => {
                let key = str_to_chars(name);
                proof {
                    assert(node_attrs(self.nodes@, id as int) == attrs_view(ed.attrs));
                    lemma_find_key_props(attrs_view(ed.attrs), key@);
                }
                match find_attr(&ed.attrs, &key) {
                    Some(i) => {
                        proof {
                            assert(attrs_view(ed.attrs)[i as int].1 == ed.attrs@[i as int].1@);
                        }
                        Some(clone_chars(&ed.attrs[i].1))
                    },
                    None => None,
                }
            },
            _ => None,
        }
    }

    /// Whether the attribute is present.
    pub fn has_attr(&self, id: usize, name: &str) -> (r: bool)
        requires
            id < self.nodes@.len(),
        ensures
            r == (attr_lookup_spec(node_attrs(self.nodes@, id as int), name@) is Some),
    {
        self.get_attr(id, name).is_some()
    }

    /// Set or replace an attribute.  The key is trimmed and lower-cased, the
    /// value trimmed; the node's attribute list is replaced wholesale.  A
    /// no-op on text and comment nodes.
    pub fn set_attr(&mut self, id: usize, name: &str, value: &str)
        requires
            old(self).wf(),
            id < old(self).nodes@.len(),
        ensures
            final(self).wf(),
            final(self).nodes@.len() == old(self).nodes@.len(),
            forall|j: int|
                0 <= j < old(self).nodes@.len() && j != id ==> final(self).nodes@[j] == old(
                    self,
                ).nodes@[j],
            final(self).nodes@[id as int].parent == old(self).nodes@[id as int].parent,
            final(self).nodes@[id as int].children == old(self).nodes@[id as int].children,
            match old(self).nodes@[id as int].node_type {
                NodeType::Element(ed) => final(self).nodes@[id as int].node_type matches
                    NodeType::Element(ed2) && ed2.tag_name@ == ed.tag_name@ && attrs_view(
                    ed2.attrs,
                ) == attr_set_spec(
                    attrs_view(ed.attrs),
                    lower_spec(trim_spec(name@)),
                    trim_spec(value@),
                ),
                _ => final(self).nodes@[id as int].node_type == old(
                    self,
                ).nodes@[id as int].node_type,
            },
    {
        let ghost s0 = self.nodes@;
        let key0 = str_to_chars(name);
        let key1 = trim_chars(&key0);
        let key = lower_chars(&key1);
        let val0 = str_to_chars(value);
        let val = trim_chars(&val0);
        let nd = self.nodes.remove(id);
        let NodeData { node_type, parent, children } = nd;
        let new_type = match node_type {
            NodeType::Element(ed) => {
                let ElementData { tag_name, attrs } = ed;
                let mut attrs = attrs;
                let ghost m0 = attrs_view(attrs);
                proof {
                    lemma_find_key_props(m0, key@);
                }
                match find_attr(&attrs, &key) {
                    Some(i) => {
                        attrs.remove(i);
                        attrs.insert(i, (key, val));
                        proof {
                            assert(attrs_view(attrs) =~= m0.update(
                                i as int,
                                (lower_spec(trim_spec(name@)), trim_spec(value@)),
                            ));
                        }
                    },
                    None => {
                        attrs.push((key, val));
                        proof {
                            assert(attrs_view(attrs) =~= m0.push(
                                (lower_spec(trim_spec(name@)), trim_spec(value@)),
                            ));
                        }
                    },
                }
                NodeType::Element(ElementData { tag_name, attrs })
            },
            other => other,
        };
        let new_nd = NodeData { node_type: new_type, parent, children };
        self.nodes.insert(id, new_nd);
        proof {
            assert(self.nodes@ =~= s0.update(id as int, new_nd));
            lemma_payload_update_wf(s0, self.nodes@);
        }
    }

    /// Remove an attribute (the key is normalized as in `set_attr`).  A no-op
    /// on text and comment nodes and on an absent key.
    pub fn remove_attr(&mut self, id: usize, name: &str)
        requires
            old(self).wf(),
            id < old(self).nodes@.len(),
        ensures
            final(self).wf(),
            final(self).nodes@.len() == old(self).nodes@.len(),
            forall|j: int|
                0 <= j < old(self).nodes@.len() && j != id ==> final(self).nodes@[j] == old(
                    self,
                ).nodes@[j],
            final(self).nodes@[id as int].parent == old(self).nodes@[id as int].parent,
            final(self).nodes@[id as int].children == old(self).nodes@[id as int].children,
            match old(self).nodes@[id as int].node_type {
                NodeType::Element(ed) => final(self).nodes@[id as int].node_type matches
                    NodeType::Element(ed2) && ed2.tag_name@ == ed.tag_name@ && attrs_view(
                    ed2.attrs,
                ) == attr_remove_spec(attrs_view(ed.attrs), lower_spec(trim_spec(name@))),
                _ => final(self).nodes@[id as int].node_type == old(
                    self,
                ).nodes@[id as int].node_type,
            },
    {
        let ghost s0 = self.nodes@;
        let key0 = str_to_chars(name);
        let key1 = trim_chars(&key0);
        let key = lower_chars(&key1);
        let nd = self.nodes.remove(id);
        let NodeData { node_type, parent, children } = nd;
        let new_type = match node_type {
            NodeType::Element(ed) => {
                let ElementData { tag_name, attrs } = ed;
                let mut attrs = attrs;
                let ghost m0 = attrs_view(attrs);
                proof {
                    lemma_find_key_props(m0, key@);
                }
                match find_attr(&attrs, &key) {
                    Some(i) => {
                        attrs.remove(i);
                        proof {
                            assert(attrs_view(attrs) =~= m0.remove(i as int));
                        }
                    },
                    None => {},
                }
                NodeType::Element(ElementData { tag_name, attrs })
            },
            other => other,
        };
        let new_nd = NodeData { node_type: new_type, parent, children };
        self.nodes.insert(id, new_nd);
        proof {
            assert(self.nodes@ =~= s0.update(id as int, new_nd));
            lemma_payload_update_wf(s0, self.nodes@);
        }
    }
}

/// First index in `m` whose (normalized) key equals `k`.
pub(crate) fn find_attr(attrs: &AttrMap, k: &Vec<char>) -> (r: Option<usize>)
    ensures
        match find_key_spec(attrs_view(*attrs), k@) {
            None => r.is_none(),
            Some(i) => r matches Some(ri) && ri as int == i,
        },
{
    proof {
        lemma_find_key_props(attrs_view(*attrs), k@);
    }
    let mut i: usize = 0;
    while i < attrs.len()
        invariant
            0 <= i <= attrs@.len(),
            forall|j: int| 0 <= j < i ==> (#[trigger] attrs_view(*attrs)[j]).0 != k@,
        decreases attrs@.len() - i,
    {
        if chars_eq_chars(&attrs[i].0, k) {
            proof {
                assert(attrs_view(*attrs)[i as int].0 == k@);
                let m = attrs_view(*attrs);
                lemma_find_key_props(m, k@);
                match find_key_spec(m, k@) {
                    None => {
                        assert(m[i as int].0 != k@);
                    },
                    Some(i0) => {
                        if i0 < i as int {
                            assert(m[i0].0 != k@);
                        }
                        if i0 > i as int {
                            assert(m[i as int].0 != k@);
                        }
                    },
                }
            }
            return Some(i);
        }
        proof {
            assert(attrs_view(*attrs)[i as int].0 == attrs@[i as int].0@);
        }
        i = i + 1;
    }
    None
}

} // verus!

verus! {

/// Build a text node.
pub fn text(dom: &mut Dom, content: &str) -> (id: usize)
    requires
        old(dom).wf(),
    ensures
        final(dom).wf(),
        id as int == old(dom).nodes@.len(),
        final(dom).nodes@.len() == old(dom).nodes@.len() + 1,
        final(dom).nodes@[id as int].node_type matches NodeType::Text(t) && t@ == content@,
        final(dom).nodes@[id as int].parent is None,
        final(dom).nodes@[id as int].children@.len() == 0,
        forall|j: int| 0 <= j < old(dom).nodes@.len() ==> final(dom).nodes@[j] == old(dom).nodes@[j],
{
    dom.new_node(NodeType::Text(str_to_chars(content)))
}

/// Build a comment node.
pub fn comment(dom: &mut Dom, content: &str) -> (id: usize)
    requires
        old(dom).wf(),
    ensures
        final(dom).wf(),
        id as int == old(dom).nodes@.len(),
        final(dom).nodes@.len() == old(dom).nodes@.len() + 1,
        final(dom).nodes@[id as int].node_type matches NodeType::Comment(t) && t@ == content@,
        final(dom).nodes@[id as int].parent is None,
        final(dom).nodes@[id as int].children@.len() == 0,
        forall|j: int| 0 <= j < old(dom).nodes@.len() ==> final(dom).nodes@[j] == old(dom).nodes@[j],
{
    dom.new_node(NodeType::Comment(str_to_chars(content)))
}

/// Build an element node with a normalized tag name and the given attribute
/// list, and append the given nodes (distinct roots) as its children, in order.
pub fn element(dom: &mut Dom, tag_name: &str, attrs: AttrMap, children: &Vec<usize>) -> (id: usize)
    requires
        old(dom).wf(),
        forall|j: int|
            0 <= j < children@.len() ==> (#[trigger] children@[j] as int) < old(dom).nodes@.len()
                && old(dom).nodes@[children@[j] as int].parent is None,
        forall|j1: int, j2: int|
            0 <= j1 < j2 < children@.len() ==> children@[j1] != children@[j2],
    ensures
        final(dom).wf(),
        id as int == old(dom).nodes@.len(),
        final(dom).nodes@.len() == old(dom).nodes@.len() + 1,
        final(dom).nodes@[id as int].node_type matches NodeType::Element(ed) && ed.tag_name@
            == lower_spec(trim_spec(tag_name@)) && attrs_view(ed.attrs) == attrs_view(attrs),
        final(dom).nodes@[id as int].parent is None,
        final(dom).nodes@[id as int].children@ == children@,
        forall|j: int| 0 <= j < children@.len() ==> (#[trigger] final(dom).nodes@[children@[j] as int]).parent == Some(id) && final(dom).nodes@[children@[j] as int].node_type == old(dom).nodes@[children@[j] as int].node_type && final(dom).nodes@[children@[j] as int].children@ == old(dom).nodes@[children@[j] as int].children@,
        forall|j: int| 0 <= j < old(dom).nodes@.len() && !children@.contains(j as usize) ==> final(dom).nodes@[j] == old(dom).nodes@[j],
{
    element_from_chars(dom, str_to_chars(tag_name), attrs, children)
}

/// As `element`, with the tag already held as characters.
pub(crate) fn element_from_chars(
    dom: &mut Dom,
    tag_name: Vec<char>,
    attrs: AttrMap,
    children: &Vec<usize>,
) -> (id: usize)
    requires
        old(dom).wf(),
        forall|j: int|
            0 <= j < children@.len() ==> (#[trigger] children@[j] as int) < old(dom).nodes@.len()
                && old(dom).nodes@[children@[j] as int].parent is None,
        forall|j1: int, j2: int|
            0 <= j1 < j2 < children@.len() ==> children@[j1] != children@[j2],
    ensures
        final(dom).wf(),
        id as int == old(dom).nodes@.len(),
        final(dom).nodes@.len() == old(dom).nodes@.len() + 1,
        final(dom).nodes@[id as int].node_type matches NodeType::Element(ed) && ed.tag_name@
            == lower_spec(trim_spec(tag_name@)) && attrs_view(ed.attrs) == attrs_view(attrs),
        final(dom).nodes@[id as int].parent is None,
        final(dom).nodes@[id as int].children@ == children@,
        forall|j: int| 0 <= j < children@.len() ==> (#[trigger] final(dom).nodes@[children@[j] as int]).parent == Some(id) && final(dom).nodes@[children@[j] as int].node_type == old(dom).nodes@[children@[j] as int].node_type && final(dom).nodes@[children@[j] as int].children@ == old(dom).nodes@[children@[j] as int].children@,
        forall|j: int| 0 <= j < old(dom).nodes@.len() && !children@.contains(j as usize) ==> final(dom).nodes@[j] == old(dom).nodes@[j],
{
    let ghost s0 = dom.nodes@;
    let tag1 = trim_chars(&tag_name);
    let tag = lower_chars(&tag1);
    let ghost m0 = attrs_view(attrs);
    let id = dom.new_node(NodeType::Element(ElementData { tag_name: tag, attrs }));
    let ghost s1 = dom.nodes@;
    let mut k: usize = 0;
    while k < children.len()
        invariant
            dom.wf(),
            id as int == s0.len(),
            dom.nodes@.len() == s0.len() + 1,
            s1.len() == s0.len() + 1,
            forall|j: int|
                0 <= j < children@.len() ==> (#[trigger] children@[j] as int) < s0.len(),
            forall|j1: int, j2: int|
                0 <= j1 < j2 < children@.len() ==> children@[j1] != children@[j2],
            0 <= k <= children@.len(),
            dom.nodes@[id as int].node_type == s1[id as int].node_type,
            dom.nodes@[id as int].parent is None,
            dom.nodes@[id as int].children@ == children@.take(k as int),
            forall|j: int|
                0 <= j < k ==> (#[trigger] dom.nodes@[children@[j] as int]).parent == Some(id)
                    && dom.nodes@[children@[j] as int].node_type
                    == s0[children@[j] as int].node_type
                    && dom.nodes@[children@[j] as int].children@
                    == s0[children@[j] as int].children@,
            forall|j: int|
                k <= j < children@.len() ==> (#[trigger] dom.nodes@[children@[j] as int])
                    == s0[children@[j] as int] && s0[children@[j] as int].parent is None,
            forall|j: int|
                0 <= j < s0.len() && !children@.contains(j as usize) ==> dom.nodes@[j] == s0[j],
        decreases children@.len() - k,
    {
        let c = children[k];
        let ghost pre = dom.nodes@;
        proof {
            // the fresh element's chain is just itself, so no cycle is possible
            assert(pre[id as int].parent is None);
            lemma_kth_one(pre, id as int);
            assert(kth_anc(pre, id as int, 0) == Some(id as int));
            assert forall|t: nat| kth_anc(pre, id as int, t) != Some(c as int) by {
                if t == 0 {
                } else if t == 1 {
                } else {
                    lemma_none_stable(pre, id as int, 1, t);
                }
            }
        }
        proof {
            assert(c == children@[k as int]);
            assert((c as int) < s0.len());
            assert(c != id);
            assert(!on_chain(pre, c as int, id as int));
        }
        let res = dom.append(id, c);
        proof {
            assert(res != Err::<(), TreeInvariantViolation>(TreeInvariantViolation::SelfReference));
            assert(res != Err::<(), TreeInvariantViolation>(TreeInvariantViolation::Cycle));
            assert(res is Err ==> res->Err_0 is SelfReference || res->Err_0 is Cycle);
            assert(res is Ok);
            assert(append_effect(pre, dom.nodes@, id, c));
            assert(pre[c as int].parent is None);
            assert(dom.nodes@[id as int].children@ =~= children@.take(k + 1));
            assert forall|j: int| 0 <= j < k implies (#[trigger] dom.nodes@[children@[j] as int])
                == pre[children@[j] as int] by {
                assert(children@[j] != children@[k as int]);
                let x = children@[j];
                assert((x as int) != c as int && (x as int) != id as int);
            }
            assert forall|j: int|
                0 <= j < s0.len() && !children@.contains(j as usize) implies dom.nodes@[j]
                == s0[j] by {
                assert(j != c as int && j != id as int);
                assert(dom.nodes@[j] == pre[j]);
            }
            assert(pre[c as int] == s0[c as int]);
            assert(dom.nodes@[c as int].parent == Some(id));
            assert(dom.nodes@[c as int].node_type == s0[c as int].node_type);
            assert(dom.nodes@[c as int].children@ == s0[c as int].children@);
            assert forall|j: int|
                k < j < children@.len() implies (#[trigger] dom.nodes@[children@[j] as int])
                == s0[children@[j] as int] && s0[children@[j] as int].parent is None by {
                assert(children@[k as int] != children@[j]);
                let x = children@[j];
                assert(pre[children@[j] as int] == s0[children@[j] as int]);
                assert(s0[children@[j] as int].parent is None);
                assert((x as int) != c as int && (x as int) != id as int);
                assert(dom.nodes@[x as int] == pre[x as int]);
            }
        }
        k = k + 1;
    }
    proof {
        assert(children@.take(children@.len() as int) =~= children@);
    }
    id
}

} // verus!

verus! {

// ----------------------------------------------------------------------------
// the debug dump
// ----------------------------------------------------------------------------
/// Two spaces of indentation per depth level.
pub open spec fn pad_spec(indent: nat) -> Seq<char> {
    Seq::new(2 * indent, |k: int| ' ')
}

/// The printed form of an attribute list: ` key="value"` for each entry.
pub open spec fn dump_attrs_spec(attrs: Seq<(Seq<char>, Seq<char>)>) -> Seq<char>
    decreases attrs.len(),
{
    if attrs.len() == 0 {
        Seq::empty()
    } else {
        dump_attrs_spec(attrs.drop_last()) + " "@ + attrs.last().0 + "=\""@ + attrs.last().1
            + "\""@
    }
}

/// The depth-first pre-order dump of the subtree at `i`, with a hard
/// recursion ceiling of 100 levels: deeper content (or an index out of
/// range) is replaced by a truncation marker.
pub open spec fn dump_spec(s: Seq<NodeData>, i: int, indent: nat) -> Seq<char>
    decreases 101 - indent, 1int, 0int,
{
    if indent > 100 || !(0 <= i < s.len()) {
        pad_spec(indent) + "[max depth reached]\n"@
    } else {
        match s[i].node_type {
            NodeType::Text(t) => pad_spec(indent) + "Text: "@ + t@ + "\n"@,
            NodeType::Comment(c) => pad_spec(indent) + "<!-- "@ + c@ + " -->\n"@,
            NodeType::Element(ed) => pad_spec(indent) + "<"@ + ed.tag_name@ + dump_attrs_spec(
                attrs_view(ed.attrs),
            ) + ">\n"@ + dump_children_spec(s, s[i].children@, 0, indent) + pad_spec(indent)
                + "</"@ + ed.tag_name@ + ">\n"@,
        }
    }
}

pub open spec fn dump_children_spec(s: Seq<NodeData>, kids: Seq<usize>, j: int, indent: nat) -> Seq<
    char,
>
    decreases 101 - indent, 0int, kids.len() - j,
{
    if indent > 100 || j < 0 || j >= kids.len() {
        Seq::empty()
    } else {
        dump_spec(s, kids[j] as int, (indent + 1) as nat) + dump_children_spec(
            s,
            kids,
            j + 1,
            indent,
        )
    }
}

fn push_pad(out: &mut Vec<char>, indent: usize)
    requires
        indent <= 101,
    ensures
        final(out)@ == old(out)@ + pad_spec(indent as nat),
{
    let ghost base = out@;
    let total = 2 * indent;
    let mut k: usize = 0;
    while k < total
        invariant
            0 <= k <= total,
            total == 2 * indent,
            out@ == base + pad_spec(indent as nat).subrange(0, k as int),
        decreases total - k,
    {
        out.push(' ');
        proof {
            assert(out@ =~= base + pad_spec(indent as nat).subrange(0, k + 1));
        }
        k = k + 1;
    }
    proof {
        assert(out@ =~= base + pad_spec(indent as nat));
    }
}

fn dump_attrs(out: &mut Vec<char>, attrs: &AttrMap)
    ensures
        final(out)@ == old(out)@ + dump_attrs_spec(attrs_view(*attrs)),
{
    let ghost base = out@;
    let ghost m = attrs_view(*attrs);
    let mut i: usize = 0;
    while i < attrs.len()
        invariant
            0 <= i <= attrs@.len(),
            m == attrs_view(*attrs),
            out@ == base + dump_attrs_spec(m.take(i as int)),
        decreases attrs@.len() - i,
    {
        proof {
            assert(m.take(i + 1).drop_last() =~= m.take(i as int));
            assert(m.take(i + 1).last() == m[i as int]);
            assert(m[i as int] == (attrs@[i as int].0@, attrs@[i as int].1@));
        }
        push_str_chars(out, " ");
        push_vec_chars(out, &attrs[i].0);
        push_str_chars(out, "=\"");
        push_vec_chars(out, &attrs[i].1);
        push_str_chars(out, "\"");
        proof {
            assert(out@ =~= base + dump_attrs_spec(m.take(i + 1)));
        }
        i = i + 1;
    }
    proof {
        assert(m.take(m.len() as int) =~= m);
    }
}

fn dump_rec(dom: &Dom, id: usize, indent: usize, out: &mut Vec<char>)
    requires
        indent <= 101,
    ensures
        final(out)@ == old(out)@ + dump_spec(dom.nodes@, id as int, indent as nat),
    decreases 101 - indent, 1int, 0int,
{
    let ghost base = out@;
    let ghost s = dom.nodes@;
    if indent > 100 || id >= dom.nodes.len() {
        push_pad(out, indent);
        push_str_chars(out, "[max depth reached]\n");
        proof {
            assert(out@ =~= base + dump_spec(s, id as int, indent as nat));
        }
        return;
    }
    let nref = &dom.nodes[id];
    match &nref.node_type {
        NodeType::Text(t) => {
            push_pad(out, indent);
            push_str_chars(out, "Text: ");
            push_vec_chars(out, t);
            push_str_chars(out, "\n");
            proof {
                assert(out@ =~= base + dump_spec(s, id as int, indent as nat));
            }
        },
        NodeType::Comment(c) => {
            push_pad(out, indent);
            push_str_chars(out, "<!-- ");
            push_vec_chars(out, c);
            push_str_chars(out, " -->\n");
            proof {
                assert(out@ =~= base + dump_spec(s, id as int, indent as nat));
            }
        },
        NodeType::Element(ed) => {
            push_pad(out, indent);
            push_str_chars(out, "<");
            push_vec_chars(out, &ed.tag_name);
            dump_attrs(out, &ed.attrs);
            push_str_chars(out, ">\n");
            let kids = dom.children(id);
            let ghost open_part = out@;
            let mut j: usize = 0;
            while j < kids.len()
                invariant
                    indent <= 100,
                    kids@ == dom.nodes@[id as int].children@,
                    dom.nodes@ == s,
                    0 <= j <= kids@.len(),
                    out@ + dump_children_spec(s, kids@, j as int, indent as nat) == open_part
                        + dump_children_spec(s, kids@, 0, indent as nat),
                decreases kids@.len() - j,
            {
                let ghost pre = out@;
                dump_rec(dom, kids[j], indent + 1, out);
                proof {
                    assert(dump_children_spec(s, kids@, j as int, indent as nat) == dump_spec(
                        s,
                        kids@[j as int] as int,
                        (indent + 1) as nat,
                    ) + dump_children_spec(s, kids@, j + 1, indent as nat));
                    assert(out@ + dump_children_spec(s, kids@, j + 1, indent as nat) =~= pre
                        + dump_children_spec(s, kids@, j as int, indent as nat));
                }
                j = j + 1;
            }
            proof {
                assert(dump_children_spec(s, kids@, kids@.len() as int, indent as nat)
                    =~= Seq::<char>::empty());
                assert(out@ =~= open_part + dump_children_spec(s, kids@, 0, indent as nat));
            }
            push_pad(out, indent);
            push_str_chars(out, "</");
            push_vec_chars(out, &ed.tag_name);
            push_str_chars(out, ">\n");
            proof {
                assert(out@ =~= base + dump_spec(s, id as int, indent as nat));
            }
        },
    }
}

/// The depth-first pre-order textual dump of the subtree at `id`, with a
/// hard recursion ceiling that emits a truncation marker instead of
/// descending without bound.
pub fn dump_tree(dom: &Dom, id: usize) -> (r: Vec<char>)
    ensures
        r@ == dump_spec(dom.nodes@, id as int, 0),
{
    let mut out: Vec<char> = Vec::new();
    dump_rec(dom, id, 0, &mut out);
    proof {
        assert(Seq::<char>::empty() + dump_spec(dom.nodes@, id as int, 0) =~= dump_spec(
            dom.nodes@,
            id as int,
            0,
        ));
    }
    out
}

} // verus!
