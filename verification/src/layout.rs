//! The layering behind the automatic layout of the flowchart.
//!
//! The links of the procedure form a directed graph on the step indices. A
//! depth-first search from the start step (then from every step not reached
//! yet, in step order) keeps every link except those that lead back to a step
//! still being explored; the kept links form an acyclic graph. Each step is
//! then given a level: 0 when no kept link leads to it, otherwise one more
//! than the highest level of a step that leads to it. The canvas places level
//! `k` at height `k` and orders the steps of a level by a topological order of
//! the kept links.
use vstd::prelude::*;

use crate::graph::{step_targets, targets_of};
use crate::models::{Algorithm, Step, StepView, steps_view};

verus! {

broadcast use {crate::models::lemma_steps_view_index, crate::models::lemma_steps_view_len};

// ---------------------------------------------------------------------------
// Graphs on indices
// ---------------------------------------------------------------------------

/// Every adjacency entry is a node of the graph.
pub open spec fn adj_ok(adj: Seq<Seq<usize>>) -> bool {
    forall|x: int, j: int|
        0 <= x < adj.len() && 0 <= j < adj[x].len() ==> #[trigger] adj[x][j] < adj.len()
}

/// `p` is a non-empty walk along the edges of `g`.
pub open spec fn is_path(g: Seq<Seq<usize>>, p: Seq<usize>) -> bool {
    &&& p.len() >= 1
    &&& forall|k: int| 0 <= k < p.len() ==> #[trigger] p[k] < g.len()
    &&& forall|k: int| 0 <= k < p.len() - 1 ==> #[trigger] g[p[k] as int].contains(p[k + 1])
}

/// There is a walk in `g` from `a` to `b`.
pub open spec fn reaches(g: Seq<Seq<usize>>, a: usize, b: usize) -> bool {
    exists|p: Seq<usize>| #[trigger] is_path(g, p) && p[0] == a && p.last() == b
}

/// The view of a vector of adjacency vectors.
pub open spec fn rows_view(v: Seq<Vec<usize>>) -> Seq<Seq<usize>> {
    v.map_values(|r: Vec<usize>| r@)
}

/// Each row of `new` starts with the row of `old`.
pub open spec fn rows_extend(old: Seq<Seq<usize>>, new: Seq<Seq<usize>>) -> bool {
    &&& new.len() == old.len()
    &&& forall|x: int| 0 <= x < old.len() ==> old[x].len() <= (#[trigger] new[x]).len()
    &&& forall|x: int, j: int|
        0 <= x < old.len() && 0 <= j < old[x].len() ==> #[trigger] new[x][j] == old[x][j]
}

proof fn lemma_contains_persists(old: Seq<Seq<usize>>, new: Seq<Seq<usize>>, x: int, v: usize)
    requires
        rows_extend(old, new),
        0 <= x < old.len(),
        old[x].contains(v),
    ensures
        new[x].contains(v),
{
    let j = choose|j: int| 0 <= j < old[x].len() && old[x][j] == v;
    assert(new[x][j] == v);
}

proof fn lemma_path_persists(old: Seq<Seq<usize>>, new: Seq<Seq<usize>>, p: Seq<usize>)
    requires
        rows_extend(old, new),
        is_path(old, p),
    ensures
        is_path(new, p),
{
    assert forall|k: int| 0 <= k < p.len() - 1 implies #[trigger] new[p[k] as int].contains(
        p[k + 1],
    ) by {
        assert(old[p[k] as int].contains(p[k + 1]));
        lemma_contains_persists(old, new, p[k] as int, p[k + 1]);
    }
}

proof fn lemma_reaches_persists(old: Seq<Seq<usize>>, new: Seq<Seq<usize>>, a: usize, b: usize)
    requires
        rows_extend(old, new),
        reaches(old, a, b),
    ensures
        reaches(new, a, b),
{
    let p = choose|p: Seq<usize>| #[trigger] is_path(old, p) && p[0] == a && p.last() == b;
    lemma_path_persists(old, new, p);
}

// ---------------------------------------------------------------------------
// Depth-first search
// ---------------------------------------------------------------------------

/// The number of unvisited nodes.
pub open spec fn unvisited(st: Seq<u8>) -> nat
    decreases st.len(),
{
    if st.len() == 0 {
        0
    } else {
        unvisited(st.drop_last()) + if st.last() == 0 {
            1nat
        } else {
            0nat
        }
    }
}

proof fn lemma_unvisited_decreases(old: Seq<u8>, new: Seq<u8>, u: int)
    requires
        old.len() == new.len(),
        0 <= u < old.len(),
        old[u] == 0,
        new[u] != 0,
        forall|x: int| 0 <= x < old.len() && old[x] != 0 ==> #[trigger] new[x] != 0,
    ensures
        unvisited(new) < unvisited(old),
    decreases old.len(),
{
    lemma_unvisited_le(old.drop_last(), new.drop_last());
    if u < old.len() - 1 {
        lemma_unvisited_decreases(old.drop_last(), new.drop_last(), u);
    }
}

proof fn lemma_unvisited_le(old: Seq<u8>, new: Seq<u8>)
    requires
        old.len() == new.len(),
        forall|x: int| 0 <= x < old.len() && old[x] != 0 ==> #[trigger] new[x] != 0,
    ensures
        unvisited(new) <= unvisited(old),
    decreases old.len(),
{
    if old.len() > 0 {
        lemma_unvisited_le(old.drop_last(), new.drop_last());
    }
}

// ---------------------------------------------------------------------------
// The search, as a function
// ---------------------------------------------------------------------------

/// The state of the search: the state of each node (0 unvisited, 1 being
/// explored, 2 finished), the links kept so far and the finished nodes in
/// the order they finished.
pub ghost struct Search {
    pub st: Seq<u8>,
    pub fwd: Seq<Seq<usize>>,
    pub post: Seq<usize>,
}

/// Exploring node `u` (already marked as being explored): its links in
/// order, then `u` is finished. `fuel` bounds the depth; the search is run
/// with enough of it never to run out.
pub open spec fn visit(adj: Seq<Seq<usize>>, s: Search, u: usize, fuel: nat) -> Search
    decreases fuel, 1int, 0int,
{
    if fuel == 0 {
        s
    } else {
        let t = explore(adj, s, u, 0, (fuel - 1) as nat);
        Search { st: t.st.update(u as int, 2), fwd: t.fwd, post: t.post.push(u) }
    }
}

/// The links of `u` from the `k`-th on: a link to a node being explored is
/// dropped; a link to a finished node is kept; a link to an unvisited node is
/// kept and that node is explored.
pub open spec fn explore(adj: Seq<Seq<usize>>, s: Search, u: usize, k: nat, fuel: nat) -> Search
    decreases fuel, 0int, adj[u as int].len() - k,
{
    if k >= adj[u as int].len() {
        s
    } else {
        let v = adj[u as int][k as int];
        if s.st[v as int] == 1 {
            explore(adj, s, u, k + 1, fuel)
        } else {
            let s1 = Search { fwd: s.fwd.update(u as int, s.fwd[u as int].push(v)), ..s };
            if s.st[v as int] == 2 {
                explore(adj, s1, u, k + 1, fuel)
            } else if fuel == 0 {
                s1
            } else {
                explore(
                    adj,
                    visit(adj, Search { st: s1.st.update(v as int, 1), ..s1 }, v, (fuel - 1) as nat),
                    u,
                    k + 1,
                    fuel,
                )
            }
        }
    }
}

/// Enough depth for a search on `adj`.
pub open spec fn search_fuel(adj: Seq<Seq<usize>>) -> nat {
    2 * adj.len() + 1
}

/// A search started at the unvisited node `r`.
pub open spec fn start_at(adj: Seq<Seq<usize>>, s: Search, r: usize) -> Search {
    visit(adj, Search { st: s.st.update(r as int, 1), ..s }, r, search_fuel(adj))
}

/// Searches started from the nodes `i`, `i + 1`, ... not visited yet.
pub open spec fn sweep(adj: Seq<Seq<usize>>, s: Search, i: nat) -> Search
    decreases adj.len() - i,
{
    if i >= adj.len() {
        s
    } else {
        let s1 = if s.st[i as int] == 0 {
            start_at(adj, s, i as usize)
        } else {
            s
        };
        sweep(adj, s1, i + 1)
    }
}

/// The search from `root` when it is a node, from nothing visited.
pub open spec fn forest_start(adj: Seq<Seq<usize>>, root: usize) -> Search {
    let n = adj.len();
    let s0 = Search {
        st: Seq::new(n, |i: int| 0u8),
        fwd: Seq::new(n, |i: int| Seq::<usize>::empty()),
        post: Seq::empty(),
    };
    if root < n {
        start_at(adj, s0, root)
    } else {
        s0
    }
}

/// The search over `adj`: from `root` when it is a node, then from every
/// node not reached yet, in index order.
pub open spec fn forest(adj: Seq<Seq<usize>>, root: usize) -> Search {
    sweep(adj, forest_start(adj, root), 0)
}

proof fn lemma_unvisited_bound(st: Seq<u8>)
    ensures
        unvisited(st) <= st.len(),
    decreases st.len(),
{
    if st.len() > 0 {
        lemma_unvisited_bound(st.drop_last());
    }
}

/// The stack holds exactly the nodes in state 1, once each.
pub open spec fn inv_stack(n: int, st: Seq<u8>, stack: Seq<usize>) -> bool {
    &&& stack.no_duplicates()
    &&& forall|i: int| 0 <= i < stack.len() ==> #[trigger] stack[i] < n
    &&& forall|x: int| 0 <= x < n ==> (#[trigger] st[x] == 1 <==> stack.contains(x as usize))
}

/// `post` holds exactly the nodes in state 2, once each.
pub open spec fn inv_post(n: int, st: Seq<u8>, post: Seq<usize>) -> bool {
    &&& post.no_duplicates()
    &&& forall|i: int| 0 <= i < post.len() ==> #[trigger] post[i] < n
    &&& forall|x: int| 0 <= x < n ==> (#[trigger] st[x] == 2 <==> post.contains(x as usize))
}

/// Unvisited nodes have no kept links yet.
pub open spec fn inv_unvisited_empty(n: int, st: Seq<u8>, fwd: Seq<Seq<usize>>) -> bool {
    forall|x: int| 0 <= x < n && #[trigger] st[x] == 0 ==> fwd[x].len() == 0
}

/// Kept links are links of the graph.
pub open spec fn inv_fwd_in_adj(adj: Seq<Seq<usize>>, fwd: Seq<Seq<usize>>) -> bool {
    forall|x: int, k: int|
        0 <= x < adj.len() && 0 <= k < fwd[x].len() ==> adj[x].contains(#[trigger] fwd[x][k])
}

/// A kept link to a node that is not finished goes from a stack node to the
/// next one on the stack.
pub open spec fn inv_pending(n: int, st: Seq<u8>, fwd: Seq<Seq<usize>>, stack: Seq<usize>) -> bool {
    forall|x: int, k: int|
        0 <= x < n && st[x] != 0 && 0 <= k < fwd[x].len() && st[#[trigger] fwd[x][k] as int] != 2
            ==> exists|i: int|
            0 <= i < stack.len() - 1 && #[trigger] stack[i] == x && stack[i + 1] == fwd[x][k]
}

/// Every kept link of a finished node leads to a node that finished before it.
pub open spec fn inv_post_order(fwd: Seq<Seq<usize>>, post: Seq<usize>) -> bool {
    forall|k: int, j: int|
        0 <= k < post.len() && 0 <= j < fwd[post[k] as int].len() ==> post.take(k).contains(
            #[trigger] fwd[post[k] as int][j],
        )
}

/// Consecutive stack nodes are joined by kept links.
pub open spec fn inv_stack_linked(fwd: Seq<Seq<usize>>, stack: Seq<usize>) -> bool {
    forall|i: int|
        0 <= i < stack.len() - 1 ==> fwd[#[trigger] stack[i] as int].contains(stack[i + 1])
}

/// Every link of a finished node is kept or leads back to it along kept links.
pub open spec fn inv_back(adj: Seq<Seq<usize>>, st: Seq<u8>, fwd: Seq<Seq<usize>>) -> bool {
    forall|x: int, j: int|
        0 <= x < adj.len() && st[x] == 2 && 0 <= j < adj[x].len() ==> fwd[x].contains(
            #[trigger] adj[x][j],
        ) || reaches(fwd, adj[x][j], x as usize)
}

/// The state of a depth-first search over `adj`: `st[x]` is 0 for an
/// unvisited node, 1 for a node on the stack `stack`, 2 for a finished node;
/// `post` lists the finished nodes in the order they finished; `fwd` holds the
/// kept links of the visited nodes.
pub open spec fn dfs_inv(
    adj: Seq<Seq<usize>>,
    st: Seq<u8>,
    fwd: Seq<Seq<usize>>,
    post: Seq<usize>,
    stack: Seq<usize>,
) -> bool {
    let n = adj.len() as int;
    &&& n <= usize::MAX
    &&& st.len() == n
    &&& fwd.len() == n
    &&& adj_ok(adj)
    &&& forall|x: int| 0 <= x < n ==> #[trigger] st[x] <= 2
    &&& inv_stack(n, st, stack)
    &&& inv_post(n, st, post)
    &&& inv_unvisited_empty(n, st, fwd)
    &&& inv_fwd_in_adj(adj, fwd)
    &&& inv_pending(n, st, fwd, stack)
    &&& inv_post_order(fwd, post)
    &&& inv_stack_linked(fwd, stack)
    &&& inv_back(adj, st, fwd)
}

proof fn lemma_rows_extend_trans(a: Seq<Seq<usize>>, b: Seq<Seq<usize>>, c: Seq<Seq<usize>>)
    requires
        rows_extend(a, b),
        rows_extend(b, c),
    ensures
        rows_extend(a, c),
{
    assert forall|x: int, j: int| 0 <= x < a.len() && 0 <= j < a[x].len() implies #[trigger] c[x][j]
        == a[x][j] by {
        assert(b[x][j] == a[x][j]);
        assert(b[x].len() <= c[x].len());
    }
    assert forall|x: int| 0 <= x < a.len() implies a[x].len() <= (#[trigger] c[x]).len() by {
        assert(a[x].len() <= b[x].len());
    }
}

proof fn lemma_rows_extend_push(fwd: Seq<Seq<usize>>, u: int, v: usize)
    requires
        0 <= u < fwd.len(),
    ensures
        rows_extend(fwd, fwd.update(u, fwd[u].push(v))),
{
    let f2 = fwd.update(u, fwd[u].push(v));
    assert forall|x: int, j: int| 0 <= x < fwd.len() && 0 <= j < fwd[x].len() implies #[trigger] f2[x][j]
        == fwd[x][j] by {
        if x == u {
            assert(f2[x] == fwd[u].push(v));
        }
    }
    assert forall|x: int| 0 <= x < fwd.len() implies fwd[x].len() <= (#[trigger] f2[x]).len() by {
        if x == u {
            assert(f2[x] == fwd[u].push(v));
        }
    }
}

/// Recording the link `u -> v` to a finished node keeps the invariant.
proof fn lemma_keep_finished(
    adj: Seq<Seq<usize>>,
    st: Seq<u8>,
    fwd: Seq<Seq<usize>>,
    post: Seq<usize>,
    stack: Seq<usize>,
    u: usize,
    v: usize,
)
    requires
        dfs_inv(adj, st, fwd, post, stack),
        stack.len() >= 1,
        stack.last() == u,
        adj[u as int].contains(v),
        v < adj.len(),
        st[v as int] == 2,
    ensures
        dfs_inv(adj, st, fwd.update(u as int, fwd[u as int].push(v)), post, stack),
        rows_extend(fwd, fwd.update(u as int, fwd[u as int].push(v))),
{
    let n = adj.len() as int;
    let f2 = fwd.update(u as int, fwd[u as int].push(v));
    assert(stack.contains(u));
    assert(st[u as int] == 1);
    lemma_rows_extend_push(fwd, u as int, v);
    assert(inv_unvisited_empty(n, st, f2));
    assert forall|x: int, k: int| 0 <= x < n && 0 <= k < f2[x].len() implies adj[x].contains(
        #[trigger] f2[x][k],
    ) by {
        if x == u && k == fwd[u as int].len() {
        } else {
            assert(f2[x][k] == fwd[x][k]);
        }
    }
    assert forall|x: int, k: int|
        0 <= x < n && st[x] != 0 && 0 <= k < f2[x].len() && st[#[trigger] f2[x][k] as int]
            != 2 implies exists|i: int|
        0 <= i < stack.len() - 1 && #[trigger] stack[i] == x && stack[i + 1] == f2[x][k] by {
        if x == u && k == fwd[u as int].len() {
        } else {
            assert(f2[x][k] == fwd[x][k]);
        }
    }
    assert forall|k: int, j: int|
        0 <= k < post.len() && 0 <= j < f2[post[k] as int].len() implies post.take(k).contains(
        #[trigger] f2[post[k] as int][j],
    ) by {
        assert(post.contains(post[k]));
        assert(post[k] != u);
        assert(f2[post[k] as int] == fwd[post[k] as int]);
    }
    assert forall|i: int| 0 <= i < stack.len() - 1 implies f2[#[trigger] stack[i] as int].contains(
        stack[i + 1],
    ) by {
        lemma_contains_persists(fwd, f2, stack[i] as int, stack[i + 1]);
    }
    assert forall|x: int, j: int|
        0 <= x < n && st[x] == 2 && 0 <= j < adj[x].len() implies f2[x].contains(
        #[trigger] adj[x][j],
    ) || reaches(f2, adj[x][j], x as usize) by {
        assert(x != u);
        assert(f2[x] == fwd[x]);
        if !fwd[x].contains(adj[x][j]) {
            lemma_reaches_persists(fwd, f2, adj[x][j], x as usize);
        }
    }
}

/// Visiting the unvisited node `v` from `u` (keeping the link and pushing `v`
/// on the stack) keeps the invariant.
proof fn lemma_visit(
    adj: Seq<Seq<usize>>,
    st: Seq<u8>,
    fwd: Seq<Seq<usize>>,
    post: Seq<usize>,
    stack: Seq<usize>,
    u: usize,
    v: usize,
)
    requires
        dfs_inv(adj, st, fwd, post, stack),
        stack.len() >= 1,
        stack.last() == u,
        adj[u as int].contains(v),
        v < adj.len(),
        st[v as int] == 0,
        forall|j: int| 0 <= j < fwd[u as int].len() ==> #[trigger] st[fwd[u as int][j] as int] == 2,
    ensures
        dfs_inv(
            adj,
            st.update(v as int, 1),
            fwd.update(u as int, fwd[u as int].push(v)),
            post,
            stack.push(v),
        ),
        rows_extend(fwd, fwd.update(u as int, fwd[u as int].push(v))),
{
    let n = adj.len() as int;
    let f2 = fwd.update(u as int, fwd[u as int].push(v));
    let s2 = st.update(v as int, 1);
    let k2 = stack.push(v);
    assert(stack.contains(u));
    assert(st[u as int] == 1);
    assert(!stack.contains(v));
    assert(!post.contains(v));
    lemma_rows_extend_push(fwd, u as int, v);
    assert forall|i: int| 0 <= i < k2.len() implies #[trigger] k2[i] < n by {
        if i < stack.len() {
            assert(k2[i] == stack[i]);
        }
    }
    assert forall|x: int| 0 <= x < n implies (#[trigger] s2[x] == 1 <==> k2.contains(x as usize)) by {
        if x == v {
            assert(k2[stack.len() as int] == v);
        } else {
            if stack.contains(x as usize) {
                let i = choose|i: int| 0 <= i < stack.len() && stack[i] == x as usize;
                assert(k2[i] == x as usize);
            }
            if k2.contains(x as usize) {
                let i = choose|i: int| 0 <= i < k2.len() && k2[i] == x as usize;
                assert(x as usize != v);
                assert(i < stack.len());
                assert(stack[i] == x as usize);
            }
        }
    }
    assert(inv_stack(n, s2, k2));
    assert(inv_post(n, s2, post));
    assert forall|x: int| 0 <= x < n && #[trigger] s2[x] == 0 implies f2[x].len() == 0 by {
        assert(x != u);
        assert(x != v);
    }
    assert forall|x: int, k: int| 0 <= x < n && 0 <= k < f2[x].len() implies adj[x].contains(
        #[trigger] f2[x][k],
    ) by {
        if x == u && k == fwd[u as int].len() {
        } else {
            assert(f2[x][k] == fwd[x][k]);
        }
    }
    assert forall|x: int, k: int|
        0 <= x < n && s2[x] != 0 && 0 <= k < f2[x].len() && s2[#[trigger] f2[x][k] as int]
            != 2 implies exists|i: int|
        0 <= i < k2.len() - 1 && #[trigger] k2[i] == x && k2[i + 1] == f2[x][k] by {
        if x == u && k == fwd[u as int].len() {
            let i = stack.len() - 1;
            assert(k2[i] == u);
            assert(k2[i + 1] == v);
        } else if x == u {
            assert(f2[x][k] == fwd[u as int][k]);
            assert(st[fwd[u as int][k] as int] == 2);
            assert(fwd[u as int][k] != v);
        } else if x == v {
            assert(fwd[x].len() == 0);
        } else {
            assert(f2[x][k] == fwd[x][k]);
            let w = fwd[x][k];
            assert(adj[x].contains(w));
            assert(w < n);
            if w == v {
                assert(st[w as int] != 2);
                let i = choose|i: int|
                    0 <= i < stack.len() - 1 && #[trigger] stack[i] == x && stack[i + 1] == w;
                assert(stack.contains(v));
            } else {
                assert(st[w as int] != 2);
                let i = choose|i: int|
                    0 <= i < stack.len() - 1 && #[trigger] stack[i] == x && stack[i + 1] == w;
                assert(k2[i] == x && k2[i + 1] == w);
            }
        }
    }
    assert forall|k: int, j: int|
        0 <= k < post.len() && 0 <= j < f2[post[k] as int].len() implies post.take(k).contains(
        #[trigger] f2[post[k] as int][j],
    ) by {
        assert(post.contains(post[k]));
        assert(post[k] != u);
        assert(f2[post[k] as int] == fwd[post[k] as int]);
    }
    assert forall|i: int| 0 <= i < k2.len() - 1 implies f2[#[trigger] k2[i] as int].contains(
        k2[i + 1],
    ) by {
        if i == stack.len() - 1 {
            assert(k2[i] == u);
            assert(f2[u as int][fwd[u as int].len() as int] == v);
        } else {
            assert(k2[i] == stack[i]);
            assert(k2[i + 1] == stack[i + 1]);
            lemma_contains_persists(fwd, f2, stack[i] as int, stack[i + 1]);
        }
    }
    assert forall|x: int, j: int|
        0 <= x < n && s2[x] == 2 && 0 <= j < adj[x].len() implies f2[x].contains(
        #[trigger] adj[x][j],
    ) || reaches(f2, adj[x][j], x as usize) by {
        assert(x != u);
        assert(x != v);
        assert(f2[x] == fwd[x]);
        if !fwd[x].contains(adj[x][j]) {
            lemma_reaches_persists(fwd, f2, adj[x][j], x as usize);
        }
    }
}

/// Finishing the top node `u` of the stack, once all its links are scanned,
/// keeps the invariant.
proof fn lemma_finish(
    adj: Seq<Seq<usize>>,
    st: Seq<u8>,
    fwd: Seq<Seq<usize>>,
    post: Seq<usize>,
    stack: Seq<usize>,
    u: usize,
)
    requires
        dfs_inv(adj, st, fwd, post, stack),
        stack.len() >= 1,
        stack.last() == u,
        forall|j: int| 0 <= j < fwd[u as int].len() ==> #[trigger] st[fwd[u as int][j] as int] == 2,
        forall|j: int|
            0 <= j < adj[u as int].len() ==> fwd[u as int].contains(#[trigger] adj[u as int][j])
                || reaches(fwd, adj[u as int][j], u),
    ensures
        dfs_inv(adj, st.update(u as int, 2), fwd, post.push(u), stack.drop_last()),
{
    let n = adj.len() as int;
    let s2 = st.update(u as int, 2);
    let p2 = post.push(u);
    let k2 = stack.drop_last();
    assert(stack.contains(u));
    assert(st[u as int] == 1);
    assert(!post.contains(u));
    assert(!k2.contains(u)) by {
        if k2.contains(u) {
            let i = choose|i: int| 0 <= i < k2.len() && k2[i] == u;
            assert(stack[i] == stack[stack.len() - 1]);
        }
    }
    assert forall|x: int| 0 <= x < n implies (#[trigger] s2[x] == 1 <==> k2.contains(x as usize)) by {
        if x != u {
            if stack.contains(x as usize) {
                let i = choose|i: int| 0 <= i < stack.len() && stack[i] == x as usize;
                assert(x as usize != u);
                assert(i != stack.len() - 1);
                assert(k2[i] == x as usize);
            }
            if k2.contains(x as usize) {
                let i = choose|i: int| 0 <= i < k2.len() && k2[i] == x as usize;
                assert(stack[i] == x as usize);
            }
        }
    }
    assert(inv_stack(n, s2, k2));
    assert forall|i: int| 0 <= i < p2.len() implies #[trigger] p2[i] < n by {
        if i < post.len() {
            assert(p2[i] == post[i]);
        }
    }
    assert forall|x: int| 0 <= x < n implies (#[trigger] s2[x] == 2 <==> p2.contains(x as usize)) by {
        if x == u {
            assert(p2[post.len() as int] == u);
        } else {
            if post.contains(x as usize) {
                let i = choose|i: int| 0 <= i < post.len() && post[i] == x as usize;
                assert(p2[i] == x as usize);
            }
            if p2.contains(x as usize) {
                let i = choose|i: int| 0 <= i < p2.len() && p2[i] == x as usize;
                assert(x as usize != u);
                assert(i < post.len());
                assert(post[i] == x as usize);
            }
        }
    }
    assert(inv_post(n, s2, p2));
    assert forall|x: int, k: int|
        0 <= x < n && s2[x] != 0 && 0 <= k < fwd[x].len() && s2[#[trigger] fwd[x][k] as int]
            != 2 implies exists|i: int|
        0 <= i < k2.len() - 1 && #[trigger] k2[i] == x && k2[i + 1] == fwd[x][k] by {
        let w = fwd[x][k];
        assert(adj[x].contains(w));
        assert(w != u);
        if x == u {
            assert(st[w as int] == 2);
        } else {
            assert(st[w as int] != 2);
            let i = choose|i: int|
                0 <= i < stack.len() - 1 && #[trigger] stack[i] == x && stack[i + 1] == w;
            assert(i + 1 != stack.len() - 1);
            assert(k2[i] == x && k2[i + 1] == w);
        }
    }
    assert forall|k: int, j: int|
        0 <= k < p2.len() && 0 <= j < fwd[p2[k] as int].len() implies p2.take(k).contains(
        #[trigger] fwd[p2[k] as int][j],
    ) by {
        if k == post.len() {
            assert(p2.take(k) =~= post);
            let w = fwd[u as int][j];
            assert(st[w as int] == 2);
            assert(adj[u as int].contains(w));
        } else {
            assert(p2[k] == post[k]);
            assert(p2.take(k) =~= post.take(k));
        }
    }
    assert forall|i: int| 0 <= i < k2.len() - 1 implies fwd[#[trigger] k2[i] as int].contains(
        k2[i + 1],
    ) by {
        assert(k2[i] == stack[i]);
        assert(k2[i + 1] == stack[i + 1]);
    }
    assert forall|x: int, j: int|
        0 <= x < n && s2[x] == 2 && 0 <= j < adj[x].len() implies fwd[x].contains(
        #[trigger] adj[x][j],
    ) || reaches(fwd, adj[x][j], x as usize) by {
        if x != u {
            assert(st[x] == 2);
        }
    }
}

/// Explores the node `u` that was just pushed on the stack, then marks it
/// finished.
fn dfs(
    u: usize,
    adj: &Vec<Vec<usize>>,
    st: &mut Vec<u8>,
    fwd: &mut Vec<Vec<usize>>,
    post: &mut Vec<usize>,
    Ghost(stack): Ghost<Seq<usize>>,
    Ghost(fuel): Ghost<nat>,
)
    requires
        dfs_inv(rows_view(adj@), old(st)@, rows_view(old(fwd)@), old(post)@, stack),
        stack.len() >= 1,
        stack.last() == u,
        old(fwd)@[u as int]@.len() == 0,
        fuel >= 2 * unvisited(old(st)@) + 1,
    ensures
        (Search { st: final(st)@, fwd: rows_view(final(fwd)@), post: final(post)@ }) == visit(
            rows_view(adj@),
            Search { st: old(st)@, fwd: rows_view(old(fwd)@), post: old(post)@ },
            u,
            fuel,
        ),
        dfs_inv(rows_view(adj@), final(st)@, rows_view(final(fwd)@), final(post)@, stack.drop_last()),
        final(st)@[u as int] == 2,
        forall|x: int|
            0 <= x < final(st)@.len() && old(st)@[x] != 0 && x != u ==> #[trigger] final(st)@[x] == old(st)@[x],
        forall|x: int|
            0 <= x < final(st)@.len() && old(st)@[x] != 0 && x != u ==> #[trigger] final(fwd)@[x] == old(fwd)@[x],
        rows_extend(rows_view(old(fwd)@), rows_view(final(fwd)@)),
        final(post)@.len() >= old(post)@.len(),
        final(post)@.take(old(post)@.len() as int) == old(post)@,
    decreases unvisited(old(st)@),
{
    let ghost adjv = rows_view(adj@);
    let ghost st0 = st@;
    let ghost fwd0 = rows_view(fwd@);
    let ghost post0 = post@;
    let ghost n = adjv.len();
    let ghost s0 = Search { st: st0, fwd: fwd0, post: post0 };
    let ghost f1 = (fuel - 1) as nat;
    proof {
        assert(stack.contains(u));
        assert(st@[u as int] == 1);
    }
    let deg = adj[u].len();
    let mut k: usize = 0;
    while k < deg
        invariant
            adjv == rows_view(adj@),
            n == adjv.len(),
            u < n,
            deg == adjv[u as int].len(),
            0 <= k <= deg,
            stack.len() >= 1,
            stack.last() == u,
            dfs_inv(adjv, st@, rows_view(fwd@), post@, stack),
            st@[u as int] == 1,
            forall|x: int|
                0 <= x < n && st0[x] != 0 ==> #[trigger] st@[x] == st0[x],
            forall|x: int|
                0 <= x < n && st0[x] != 0 && x != u ==> #[trigger] fwd@[x] == old(fwd)@[x],
            st0.len() == n,
            st0 == old(st)@,
            fwd0.len() == n,
            fwd0[u as int].len() == 0,
            rows_extend(fwd0, rows_view(fwd@)),
            post@.len() >= post0.len(),
            post@.take(post0.len() as int) == post0,
            forall|j: int|
                0 <= j < rows_view(fwd@)[u as int].len() ==> #[trigger] st@[rows_view(
                    fwd@,
                )[u as int][j] as int] == 2,
            forall|j: int|
                0 <= j < k ==> rows_view(fwd@)[u as int].contains(#[trigger] adjv[u as int][j])
                    || reaches(rows_view(fwd@), adjv[u as int][j], u),
            fuel >= 2 * unvisited(st0) + 1,
            f1 == fuel - 1,
            s0 == (Search { st: st0, fwd: fwd0, post: post0 }),
            explore(adjv, s0, u, 0, f1) == explore(
                adjv,
                Search { st: st@, fwd: rows_view(fwd@), post: post@ },
                u,
                k as nat,
                f1,
            ),
        decreases deg - k,
    {
        let v = adj[u][k];
        let ghost cur = Search { st: st@, fwd: rows_view(fwd@), post: post@ };
        let sv = st[v];
        let ghost st1 = st@;
        let ghost fwd1 = rows_view(fwd@);
        let ghost post1 = post@;
        proof {
            assert(adjv[u as int].contains(v)) by {
                assert(adjv[u as int][k as int] == v);
            }
            assert(v < n);
        }
        if sv == 1 {
            proof {
                assert(stack.contains(v));
                let i = choose|i: int| 0 <= i < stack.len() && stack[i] == v;
                let p = stack.subrange(i, stack.len() as int);
                assert forall|m: int| 0 <= m < p.len() - 1 implies #[trigger] fwd1[p[m] as int].contains(
                    p[m + 1],
                ) by {
                    assert(p[m] == stack[i + m]);
                    assert(p[m + 1] == stack[i + m + 1]);
                }
                assert(is_path(fwd1, p));
                assert(p[0] == v && p.last() == u);
                assert(reaches(fwd1, v, u));
                assert(explore(adjv, cur, u, k as nat, f1) == explore(adjv, cur, u, (k + 1) as nat, f1));
            }
        } else if sv == 2 {
            proof {
                lemma_keep_finished(adjv, st1, fwd1, post1, stack, u, v);
            }
            fwd[u].push(v);
            proof {
                assert(rows_view(fwd@) =~= fwd1.update(u as int, fwd1[u as int].push(v)));
                assert(explore(adjv, cur, u, k as nat, f1) == explore(
                    adjv,
                    Search { st: st@, fwd: rows_view(fwd@), post: post@ },
                    u,
                    (k + 1) as nat,
                    f1,
                ));
                lemma_rows_extend_trans(fwd0, fwd1, rows_view(fwd@));
                assert forall|j: int| 0 <= j < k + 1 implies rows_view(fwd@)[u as int].contains(
                    #[trigger] adjv[u as int][j],
                ) || reaches(rows_view(fwd@), adjv[u as int][j], u) by {
                    if j == k {
                        assert(rows_view(fwd@)[u as int][fwd1[u as int].len() as int] == v);
                    } else if fwd1[u as int].contains(adjv[u as int][j]) {
                        lemma_contains_persists(fwd1, rows_view(fwd@), u as int, adjv[u as int][j]);
                    } else {
                        lemma_reaches_persists(fwd1, rows_view(fwd@), adjv[u as int][j], u);
                    }
                }
            }
        } else {
            proof {
                lemma_visit(adjv, st1, fwd1, post1, stack, u, v);
            }
            fwd[u].push(v);
            st.set(v, 1);
            let ghost fwd2 = rows_view(fwd@);
            proof {
                assert(fwd2 =~= fwd1.update(u as int, fwd1[u as int].push(v)));
                assert(st@ =~= st1.update(v as int, 1));
                assert(st0[v as int] == 0) by {
                    if st0[v as int] != 0 {
                        assert(st1[v as int] == st0[v as int]);
                    }
                }
                lemma_unvisited_decreases(st0, st@, v as int);
                assert(unvisited(st@) < unvisited(old(st)@));
                assert(f1 > 0);
            }
            let ghost marked = Search { st: st@, fwd: fwd2, post: post@ };
            dfs(v, adj, st, fwd, post, Ghost(stack.push(v)), Ghost((f1 - 1) as nat));
            proof {
                assert(explore(adjv, cur, u, k as nat, f1) == explore(
                    adjv,
                    visit(adjv, marked, v, (f1 - 1) as nat),
                    u,
                    (k + 1) as nat,
                    f1,
                ));
                assert(stack.push(v).drop_last() =~= stack);
                lemma_rows_extend_trans(fwd1, fwd2, rows_view(fwd@));
                lemma_rows_extend_trans(fwd0, fwd1, rows_view(fwd@));
                assert(rows_view(fwd@)[u as int] == fwd2[u as int]) by {
                    assert(st1[u as int] == 1);
                }
                assert forall|j: int| 0 <= j < k + 1 implies rows_view(fwd@)[u as int].contains(
                    #[trigger] adjv[u as int][j],
                ) || reaches(rows_view(fwd@), adjv[u as int][j], u) by {
                    if j == k {
                        assert(rows_view(fwd@)[u as int][fwd1[u as int].len() as int] == v);
                    } else if fwd1[u as int].contains(adjv[u as int][j]) {
                        lemma_contains_persists(fwd1, rows_view(fwd@), u as int, adjv[u as int][j]);
                    } else {
                        lemma_reaches_persists(fwd1, rows_view(fwd@), adjv[u as int][j], u);
                    }
                }
                assert forall|j: int|
                    0 <= j < rows_view(fwd@)[u as int].len() implies #[trigger] st@[rows_view(
                        fwd@,
                    )[u as int][j] as int] == 2 by {
                    if j < fwd1[u as int].len() {
                        assert(rows_view(fwd@)[u as int][j] == fwd1[u as int][j]);
                        assert(st1[fwd1[u as int][j] as int] == 2);
                    }
                }
            }
        }
        k += 1;
    }
    proof {
        lemma_finish(adjv, st@, rows_view(fwd@), post@, stack, u);
        assert(explore(adjv, Search { st: st@, fwd: rows_view(fwd@), post: post@ }, u, k as nat, f1)
            == Search { st: st@, fwd: rows_view(fwd@), post: post@ });
    }
    let ghost before = Search { st: st@, fwd: rows_view(fwd@), post: post@ };
    st.set(u, 2);
    post.push(u);
    proof {
        assert(post@.take(post0.len() as int) =~= post0);
        assert(st@ =~= before.st.update(u as int, 2));
        assert(post@ =~= before.post.push(u));
    }
}


/// Starting a search at the unvisited node `r` with an empty stack keeps the
/// invariant.
proof fn lemma_start(
    adj: Seq<Seq<usize>>,
    st: Seq<u8>,
    fwd: Seq<Seq<usize>>,
    post: Seq<usize>,
    r: usize,
)
    requires
        dfs_inv(adj, st, fwd, post, Seq::empty()),
        r < adj.len(),
        st[r as int] == 0,
    ensures
        dfs_inv(adj, st.update(r as int, 1), fwd, post, Seq::empty().push(r)),
{
    let n = adj.len() as int;
    let s2 = st.update(r as int, 1);
    let k2 = Seq::empty().push(r);
    assert forall|x: int| 0 <= x < n implies (#[trigger] s2[x] == 1 <==> k2.contains(x as usize)) by {
        if x == r {
            assert(k2[0] == r);
        } else {
            assert(!Seq::<usize>::empty().contains(x as usize));
            if k2.contains(x as usize) {
                assert(k2[0] == x as usize);
            }
        }
    }
    assert(!post.contains(r));
    assert forall|x: int, k: int|
        0 <= x < n && s2[x] != 0 && 0 <= k < fwd[x].len() && s2[#[trigger] fwd[x][k] as int]
            != 2 implies exists|i: int|
        0 <= i < k2.len() - 1 && #[trigger] k2[i] == x && k2[i + 1] == fwd[x][k] by {
        assert(x != r);
        let w = fwd[x][k];
        assert(adj[x].contains(w));
        assert(st[w as int] != 2);
        assert(!Seq::<usize>::empty().contains(x as usize));
        assert(st[x] == 2);
    }
}

/// Runs the search from `root` (when it is a node), then from every node not
/// reached yet in index order. Returns the kept links and the nodes in the
/// order they finished.
fn search_forest(adj: &Vec<Vec<usize>>, root: usize) -> (r: (Vec<Vec<usize>>, Vec<usize>))
    requires
        adj_ok(rows_view(adj@)),
    ensures
        dfs_inv(
            rows_view(adj@),
            Seq::new(adj@.len(), |i: int| 2u8),
            rows_view(r.0@),
            r.1@,
            Seq::empty(),
        ),
        rows_view(r.0@) == forest(rows_view(adj@), root).fwd,
        r.1@ == forest(rows_view(adj@), root).post,
{
    let ghost adjv = rows_view(adj@);
    let n = adj.len();
    let mut st: Vec<u8> = Vec::new();
    let mut fwd: Vec<Vec<usize>> = Vec::new();
    let mut post: Vec<usize> = Vec::new();
    for i in 0..n
        invariant
            n == adj@.len(),
            st@.len() == i,
            fwd@.len() == i,
            forall|x: int| 0 <= x < i ==> #[trigger] st@[x] == 0,
            forall|x: int| 0 <= x < i ==> (#[trigger] fwd@[x])@.len() == 0,
    {
        st.push(0);
        fwd.push(Vec::new());
    }
    let ghost s_init = Search {
        st: Seq::new(n as nat, |i: int| 0u8),
        fwd: Seq::new(n as nat, |i: int| Seq::<usize>::empty()),
        post: Seq::empty(),
    };
    proof {
        assert(dfs_inv(adjv, st@, rows_view(fwd@), post@, Seq::empty()));
        assert(st@ =~= s_init.st);
        assert forall|x: int| 0 <= x < n implies rows_view(fwd@)[x] == s_init.fwd[x] by {
            assert(fwd@[x]@ =~= Seq::<usize>::empty());
        }
        assert(rows_view(fwd@) =~= s_init.fwd);
        assert(post@ =~= s_init.post);
    }
    if root < n {
        proof {
            lemma_start(adjv, st@, rows_view(fwd@), post@, root);
        }
        st.set(root, 1);
        proof {
            assert(rows_view(fwd@)[root as int].len() == 0);
            assert(st@ =~= s_init.st.update(root as int, 1));
        }
        proof {
            lemma_unvisited_bound(st@);
        }
        dfs(
            root,
            adj,
            &mut st,
            &mut fwd,
            &mut post,
            Ghost(Seq::empty().push(root)),
            Ghost(search_fuel(adjv)),
        );
        proof {
            assert(Seq::<usize>::empty().push(root).drop_last() =~= Seq::<usize>::empty());
        }
    }
    let ghost s1 = Search { st: st@, fwd: rows_view(fwd@), post: post@ };
    proof {
        assert(s1 == forest_start(adjv, root));
    }
    for i in 0..n
        invariant
            n == adj@.len(),
            adjv == rows_view(adj@),
            dfs_inv(adjv, st@, rows_view(fwd@), post@, Seq::empty()),
            forall|x: int| 0 <= x < i ==> #[trigger] st@[x] != 0,
            sweep(adjv, s1, 0) == sweep(
                adjv,
                Search { st: st@, fwd: rows_view(fwd@), post: post@ },
                i as nat,
            ),
    {
        let ghost cur = Search { st: st@, fwd: rows_view(fwd@), post: post@ };
        if st[i] == 0 {
            proof {
                lemma_start(adjv, st@, rows_view(fwd@), post@, i);
            }
            st.set(i, 1);
            let ghost st1 = st@;
            proof {
                lemma_unvisited_bound(st@);
            }
            dfs(
                i,
                adj,
                &mut st,
                &mut fwd,
                &mut post,
                Ghost(Seq::empty().push(i)),
                Ghost(search_fuel(adjv)),
            );
            proof {
                assert(Seq::<usize>::empty().push(i).drop_last() =~= Seq::<usize>::empty());
                assert forall|x: int| 0 <= x < i + 1 implies #[trigger] st@[x] != 0 by {
                    if x < i {
                        assert(st1[x] != 0);
                    }
                }
                assert(st1 =~= cur.st.update(i as int, 1));
                assert(sweep(adjv, cur, i as nat) == sweep(adjv, start_at(adjv, cur, i), (i + 1) as nat));
            }
        } else {
            proof {
                assert(sweep(adjv, cur, i as nat) == sweep(adjv, cur, (i + 1) as nat));
            }
        }
    }
    proof {
        assert(sweep(adjv, Search { st: st@, fwd: rows_view(fwd@), post: post@ }, n as nat) == (
        Search { st: st@, fwd: rows_view(fwd@), post: post@ }));
    }
    proof {
        assert forall|x: int| 0 <= x < n implies #[trigger] st@[x] == 2 by {
            assert(!Seq::<usize>::empty().contains(x as usize));
            assert(st@[x] != 1);
        }
        assert(st@ =~= Seq::new(adj@.len(), |i: int| 2u8));
    }
    (fwd, post)
}


/// The graph `g` (with `n` nodes) lists only nodes.
pub open spec fn rows_ok(g: Seq<Seq<usize>>, n: int) -> bool {
    &&& g.len() == n
    &&& forall|x: int, k: int| 0 <= x < n && 0 <= k < g[x].len() ==> #[trigger] g[x][k] < n
}

/// `order` lists each of the nodes `0..n` exactly once.
pub open spec fn is_node_order(order: Seq<usize>, n: int) -> bool {
    &&& order.no_duplicates()
    &&& forall|p: int| 0 <= p < order.len() ==> #[trigger] order[p] < n
    &&& forall|x: int| 0 <= x < n ==> order.contains(#[trigger] (x as usize))
}

/// Every link of `g` goes forward in `order`.
pub open spec fn is_topological(g: Seq<Seq<usize>>, order: Seq<usize>) -> bool {
    forall|p: int, q: int|
        #![trigger order[p], order[q]]
        0 <= p < order.len() && 0 <= q < order.len() && g[order[p] as int].contains(order[q])
            ==> p < q
}

/// `levels` gives 0 to a node no link of `g` leads to, and otherwise one more
/// than the highest level of a node that leads to it.
#[verifier::opaque]
pub open spec fn is_longest_path_levelling(g: Seq<Seq<usize>>, levels: Seq<usize>) -> bool {
    &&& levels.len() == g.len()
    &&& forall|x: int, k: int|
        0 <= x < g.len() && 0 <= k < g[x].len() ==> levels[#[trigger] g[x][k] as int] >= levels[x]
            + 1
    &&& forall|v: int|
        0 <= v < g.len() ==> #[trigger] levels[v] == 0 || exists|x: int, k: int|
            0 <= x < g.len() && 0 <= k < g[x].len() && #[trigger] g[x][k] == v && levels[v]
                == levels[x] + 1
}

proof fn lemma_levelling_edge(g: Seq<Seq<usize>>, l: Seq<usize>, x: int, k: int)
    requires
        is_longest_path_levelling(g, l),
        0 <= x < g.len(),
        0 <= k < g[x].len(),
    ensures
        l.len() == g.len(),
        l[g[x][k] as int] >= l[x] + 1,
{
    reveal(is_longest_path_levelling);
}

proof fn lemma_levelling_node(g: Seq<Seq<usize>>, l: Seq<usize>, v: int)
    requires
        is_longest_path_levelling(g, l),
        0 <= v < g.len(),
    ensures
        l.len() == g.len(),
        l[v] == 0 || exists|x: int, k: int|
            0 <= x < g.len() && 0 <= k < g[x].len() && #[trigger] g[x][k] == v && l[v] == l[x] + 1,
{
    reveal(is_longest_path_levelling);
}

proof fn lemma_level_from_parents(g: Seq<Seq<usize>>, l1: Seq<usize>, l2: Seq<usize>, v: int)
    requires
        0 <= v < g.len(),
        is_longest_path_levelling(g, l1),
        is_longest_path_levelling(g, l2),
        forall|x: int, j: int|
            0 <= x < g.len() && 0 <= j < g[x].len() && #[trigger] g[x][j] == v ==> l1[x] == l2[x],
    ensures
        l1[v] == l2[v],
{
    lemma_levelling_node(g, l1, v);
    lemma_levelling_node(g, l2, v);
    if l1[v] != 0 {
        let (x, j) = choose|x: int, j: int|
            0 <= x < g.len() && 0 <= j < g[x].len() && #[trigger] g[x][j] == v && l1[v] == l1[x]
                + 1;
        lemma_levelling_edge(g, l2, x, j);
    }
    if l2[v] != 0 {
        let (x, j) = choose|x: int, j: int|
            0 <= x < g.len() && 0 <= j < g[x].len() && #[trigger] g[x][j] == v && l2[v] == l2[x]
                + 1;
        lemma_levelling_edge(g, l1, x, j);
    }
}

proof fn lemma_parent_earlier(g: Seq<Seq<usize>>, order: Seq<usize>, p: int, x: int, j: int)
    requires
        g.len() <= usize::MAX,
        is_node_order(order, g.len() as int),
        is_topological(g, order),
        0 <= p < order.len(),
        0 <= x < g.len(),
        0 <= j < g[x].len(),
        g[x][j] == order[p],
    ensures
        exists|q: int| 0 <= q < p && order[q] == x as usize,
{
    assert(order.contains(x as usize));
    let q = choose|q: int| 0 <= q < order.len() && order[q] == x as usize;
    assert(order[q] as int == x);
    assert(g[order[q] as int][j] == order[p]);
    assert(g[order[q] as int].contains(order[p]));
    assert(q < p);
}

proof fn lemma_levels_agree_upto(
    g: Seq<Seq<usize>>,
    order: Seq<usize>,
    l1: Seq<usize>,
    l2: Seq<usize>,
    k: int,
)
    requires
        g.len() <= usize::MAX,
        rows_ok(g, g.len() as int),
        is_node_order(order, g.len() as int),
        is_topological(g, order),
        is_longest_path_levelling(g, l1),
        is_longest_path_levelling(g, l2),
        0 <= k <= order.len(),
    ensures
        forall|p: int| 0 <= p < k ==> l1[#[trigger] order[p] as int] == l2[order[p] as int],
    decreases k,
{
    if k > 0 {
        lemma_levels_agree_upto(g, order, l1, l2, k - 1);
        let v = order[k - 1] as int;
        assert forall|x: int, j: int|
            0 <= x < g.len() && 0 <= j < g[x].len() && #[trigger] g[x][j] == v implies l1[x]
            == l2[x] by {
            lemma_parent_earlier(g, order, k - 1, x, j);
            let q = choose|q: int| 0 <= q < k - 1 && order[q] == x as usize;
            assert(l1[order[q] as int] == l2[order[q] as int]);
        }
        lemma_level_from_parents(g, l1, l2, v);
    }
}

/// The levels are determined by the kept links: two levellings of an
/// acyclic graph (one with a topological order) as longest paths agree.
pub proof fn law_levels_unique(
    g: Seq<Seq<usize>>,
    order: Seq<usize>,
    l1: Seq<usize>,
    l2: Seq<usize>,
)
    requires
        g.len() <= usize::MAX,
        rows_ok(g, g.len() as int),
        is_node_order(order, g.len() as int),
        is_topological(g, order),
        is_longest_path_levelling(g, l1),
        is_longest_path_levelling(g, l2),
    ensures
        l1 == l2,
{
    lemma_levels_agree_upto(g, order, l1, l2, order.len() as int);
    if g.len() > 0 {
        lemma_levelling_node(g, l1, 0);
        lemma_levelling_node(g, l2, 0);
    } else {
        reveal(is_longest_path_levelling);
    }
    assert forall|v: int| 0 <= v < g.len() implies l1[v] == l2[v] by {
        assert(order.contains(v as usize));
        let p = choose|p: int| 0 <= p < order.len() && order[p] == v as usize;
        assert(l1[order[p] as int] == l2[order[p] as int]);
    }
    assert(l1 =~= l2);
}

/// The position of each node in `order`.
fn positions(order: &Vec<usize>, n: usize) -> (rank: Vec<usize>)
    requires
        is_node_order(order@, n as int),
    ensures
        rank@.len() == n,
        forall|x: int| 0 <= x < n ==> #[trigger] rank@[x] < order@.len(),
        forall|x: int| 0 <= x < n ==> order@[#[trigger] rank@[x] as int] == x,
        forall|p: int| 0 <= p < order@.len() ==> rank@[#[trigger] order@[p] as int] == p,
{
    let mut rank: Vec<usize> = Vec::new();
    for i in 0..n
        invariant
            rank@.len() == i,
    {
        rank.push(0);
    }
    let m = order.len();
    for p in 0..m
        invariant
            m == order@.len(),
            rank@.len() == n,
            is_node_order(order@, n as int),
            forall|q: int| 0 <= q < p ==> rank@[#[trigger] order@[q] as int] == q,
    {
        let x = order[p];
        rank.set(x, p);
        proof {
            assert forall|q: int| 0 <= q < p + 1 implies rank@[#[trigger] order@[q] as int] == q by {
                if q < p {
                    assert(order@[q] != order@[p as int]);
                }
            }
        }
    }
    proof {
        assert forall|x: int| 0 <= x < n implies #[trigger] rank@[x] < order@.len() && order@[rank@[x] as int] == x by {
            assert(order@.contains(x as usize));
            let p = choose|p: int| 0 <= p < order@.len() && order@[p] == x as usize;
            assert(rank@[order@[p] as int] == p);
        }
    }
    rank
}

/// The levels of the nodes: processing the nodes in `order`, each link
/// `u -> v` raises the level of `v` to at least one more than that of `u`.
fn assign_levels(g: &Vec<Vec<usize>>, order: &Vec<usize>) -> (levels: Vec<usize>)
    requires
        rows_ok(rows_view(g@), g@.len() as int),
        is_node_order(order@, g@.len() as int),
        is_topological(rows_view(g@), order@),
    ensures
        is_longest_path_levelling(rows_view(g@), levels@),
{
    reveal(is_longest_path_levelling);
    let ghost gv = rows_view(g@);
    let n = g.len();
    let rank = positions(order, n);
    let mut levels: Vec<usize> = Vec::new();
    for i in 0..n
        invariant
            levels@.len() == i,
            forall|x: int| 0 <= x < i ==> #[trigger] levels@[x] == 0,
    {
        levels.push(0);
    }
    let m = order.len();
    for p in 0..m
        invariant
            n == g@.len(),
            m == order@.len(),
            gv == rows_view(g@),
            rows_ok(gv, n as int),
            is_node_order(order@, n as int),
            is_topological(gv, order@),
            rank@.len() == n,
            forall|x: int| 0 <= x < n ==> #[trigger] rank@[x] < order@.len(),
            forall|x: int| 0 <= x < n ==> order@[#[trigger] rank@[x] as int] == x,
            forall|q: int| 0 <= q < order@.len() ==> rank@[#[trigger] order@[q] as int] == q,
            levels@.len() == n,
            forall|x: int| 0 <= x < n ==> #[trigger] levels@[x] <= p,
            forall|x: int, k: int|
                0 <= x < n && rank@[x] < p && 0 <= k < gv[x].len() ==> levels@[#[trigger] gv[x][k] as int]
                    >= levels@[x] + 1,
            forall|v: int|
                0 <= v < n ==> #[trigger] levels@[v] == 0 || exists|x: int, k: int|
                    0 <= x < n && rank@[x] < p && 0 <= k < gv[x].len() && #[trigger] gv[x][k] == v
                        && levels@[v] == levels@[x] + 1,
    {
        let u = order[p];
        let lu = levels[u];
        let deg = g[u].len();
        let ghost lev0 = levels@;
        proof {
            assert(rank@[u as int] == p);
        }
        for k in 0..deg
            invariant
                n == g@.len(),
                gv == rows_view(g@),
                rows_ok(gv, n as int),
                is_node_order(order@, n as int),
                is_topological(gv, order@),
                rank@.len() == n,
                forall|x: int| 0 <= x < n ==> #[trigger] rank@[x] < order@.len(),
                forall|x: int| 0 <= x < n ==> order@[#[trigger] rank@[x] as int] == x,
                forall|q: int| 0 <= q < order@.len() ==> rank@[#[trigger] order@[q] as int] == q,
                u < n,
                rank@[u as int] == p,
                p < m,
                deg == gv[u as int].len(),
                lu == lev0[u as int],
                lu <= p,
                lev0.len() == n,
                levels@.len() == n,
                forall|x: int| 0 <= x < n ==> #[trigger] levels@[x] <= p + 1,
                forall|x: int| 0 <= x < n ==> #[trigger] levels@[x] >= lev0[x],
                forall|x: int| 0 <= x < n && rank@[x] <= p ==> #[trigger] levels@[x] == lev0[x],
                forall|x: int, kk: int|
                    0 <= x < n && rank@[x] < p && 0 <= kk < gv[x].len() ==> lev0[#[trigger] gv[x][kk] as int]
                        >= lev0[x] + 1,
                forall|kk: int| 0 <= kk < k ==> levels@[#[trigger] gv[u as int][kk] as int] >= lu + 1,
                forall|v: int|
                    0 <= v < n ==> #[trigger] levels@[v] == lev0[v] || (exists|kk: int|
                        0 <= kk < deg && #[trigger] gv[u as int][kk] == v && levels@[v] == lu + 1),
        {
            let v = g[u][k];
            proof {
                assert(gv[u as int][k as int] == v);
                assert(v < n);
                assert(gv[order@[p as int] as int].contains(order@[rank@[v as int] as int]));
                assert(p < rank@[v as int]);
            }
            if levels[v] < lu + 1 {
                levels.set(v, lu + 1);
            }
        }
        proof {
            assert forall|x: int, kk: int|
                0 <= x < n && rank@[x] < p + 1 && 0 <= kk < gv[x].len() implies levels@[
                #[trigger] gv[x][kk] as int] >= levels@[x] + 1 by {
                let w = gv[x][kk];
                assert(w < n);
                if rank@[x] < p {
                    assert(levels@[x] == lev0[x]);
                    assert(levels@[w as int] >= lev0[w as int]);
                } else {
                    assert(x == u);
                }
            }
            assert forall|v: int|
                0 <= v < n implies #[trigger] levels@[v] == 0 || exists|x: int, k: int|
                    0 <= x < n && rank@[x] < p + 1 && 0 <= k < gv[x].len() && #[trigger] gv[x][k]
                        == v && levels@[v] == levels@[x] + 1 by {
                if levels@[v] == lev0[v] {
                    if lev0[v] != 0 {
                        let (x, k) = choose|x: int, k: int|
                            0 <= x < n && rank@[x] < p && 0 <= k < gv[x].len() && #[trigger] gv[x][k]
                                == v && lev0[v] == lev0[x] + 1;
                        assert(levels@[x] == lev0[x]);
                    }
                } else {
                    let kk = choose|kk: int|
                        0 <= kk < deg && #[trigger] gv[u as int][kk] == v && levels@[v] == lu + 1;
                    assert(levels@[u as int] == lu);
                }
            }
        }
    }
    proof {
        assert forall|x: int, k: int|
            0 <= x < gv.len() && 0 <= k < gv[x].len() implies levels@[#[trigger] gv[x][k] as int]
            >= levels@[x] + 1 by {
            assert(rank@[x] < m);
        }
        assert forall|v: int| 0 <= v < gv.len() implies #[trigger] levels@[v] == 0 || exists|
            x: int,
            k: int,
        | 0 <= x < gv.len() && 0 <= k < gv[x].len() && #[trigger] gv[x][k] == v && levels@[v]
            == levels@[x] + 1 by {
            if levels@[v] != 0 {
                let (x, k) = choose|x: int, k: int|
                    0 <= x < n && rank@[x] < m && 0 <= k < gv[x].len() && #[trigger] gv[x][k] == v
                        && levels@[v] == levels@[x] + 1;
            }
        }
    }
    levels
}


/// The result of the search over `adj`: `fwd` keeps each link of `adj`
/// except links that close a cycle of kept links, `order` lists every node
/// once with all kept links going forward, and `levels` is the longest-path
/// levelling of the kept links.
pub open spec fn plan_valid(
    adj: Seq<Seq<usize>>,
    fwd: Seq<Seq<usize>>,
    order: Seq<usize>,
    levels: Seq<usize>,
) -> bool {
    let n = adj.len() as int;
    &&& rows_ok(fwd, n)
    &&& forall|x: int, k: int|
        0 <= x < n && 0 <= k < fwd[x].len() ==> adj[x].contains(#[trigger] fwd[x][k])
    &&& forall|x: int, j: int|
        0 <= x < n && 0 <= j < adj[x].len() ==> fwd[x].contains(#[trigger] adj[x][j]) || reaches(
            fwd,
            adj[x][j],
            x as usize,
        )
    &&& is_node_order(order, n)
    &&& is_topological(fwd, order)
    &&& is_longest_path_levelling(fwd, levels)
}

/// Searches `adj` from `root` and levels the kept links.
fn plan_from_adjacency(adj: &Vec<Vec<usize>>, root: usize) -> (r: (
    Vec<Vec<usize>>,
    Vec<usize>,
    Vec<usize>,
))
    requires
        adj_ok(rows_view(adj@)),
    ensures
        plan_valid(rows_view(adj@), rows_view(r.0@), r.1@, r.2@),
        rows_view(r.0@) == forest(rows_view(adj@), root).fwd,
        r.1@ == forest(rows_view(adj@), root).post.reverse(),
{
    let ghost adjv = rows_view(adj@);
    let ghost n = adjv.len() as int;
    let (fwd, post) = search_forest(adj, root);
    let ghost fv = rows_view(fwd@);
    let ghost stv = Seq::new(adj@.len(), |i: int| 2u8);
    proof {
        assert(dfs_inv(adjv, stv, fv, post@, Seq::empty()));
        assert forall|x: int| 0 <= x < n implies post@.contains(#[trigger] (x as usize)) by {
            assert(stv[x] == 2);
        }
    }
    let m = post.len();
    let mut order: Vec<usize> = Vec::new();
    for i in 0..m
        invariant
            m == post@.len(),
            order@.len() == i,
            forall|j: int| 0 <= j < i ==> #[trigger] order@[j] == post@[m - 1 - j],
    {
        order.push(post[m - 1 - i]);
    }
    proof {
        if m > 0 {
            assert(order@ =~= post@.reverse());
        } else {
            assert(order@ =~= post@.reverse());
        }
        assert forall|p: int, q: int| 0 <= p < order@.len() && 0 <= q < order@.len() && p != q implies order@[p]
            != order@[q] by {
            assert(order@[p] == post@[m - 1 - p]);
            assert(order@[q] == post@[m - 1 - q]);
        }
        assert(order@.no_duplicates());
        assert forall|p: int| 0 <= p < order@.len() implies #[trigger] order@[p] < n by {
            assert(order@[p] == post@[m - 1 - p]);
        }
        assert forall|x: int| 0 <= x < n implies order@.contains(#[trigger] (x as usize)) by {
            assert(post@.contains(x as usize));
            let c = choose|c: int| 0 <= c < post@.len() && post@[c] == x as usize;
            assert(order@[m - 1 - c] == post@[c]);
        }
        assert(is_node_order(order@, n));
        assert forall|x: int, k: int| 0 <= x < n && 0 <= k < fv[x].len() implies #[trigger] fv[x][k]
            < n by {
            assert(adjv[x].contains(fv[x][k]));
        }
        assert(rows_ok(fv, n));
        assert forall|p: int, q: int|
            #![trigger order@[p], order@[q]]
            0 <= p < order@.len() && 0 <= q < order@.len() && fv[order@[p] as int].contains(
                order@[q],
            ) implies p < q by {
            let a = m - 1 - p;
            let b = m - 1 - q;
            assert(order@[p] == post@[a]);
            assert(order@[q] == post@[b]);
            let j = choose|j: int| 0 <= j < fv[post@[a] as int].len() && fv[post@[a] as int][j] == post@[b];
            assert(post@.take(a).contains(fv[post@[a] as int][j]));
            let c = choose|c: int| 0 <= c < a && post@.take(a)[c] == post@[b];
            assert(post@[c] == post@[b]);
        }
    }
    let levels = assign_levels(&fwd, &order);
    proof {
        assert forall|x: int, j: int| 0 <= x < n && 0 <= j < adjv[x].len() implies fv[x].contains(
            #[trigger] adjv[x][j],
        ) || reaches(fv, adjv[x][j], x as usize) by {
            assert(stv[x] == 2);
        }
    }
    (fwd, order, levels)
}


// ---------------------------------------------------------------------------
// The link graph of a procedure
// ---------------------------------------------------------------------------

/// The index of the first step with identifier `id`.
pub open spec fn index_of_id(ss: Seq<StepView>, id: u128) -> Option<int> {
    if exists|i: int| 0 <= i < ss.len() && #[trigger] ss[i].id == id {
        Some(
            choose|i: int|
                0 <= i < ss.len() && #[trigger] ss[i].id == id && forall|j: int|
                    0 <= j < i ==> #[trigger] ss[j].id != id,
        )
    } else {
        None
    }
}

/// The indices of the steps that the identifiers `ts` name, in order,
/// skipping identifiers of no step.
pub open spec fn existing_indices(ss: Seq<StepView>, ts: Seq<u128>) -> Seq<usize>
    decreases ts.len(),
{
    if ts.len() == 0 {
        Seq::empty()
    } else {
        existing_indices(ss, ts.drop_last()) + match index_of_id(ss, ts.last()) {
            Some(i) => seq![i as usize],
            None => Seq::empty(),
        }
    }
}

/// The links of the procedure between step indices: step `x` links to the
/// steps its exits name, in the order of its exits.
pub open spec fn link_graph(ss: Seq<StepView>) -> Seq<Seq<usize>> {
    Seq::new(ss.len(), |x: int| existing_indices(ss, targets_of(ss[x])))
}

/// A link into a step, as the layout sees it: the step it comes from, the
/// position of the exit among that step's exits, and the number of exits.
#[derive(Debug, Clone, Copy, PartialEq, Eq, Structural)]
pub struct BranchEdge {
    pub parent_id: u128,
    pub branch_idx: usize,
    pub total_branches: usize,
}

/// The links into step `v` from the first `kk` exits of step `x`.
pub open spec fn branches_from(ss: Seq<StepView>, x: int, v: int, kk: int) -> Seq<BranchEdge>
    decreases kk,
{
    if kk <= 0 {
        Seq::empty()
    } else {
        let ts = targets_of(ss[x]);
        branches_from(ss, x, v, kk - 1) + if index_of_id(ss, ts[kk - 1]) == Some(v) {
            seq![
                BranchEdge {
                    parent_id: ss[x].id,
                    branch_idx: (kk - 1) as usize,
                    total_branches: ts.len() as usize,
                },
            ]
        } else {
            Seq::empty()
        }
    }
}

/// The links into step `v` from the steps before index `xx`.
pub open spec fn incoming_upto(ss: Seq<StepView>, v: int, xx: int) -> Seq<BranchEdge>
    decreases xx,
{
    if xx <= 0 {
        Seq::empty()
    } else {
        incoming_upto(ss, v, xx - 1) + branches_from(ss, xx - 1, v, targets_of(ss[xx - 1]).len() as int)
    }
}

/// The links into step `v`, ordered by the step they come from, then by exit.
pub open spec fn incoming_of(ss: Seq<StepView>, v: int) -> Seq<BranchEdge> {
    incoming_upto(ss, v, ss.len() as int)
}

/// The first step from index `i` on that no link leads to.
pub open spec fn first_source(ss: Seq<StepView>, i: int) -> Option<int>
    decreases ss.len() - i,
{
    if i >= ss.len() || i < 0 {
        None
    } else if incoming_of(ss, i).len() == 0 {
        Some(i)
    } else {
        first_source(ss, i + 1)
    }
}

/// Where the search starts: the start step when it is a step of the
/// procedure, else the first step no link leads to, else the first step.
pub open spec fn layout_root(ss: Seq<StepView>, first: Option<u128>) -> int {
    match first {
        Some(id) if index_of_id(ss, id) is Some => index_of_id(ss, id)->0,
        _ => match first_source(ss, 0) {
            Some(i) => i,
            None => 0,
        },
    }
}

/// What `index_of_id` picks: the first index whose step has the identifier.
pub proof fn lemma_index_of_id(ss: Seq<StepView>, id: u128)
    ensures
        match index_of_id(ss, id) {
            Some(i) => 0 <= i < ss.len() && ss[i].id == id && forall|j: int|
                0 <= j < i ==> #[trigger] ss[j].id != id,
            None => forall|j: int| 0 <= j < ss.len() ==> #[trigger] ss[j].id != id,
        },
{
    if exists|i: int| 0 <= i < ss.len() && #[trigger] ss[i].id == id {
        let w = choose|i: int| 0 <= i < ss.len() && #[trigger] ss[i].id == id;
        lemma_first_witness(ss, id, w);
    }
}

proof fn lemma_first_witness(ss: Seq<StepView>, id: u128, w: int)
    requires
        0 <= w < ss.len(),
        ss[w].id == id,
    ensures
        exists|i: int|
            0 <= i < ss.len() && #[trigger] ss[i].id == id && forall|j: int|
                0 <= j < i ==> #[trigger] ss[j].id != id,
    decreases w,
{
    if exists|j: int| 0 <= j < w && #[trigger] ss[j].id == id {
        let j = choose|j: int| 0 <= j < w && #[trigger] ss[j].id == id;
        lemma_first_witness(ss, id, j);
    } else {
        assert(forall|j: int| 0 <= j < w ==> #[trigger] ss[j].id != id);
    }
}

/// The index of the first step with identifier `id`.
pub fn find_step_index(steps: &Vec<Step>, id: u128) -> (r: Option<usize>)
    ensures
        match r {
            Some(i) => index_of_id(steps_view(steps@), id) == Some(i as int),
            None => index_of_id(steps_view(steps@), id) is None,
        },
{
    let ghost ss = steps_view(steps@);
    proof {
        lemma_index_of_id(ss, id);
    }
    for i in 0..steps.len()
        invariant
            ss == steps_view(steps@),
            forall|j: int| 0 <= j < i ==> #[trigger] ss[j].id != id,
            match index_of_id(ss, id) {
                Some(c) => 0 <= c < ss.len() && ss[c].id == id && forall|j: int|
                    0 <= j < c ==> #[trigger] ss[j].id != id,
                None => forall|j: int| 0 <= j < ss.len() ==> #[trigger] ss[j].id != id,
            },
    {
        if steps[i].id == id {
            proof {
                assert(ss[i as int].id == id);
            }
            return Some(i);
        }
    }
    None
}

/// The index of each step named by `ts`, in order, skipping identifiers of
/// no step; every index is a step of `ss`.
proof fn lemma_existing_indices_bounded(ss: Seq<StepView>, ts: Seq<u128>)
    ensures
        forall|j: int|
            0 <= j < existing_indices(ss, ts).len() ==> #[trigger] existing_indices(ss, ts)[j]
                < ss.len(),
    decreases ts.len(),
{
    if ts.len() > 0 {
        lemma_existing_indices_bounded(ss, ts.drop_last());
        lemma_index_of_id(ss, ts.last());
        let a = existing_indices(ss, ts.drop_last());
        assert forall|j: int| 0 <= j < existing_indices(ss, ts).len() implies #[trigger] existing_indices(
            ss,
            ts,
        )[j] < ss.len() by {
            if j < a.len() {
                assert(existing_indices(ss, ts)[j] == a[j]);
            }
        }
    }
}

/// The plan of the automatic layout of a procedure.
pub struct LayoutPlan {
    /// The step the search starts from.
    pub root: usize,
    /// The kept links, by step index.
    pub forward: Vec<Vec<usize>>,
    /// Every step index once; kept links go forward.
    pub order: Vec<usize>,
    /// The level of each step.
    pub levels: Vec<usize>,
    /// The links into each step.
    pub incoming: Vec<Vec<BranchEdge>>,
}

pub open spec fn incoming_view(v: Seq<Vec<BranchEdge>>) -> Seq<Seq<BranchEdge>> {
    v.map_values(|r: Vec<BranchEdge>| r@)
}

/// Adds `edge` at the end of the links into step `v`.
fn record_link(incoming: &mut Vec<Vec<BranchEdge>>, v: usize, edge: BranchEdge)
    requires
        v < old(incoming)@.len(),
    ensures
        final(incoming)@.len() == old(incoming)@.len(),
        final(incoming)@[v as int]@ == old(incoming)@[v as int]@.push(edge),
        forall|w: int|
            0 <= w < old(incoming)@.len() && w != v ==> #[trigger] final(incoming)@[w] == old(
                incoming,
            )@[w],
{
    let mut cell: Vec<BranchEdge> = Vec::new();
    std::mem::swap(&mut cell, &mut incoming[v]);
    cell.push(edge);
    incoming.set(v, cell);
}

/// One more exit of step `x` adds at most the link of that exit.
proof fn lemma_branches_from_step(ss: Seq<StepView>, x: int, w: int, k: int)
    requires
        0 <= k,
    ensures
        branches_from(ss, x, w, k + 1) == branches_from(ss, x, w, k) + if index_of_id(
            ss,
            targets_of(ss[x])[k],
        ) == Some(w) {
            seq![
                BranchEdge {
                    parent_id: ss[x].id,
                    branch_idx: k as usize,
                    total_branches: targets_of(ss[x]).len() as usize,
                },
            ]
        } else {
            Seq::empty()
        },
{
}

/// One more identifier adds at most its index.
proof fn lemma_existing_indices_step(ss: Seq<StepView>, ts: Seq<u128>, k: int)
    requires
        0 <= k < ts.len(),
    ensures
        existing_indices(ss, ts.take(k + 1)) == existing_indices(ss, ts.take(k)) + match index_of_id(
            ss,
            ts[k],
        ) {
            Some(i) => seq![i as usize],
            None => Seq::empty(),
        },
{
    assert(ts.take(k + 1).drop_last() =~= ts.take(k));
    assert(ts.take(k + 1).last() == ts[k]);
}

/// Appends to `incoming` the links that leave step `x`, and returns the
/// indices that the exits of step `x` lead to.
fn collect_links_of(algo: &Algorithm, x: usize, incoming: &mut Vec<Vec<BranchEdge>>) -> (row: Vec<
    usize,
>)
    requires
        x < algo@.steps.len(),
        old(incoming)@.len() == algo@.steps.len(),
    ensures
        final(incoming)@.len() == old(incoming)@.len(),
        row@ == link_graph(algo@.steps)[x as int],
        forall|v: int|
            0 <= v < algo@.steps.len() ==> (#[trigger] final(incoming)@[v])@ == old(incoming)@[v]@
                + branches_from(algo@.steps, x as int, v, targets_of(algo@.steps[x as int]).len() as int),
{
    let ghost ss = algo@.steps;
    let ghost inc_start = old(incoming)@;
    let n = algo.steps.len();
    proof {
        assert(ss == steps_view(algo.steps@));
        assert(ss.len() == n);
        assert(ss[x as int] == algo.steps@[x as int]@);
    }
    let ts = step_targets(&algo.steps[x]);
    let total = ts.len();
    let id = algo.steps[x].id;
    let ghost tsv = targets_of(ss[x as int]);
    let mut row: Vec<usize> = Vec::new();
    for k in 0..total
        invariant
            n == algo.steps@.len(),
            ss == steps_view(algo.steps@),
            ss.len() == n,
            x < n,
            id == ss[x as int].id,
            ts@ == tsv,
            tsv == targets_of(ss[x as int]),
            total == tsv.len(),
            incoming@.len() == n,
            inc_start.len() == n,
            row@ == existing_indices(ss, tsv.take(k as int)),
            forall|v: int|
                0 <= v < n ==> (#[trigger] incoming@[v])@ == inc_start[v]@ + branches_from(
                    ss,
                    x as int,
                    v,
                    k as int,
                ),
    {
        proof {
            lemma_existing_indices_step(ss, tsv, k as int);
        }
        let ghost inc0 = incoming@;
        match find_step_index(&algo.steps, ts[k]) {
            Some(v) => {
                row.push(v);
                proof {
                    lemma_index_of_id(ss, ts[k as int]);
                }
                let edge = BranchEdge { parent_id: id, branch_idx: k, total_branches: total };
                record_link(incoming, v, edge);
                proof {
                    assert forall|w: int| 0 <= w < n implies (#[trigger] incoming@[w])@
                        == inc_start[w]@ + branches_from(ss, x as int, w, k + 1) by {
                        lemma_branches_from_step(ss, x as int, w, k as int);
                        if w == v {
                            assert(incoming@[w]@ =~= inc0[w]@.push(edge));
                        }
                    }
                }
            },
            None => {
                proof {
                    assert forall|w: int| 0 <= w < n implies (#[trigger] incoming@[w])@
                        == inc_start[w]@ + branches_from(ss, x as int, w, k + 1) by {
                        lemma_branches_from_step(ss, x as int, w, k as int);
                        assert(branches_from(ss, x as int, w, k + 1) =~= branches_from(
                            ss,
                            x as int,
                            w,
                            k as int,
                        ));
                    }
                }
            },
        }
    }
    proof {
        assert(tsv.take(total as int) =~= tsv);
    }
    row
}

/// The links between the steps of `algo` by index, and the links into each
/// step.
fn collect_links(algo: &Algorithm) -> (r: (Vec<Vec<usize>>, Vec<Vec<BranchEdge>>))
    ensures
        rows_view(r.0@) == link_graph(algo@.steps),
        incoming_view(r.1@) == Seq::new(algo@.steps.len(), |v: int| incoming_of(algo@.steps, v)),
        adj_ok(rows_view(r.0@)),
{
    let ghost ss = algo@.steps;
    let n = algo.steps.len();
    proof {
        assert(ss == steps_view(algo.steps@));
        assert(ss.len() == n);
    }
    let mut adj: Vec<Vec<usize>> = Vec::new();
    let mut incoming: Vec<Vec<BranchEdge>> = Vec::new();
    for i in 0..n
        invariant
            incoming@.len() == i,
            forall|v: int| 0 <= v < i ==> (#[trigger] incoming@[v])@ == Seq::<BranchEdge>::empty(),
    {
        incoming.push(Vec::new());
    }
    for x in 0..n
        invariant
            n == algo.steps@.len(),
            ss == algo@.steps,
            ss.len() == n,
            adj@.len() == x,
            incoming@.len() == n,
            forall|y: int| 0 <= y < x ==> (#[trigger] adj@[y])@ == link_graph(ss)[y],
            forall|v: int|
                0 <= v < n ==> (#[trigger] incoming@[v])@ == incoming_upto(ss, v, x as int),
    {
        let ghost inc0 = incoming@;
        let row = collect_links_of(algo, x, &mut incoming);
        proof {
            assert forall|v: int| 0 <= v < n implies (#[trigger] incoming@[v])@ == incoming_upto(
                ss,
                v,
                x + 1,
            ) by {
                assert(inc0[v]@ == incoming_upto(ss, v, x as int));
            }
        }
        adj.push(row);
    }
    proof {
        assert(incoming_view(incoming@) =~= Seq::new(n as nat, |v: int| incoming_of(ss, v)));
        assert(rows_view(adj@) =~= link_graph(ss));
        assert forall|x: int, j: int|
            0 <= x < n && 0 <= j < rows_view(adj@)[x].len() implies #[trigger] rows_view(
            adj@,
        )[x][j] < n by {
            lemma_existing_indices_bounded(ss, targets_of(ss[x]));
        }
    }
    (adj, incoming)
}

/// Moving past a step that some link leads to keeps the first such source.
proof fn lemma_first_source_step(ss: Seq<StepView>, v: int)
    requires
        0 <= v < ss.len(),
    ensures
        incoming_of(ss, v).len() == 0 ==> first_source(ss, v) == Some(v),
        incoming_of(ss, v).len() != 0 ==> first_source(ss, v) == first_source(ss, v + 1),
{
}

/// The index the search starts from (see `layout_root`).
fn find_root(algo: &Algorithm, incoming: &Vec<Vec<BranchEdge>>) -> (root: usize)
    requires
        algo@.steps.len() > 0,
        incoming_view(incoming@) == Seq::new(algo@.steps.len(), |v: int| incoming_of(algo@.steps, v)),
    ensures
        root == layout_root(algo@.steps, algo@.first_step_id),
        root < algo@.steps.len(),
{
    let ghost ss = algo@.steps;
    let n = algo.steps.len();
    proof {
        assert(ss == steps_view(algo.steps@));
        assert(ss.len() == n);
    }
    if let Some(id) = algo.first_step_id {
        if let Some(i) = find_step_index(&algo.steps, id) {
            proof {
                lemma_index_of_id(ss, id);
            }
            return i;
        }
    }
    proof {
        assert(incoming_view(incoming@).len() == incoming@.len());
        assert(layout_root(ss, algo@.first_step_id) == match first_source(ss, 0) {
            Some(i) => i,
            None => 0,
        });
    }
    let mut v: usize = 0;
    while v < n
        invariant
            0 <= v <= n,
            n == ss.len(),
            ss == algo@.steps,
            incoming@.len() == n,
            layout_root(ss, algo@.first_step_id) == match first_source(ss, 0) {
                Some(i) => i,
                None => 0,
            },
            incoming_view(incoming@) == Seq::new(n as nat, |w: int| incoming_of(ss, w)),
            first_source(ss, 0) == first_source(ss, v as int),
        decreases n - v,
    {
        proof {
            assert(incoming_view(incoming@)[v as int] == incoming@[v as int]@);
            lemma_first_source_step(ss, v as int);
        }
        if incoming[v].len() == 0 {
            return v;
        }
        v += 1;
    }
    0
}

/// The layout plan of `algo`: the links between its steps, the links kept by
/// the search (all but those closing a cycle), a topological order of the
/// kept links, the level of each step, and the links into each step.
pub fn layout_plan(algo: &Algorithm) -> (r: LayoutPlan)
    ensures
        incoming_view(r.incoming@) == Seq::new(
            algo@.steps.len(),
            |v: int| incoming_of(algo@.steps, v),
        ),
        algo@.steps.len() > 0 ==> r.root == layout_root(algo@.steps, algo@.first_step_id),
        plan_valid(link_graph(algo@.steps), rows_view(r.forward@), r.order@, r.levels@),
        rows_view(r.forward@) == forest(link_graph(algo@.steps), r.root).fwd,
        r.order@ == forest(link_graph(algo@.steps), r.root).post.reverse(),
{
    let (adj, incoming) = collect_links(algo);
    let root = if algo.steps.len() > 0 {
        find_root(algo, &incoming)
    } else {
        0
    };
    let (forward, order, levels) = plan_from_adjacency(&adj, root);
    LayoutPlan { root, forward, order, levels, incoming }
}

} // verus!
