//! Which processes make up a dev server's process tree.
use vstd::prelude::*;
use vstd::set_lib::lemma_len_subset;

use crate::commands::app_update::{parse_u32, parse_u32_chars};
use crate::text::{chars_of, is_white_space, is_white_space_char, lines, lines_chars, views};

verus! {

/// `str::split_whitespace`: the maximal runs of non-white-space characters.
pub open spec fn words(s: Seq<char>) -> Seq<Seq<char>>
    decreases s.len(),
{
    if s.len() == 0 {
        Seq::empty()
    } else {
        let w = words(s.drop_last());
        let c = s.last();
        if is_white_space(c) {
            w
        } else if s.len() >= 2 && !is_white_space(s[s.len() - 2]) {
            w.update(w.len() - 1, w.last().push(c))
        } else {
            w.push(seq![c])
        }
    }
}

proof fn lemma_words_after_word_char(s: Seq<char>)
    requires
        s.len() >= 1,
        !is_white_space(s.last()),
    ensures
        words(s).len() >= 1,
    decreases s.len(),
{
    let w = words(s.drop_last());
    if !(s.len() >= 2 && !is_white_space(s[s.len() - 2])) {
    } else {
        lemma_words_after_word_char(s.drop_last());
    }
}

/// `str::split_whitespace`.
pub fn words_chars(s: &Vec<char>) -> (r: Vec<Vec<char>>)
    ensures
        views(r@) == words(s@),
{
    let n = s.len();
    let mut r: Vec<Vec<char>> = Vec::new();
    let mut i: usize = 0;
    while i < n
        invariant
            n == s@.len(),
            i <= n,
            views(r@) == words(s@.take(i as int)),
        decreases n - i,
    {
        let c = s[i];
        let ghost prev = s@.take(i as int);
        assert(s@.take(i + 1).drop_last() =~= prev);
        assert(s@.take(i + 1).last() == c);
        if is_white_space_char(c) {
        } else if i >= 1 && !is_white_space_char(s[i - 1]) {
            assert(s@.take(i + 1)[i - 1] == s@[i - 1]);
            assert(prev.last() == s@[i - 1]);
            proof {
                lemma_words_after_word_char(prev);
            }
            let ghost before = views(r@);
            let mut last = r.pop().unwrap();
            last.push(c);
            r.push(last);
            assert(views(r@) =~= before.update(before.len() - 1, before.last().push(c)));
        } else {
            let ghost before = views(r@);
            let mut w: Vec<char> = Vec::new();
            w.push(c);
            r.push(w);
            assert(views(r@) =~= before.push(seq![c]));
        }
        i += 1;
    }
    assert(s@.take(n as int) =~= s@);
    r
}

/// The `(pid, ppid)` pair on one line of `ps -axo pid=,ppid=` output: its
/// first two words, both numbers.
pub open spec fn line_edge(line: Seq<char>) -> Option<(u32, u32)> {
    let w = words(line);
    if w.len() >= 2 && parse_u32(w[0]) is Some && parse_u32(w[1]) is Some {
        Some((parse_u32(w[0])->0, parse_u32(w[1])->0))
    } else {
        None
    }
}

/// The `(pid, ppid)` pairs of the lines that have one, in order.
pub open spec fn edges_of_lines(ls: Seq<Seq<char>>) -> Seq<(u32, u32)>
    decreases ls.len(),
{
    if ls.len() == 0 {
        Seq::empty()
    } else {
        let prev = edges_of_lines(ls.drop_last());
        match line_edge(ls.last()) {
            Some(e) => prev.push(e),
            None => prev,
        }
    }
}

/// Reads `ps -axo pid=,ppid=` output into `(pid, ppid)` pairs; lines that do
/// not start with two numbers are skipped.
pub fn parse_ps_output(text: &str) -> (edges: Vec<(u32, u32)>)
    ensures
        edges@ == edges_of_lines(lines(text@)),
{
    let v = chars_of(text);
    let ls = lines_chars(&v);
    let ghost lv = views(ls@);
    let mut edges: Vec<(u32, u32)> = Vec::new();
    let mut i: usize = 0;
    while i < ls.len()
        invariant
            i <= ls@.len(),
            lv == views(ls@),
            lv == lines(text@),
            edges@ == edges_of_lines(lv.take(i as int)),
        decreases ls.len() - i,
    {
        assert(lv.take(i + 1).drop_last() =~= lv.take(i as int));
        assert(lv.take(i + 1).last() == ls@[i as int]@);
        let w = words_chars(&ls[i]);
        if w.len() >= 2 {
            assert(views(w@)[0] == w@[0]@ && views(w@)[1] == w@[1]@);
            let a = parse_u32_chars(&w[0]);
            let b = parse_u32_chars(&w[1]);
            match (a, b) {
                (Some(pid), Some(ppid)) => {
                    edges.push((pid, ppid));
                },
                _ => {},
            }
        }
        i += 1;
    }
    assert(lv.take(ls@.len() as int) =~= lv);
    edges
}

/// `c` is listed with parent `p`.
pub open spec fn is_child_of(edges: Seq<(u32, u32)>, c: u32, p: u32) -> bool {
    exists|k: int| 0 <= k < edges.len() && edges[k] == (c, p)
}

/// The process at position `j` is a child of one listed before it.
pub open spec fn has_listed_parent(tree: Seq<u32>, edges: Seq<(u32, u32)>, j: int) -> bool {
    exists|i: int| 0 <= i < j && is_child_of(edges, tree[j], tree[i])
}

/// `tree` is the process tree rooted at `root`: it starts with `root`, lists
/// no process twice, every other process in it is a child of one listed
/// before it, and every child of a listed process is listed.
pub open spec fn is_process_tree(tree: Seq<u32>, root: u32, edges: Seq<(u32, u32)>) -> bool {
    &&& tree.len() >= 1
    &&& tree[0] == root
    &&& tree.no_duplicates()
    &&& forall|j: int| 1 <= j < tree.len() ==> #[trigger] has_listed_parent(tree, edges, j)
    &&& forall|k: int, i: int|
        0 <= k < edges.len() && 0 <= i < tree.len() && #[trigger] edges[k].1 == #[trigger] tree[i]
            ==> tree.contains(edges[k].0)
}

/// The process at position `j` of `tree` is found through the pair at
/// index `k`, which lists it as a child of the process at position `i`: no
/// process listed before position `i` is its parent, and no pair before `k`
/// lists it under the process at `i`.
pub open spec fn found_through(tree: Seq<u32>, edges: Seq<(u32, u32)>, j: int, i: int, k: int) -> bool {
    &&& 0 <= i < j < tree.len()
    &&& 0 <= k < edges.len()
    &&& edges[k] == (tree[j], tree[i])
    &&& forall|i2: int| 0 <= i2 < i ==> !is_child_of(edges, tree[j], #[trigger] tree[i2])
    &&& forall|k2: int| 0 <= k2 < k ==> #[trigger] edges[k2] != (tree[j], tree[i])
}

/// The process at position `j` is found through some pair.
pub open spec fn is_found(tree: Seq<u32>, edges: Seq<(u32, u32)>, j: int) -> bool {
    exists|i: int, k: int| #[trigger] found_through(tree, edges, j, i, k)
}

/// `tree` lists the processes in the order a breadth-first walk finds them:
/// every process but the first is found through some pair, and a process
/// found earlier (by the position of its parent, then by the index of the
/// pair) is listed earlier.
pub open spec fn is_breadth_first(tree: Seq<u32>, edges: Seq<(u32, u32)>) -> bool {
    &&& forall|j: int| 1 <= j < tree.len() ==> #[trigger] is_found(tree, edges, j)
    &&& forall|a: int, b: int, ia: int, ka: int, ib: int, kb: int|
        1 <= a < b && #[trigger] found_through(tree, edges, a, ia, ka) && #[trigger] found_through(
            tree,
            edges,
            b,
            ib,
            kb,
        ) ==> ia < ib || (ia == ib && ka < kb)
}

/// A process is found through one parent position and one pair only.
proof fn lemma_found_through_unique(
    tree: Seq<u32>,
    edges: Seq<(u32, u32)>,
    j: int,
    i: int,
    k: int,
    i2: int,
    k2: int,
)
    requires
        found_through(tree, edges, j, i, k),
        found_through(tree, edges, j, i2, k2),
    ensures
        i == i2 && k == k2,
{
    if i < i2 {
        assert(is_child_of(edges, tree[j], tree[i]));
    } else if i2 < i {
        assert(is_child_of(edges, tree[j], tree[i2]));
    }
    if k < k2 {
        assert(edges[k] == (tree[j], tree[i2]));
    } else if k2 < k {
        assert(edges[k2] == (tree[j], tree[i]));
    }
}

fn contains_pid(v: &Vec<u32>, x: u32) -> (b: bool)
    ensures
        b == v@.contains(x),
{
    let mut i: usize = 0;
    while i < v.len()
        invariant
            i <= v@.len(),
            forall|j: int| 0 <= j < i ==> v@[j] != x,
        decreases v.len() - i,
    {
        if v[i] == x {
            return true;
        }
        i += 1;
    }
    false
}

/// The processes that can appear in a tree: the root and every listed child.
pub open spec fn candidates(root: u32, edges: Seq<(u32, u32)>) -> Set<u32> {
    (seq![root] + edges.map_values(|e: (u32, u32)| e.0)).to_set()
}

proof fn lemma_tree_len_bound(tree: Seq<u32>, root: u32, edges: Seq<(u32, u32)>)
    requires
        tree.no_duplicates(),
        forall|j: int| 0 <= j < tree.len() ==> candidates(root, edges).contains(#[trigger] tree[j]),
    ensures
        tree.len() <= edges.len() + 1,
{
    let all = seq![root] + edges.map_values(|e: (u32, u32)| e.0);
    all.lemma_cardinality_of_set();
    tree.unique_seq_to_set();
    vstd::seq_lib::seq_to_set_is_finite(all);
    assert forall|x: u32| tree.to_set().contains(x) implies all.to_set().contains(x) by {
        let j = choose|j: int| 0 <= j < tree.len() && tree[j] == x;
        assert(candidates(root, edges).contains(tree[j]));
    }
    lemma_len_subset(tree.to_set(), all.to_set());
}

/// The processes of the tree rooted at `root`, breadth first, each parent
/// before its children, children in the order they are listed.
pub fn collect_process_tree(root: u32, edges: &Vec<(u32, u32)>) -> (tree: Vec<u32>)
    ensures
        is_process_tree(tree@, root, edges@),
        is_breadth_first(tree@, edges@),
{
    let mut pids: Vec<u32> = Vec::new();
    pids.push(root);
    let ghost cand = candidates(root, edges@);
    // For each listed process but the root: the position of the parent it
    // was found through, and the index of the pair that says so.
    let ghost mut par: Seq<int> = seq![0int];
    let ghost mut edge_ix: Seq<int> = seq![0int];
    assert(cand.contains(root)) by {
        assert((seq![root] + edges@.map_values(|e: (u32, u32)| e.0))[0] == root);
    }
    let mut i: usize = 0;
    while i < pids.len()
        invariant
            i <= pids@.len(),
            cand == candidates(root, edges@),
            pids@.len() >= 1,
            pids@[0] == root,
            pids@.no_duplicates(),
            par.len() == pids@.len(),
            edge_ix.len() == pids@.len(),
            forall|j: int| 0 <= j < pids@.len() ==> cand.contains(#[trigger] pids@[j]),
            forall|j: int|
                1 <= j < pids@.len() ==> #[trigger] found_through(pids@, edges@, j, par[j], edge_ix[j]),
            forall|a: int| 1 <= a < pids@.len() ==> #[trigger] par[a] < i,
            forall|a: int, b: int|
                1 <= a < b < pids@.len() ==> #[trigger] par[a] < #[trigger] par[b] || (par[a] == par[b]
                    && edge_ix[a] < edge_ix[b]),
            forall|k: int, a: int|
                0 <= k < edges@.len() && 0 <= a < i && #[trigger] edges@[k].1
                    == #[trigger] pids@[a] ==> pids@.contains(edges@[k].0),
        decreases edges@.len() + 1 - i,
    {
        proof {
            lemma_tree_len_bound(pids@, root, edges@);
        }
        let p = pids[i];
        let mut k: usize = 0;
        while k < edges.len()
            invariant
                i < pids@.len(),
                p == pids@[i as int],
                k <= edges@.len(),
                cand == candidates(root, edges@),
                pids@.len() >= 1,
                pids@[0] == root,
                pids@.no_duplicates(),
                par.len() == pids@.len(),
                edge_ix.len() == pids@.len(),
                forall|j: int| 0 <= j < pids@.len() ==> cand.contains(#[trigger] pids@[j]),
                forall|j: int|
                    1 <= j < pids@.len() ==> #[trigger] found_through(
                        pids@,
                        edges@,
                        j,
                        par[j],
                        edge_ix[j],
                    ),
                forall|a: int|
                    1 <= a < pids@.len() ==> #[trigger] par[a] < i || (par[a] == i && edge_ix[a] < k),
                forall|a: int, b: int|
                    1 <= a < b < pids@.len() ==> #[trigger] par[a] < #[trigger] par[b] || (par[a]
                        == par[b] && edge_ix[a] < edge_ix[b]),
                forall|k2: int, a: int|
                    0 <= k2 < edges@.len() && 0 <= a < i && #[trigger] edges@[k2].1
                        == #[trigger] pids@[a] ==> pids@.contains(edges@[k2].0),
                forall|k2: int|
                    0 <= k2 < k && #[trigger] edges@[k2].1 == p ==> pids@.contains(edges@[k2].0),
            decreases edges@.len() - k,
        {
            let (c, pp) = edges[k];
            if pp == p && !contains_pid(&pids, c) {
                let ghost before = pids@;
                let ghost par0 = par;
                let ghost eix0 = edge_ix;
                pids.push(c);
                proof {
                    par = par.push(i as int);
                    edge_ix = edge_ix.push(k as int);
                    let n = before.len() as int;
                    assert(pids@[n] == c);
                    assert(cand.contains(c)) by {
                        let all = seq![root] + edges@.map_values(|e: (u32, u32)| e.0);
                        assert(all[k + 1] == c);
                    }
                    assert forall|j: int| 1 <= j < pids@.len() implies #[trigger] found_through(
                        pids@,
                        edges@,
                        j,
                        par[j],
                        edge_ix[j],
                    ) by {
                        if j < n {
                            assert(found_through(before, edges@, j, par0[j], eix0[j]));
                            assert forall|i2: int| 0 <= i2 < par[j] implies !is_child_of(
                                edges@,
                                pids@[j],
                                #[trigger] pids@[i2],
                            ) by {
                                assert(pids@[i2] == before[i2]);
                                assert(!is_child_of(edges@, before[j], before[i2]));
                            }
                        } else {
                            assert forall|i2: int| 0 <= i2 < i implies !is_child_of(
                                edges@,
                                c,
                                #[trigger] pids@[i2],
                            ) by {
                                if is_child_of(edges@, c, pids@[i2]) {
                                    let k3 = choose|k3: int|
                                        0 <= k3 < edges@.len() && edges@[k3] == (c, pids@[i2]);
                                    assert(pids@[i2] == before[i2]);
                                    assert(edges@[k3].1 == before[i2]);
                                    assert(before.contains(c));
                                }
                            }
                            assert forall|k2: int| 0 <= k2 < k implies #[trigger] edges@[k2] != (
                                c,
                                pids@[i as int],
                            ) by {
                                if edges@[k2] == (c, p) {
                                    assert(before.contains(edges@[k2].0));
                                }
                            }
                            assert(pids@[i as int] == p);
                        }
                    }
                    assert forall|x: int, y: int|
                        0 <= x < pids@.len() && 0 <= y < pids@.len() && x != y implies pids@[x]
                        != pids@[y] by {
                        if x < n && y < n {
                        } else if x < n {
                            assert(before.contains(before[x]));
                        } else if y < n {
                            assert(before.contains(before[y]));
                        }
                    }
                    assert forall|k2: int, a: int|
                        0 <= k2 < edges@.len() && 0 <= a < i && #[trigger] edges@[k2].1
                            == #[trigger] pids@[a] implies pids@.contains(edges@[k2].0) by {
                        assert(pids@[a] == before[a]);
                        assert(before.contains(edges@[k2].0));
                        let w = choose|w: int| 0 <= w < before.len() && before[w] == edges@[k2].0;
                        assert(pids@[w] == before[w]);
                    }
                    assert forall|k2: int|
                        0 <= k2 <= k && #[trigger] edges@[k2].1 == p implies pids@.contains(
                            edges@[k2].0,
                        ) by {
                        if k2 < k {
                            assert(before.contains(edges@[k2].0));
                            let w = choose|w: int|
                                0 <= w < before.len() && before[w] == edges@[k2].0;
                            assert(pids@[w] == before[w]);
                        } else {
                            assert(pids@[n] == c);
                        }
                    }
                }
            }
            k += 1;
        }
        i += 1;
    }
    proof {
        assert forall|j: int| 1 <= j < pids@.len() implies #[trigger] has_listed_parent(
            pids@,
            edges@,
            j,
        ) by {
            let a = par[j];
            assert(found_through(pids@, edges@, j, a, edge_ix[j]));
            assert(is_child_of(edges@, pids@[j], pids@[a]));
        }
        assert forall|j: int| 1 <= j < pids@.len() implies #[trigger] is_found(pids@, edges@, j) by {
            assert(found_through(pids@, edges@, j, par[j], edge_ix[j]));
        }
        assert forall|a: int, b: int, ia: int, ka: int, ib: int, kb: int|
            1 <= a < b && #[trigger] found_through(pids@, edges@, a, ia, ka) && #[trigger] found_through(
                pids@,
                edges@,
                b,
                ib,
                kb,
            ) implies ia < ib || (ia == ib && ka < kb) by {
            assert(found_through(pids@, edges@, a, par[a], edge_ix[a]));
            assert(found_through(pids@, edges@, b, par[b], edge_ix[b]));
            lemma_found_through_unique(pids@, edges@, a, ia, ka, par[a], edge_ix[a]);
            lemma_found_through_unique(pids@, edges@, b, ib, kb, par[b], edge_ix[b]);
        }
    }
    pids
}

/// When two walks agree before position `j`, a process found at `j` in
/// one and listed at `q` in the other is found there the same way.
proof fn lemma_found_through_transfers(
    t1: Seq<u32>,
    t2: Seq<u32>,
    edges: Seq<(u32, u32)>,
    j: int,
    q: int,
    i: int,
    k: int,
)
    requires
        found_through(t1, edges, j, i, k),
        j <= q < t2.len(),
        t2[q] == t1[j],
        j <= t2.len(),
        forall|m: int| 0 <= m < j ==> t1[m] == t2[m],
    ensures
        found_through(t2, edges, q, i, k),
{
    assert(t2[i] == t1[i]);
    assert forall|i2: int| 0 <= i2 < i implies !is_child_of(edges, t2[q], #[trigger] t2[i2]) by {
        assert(t2[i2] == t1[i2]);
        assert(!is_child_of(edges, t1[j], t1[i2]));
    }
}

/// Two breadth-first walks of the same tree that agree before position `j`
/// list the same process at `j`.
proof fn lemma_walks_agree_at(
    t1: Seq<u32>,
    t2: Seq<u32>,
    root: u32,
    edges: Seq<(u32, u32)>,
    j: int,
)
    requires
        is_process_tree(t1, root, edges),
        is_process_tree(t2, root, edges),
        is_breadth_first(t1, edges),
        is_breadth_first(t2, edges),
        1 <= j < t1.len(),
        j < t2.len(),
        forall|m: int| 0 <= m < j ==> t1[m] == t2[m],
        t1.to_set() == t2.to_set(),
    ensures
        t1[j] == t2[j],
{
    let x = t1[j];
    let y = t2[j];
    if x != y {
        assert(is_found(t1, edges, j));
        let (i1, k1) = choose|i: int, k: int| found_through(t1, edges, j, i, k);
        assert(is_found(t2, edges, j));
        let (iy, ky) = choose|i: int, k: int| found_through(t2, edges, j, i, k);
        // Where `x` is in the second walk, and `y` in the first.
        assert(t2.to_set().contains(x));
        let q = choose|q: int| 0 <= q < t2.len() && t2[q] == x;
        assert(t1.to_set().contains(y));
        let r = choose|r: int| 0 <= r < t1.len() && t1[r] == y;
        if q < j {
            assert(t1[q] == x);
            assert(t1[q] == t1[j]);
        }
        if r < j {
            assert(t2[r] == y);
            assert(t2[r] == t2[j]);
        }
        assert(q > j);
        assert(r > j);
        lemma_found_through_transfers(t1, t2, edges, j, q, i1, k1);
        assert forall|m: int| 0 <= m < j implies t2[m] == t1[m] by {}
        lemma_found_through_transfers(t2, t1, edges, j, r, iy, ky);
        // Each walk orders the two keys its own way.
        assert(found_through(t2, edges, q, i1, k1));
        assert(found_through(t1, edges, r, iy, ky));
        assert(iy < i1 || (iy == i1 && ky < k1));
        assert(i1 < iy || (i1 == iy && k1 < ky));
    }
}

/// Every process of a tree walk is in any other walk of the same tree.
proof fn lemma_walk_within(
    t1: Seq<u32>,
    t2: Seq<u32>,
    root: u32,
    edges: Seq<(u32, u32)>,
    m: int,
)
    requires
        is_process_tree(t1, root, edges),
        is_process_tree(t2, root, edges),
        0 <= m < t1.len(),
    ensures
        t2.contains(t1[m]),
    decreases m,
{
    if m > 0 {
        assert(has_listed_parent(t1, edges, m));
        let i = choose|i: int| 0 <= i < m && is_child_of(edges, t1[m], t1[i]);
        lemma_walk_within(t1, t2, root, edges, i);
        let k = choose|k: int| 0 <= k < edges.len() && edges[k] == (t1[m], t1[i]);
        let w = choose|w: int| 0 <= w < t2.len() && t2[w] == t1[i];
        assert(edges[k].1 == t2[w]);
    } else {
        assert(t2[0] == root);
    }
}

/// Two breadth-first walks of the same tree agree before position `n`.
proof fn lemma_walks_agree_before(
    t1: Seq<u32>,
    t2: Seq<u32>,
    root: u32,
    edges: Seq<(u32, u32)>,
    n: int,
)
    requires
        is_process_tree(t1, root, edges),
        is_process_tree(t2, root, edges),
        is_breadth_first(t1, edges),
        is_breadth_first(t2, edges),
        t1.to_set() == t2.to_set(),
        0 <= n <= t1.len(),
        n <= t2.len(),
    ensures
        forall|m: int| 0 <= m < n ==> t1[m] == t2[m],
    decreases n,
{
    if n > 1 {
        lemma_walks_agree_before(t1, t2, root, edges, n - 1);
        lemma_walks_agree_at(t1, t2, root, edges, n - 1);
    }
}

/// The breadth-first walk of a tree is unique: two lists that are both the
/// process tree rooted at `root` and breadth first are equal, so the
/// contract of `collect_process_tree` fixes its result.
pub proof fn lemma_breadth_first_walk_unique(
    t1: Seq<u32>,
    t2: Seq<u32>,
    root: u32,
    edges: Seq<(u32, u32)>,
)
    requires
        is_process_tree(t1, root, edges),
        is_process_tree(t2, root, edges),
        is_breadth_first(t1, edges),
        is_breadth_first(t2, edges),
    ensures
        t1 == t2,
{
    assert(t1.to_set() =~= t2.to_set()) by {
        assert forall|x: u32| t1.to_set().contains(x) implies t2.to_set().contains(x) by {
            let m = choose|m: int| 0 <= m < t1.len() && t1[m] == x;
            lemma_walk_within(t1, t2, root, edges, m);
        }
        assert forall|x: u32| t2.to_set().contains(x) implies t1.to_set().contains(x) by {
            let m = choose|m: int| 0 <= m < t2.len() && t2[m] == x;
            lemma_walk_within(t2, t1, root, edges, m);
        }
    }
    let n = if t1.len() < t2.len() {
        t1.len() as int
    } else {
        t2.len() as int
    };
    lemma_walks_agree_before(t1, t2, root, edges, n);
    t1.unique_seq_to_set();
    t2.unique_seq_to_set();
    if t1.len() != t2.len() {
        assert(t1.to_set().len() == t2.to_set().len());
    }
    assert(t1 =~= t2);
}

/// The order in which a process tree is signalled: children before their
/// parents, so that no child is re-parented before it is reached (the tree
/// lists every process after its parent).
pub fn kill_order(tree: &Vec<u32>) -> (r: Vec<u32>)
    ensures
        r@ == tree@.reverse(),
{
    let mut r: Vec<u32> = Vec::new();
    let mut i: usize = tree.len();
    while i > 0
        invariant
            i <= tree@.len(),
            r@ == tree@.subrange(i as int, tree@.len() as int).reverse(),
        decreases i,
    {
        i -= 1;
        r.push(tree[i]);
        assert(tree@.subrange(i as int, tree@.len() as int).reverse() =~= tree@.subrange(
            i + 1,
            tree@.len() as int,
        ).reverse().push(tree@[i as int]));
    }
    assert(tree@.subrange(0, tree@.len() as int) =~= tree@);
    r
}

/// A process counts as alive unless the state `ps -o stat= -p <pid>` prints
/// on its first line marks it a zombie (`Z`).
pub open spec fn alive_from_stat_spec(output: Seq<char>) -> bool {
    let ls = lines(output);
    ls.len() == 0 || !ls[0].contains('Z')
}

/// Reads a process's state from `ps -o stat=` output.
pub fn alive_from_stat(output: &str) -> (alive: bool)
    ensures
        alive == alive_from_stat_spec(output@),
{
    let v = chars_of(output);
    let ls = lines_chars(&v);
    if ls.len() == 0 {
        return true;
    }
    assert(views(ls@)[0] == ls@[0]@);
    let first = &ls[0];
    let ghost l0 = lines(output@)[0];
    assert(l0 == first@);
    let mut k: usize = 0;
    while k < first.len()
        invariant
            k <= first@.len(),
            lines(output@).len() > 0,
            l0 == lines(output@)[0],
            l0 == first@,
            forall|j: int| 0 <= j < k ==> first@[j] != 'Z',
        decreases first.len() - k,
    {
        if first[k] == 'Z' {
            assert(first@[k as int] == 'Z');
            assert(first@.contains('Z'));
            return false;
        }
        k += 1;
    }
    true
}

} // verus!
