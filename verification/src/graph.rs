//! The resolved dependency graph: lookups by package id and the walks
//! from a workspace member to every package it reaches.
use crate::model::{GraphEntry, GraphEntryView, ResolvedPackage, ResolvedPackageView};
use vstd::prelude::*;

verus! {

/// The first index whose graph entry has this id.
pub open spec fn entry_for(graph: Seq<GraphEntryView>, id: Seq<char>) -> Option<int>
    decreases graph.len(),
{
    if graph.len() == 0 {
        None
    } else if graph[0].id == id {
        Some(0)
    } else {
        match entry_for(graph.drop_first(), id) {
            Some(i) => Some(i + 1),
            None => None,
        }
    }
}

/// The ids a package depends on (none where the graph has no entry).
pub open spec fn deps_of(graph: Seq<GraphEntryView>, id: Seq<char>) -> Seq<Seq<char>> {
    match entry_for(graph, id) {
        Some(i) => graph[i].deps,
        None => Seq::empty(),
    }
}

/// `w` is a walk from `a` to `b` along dependency edges.
pub open spec fn walk_from_to(graph: Seq<GraphEntryView>, w: Seq<Seq<char>>, a: Seq<char>, b: Seq<char>) -> bool {
    &&& w.len() >= 1
    &&& w[0] == a
    &&& w.last() == b
    &&& forall|i: int| 0 <= i < w.len() - 1 ==> deps_of(graph, #[trigger] w[i]).contains(w[i + 1])
}

/// `w` is a walk from `a` to `b` and no walk between them is shorter.
pub open spec fn shortest_walk(graph: Seq<GraphEntryView>, w: Seq<Seq<char>>, a: Seq<char>, b: Seq<char>) -> bool {
    &&& walk_from_to(graph, w, a, b)
    &&& forall|w2: Seq<Seq<char>>| #[trigger] walk_from_to(graph, w2, a, b) ==> w.len() <= w2.len()
}

/// `b` is reachable from `a` (every package reaches itself).
pub open spec fn reachable(graph: Seq<GraphEntryView>, a: Seq<char>, b: Seq<char>) -> bool {
    exists|w: Seq<Seq<char>>| #[trigger] walk_from_to(graph, w, a, b)
}

/// The first index whose package has this id.
pub open spec fn package_index(packages: Seq<ResolvedPackageView>, id: Seq<char>) -> Option<int>
    decreases packages.len(),
{
    if packages.len() == 0 {
        None
    } else if packages[0].id == id {
        Some(0)
    } else {
        match package_index(packages.drop_first(), id) {
            Some(i) => Some(i + 1),
            None => None,
        }
    }
}

/// The package with this id.
pub open spec fn package_of(packages: Seq<ResolvedPackageView>, id: Seq<char>) -> Option<ResolvedPackageView> {
    match package_index(packages, id) {
        Some(i) => Some(packages[i]),
        None => None,
    }
}

/// What `entry_for` finds: the first entry with the id.
pub proof fn lemma_entry_for(graph: Seq<GraphEntryView>, id: Seq<char>)
    ensures
        entry_for(graph, id) matches Some(e) ==> 0 <= e < graph.len() && graph[e].id == id
            && forall|j: int| 0 <= j < e ==> graph[j].id != id,
        entry_for(graph, id) is None ==> forall|j: int| 0 <= j < graph.len() ==> graph[j].id != id,
    decreases graph.len(),
{
    if graph.len() > 0 && graph[0].id != id {
        lemma_entry_for(graph.drop_first(), id);
        assert forall|j: int| 1 <= j < graph.len() implies graph[j].id == graph.drop_first()[j - 1].id by {}
    }
}

/// What `package_index` finds: the first package with the id.
pub proof fn lemma_package_index(packages: Seq<ResolvedPackageView>, id: Seq<char>)
    ensures
        package_index(packages, id) matches Some(e) ==> 0 <= e < packages.len() && packages[e].id == id
            && forall|j: int| 0 <= j < e ==> packages[j].id != id,
        package_index(packages, id) is None ==> forall|j: int| 0 <= j < packages.len() ==> packages[j].id != id,
    decreases packages.len(),
{
    if packages.len() > 0 && packages[0].id != id {
        lemma_package_index(packages.drop_first(), id);
        assert forall|j: int| 1 <= j < packages.len() implies packages[j].id == packages.drop_first()[j - 1].id by {}
    }
}

/// Finds the graph entry of an id.
pub fn find_entry(graph: &Vec<GraphEntry>, id: &String) -> (r: Option<usize>)
    ensures
        r matches Some(i) ==> entry_for(graph.deep_view(), id@) == Some(i as int) && i < graph@.len(),
        r is None ==> entry_for(graph.deep_view(), id@) is None,
{
    let mut i: usize = 0;
    while i < graph.len()
        invariant
            i <= graph@.len(),
            forall|j: int| 0 <= j < i ==> graph.deep_view()[j].id != id@,
        decreases graph@.len() - i,
    {
        assert(graph.deep_view()[i as int] == graph@[i as int]@);
        if graph[i].id == *id {
            proof {
                lemma_entry_for(graph.deep_view(), id@);
            }
            return Some(i);
        }
        i = i + 1;
    }
    proof {
        lemma_entry_for(graph.deep_view(), id@);
    }
    None
}

/// Finds the package of an id.
pub fn find_package<'a>(packages: &'a Vec<ResolvedPackage>, id: &String) -> (r: Option<&'a ResolvedPackage>)
    ensures
        match package_of(packages.deep_view(), id@) {
            Some(p) => r matches Some(q) && q@ == p,
            None => r is None,
        },
{
    let mut i: usize = 0;
    while i < packages.len()
        invariant
            i <= packages@.len(),
            forall|j: int| 0 <= j < i ==> packages.deep_view()[j].id != id@,
        decreases packages@.len() - i,
    {
        assert(packages.deep_view()[i as int] == packages@[i as int]@);
        if packages[i].id == *id {
            proof {
                lemma_package_index(packages.deep_view(), id@);
            }
            return Some(&packages[i]);
        }
        i = i + 1;
    }
    proof {
        lemma_package_index(packages.deep_view(), id@);
    }
    None
}

/// A package id and a walk that reaches it.
#[derive(Debug)]
pub struct WalkEntry {
    pub id: String,
    pub walk: Vec<String>,
}

/// The ids of walk entries.
pub open spec fn walk_ids(q: Seq<WalkEntry>) -> Seq<Seq<char>> {
    q.map_values(|e: WalkEntry| e.id@)
}

/// All dependency ids the graph lists, entry by entry.
pub open spec fn all_deps(graph: Seq<GraphEntryView>) -> Seq<Seq<char>>
    decreases graph.len(),
{
    if graph.len() == 0 {
        Seq::empty()
    } else {
        all_deps(graph.drop_last()) + graph.last().deps
    }
}

proof fn lemma_all_deps_contains(graph: Seq<GraphEntryView>, i: int, x: Seq<char>)
    requires
        0 <= i < graph.len(),
        graph[i].deps.contains(x),
    ensures
        all_deps(graph).contains(x),
    decreases graph.len(),
{
    let k = choose|k: int| 0 <= k < graph[i].deps.len() && graph[i].deps[k] == x;
    if i == graph.len() - 1 {
        let base = all_deps(graph.drop_last());
        assert(all_deps(graph)[base.len() + k] == x);
    } else {
        lemma_all_deps_contains(graph.drop_last(), i, x);
        let base = all_deps(graph.drop_last());
        let m = choose|m: int| 0 <= m < base.len() && base[m] == x;
        assert(all_deps(graph)[m] == x);
    }
}

/// Every dependency of the first `head` entries has an entry.
pub open spec fn closed_below(g: Seq<GraphEntryView>, q: Seq<WalkEntry>, head: int) -> bool {
    forall|a: int, d: Seq<char>| 0 <= a < head && deps_of(g, #[trigger] walk_ids(q)[a]).contains(d) ==> #[trigger] walk_ids(q).contains(d)
}

/// The state of the search: distinct ids drawn from `pool`, each with a
/// walk from `root`, the first `head` of them expanded.
pub open spec fn search_state(g: Seq<GraphEntryView>, pool: Seq<Seq<char>>, root: Seq<char>, q: Seq<WalkEntry>, head: int) -> bool {
    &&& 0 <= head <= q.len()
    &&& q.len() >= 1
    &&& q[0].id@ == root
    &&& walk_ids(q).no_duplicates()
    &&& forall|a: int| 0 <= a < q.len() ==> pool.contains(#[trigger] walk_ids(q)[a])
    &&& forall|a: int| 0 <= a < q.len() ==> walk_from_to(g, (#[trigger] q[a]).walk.deep_view(), root, q[a].id@)
    &&& closed_below(g, q, head)
}

/// The length of the walk of entry `a`.
pub open spec fn walk_len(q: Seq<WalkEntry>, a: int) -> int {
    q[a].walk.deep_view().len() as int
}

/// The breadth-first layering of the search: the root's walk is the root
/// alone, walks never get shorter along the queue, none is more than one
/// step longer than the walk of the entry being expanded, and each
/// dependency of an expanded entry has a walk at most one step longer.
pub open spec fn layered(g: Seq<GraphEntryView>, q: Seq<WalkEntry>, head: int) -> bool {
    &&& q.len() >= 1 ==> walk_len(q, 0) == 1
    &&& forall|a: int, b: int| 0 <= a <= b < q.len() ==> #[trigger] walk_len(q, a) <= #[trigger] walk_len(q, b)
    &&& head < q.len() ==> forall|b: int| 0 <= b < q.len() ==> #[trigger] walk_len(q, b) <= walk_len(q, head) + 1
    &&& forall|a: int, j: int| 0 <= a < head && 0 <= j < q.len()
        && #[trigger] deps_of(g, walk_ids(q)[a]).contains(#[trigger] walk_ids(q)[j])
        ==> walk_len(q, j) <= walk_len(q, a) + 1
}

/// Entry `a` is where the search found entry `j`: the first entry whose
/// dependencies list `j`'s id, at position `t`, the first position that
/// lists it; `j`'s walk is `a`'s walk extended by `j`'s id.
pub open spec fn parent_at(g: Seq<GraphEntryView>, q: Seq<WalkEntry>, j: int, a: int, t: int) -> bool {
    let d = deps_of(g, walk_ids(q)[a]);
    &&& 0 <= a < j < q.len()
    &&& 0 <= t < d.len()
    &&& d[t] == walk_ids(q)[j]
    &&& forall|u: int| 0 <= u < t ==> d[u] != walk_ids(q)[j]
    &&& forall|b: int| 0 <= b < a ==> !deps_of(g, walk_ids(q)[b]).contains(walk_ids(q)[j])
    &&& q[j].walk.deep_view() == q[a].walk.deep_view().push(walk_ids(q)[j])
}

/// Entry `j` was found from an earlier entry.
pub open spec fn has_parent(g: Seq<GraphEntryView>, q: Seq<WalkEntry>, j: int) -> bool {
    exists|a: int, t: int| #[trigger] parent_at(g, q, j, a, t)
}

/// Every entry but the root's was found from an earlier one, and entries
/// come in the order they were found: by the entry they were found from,
/// then by the position that lists them.
pub open spec fn breadth_first_order(g: Seq<GraphEntryView>, q: Seq<WalkEntry>) -> bool {
    &&& forall|j: int| 1 <= j < q.len() ==> #[trigger] has_parent(g, q, j)
    &&& forall|j: int, k: int, a: int, b: int, tj: int, tk: int|
        j < k && #[trigger] parent_at(g, q, j, a, tj) && #[trigger] parent_at(g, q, k, b, tk)
        ==> a < b || (a == b && tj < tk)
}

/// The entries found so far were found from entries before `head`, or from
/// `head` at a position before `t`.
pub open spec fn found_before(g: Seq<GraphEntryView>, q: Seq<WalkEntry>, head: int, t: int) -> bool {
    forall|j: int, a: int, u: int| #[trigger] parent_at(g, q, j, a, u) ==> a < head || (a == head && u < t)
}

/// Adds `dep` with the walk `current_walk` extended by it, unless it has an
/// entry already.
fn visit(
    q: &mut Vec<WalkEntry>,
    dep: &String,
    current_walk: &Vec<String>,
    Ghost(g): Ghost<Seq<GraphEntryView>>,
    Ghost(pool): Ghost<Seq<Seq<char>>>,
    Ghost(root): Ghost<Seq<char>>,
    Ghost(head): Ghost<int>,
    Ghost(t): Ghost<int>,
)
    requires
        search_state(g, pool, root, old(q)@, head),
        breadth_first_order(g, old(q)@),
        found_before(g, old(q)@, head, t),
        0 <= t < deps_of(g, walk_ids(old(q)@)[head]).len(),
        deps_of(g, walk_ids(old(q)@)[head])[t] == dep@,
        forall|u: int| 0 <= u < t ==> walk_ids(old(q)@).contains(#[trigger] deps_of(g, walk_ids(old(q)@)[head])[u]),
        current_walk.deep_view() == old(q)@[head].walk.deep_view(),
        walk_from_to(g, current_walk.deep_view(), root, current_walk.deep_view().last()),
        deps_of(g, current_walk.deep_view().last()).contains(dep@),
        pool.contains(dep@),
        layered(g, old(q)@, head),
        head < old(q)@.len(),
        current_walk.deep_view().len() == walk_len(old(q)@, head),
    ensures
        search_state(g, pool, root, final(q)@, head),
        layered(g, final(q)@, head),
        breadth_first_order(g, final(q)@),
        found_before(g, final(q)@, head, t + 1),
        walk_ids(final(q)@).contains(dep@),
        walk_ids(old(q)@).len() <= walk_ids(final(q)@).len(),
        walk_ids(final(q)@).take(walk_ids(old(q)@).len() as int) == walk_ids(old(q)@),
        forall|a: int| 0 <= a < old(q)@.len() ==> final(q)@[a] == old(q)@[a],
{
    let ghost before = q@;
    let mut k: usize = 0;
    while k < q.len()
        invariant
            k <= q@.len(),
            q@ == before,
            search_state(g, pool, root, q@, head),
            layered(g, q@, head),
            breadth_first_order(g, q@),
            found_before(g, q@, head, t),
            forall|j: int| 0 <= j < k ==> walk_ids(q@)[j] != dep@,
        decreases q@.len() - k,
    {
        assert(walk_ids(q@)[k as int] == q@[k as int].id@);
        if q[k].id == *dep {
            assert(walk_ids(q@)[k as int] == dep@);
            assert(walk_ids(q@).take(walk_ids(q@).len() as int) =~= walk_ids(q@));
            return;
        }
        k = k + 1;
    }
    let mut walk = current_walk.clone();
    walk.push(dep.clone());
    let ghost w = walk.deep_view();
    proof {
        let cw = current_walk.deep_view();
        assert(w =~= cw.push(dep@));
        assert forall|i: int| 0 <= i < w.len() - 1 implies deps_of(g, #[trigger] w[i]).contains(w[i + 1]) by {
            if i < cw.len() - 1 {
                assert(w[i] == cw[i] && w[i + 1] == cw[i + 1]);
            }
        }
    }
    q.push(WalkEntry { id: dep.clone(), walk });
    proof {
        assert(walk_ids(q@) =~= walk_ids(before).push(dep@));
        assert(walk_ids(q@).take(before.len() as int) =~= walk_ids(before));
        assert forall|a: int| 0 <= a < q@.len() implies walk_from_to(g, (#[trigger] q@[a]).walk.deep_view(), root, q@[a].id@) by {
            if a < before.len() {
                assert(q@[a] == before[a]);
            }
        }
        assert forall|a: int| 0 <= a < q@.len() implies pool.contains(#[trigger] walk_ids(q@)[a]) by {
            if a < before.len() {
                assert(walk_ids(q@)[a] == walk_ids(before)[a]);
            }
        }
        assert forall|a: int, d: Seq<char>| 0 <= a < head && deps_of(g, #[trigger] walk_ids(q@)[a]).contains(d) implies #[trigger] walk_ids(q@).contains(d) by {
            assert(walk_ids(q@)[a] == walk_ids(before)[a]);
            assert(walk_ids(before).contains(d));
            let j = choose|j: int| 0 <= j < before.len() && walk_ids(before)[j] == d;
            assert(walk_ids(q@)[j] == d);
        }
        assert(walk_ids(q@)[before.len() as int] == dep@);
        let n = before.len() as int;
        assert(walk_len(q@, n) == walk_len(before, head) + 1);
        assert forall|a: int| 0 <= a < n implies #[trigger] walk_len(q@, a) == walk_len(before, a) by {
            assert(q@[a] == before[a]);
        }
        assert forall|a: int, b: int| 0 <= a <= b < q@.len() implies #[trigger] walk_len(q@, a) <= #[trigger] walk_len(q@, b) by {
            if b < n {
                assert(walk_len(before, a) <= walk_len(before, b));
            } else if a < n {
                assert(walk_len(before, a) <= walk_len(before, head) + 1);
            }
        }
        assert forall|b: int| 0 <= b < q@.len() implies #[trigger] walk_len(q@, b) <= walk_len(q@, head) + 1 by {
            if b < n {
                assert(walk_len(before, b) <= walk_len(before, head) + 1);
            }
        }
        assert forall|a: int, j: int| 0 <= a < head && 0 <= j < q@.len()
            && #[trigger] deps_of(g, walk_ids(q@)[a]).contains(#[trigger] walk_ids(q@)[j])
            implies walk_len(q@, j) <= walk_len(q@, a) + 1 by {
            assert(walk_ids(q@)[a] == walk_ids(before)[a]);
            if j == n {
                assert(walk_ids(before).contains(dep@));
                let t = choose|t: int| 0 <= t < before.len() && walk_ids(before)[t] == dep@;
                assert(false);
            } else {
                assert(walk_ids(q@)[j] == walk_ids(before)[j]);
                assert(deps_of(g, walk_ids(before)[a]).contains(walk_ids(before)[j]));
            }
        }
        lemma_found_where_expected(g, before, q@, head, t, dep@);
    }
}

/// After `dep` is appended while entry `head` is expanded at position `t`,
/// the entries are still in breadth-first order and were all found before
/// position `t + 1`.
proof fn lemma_found_where_expected(g: Seq<GraphEntryView>, before: Seq<WalkEntry>, q: Seq<WalkEntry>, head: int, t: int, dep: Seq<char>)
    requires
        breadth_first_order(g, before),
        found_before(g, before, head, t),
        closed_below(g, before, head),
        0 <= head < before.len(),
        q.len() == before.len() + 1,
        forall|x: int| 0 <= x < before.len() ==> q[x] == before[x],
        walk_ids(q)[before.len() as int] == dep,
        q[before.len() as int].walk.deep_view() == before[head].walk.deep_view().push(dep),
        !walk_ids(before).contains(dep),
        0 <= t < deps_of(g, walk_ids(before)[head]).len(),
        deps_of(g, walk_ids(before)[head])[t] == dep,
        forall|u: int| 0 <= u < t ==> walk_ids(before).contains(#[trigger] deps_of(g, walk_ids(before)[head])[u]),
    ensures
        breadth_first_order(g, q),
        found_before(g, q, head, t + 1),
{
    let n = before.len() as int;
    assert forall|x: int| 0 <= x < n implies #[trigger] walk_ids(q)[x] == walk_ids(before)[x] by {
        assert(q[x] == before[x]);
    }
    // Where entries before `n` were found does not change.
    assert forall|j: int, a: int, u: int| j < n implies #[trigger] parent_at(g, q, j, a, u) == parent_at(g, before, j, a, u) by {
        if 0 <= a < j && j < n {
            assert(walk_ids(q)[a] == walk_ids(before)[a]);
            assert(walk_ids(q)[j] == walk_ids(before)[j]);
            assert(q[a] == before[a] && q[j] == before[j]);
            assert forall|b: int| 0 <= b < a implies walk_ids(q)[b] == walk_ids(before)[b] by {}
        }
    }
    let d = deps_of(g, walk_ids(before)[head]);
    assert(walk_ids(q)[head] == walk_ids(before)[head]);
    assert forall|u: int| 0 <= u < t implies d[u] != walk_ids(q)[n] by {
        assert(walk_ids(before).contains(d[u]));
    }
    assert forall|b: int| 0 <= b < head implies !deps_of(g, walk_ids(q)[b]).contains(walk_ids(q)[n]) by {
        assert(walk_ids(q)[b] == walk_ids(before)[b]);
        if deps_of(g, walk_ids(before)[b]).contains(dep) {
            assert(walk_ids(before).contains(dep));
        }
    }
    assert(q[head] == before[head]);
    assert(parent_at(g, q, n, head, t));
    // `dep` was found from `head` at `t` and nowhere else.
    assert forall|a: int, u: int| #[trigger] parent_at(g, q, n, a, u) implies a == head && u == t by {
        if a < head {
            assert(deps_of(g, walk_ids(q)[a]).contains(walk_ids(q)[n]));
        } else if head < a {
            assert(d.contains(dep));
            assert(deps_of(g, walk_ids(q)[head]).contains(walk_ids(q)[n]));
        } else {
            if u < t {
                assert(d[u] == dep);
            } else if t < u {
                assert(deps_of(g, walk_ids(q)[a])[t] == walk_ids(q)[n]);
            }
        }
    }
    assert forall|j: int| 1 <= j < q.len() implies #[trigger] has_parent(g, q, j) by {
        if j < n {
            assert(has_parent(g, before, j));
            let (a, u) = choose|a: int, u: int| #[trigger] parent_at(g, before, j, a, u);
            assert(parent_at(g, q, j, a, u));
        } else {
            assert(parent_at(g, q, n, head, t));
        }
    }
    assert forall|j: int, k: int, a: int, b: int, tj: int, tk: int|
        j < k && #[trigger] parent_at(g, q, j, a, tj) && #[trigger] parent_at(g, q, k, b, tk)
        implies a < b || (a == b && tj < tk) by {
        if k < n {
            assert(parent_at(g, before, j, a, tj) && parent_at(g, before, k, b, tk));
        } else {
            assert(b == head && tk == t);
            assert(parent_at(g, before, j, a, tj));
        }
    }
    assert forall|j: int, a: int, u: int| #[trigger] parent_at(g, q, j, a, u) implies a < head || (a == head && u < t + 1) by {
        if j < n {
            assert(parent_at(g, before, j, a, u));
        }
    }
}

/// Expands entry `head`: every dependency of its id gets an entry.
fn expand(
    q: &mut Vec<WalkEntry>,
    graph: &Vec<GraphEntry>,
    head: usize,
    Ghost(pool): Ghost<Seq<Seq<char>>>,
    Ghost(root): Ghost<Seq<char>>,
)
    requires
        search_state(graph.deep_view(), pool, root, old(q)@, head as int),
        head < old(q)@.len(),
        pool == seq![root] + all_deps(graph.deep_view()),
        layered(graph.deep_view(), old(q)@, head as int),
        breadth_first_order(graph.deep_view(), old(q)@),
        found_before(graph.deep_view(), old(q)@, head as int, 0),
    ensures
        search_state(graph.deep_view(), pool, root, final(q)@, head + 1),
        layered(graph.deep_view(), final(q)@, head + 1),
        breadth_first_order(graph.deep_view(), final(q)@),
        found_before(graph.deep_view(), final(q)@, head + 1, 0),
{
    let ghost g = graph.deep_view();
    let current = q[head].id.clone();
    let current_walk = q[head].walk.clone();
    assert(walk_ids(q@)[head as int] == current@);
    let found = find_entry(graph, &current);
    proof { lemma_entry_for(g, current@); }
    let deps: Vec<String> = match found {
        Some(i) => {
            let d = graph[i].deps.clone();
            assert(d.deep_view() =~= graph@[i as int].deps.deep_view());
            assert(g[i as int] == graph@[i as int]@);
            assert(entry_for(g, current@) == Some(i as int));
            d
        },
        None => {
            let d: Vec<String> = Vec::new();
            assert(d.deep_view() =~= Seq::<Seq<char>>::empty());
            d
        },
    };
    assert(deps.deep_view() == deps_of(g, current@));
    let mut t: usize = 0;
    while t < deps.len()
        invariant
            g == graph.deep_view(),
            pool == seq![root] + all_deps(g),
            head < q@.len(),
            search_state(g, pool, root, q@, head as int),
            layered(g, q@, head as int),
            breadth_first_order(g, q@),
            found_before(g, q@, head as int, t as int),
            q@[head as int].id@ == current@,
            current_walk.deep_view() == q@[head as int].walk.deep_view(),
            deps.deep_view() == deps_of(g, current@),
            t <= deps@.len(),
            forall|s: int| 0 <= s < t ==> walk_ids(q@).contains(#[trigger] deps.deep_view()[s]),
        decreases deps@.len() - t,
    {
        let dep = &deps[t];
        assert(deps.deep_view()[t as int] == dep@);
        proof {
            lemma_entry_for(g, current@);
            if let Some(e) = entry_for(g, current@) {
                lemma_all_deps_contains(g, e, dep@);
                let m = choose|m: int| 0 <= m < all_deps(g).len() && all_deps(g)[m] == dep@;
                assert(pool[m + 1] == dep@);
            }
            assert(current_walk.deep_view().last() == current@);
        }
        let ghost before = q@;
        proof {
            assert(walk_ids(q@)[head as int] == current@);
            assert forall|u: int| 0 <= u < t implies walk_ids(q@).contains(#[trigger] deps_of(g, walk_ids(q@)[head as int])[u]) by {
                assert(walk_ids(q@).contains(deps.deep_view()[u]));
            }
        }
        visit(q, dep, &current_walk, Ghost(g), Ghost(pool), Ghost(root), Ghost(head as int), Ghost(t as int));
        proof {
            assert(q@[head as int] == before[head as int]);
            assert forall|s: int| 0 <= s < t + 1 implies walk_ids(q@).contains(#[trigger] deps.deep_view()[s]) by {
                if s < t {
                    let j = choose|j: int| 0 <= j < walk_ids(before).len() && walk_ids(before)[j] == deps.deep_view()[s];
                    assert(walk_ids(q@).take(walk_ids(before).len() as int)[j] == deps.deep_view()[s]);
                }
            }
        }
        t = t + 1;
    }
    proof {
        assert forall|a: int, d: Seq<char>| 0 <= a < head + 1 && deps_of(g, #[trigger] walk_ids(q@)[a]).contains(d) implies #[trigger] walk_ids(q@).contains(d) by {
            if a == head {
                assert(walk_ids(q@)[a] == current@);
                let s = choose|s: int| 0 <= s < deps.deep_view().len() && deps.deep_view()[s] == d;
                assert(walk_ids(q@).contains(deps.deep_view()[s]));
            }
        }
        let h = head as int;
        assert forall|a: int, j: int| 0 <= a < h + 1 && 0 <= j < q@.len()
            && #[trigger] deps_of(g, walk_ids(q@)[a]).contains(#[trigger] walk_ids(q@)[j])
            implies walk_len(q@, j) <= walk_len(q@, a) + 1 by {
            if a == h {
                assert(walk_len(q@, j) <= walk_len(q@, h) + 1);
            }
        }
        assert forall|j: int, a: int, u: int| #[trigger] parent_at(g, q@, j, a, u) implies a < h + 1 || (a == h + 1 && u < 0) by {
            assert(a < h || (a == h && u < t));
        }
        if h + 1 < q@.len() {
            assert forall|b: int| 0 <= b < q@.len() implies #[trigger] walk_len(q@, b) <= walk_len(q@, h + 1) + 1 by {
                assert(walk_len(q@, b) <= walk_len(q@, h) + 1);
                assert(walk_len(q@, h) <= walk_len(q@, h + 1));
            }
        }
    }
}

/// A finished breadth-first search from `root`: the root's entry first with
/// the root alone as its walk, distinct ids, every dependency of every entry
/// present, entries in the order they were found.
pub open spec fn complete_search(g: Seq<GraphEntryView>, root: Seq<char>, q: Seq<WalkEntry>) -> bool {
    &&& q.len() >= 1
    &&& walk_ids(q)[0] == root
    &&& q[0].walk.deep_view() == seq![root]
    &&& walk_ids(q).no_duplicates()
    &&& closed_below(g, q, q.len() as int)
    &&& breadth_first_order(g, q)
}

/// The ids and walks of entries, as plain values.
pub open spec fn walk_views(q: Seq<WalkEntry>) -> Seq<(Seq<char>, Seq<Seq<char>>)> {
    q.map_values(|e: WalkEntry| (e.id@, e.walk.deep_view()))
}

/// The ids and walks of the breadth-first search from `root` (there is one,
/// and only one: see `lemma_search_unique`).
pub open spec fn bfs_walks(g: Seq<GraphEntryView>, root: Seq<char>) -> Seq<(Seq<char>, Seq<Seq<char>>)> {
    walk_views(choose|q: Seq<WalkEntry>| complete_search(g, root, q))
}

/// A position of an entry with this id.
pub open spec fn entry_index(vs: Seq<(Seq<char>, Seq<Seq<char>>)>, id: Seq<char>) -> int {
    choose|k: int| 0 <= k < vs.len() && vs[k].0 == id
}

/// The walk along which the breadth-first search from `root` first meets `id`.
pub open spec fn bfs_walk(g: Seq<GraphEntryView>, root: Seq<char>, id: Seq<char>) -> Seq<Seq<char>> {
    bfs_walks(g, root)[entry_index(bfs_walks(g, root), id)].1
}

/// In the search's own entries, `bfs_walk` is the walk of the entry with
/// the id.
pub proof fn lemma_bfs_walk_of(g: Seq<GraphEntryView>, root: Seq<char>, q: Seq<WalkEntry>, k: int)
    requires
        walk_views(q) == bfs_walks(g, root),
        walk_ids(q).no_duplicates(),
        0 <= k < q.len(),
    ensures
        bfs_walk(g, root, walk_ids(q)[k]) == q[k].walk.deep_view(),
{
    let vs = bfs_walks(g, root);
    let id = walk_ids(q)[k];
    assert(vs.len() == q.len());
    assert(walk_ids(q)[k] == q[k].id@);
    assert(vs[k] == (q[k].id@, q[k].walk.deep_view()));
    assert(vs[k].0 == id);
    let c = entry_index(vs, id);
    assert(0 <= c < vs.len() && vs[c].0 == id);
    assert(vs[c] == (q[c].id@, q[c].walk.deep_view()));
    assert(walk_ids(q)[c] == q[c].id@);
    assert(walk_ids(q)[c] == id);
    assert(c == k);
}

/// An entry is found from one entry only, at one position only.
proof fn lemma_parent_unique(g: Seq<GraphEntryView>, q: Seq<WalkEntry>, j: int, a: int, t: int, b: int, u: int)
    requires
        parent_at(g, q, j, a, t),
        parent_at(g, q, j, b, u),
    ensures
        a == b && t == u,
{
    let x = walk_ids(q)[j];
    if a < b {
        assert(deps_of(g, walk_ids(q)[a])[t] == x);
        assert(deps_of(g, walk_ids(q)[a]).contains(x));
    } else if b < a {
        assert(deps_of(g, walk_ids(q)[b])[u] == x);
        assert(deps_of(g, walk_ids(q)[b]).contains(x));
    } else {
        let d = deps_of(g, walk_ids(q)[a]);
        if t < u {
            assert(d[t] == x);
        } else if u < t {
            assert(d[u] == x);
        }
    }
}

/// Two entries agree on their id and walk.
pub open spec fn same_entry(q1: Seq<WalkEntry>, q2: Seq<WalkEntry>, x: int) -> bool {
    walk_ids(q1)[x] == walk_ids(q2)[x] && q1[x].walk.deep_view() == q2[x].walk.deep_view()
}

/// Entry `m` of the second search, found from `a` at `t` in the first
/// search where both agree before `m`, is found there too, from `a` at `t`.
proof fn lemma_found_alike(g: Seq<GraphEntryView>, root: Seq<char>, q1: Seq<WalkEntry>, q2: Seq<WalkEntry>, m: int, a: int, t: int)
    requires
        complete_search(g, root, q1),
        complete_search(g, root, q2),
        1 <= m < q1.len(),
        m < q2.len(),
        forall|x: int| 0 <= x < m ==> #[trigger] same_entry(q1, q2, x),
        parent_at(g, q1, m, a, t),
    ensures
        exists|m2: int| m <= m2 < q2.len() && walk_ids(q2)[m2] == walk_ids(q1)[m] && #[trigger] parent_at(g, q2, m2, a, t),
{
    let x1 = walk_ids(q1)[m];
    assert(same_entry(q1, q2, a));
    let d = deps_of(g, walk_ids(q1)[a]);
    assert(d[t] == x1);
    assert(d.contains(x1));
    assert(deps_of(g, walk_ids(q2)[a]).contains(x1));
    assert(walk_ids(q2).contains(x1));
    let m2 = choose|m2: int| 0 <= m2 < walk_ids(q2).len() && walk_ids(q2)[m2] == x1;
    if m2 < m {
        assert(same_entry(q1, q2, m2));
        assert(walk_ids(q1)[m2] == x1);
    }
    assert(has_parent(g, q2, m2));
    let (b, u) = choose|b: int, u: int| #[trigger] parent_at(g, q2, m2, b, u);
    let d2 = deps_of(g, walk_ids(q2)[b]);
    if b < a {
        assert(same_entry(q1, q2, b));
        assert(d2[u] == x1);
        assert(d2.contains(x1));
        assert(deps_of(g, walk_ids(q1)[b]).contains(x1));
    } else if a < b {
        assert(deps_of(g, walk_ids(q2)[a]).contains(walk_ids(q2)[m2]));
    } else {
        if u < t {
            assert(d2[u] == x1);
            assert(d[u] == x1);
        } else if t < u {
            assert(d2[t] == x1);
        }
    }
    assert(b == a && u == t);
    assert(walk_ids(q2)[m2] == walk_ids(q1)[m]);
    assert(parent_at(g, q2, m2, a, t));
}

/// Two finished breadth-first searches from the same root agree on their
/// first `k` entries.
proof fn lemma_prefix_agrees(g: Seq<GraphEntryView>, root: Seq<char>, q1: Seq<WalkEntry>, q2: Seq<WalkEntry>, k: int)
    requires
        complete_search(g, root, q1),
        complete_search(g, root, q2),
        1 <= k <= q1.len(),
        k <= q2.len(),
    ensures
        forall|x: int| 0 <= x < k ==> #[trigger] same_entry(q1, q2, x),
    decreases k,
{
    if k == 1 {
        assert(same_entry(q1, q2, 0));
    } else {
        lemma_prefix_agrees(g, root, q1, q2, k - 1);
        let m = k - 1;
        assert(has_parent(g, q1, m));
        let (a1, t1) = choose|a: int, t: int| #[trigger] parent_at(g, q1, m, a, t);
        assert(has_parent(g, q2, m));
        let (a2, t2) = choose|a: int, t: int| #[trigger] parent_at(g, q2, m, a, t);
        lemma_found_alike(g, root, q1, q2, m, a1, t1);
        let m2 = choose|m2: int| m <= m2 < q2.len() && walk_ids(q2)[m2] == walk_ids(q1)[m] && #[trigger] parent_at(g, q2, m2, a1, t1);
        assert forall|x: int| 0 <= x < m implies #[trigger] same_entry(q2, q1, x) by {
            assert(same_entry(q1, q2, x));
        }
        lemma_found_alike(g, root, q2, q1, m, a2, t2);
        let m1 = choose|m1: int| m <= m1 < q1.len() && walk_ids(q1)[m1] == walk_ids(q2)[m] && #[trigger] parent_at(g, q1, m1, a2, t2);
        if m < m2 && m < m1 {
            assert(a2 < a1 || (a2 == a1 && t2 < t1));
            assert(a1 < a2 || (a1 == a2 && t1 < t2));
        }
        let x = walk_ids(q1)[m];
        assert(walk_ids(q2)[m] == x);
        if m2 == m {
            lemma_parent_unique(g, q2, m, a1, t1, a2, t2);
        } else {
            lemma_parent_unique(g, q1, m, a1, t1, a2, t2);
        }
        assert(same_entry(q1, q2, a1));
        assert(q1[m].walk.deep_view() == q1[a1].walk.deep_view().push(x));
        assert(q2[m].walk.deep_view() == q2[a1].walk.deep_view().push(x));
        assert(same_entry(q1, q2, m));
    }
}

/// There is only one finished breadth-first search from a root.
pub proof fn lemma_search_unique(g: Seq<GraphEntryView>, root: Seq<char>, q1: Seq<WalkEntry>, q2: Seq<WalkEntry>)
    requires
        complete_search(g, root, q1),
        complete_search(g, root, q2),
    ensures
        walk_views(q1) == walk_views(q2),
{
    lemma_search_not_longer(g, root, q1, q2);
    lemma_search_not_longer(g, root, q2, q1);
    lemma_prefix_agrees(g, root, q1, q2, q1.len() as int);
    assert forall|x: int| 0 <= x < q1.len() implies walk_views(q1)[x] == walk_views(q2)[x] by {
        assert(same_entry(q1, q2, x));
    }
    assert(walk_views(q1) =~= walk_views(q2));
}

/// A finished search is no longer than another from the same root.
proof fn lemma_search_not_longer(g: Seq<GraphEntryView>, root: Seq<char>, q1: Seq<WalkEntry>, q2: Seq<WalkEntry>)
    requires
        complete_search(g, root, q1),
        complete_search(g, root, q2),
    ensures
        q2.len() <= q1.len(),
{
    if q1.len() < q2.len() {
        let n = q1.len() as int;
        lemma_prefix_agrees(g, root, q1, q2, n);
        assert(has_parent(g, q2, n));
        let (a, t) = choose|a: int, t: int| #[trigger] parent_at(g, q2, n, a, t);
        let x = walk_ids(q2)[n];
        assert(same_entry(q1, q2, a));
        assert(deps_of(g, walk_ids(q2)[a])[t] == x);
        assert(deps_of(g, walk_ids(q1)[a]).contains(x));
        assert(walk_ids(q1).contains(x));
        let y = choose|y: int| 0 <= y < walk_ids(q1).len() && walk_ids(q1)[y] == x;
        assert(same_entry(q1, q2, y));
        assert(walk_ids(q2)[y] == walk_ids(q2)[n]);
    }
}

/// The package ids in the order that a breadth-first search from `root`
/// first meets them, each with the walk it was first met along.
pub fn dependency_walks(graph: &Vec<GraphEntry>, root: &String) -> (r: Vec<WalkEntry>)
    ensures
        walk_ids(r@).no_duplicates(),
        r@.len() >= 1,
        r@[0].id@ == root@,
        forall|i: int| 0 <= i < r@.len() ==> walk_from_to(graph.deep_view(), (#[trigger] r@[i]).walk.deep_view(), root@, r@[i].id@),
        forall|k: Seq<char>| reachable(graph.deep_view(), root@, k) ==> #[trigger] walk_ids(r@).contains(k),
        forall|i: int, w: Seq<Seq<char>>| 0 <= i < r@.len() && #[trigger] walk_from_to(graph.deep_view(), w, root@, r@[i].id@)
            ==> r@[i].walk.deep_view().len() <= w.len(),
        breadth_first_order(graph.deep_view(), r@),
        complete_search(graph.deep_view(), root@, r@),
        walk_views(r@) == bfs_walks(graph.deep_view(), root@),
{
    let ghost g = graph.deep_view();
    let ghost pool = seq![root@] + all_deps(g);
    let mut q: Vec<WalkEntry> = Vec::new();
    let mut first_walk: Vec<String> = Vec::new();
    first_walk.push(root.clone());
    q.push(WalkEntry { id: root.clone(), walk: first_walk });
    proof {
        assert(q@[0].walk.deep_view() =~= seq![root@]);
        assert(pool[0] == root@);
        assert(walk_ids(q@) =~= seq![root@]);
        assert(walk_len(q@, 0) == 1);
        assert(breadth_first_order(g, q@));
        assert(found_before(g, q@, 0, 0));
    }
    let mut head: usize = 0;
    while head < q.len()
        invariant
            g == graph.deep_view(),
            pool == seq![root@] + all_deps(g),
            search_state(g, pool, root@, q@, head as int),
            layered(g, q@, head as int),
            breadth_first_order(g, q@),
            found_before(g, q@, head as int, 0),
        decreases pool.len() - head,
    {
        proof {
            let ids = walk_ids(q@);
            ids.unique_seq_to_set();
            pool.lemma_cardinality_of_set();
            assert(ids.to_set().subset_of(pool.to_set()));
            vstd::set_lib::lemma_len_subset(ids.to_set(), pool.to_set());
        }
        expand(&mut q, graph, head, Ghost(pool), Ghost(root@));
        head = head + 1;
    }
    proof {
        assert forall|k: Seq<char>| reachable(g, root@, k) implies #[trigger] walk_ids(q@).contains(k) by {
            let w = choose|w: Seq<Seq<char>>| #[trigger] walk_from_to(g, w, root@, k);
            lemma_walk_stays_inside(g, q@, w, root@);
        }
        assert forall|i: int, w: Seq<Seq<char>>| 0 <= i < q@.len() && #[trigger] walk_from_to(g, w, root@, q@[i].id@)
            implies q@[i].walk.deep_view().len() <= w.len() by {
            lemma_walk_not_shorter(g, q@, w, root@);
            assert(walk_ids(q@)[i] == w.last());
        }
        assert(walk_ids(q@)[0] == q@[0].id@);
        assert(q@[0].walk.deep_view() =~= seq![root@]);
        assert(complete_search(g, root@, q@));
        let some = choose|q2: Seq<WalkEntry>| complete_search(g, root@, q2);
        lemma_search_unique(g, root@, q@, some);
    }
    q
}

/// In a finished breadth-first search, no walk from the root reaches an
/// entry's id in fewer steps than the entry's own walk.
proof fn lemma_walk_not_shorter(g: Seq<GraphEntryView>, q: Seq<WalkEntry>, w: Seq<Seq<char>>, root: Seq<char>)
    requires
        w.len() >= 1,
        w[0] == root,
        q.len() >= 1,
        q[0].id@ == root,
        walk_ids(q).no_duplicates(),
        forall|i: int| 0 <= i < w.len() - 1 ==> deps_of(g, #[trigger] w[i]).contains(w[i + 1]),
        forall|a: int, d: Seq<char>| 0 <= a < q.len() && deps_of(g, #[trigger] walk_ids(q)[a]).contains(d) ==> #[trigger] walk_ids(q).contains(d),
        layered(g, q, q.len() as int),
    ensures
        forall|j: int| 0 <= j < q.len() && walk_ids(q)[j] == w.last() ==> walk_len(q, j) <= w.len(),
    decreases w.len(),
{
    if w.len() == 1 {
        assert forall|j: int| 0 <= j < q.len() && walk_ids(q)[j] == w.last() implies walk_len(q, j) <= w.len() by {
            assert(walk_ids(q)[0] == root);
            assert(j == 0);
        }
    } else {
        let prefix = w.drop_last();
        assert forall|i: int| 0 <= i < prefix.len() - 1 implies deps_of(g, #[trigger] prefix[i]).contains(prefix[i + 1]) by {
            assert(prefix[i] == w[i] && prefix[i + 1] == w[i + 1]);
        }
        lemma_walk_not_shorter(g, q, prefix, root);
        lemma_walk_stays_inside(g, q, prefix, root);
        let a = choose|a: int| 0 <= a < walk_ids(q).len() && walk_ids(q)[a] == prefix.last();
        assert(walk_len(q, a) <= prefix.len());
        assert(deps_of(g, w[w.len() - 2]).contains(w[w.len() - 1]));
        assert(deps_of(g, walk_ids(q)[a]).contains(w.last()));
        assert forall|j: int| 0 <= j < q.len() && walk_ids(q)[j] == w.last() implies walk_len(q, j) <= w.len() by {
            assert(deps_of(g, walk_ids(q)[a]).contains(walk_ids(q)[j]));
        }
    }
}

/// A set of entries that holds the start of a walk and every dependency of
/// each of its ids holds the whole walk.
proof fn lemma_walk_stays_inside(g: Seq<GraphEntryView>, q: Seq<WalkEntry>, w: Seq<Seq<char>>, root: Seq<char>)
    requires
        w.len() >= 1,
        w[0] == root,
        q.len() >= 1,
        q[0].id@ == root,
        forall|i: int| 0 <= i < w.len() - 1 ==> deps_of(g, #[trigger] w[i]).contains(w[i + 1]),
        forall|a: int, d: Seq<char>| 0 <= a < q.len() && deps_of(g, #[trigger] walk_ids(q)[a]).contains(d) ==> #[trigger] walk_ids(q).contains(d),
    ensures
        walk_ids(q).contains(w.last()),
    decreases w.len(),
{
    if w.len() == 1 {
        assert(walk_ids(q)[0] == root);
    } else {
        let prefix = w.drop_last();
        assert forall|i: int| 0 <= i < prefix.len() - 1 implies deps_of(g, #[trigger] prefix[i]).contains(prefix[i + 1]) by {
            assert(prefix[i] == w[i] && prefix[i + 1] == w[i + 1]);
        }
        lemma_walk_stays_inside(g, q, prefix, root);
        let a = choose|a: int| 0 <= a < walk_ids(q).len() && walk_ids(q)[a] == prefix.last();
        assert(deps_of(g, w[w.len() - 2]).contains(w[w.len() - 1]));
        assert(deps_of(g, walk_ids(q)[a]).contains(w.last()));
    }
}

} // verus!
