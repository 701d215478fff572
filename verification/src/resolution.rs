//! Comparing a current resolution with a candidate one: which packages
//! changed version, which problems went away, which remain.
use crate::identity::{
    base_package_label, colliding_base_labels, package_identity_label, repeated_in, repeated_labels,
    stable_origin_fits, stable_package_identity, stable_package_origin, unique_package_label, base_label_fits,
    identity_detail_fits, with_detail, plain_identity, lemma_origin_is_text,
};
use crate::index::{contains_text, insert_text};
use crate::model::{
    CandidateVersionChange, CandidateVersionChangeView, PackageIssueView, PackageSourceKind, ResolveReport, ResolvedPackage,
    ResolvedPackageView, ScanReport, ScanReportView, WorkspaceData,
};
use crate::sort::{is_permutation_of, lemma_permutation_onto, picked, sort_by_key, SortKey};
use crate::text::{compare_text, concat3, join, lemma_text_order_antisymmetric, text_order};
use crate::version::version_display;
use vstd::prelude::*;

verus! {

/// A resolved package with what its identity reads from the filesystem
/// layout: its stable origin and its two labels.
#[derive(Debug)]
pub struct Identified {
    pub package: ResolvedPackage,
    pub origin: String,
    pub base_label: String,
    pub identity_label: String,
}

/// The plain-value view of [`Identified`].
pub struct IdentifiedView {
    pub package: ResolvedPackageView,
    pub origin: Seq<char>,
    pub base_label: Seq<char>,
    pub identity_label: Seq<char>,
}

impl View for Identified {
    type V = IdentifiedView;

    open spec fn view(&self) -> IdentifiedView {
        IdentifiedView {
            package: self.package@,
            origin: self.origin@,
            base_label: self.base_label@,
            identity_label: self.identity_label@,
        }
    }
}

impl DeepView for Identified {
    type V = IdentifiedView;

    open spec fn deep_view(&self) -> IdentifiedView {
        self@
    }
}

/// A version-change identity: the package name and its stable origin.
pub open spec fn key_of(x: IdentifiedView) -> (Seq<char>, Seq<char>) {
    (x.package.name, x.origin)
}

/// Identities are ordered by name, then origin.
pub open spec fn key_order(a: (Seq<char>, Seq<char>), b: (Seq<char>, Seq<char>)) -> int {
    if text_order(a.0, b.0) != 0 { text_order(a.0, b.0) } else { text_order(a.1, b.1) }
}

/// Some package of the side has the identity.
pub open spec fn has_key(side: Seq<IdentifiedView>, key: (Seq<char>, Seq<char>)) -> bool {
    exists|k: int| 0 <= k < side.len() && key_of(#[trigger] side[k]) == key
}

/// The version texts of the side's packages with the identity.
pub open spec fn versions_at(side: Seq<IdentifiedView>, key: (Seq<char>, Seq<char>)) -> Set<Seq<char>> {
    Set::new(|v: Seq<char>| exists|k: int| 0 <= k < side.len() && key_of(#[trigger] side[k]) == key
        && version_display(side[k].package.version) == v)
}

/// `k` is the first package of the side with the identity.
pub open spec fn first_at(side: Seq<IdentifiedView>, key: (Seq<char>, Seq<char>), k: int) -> bool {
    &&& 0 <= k < side.len()
    &&& key_of(side[k]) == key
    &&& forall|j: int| 0 <= j < k ==> key_of(#[trigger] side[j]) != key
}

/// A group of packages sharing an identity: the first one and the version
/// texts of all.
#[derive(Debug)]
pub struct Group {
    pub name: String,
    pub origin: String,
    pub rep: usize,
    pub versions: Vec<String>,
}

/// The identity of a group.
pub open spec fn group_key(g: Group) -> (Seq<char>, Seq<char>) {
    (g.name@, g.origin@)
}

/// The identities of groups.
pub open spec fn group_keys(gs: Seq<Group>) -> Seq<(Seq<char>, Seq<char>)> {
    gs.map_values(|g: Group| group_key(g))
}

/// Groups that sum up a side: one per identity, each with its first
/// package and exactly its version texts, without repeats.
pub open spec fn groups_fit(side: Seq<IdentifiedView>, gs: Seq<Group>) -> bool {
    &&& group_keys(gs).no_duplicates()
    &&& forall|key: (Seq<char>, Seq<char>)| #[trigger] group_keys(gs).contains(key) <==> has_key(side, key)
    &&& forall|g: int| 0 <= g < gs.len() ==> first_at(side, group_key(#[trigger] gs[g]), gs[g].rep as int)
    &&& forall|g: int| 0 <= g < gs.len() ==> (#[trigger] gs[g]).versions.deep_view().no_duplicates()
    &&& forall|g: int, v: Seq<char>| 0 <= g < gs.len() ==> ((#[trigger] gs[g]).versions.deep_view().contains(v)
        <==> #[trigger] versions_at(side, group_key(gs[g])).contains(v))
}

/// Finds the group with this identity.
fn find_group(gs: &Vec<Group>, name: &String, origin: &String) -> (r: Option<usize>)
    ensures
        r matches Some(g) ==> g < gs@.len() && group_key(gs@[g as int]) == (name@, origin@),
        r is None ==> !group_keys(gs@).contains((name@, origin@)),
{
    let mut g: usize = 0;
    while g < gs.len()
        invariant
            g <= gs@.len(),
            forall|u: int| 0 <= u < g ==> group_keys(gs@)[u] != (name@, origin@),
        decreases gs@.len() - g,
    {
        assert(group_keys(gs@)[g as int] == group_key(gs@[g as int]));
        if gs[g].name == *name && gs[g].origin == *origin {
            return Some(g);
        }
        g = g + 1;
    }
    None
}

/// Groups the packages of a side by identity, in order of first
/// appearance.
fn grouped_versions_by_identity(side: &Vec<Identified>) -> (r: Vec<Group>)
    ensures
        groups_fit(side.deep_view(), r@),
{
    let ghost all = side.deep_view();
    let mut gs: Vec<Group> = Vec::new();
    let mut k: usize = 0;
    while k < side.len()
        invariant
            all == side.deep_view(),
            k <= all.len(),
            groups_fit(all.take(k as int), gs@),
            forall|g: int| 0 <= g < gs@.len() ==> (#[trigger] gs@[g]).rep < k,
        decreases all.len() - k,
    {
        let ghost pre = all.take(k as int);
        let ghost post = all.take(k + 1);
        let ghost before = gs@;
        let x = &side[k];
        assert(all[k as int] == x@);
        assert(post[k as int] == x@);
        assert forall|j: int| 0 <= j < k implies post[j] == pre[j] by {}
        let version = x.package.version.text();
        let ghost key = key_of(x@);
        assert forall|key2: (Seq<char>, Seq<char>)| has_key(post, key2) <==> (has_key(pre, key2) || key2 == key) by {
            if has_key(post, key2) {
                let j = choose|j: int| 0 <= j < post.len() && key_of(#[trigger] post[j]) == key2;
                if j < k {
                    assert(key_of(pre[j]) == key2);
                }
            }
            if has_key(pre, key2) {
                let j = choose|j: int| 0 <= j < pre.len() && key_of(#[trigger] pre[j]) == key2;
                assert(key_of(post[j]) == key2);
            }
            if key2 == key {
                assert(key_of(post[k as int]) == key2);
            }
        }
        assert forall|key2: (Seq<char>, Seq<char>), v: Seq<char>| #[trigger] versions_at(post, key2).contains(v)
            <==> (versions_at(pre, key2).contains(v) || (key2 == key && v == version@)) by {
            if versions_at(post, key2).contains(v) {
                let j = choose|j: int| 0 <= j < post.len() && key_of(#[trigger] post[j]) == key2
                    && version_display(post[j].package.version) == v;
                if j < k {
                    assert(key_of(pre[j]) == key2);
                    assert(versions_at(pre, key2).contains(v));
                }
            }
            if versions_at(pre, key2).contains(v) {
                let j = choose|j: int| 0 <= j < pre.len() && key_of(#[trigger] pre[j]) == key2
                    && version_display(pre[j].package.version) == v;
                assert(key_of(post[j]) == key2);
                assert(versions_at(post, key2).contains(v));
            }
            if key2 == key && v == version@ {
                assert(key_of(post[k as int]) == key2);
                assert(versions_at(post, key2).contains(v));
            }
        }
        match find_group(&gs, &x.package.name, &x.origin) {
            Some(g) => {
                let mut versions = gs[g].versions.clone();
                assert(versions.deep_view() =~= gs@[g as int].versions.deep_view());
                assert(gs@[g as int].versions.deep_view().no_duplicates());
                insert_text(&mut versions, &version);
                let group = Group { name: gs[g].name.clone(), origin: gs[g].origin.clone(), rep: gs[g].rep, versions };
                let ghost updated = group;
                gs.set(g, group);
                proof {
                    assert(gs@[g as int] == updated);
                    assert(group_key(updated) == key);
                    assert forall|u: int| 0 <= u < gs@.len() && u != g implies gs@[u] == before[u] by {}
                    assert(group_keys(gs@) =~= group_keys(before));
                    assert forall|u: int| 0 <= u < gs@.len() implies first_at(post, group_key(#[trigger] gs@[u]), gs@[u].rep as int) by {
                        assert(first_at(pre, group_key(before[u]), before[u].rep as int));
                        assert forall|j: int| 0 <= j < gs@[u].rep implies key_of(#[trigger] post[j]) != group_key(gs@[u]) by {
                            assert(key_of(pre[j]) != group_key(before[u]));
                        }
                    }
                    assert forall|u: int, v: Seq<char>| 0 <= u < gs@.len() implies ((#[trigger] gs@[u]).versions.deep_view().contains(v)
                        <==> #[trigger] versions_at(post, group_key(gs@[u])).contains(v)) by {
                        assert(versions_at(pre, group_key(before[u])).contains(v) <==> before[u].versions.deep_view().contains(v));
                        if u != g {
                            assert(group_key(before[u]) != key) by {
                                assert(group_keys(before)[u] != group_keys(before)[g as int]);
                            }
                        }
                    }
                    assert forall|u: int| 0 <= u < gs@.len() implies (#[trigger] gs@[u]).versions.deep_view().no_duplicates() by {
                        if u != g {
                            assert(before[u].versions.deep_view().no_duplicates());
                        }
                    }
                    assert forall|key2: (Seq<char>, Seq<char>)| #[trigger] group_keys(gs@).contains(key2) <==> has_key(post, key2) by {
                        assert(group_keys(before).contains(key2) <==> has_key(pre, key2));
                        assert(group_keys(before)[g as int] == key);
                    }
                }
            },
            None => {
                let mut versions: Vec<String> = Vec::new();
                versions.push(version);
                let group = Group { name: x.package.name.clone(), origin: x.origin.clone(), rep: k, versions };
                gs.push(group);
                proof {
                    let g = before.len() as int;
                    assert(group_key(gs@[g]) == key);
                    assert forall|u: int| 0 <= u < before.len() implies gs@[u] == before[u] by {}
                    assert(group_keys(gs@) =~= group_keys(before).push(key));
                    assert(!group_keys(before).contains(key));
                    assert(!has_key(pre, key));
                    assert forall|u: int| 0 <= u < gs@.len() implies first_at(post, group_key(#[trigger] gs@[u]), gs@[u].rep as int) by {
                        if u < g {
                            assert(first_at(pre, group_key(before[u]), before[u].rep as int));
                            assert forall|j: int| 0 <= j < gs@[u].rep implies key_of(#[trigger] post[j]) != group_key(gs@[u]) by {
                                assert(key_of(pre[j]) != group_key(before[u]));
                            }
                        } else {
                            assert forall|j: int| 0 <= j < k implies key_of(#[trigger] post[j]) != key by {
                                if key_of(post[j]) == key {
                                    assert(key_of(pre[j]) == key);
                                }
                            }
                        }
                    }
                    assert(gs@[g].versions.deep_view() =~= seq![version@]);
                    assert forall|u: int, v: Seq<char>| 0 <= u < gs@.len() implies ((#[trigger] gs@[u]).versions.deep_view().contains(v)
                        <==> #[trigger] versions_at(post, group_key(gs@[u])).contains(v)) by {
                        if u < g {
                            assert(versions_at(pre, group_key(before[u])).contains(v) <==> before[u].versions.deep_view().contains(v));
                            assert(group_keys(before)[u] == group_key(before[u]));
                            assert(group_keys(before).contains(group_key(before[u])));
                            assert(group_key(before[u]) != key);
                            assert(gs@[u] == before[u]);
                            assert(versions_at(post, group_key(before[u])).contains(v) <==> versions_at(pre, group_key(before[u])).contains(v));
                        } else {
                            if versions_at(pre, key).contains(v) {
                                let j = choose|j: int| 0 <= j < pre.len() && key_of(#[trigger] pre[j]) == key
                                    && version_display(pre[j].package.version) == v;
                                assert(has_key(pre, key));
                            }
                            assert(gs@[g].versions.deep_view()[0] == version@);
                            assert(gs@[g].versions.deep_view().contains(v) <==> v == version@);
                            assert(versions_at(post, key).contains(v) <==> v == version@);
                        }
                    }
                    assert forall|u: int| 0 <= u < gs@.len() implies (#[trigger] gs@[u]).versions.deep_view().no_duplicates() by {
                        if u < g {
                            assert(before[u].versions.deep_view().no_duplicates());
                        }
                    }
                    assert forall|key2: (Seq<char>, Seq<char>)| #[trigger] group_keys(gs@).contains(key2) <==> has_key(post, key2) by {
                        assert(group_keys(before).contains(key2) <==> has_key(pre, key2));
                        if key2 == key {
                            assert(group_keys(gs@)[g] == key);
                        }
                        if group_keys(gs@).contains(key2) && key2 != key {
                            let u = choose|u: int| 0 <= u < group_keys(gs@).len() && group_keys(gs@)[u] == key2;
                            assert(group_keys(before)[u] == key2);
                        }
                        if group_keys(before).contains(key2) {
                            let u = choose|u: int| 0 <= u < group_keys(before).len() && group_keys(before)[u] == key2;
                            assert(group_keys(gs@)[u] == key2);
                        }
                    }
                }
            },
        }
        k = k + 1;
    }
    assert(all.take(all.len() as int) =~= all);
    gs
}

/// The version texts of the identity differ between the two sides.
pub open spec fn changed(cur: Seq<IdentifiedView>, cand: Seq<IdentifiedView>, key: (Seq<char>, Seq<char>)) -> bool {
    versions_at(cur, key) != versions_at(cand, key)
}

/// The set holds at most one text.
pub open spec fn at_most_one(s: Set<Seq<char>>) -> bool {
    forall|a: Seq<char>, b: Seq<char>| s.contains(a) && s.contains(b) ==> a == b
}

/// A change with at most one version on each side.
pub open spec fn plain_change(cur: Seq<IdentifiedView>, cand: Seq<IdentifiedView>, key: (Seq<char>, Seq<char>)) -> bool {
    changed(cur, cand, key) && at_most_one(versions_at(cur, key)) && at_most_one(versions_at(cand, key))
}

/// A change with several versions on a side.
pub open spec fn ambiguous_change(cur: Seq<IdentifiedView>, cand: Seq<IdentifiedView>, key: (Seq<char>, Seq<char>)) -> bool {
    changed(cur, cand, key) && !(at_most_one(versions_at(cur, key)) && at_most_one(versions_at(cand, key)))
}

/// The text of a set of at most one, if any.
pub open spec fn single(s: Set<Seq<char>>) -> Option<Seq<char>> {
    if exists|v: Seq<char>| s.contains(v) { Some(choose|v: Seq<char>| s.contains(v)) } else { None }
}

/// The package that stands for an identity: the first candidate package
/// with it, else the first current one.
pub open spec fn rep_of(cur: Seq<IdentifiedView>, cand: Seq<IdentifiedView>, key: (Seq<char>, Seq<char>)) -> IdentifiedView {
    if has_key(cand, key) {
        cand[choose|k: int| first_at(cand, key, k)]
    } else {
        cur[choose|k: int| first_at(cur, key, k)]
    }
}

/// A pending entry: an identity whose versions changed, and where its
/// representative package stands.
#[derive(Debug)]
pub struct Pending {
    pub name: String,
    pub origin: String,
    pub from_candidate: bool,
    pub rep: usize,
    pub before: Option<String>,
    pub after: Option<String>,
}

/// The identity of a pending entry.
pub open spec fn pending_key(p: Pending) -> (Seq<char>, Seq<char>) {
    (p.name@, p.origin@)
}

/// The identities of pending entries.
pub open spec fn pending_keys(ps: Seq<Pending>) -> Seq<(Seq<char>, Seq<char>)> {
    ps.map_values(|p: Pending| pending_key(p))
}

/// The representative that a pending entry points at.
pub open spec fn pending_rep(cur: Seq<IdentifiedView>, cand: Seq<IdentifiedView>, p: Pending) -> IdentifiedView {
    if p.from_candidate { cand[p.rep as int] } else { cur[p.rep as int] }
}

/// A pending entry is a changed identity with its representative, and, for
/// a plain change, the versions on each side.
pub open spec fn pending_fits(cur: Seq<IdentifiedView>, cand: Seq<IdentifiedView>, p: Pending) -> bool {
    let key = pending_key(p);
    &&& changed(cur, cand, key)
    &&& p.from_candidate ==> p.rep < cand.len()
    &&& !p.from_candidate ==> p.rep < cur.len()
    &&& pending_rep(cur, cand, p) == rep_of(cur, cand, key)
    &&& plain_change(cur, cand, key) ==> p.before.deep_view() == single(versions_at(cur, key))
        && p.after.deep_view() == single(versions_at(cand, key))
}

/// Whether two lists of texts hold the same texts.
fn same_texts(a: &Vec<String>, b: &Vec<String>) -> (r: bool)
    ensures
        r == (forall|v: Seq<char>| a.deep_view().contains(v) <==> b.deep_view().contains(v)),
{
    let mut i: usize = 0;
    while i < a.len()
        invariant
            i <= a@.len(),
            forall|j: int| 0 <= j < i ==> b.deep_view().contains(#[trigger] a.deep_view()[j]),
        decreases a@.len() - i,
    {
        assert(a.deep_view()[i as int] == a@[i as int]@);
        if !contains_text(b, &a[i]) {
            assert(a.deep_view().contains(a@[i as int]@));
            return false;
        }
        i = i + 1;
    }
    let mut j: usize = 0;
    while j < b.len()
        invariant
            j <= b@.len(),
            forall|k: int| 0 <= k < j ==> a.deep_view().contains(#[trigger] b.deep_view()[k]),
        decreases b@.len() - j,
    {
        assert(b.deep_view()[j as int] == b@[j as int]@);
        if !contains_text(a, &b[j]) {
            assert(b.deep_view().contains(b@[j as int]@));
            return false;
        }
        j = j + 1;
    }
    assert forall|v: Seq<char>| a.deep_view().contains(v) <==> b.deep_view().contains(v) by {
        if a.deep_view().contains(v) {
            let k = choose|k: int| 0 <= k < a.deep_view().len() && a.deep_view()[k] == v;
        }
        if b.deep_view().contains(v) {
            let k = choose|k: int| 0 <= k < b.deep_view().len() && b.deep_view()[k] == v;
        }
    }
    true
}

/// The first text of a list, if any.
fn first_text(v: &Vec<String>) -> (r: Option<String>)
    ensures
        v@.len() == 0 ==> r is None,
        v@.len() > 0 ==> r.deep_view() == Some(v.deep_view()[0]),
{
    if v.len() == 0 {
        None
    } else {
        Some(v[0].clone())
    }
}

/// The first package with an identity is what `rep_of` picks among its
/// side.
proof fn lemma_first_at_unique(side: Seq<IdentifiedView>, key: (Seq<char>, Seq<char>), k: int)
    requires
        first_at(side, key, k),
    ensures
        (choose|j: int| first_at(side, key, j)) == k,
{
    let j = choose|j: int| first_at(side, key, j);
    assert(first_at(side, key, j));
    if j < k {
        assert(key_of(side[j]) != key);
    } else if j > k {
        assert(key_of(side[k]) != key);
    }
}

/// A side's version texts for a grouped identity, as a set.
proof fn lemma_group_versions(side: Seq<IdentifiedView>, gs: Seq<Group>, g: int)
    requires
        groups_fit(side, gs),
        0 <= g < gs.len(),
    ensures
        versions_at(side, group_key(gs[g])) =~= gs[g].versions.deep_view().to_set(),
        at_most_one(versions_at(side, group_key(gs[g]))) <==> gs[g].versions@.len() <= 1,
        gs[g].versions@.len() == 1 ==> single(versions_at(side, group_key(gs[g]))) == Some(gs[g].versions.deep_view()[0]),
{
    let vs = gs[g].versions.deep_view();
    let set = versions_at(side, group_key(gs[g]));
    assert forall|v: Seq<char>| #[trigger] set.contains(v) <==> vs.to_set().contains(v) by {
        assert(vs.contains(v) <==> set.contains(v));
    }
    assert(gs[g].versions.deep_view().no_duplicates());
    if gs[g].versions@.len() > 1 {
        assert(set.contains(vs[0]) && set.contains(vs[1]));
        assert(vs[0] != vs[1]);
    }
    if gs[g].versions@.len() <= 1 {
        assert forall|a: Seq<char>, b: Seq<char>| set.contains(a) && set.contains(b) implies a == b by {
            assert(vs.contains(a) && vs.contains(b));
        }
    }
    if gs[g].versions@.len() == 1 {
        assert(set.contains(vs[0]));
        let c = choose|v: Seq<char>| set.contains(v);
        assert(vs.contains(c));
    }
}

/// A side without the identity has no versions of it.
proof fn lemma_absent_versions(side: Seq<IdentifiedView>, key: (Seq<char>, Seq<char>))
    requires
        !has_key(side, key),
    ensures
        versions_at(side, key) =~= Set::<Seq<char>>::empty(),
        at_most_one(versions_at(side, key)),
        single(versions_at(side, key)) is None,
{
    assert forall|v: Seq<char>| !#[trigger] versions_at(side, key).contains(v) by {
        if versions_at(side, key).contains(v) {
            let k = choose|k: int| 0 <= k < side.len() && key_of(#[trigger] side[k]) == key
                && version_display(side[k].package.version) == v;
            assert(has_key(side, key));
        }
    }
}

/// The pending entry of a changed identity, and whether the change is
/// plain.
fn make_pending(
    name: &String,
    origin: &String,
    from_candidate: bool,
    rep: usize,
    before_versions: &Vec<String>,
    after_versions: &Vec<String>,
    Ghost(cur): Ghost<Seq<IdentifiedView>>,
    Ghost(cand): Ghost<Seq<IdentifiedView>>,
) -> (r: (Pending, bool))
    requires
        before_versions.deep_view().no_duplicates(),
        after_versions.deep_view().no_duplicates(),
        versions_at(cur, (name@, origin@)) == before_versions.deep_view().to_set(),
        versions_at(cand, (name@, origin@)) == after_versions.deep_view().to_set(),
        changed(cur, cand, (name@, origin@)),
        from_candidate ==> rep < cand.len(),
        !from_candidate ==> rep < cur.len(),
        (if from_candidate { cand[rep as int] } else { cur[rep as int] }) == rep_of(cur, cand, (name@, origin@)),
    ensures
        pending_key(r.0) == (name@, origin@),
        pending_fits(cur, cand, r.0),
        r.1 == plain_change(cur, cand, (name@, origin@)),
{
    let ghost key = (name@, origin@);
    let ghost bs = before_versions.deep_view();
    let ghost as_ = after_versions.deep_view();
    proof {
        if bs.len() > 1 {
            assert(versions_at(cur, key).contains(bs[0]) && versions_at(cur, key).contains(bs[1]));
        } else {
            assert forall|a: Seq<char>, b: Seq<char>| versions_at(cur, key).contains(a) && versions_at(cur, key).contains(b) implies a == b by {
                assert(bs.contains(a) && bs.contains(b));
            }
        }
        if as_.len() > 1 {
            assert(versions_at(cand, key).contains(as_[0]) && versions_at(cand, key).contains(as_[1]));
        } else {
            assert forall|a: Seq<char>, b: Seq<char>| versions_at(cand, key).contains(a) && versions_at(cand, key).contains(b) implies a == b by {
                assert(as_.contains(a) && as_.contains(b));
            }
        }
        if bs.len() == 0 {
            assert(!(exists|v: Seq<char>| versions_at(cur, key).contains(v)));
        } else if bs.len() == 1 {
            assert(versions_at(cur, key).contains(bs[0]));
            let c = choose|v: Seq<char>| versions_at(cur, key).contains(v);
            assert(bs.contains(c));
        }
        if as_.len() == 0 {
            assert(!(exists|v: Seq<char>| versions_at(cand, key).contains(v)));
        } else if as_.len() == 1 {
            assert(versions_at(cand, key).contains(as_[0]));
            let c = choose|v: Seq<char>| versions_at(cand, key).contains(v);
            assert(as_.contains(c));
        }
    }
    let plain = before_versions.len() <= 1 && after_versions.len() <= 1;
    let before = first_text(before_versions);
    let after = first_text(after_versions);
    (Pending { name: name.clone(), origin: origin.clone(), from_candidate, rep, before, after }, plain)
}

/// Pending entries are changes of their kind, with distinct identities.
pub open spec fn pendings_fit(cur: Seq<IdentifiedView>, cand: Seq<IdentifiedView>, ps: Seq<Pending>, plain: bool) -> bool {
    &&& pending_keys(ps).no_duplicates()
    &&& forall|k: int| 0 <= k < ps.len() ==> pending_fits(cur, cand, #[trigger] ps[k])
        && plain_change(cur, cand, pending_key(ps[k])) == plain
}

/// Adds an entry whose identity is not yet pending.
proof fn lemma_pendings_push(cur: Seq<IdentifiedView>, cand: Seq<IdentifiedView>, ps: Seq<Pending>, p: Pending, plain: bool)
    requires
        pendings_fit(cur, cand, ps, plain),
        pending_fits(cur, cand, p),
        plain_change(cur, cand, pending_key(p)) == plain,
        !pending_keys(ps).contains(pending_key(p)),
    ensures
        pendings_fit(cur, cand, ps.push(p), plain),
        pending_keys(ps.push(p)) == pending_keys(ps).push(pending_key(p)),
{
    assert(pending_keys(ps.push(p)) =~= pending_keys(ps).push(pending_key(p)));
    assert forall|k: int| 0 <= k < ps.push(p).len() implies pending_fits(cur, cand, #[trigger] ps.push(p)[k])
        && plain_change(cur, cand, pending_key(ps.push(p)[k])) == plain by {
        if k < ps.len() {
            assert(ps.push(p)[k] == ps[k]);
        }
    }
}

/// An identity is pending in one of the two lists.
pub open spec fn pending_in(plain: Seq<Pending>, mixed: Seq<Pending>, key: (Seq<char>, Seq<char>)) -> bool {
    pending_keys(plain).contains(key) || pending_keys(mixed).contains(key)
}

/// Pushing an entry makes its identity pending and keeps the others.
proof fn lemma_pending_keys_push(ps: Seq<Pending>, p: Pending)
    ensures
        forall|key: (Seq<char>, Seq<char>)| #[trigger] pending_keys(ps.push(p)).contains(key)
            <==> (pending_keys(ps).contains(key) || key == pending_key(p)),
{
    assert(pending_keys(ps.push(p)) =~= pending_keys(ps).push(pending_key(p)));
    assert forall|key: (Seq<char>, Seq<char>)| #[trigger] pending_keys(ps.push(p)).contains(key)
        <==> (pending_keys(ps).contains(key) || key == pending_key(p)) by {
        if pending_keys(ps).contains(key) {
            let u = choose|u: int| 0 <= u < pending_keys(ps).len() && pending_keys(ps)[u] == key;
            assert(pending_keys(ps.push(p))[u] == key);
        }
        if key == pending_key(p) {
            assert(pending_keys(ps.push(p))[ps.len() as int] == key);
        }
        if pending_keys(ps.push(p)).contains(key) && key != pending_key(p) {
            let u = choose|u: int| 0 <= u < pending_keys(ps.push(p)).len() && pending_keys(ps.push(p))[u] == key;
            assert(pending_keys(ps)[u] == key);
        }
    }
}

/// Records the entry of a changed identity in the list of its kind.
fn record_pending(
    plain: &mut Vec<Pending>,
    mixed: &mut Vec<Pending>,
    entry: Pending,
    is_plain: bool,
    Ghost(cur): Ghost<Seq<IdentifiedView>>,
    Ghost(cand): Ghost<Seq<IdentifiedView>>,
)
    requires
        pendings_fit(cur, cand, old(plain)@, true),
        pendings_fit(cur, cand, old(mixed)@, false),
        pending_fits(cur, cand, entry),
        is_plain == plain_change(cur, cand, pending_key(entry)),
        !pending_in(old(plain)@, old(mixed)@, pending_key(entry)),
    ensures
        pendings_fit(cur, cand, final(plain)@, true),
        pendings_fit(cur, cand, final(mixed)@, false),
        forall|key: (Seq<char>, Seq<char>)| #[trigger] pending_in(final(plain)@, final(mixed)@, key)
            <==> (pending_in(old(plain)@, old(mixed)@, key) || key == pending_key(entry)),
{
    let ghost key = pending_key(entry);
    if is_plain {
        proof {
            lemma_pendings_push(cur, cand, plain@, entry, true);
            lemma_pending_keys_push(plain@, entry);
        }
        plain.push(entry);
    } else {
        proof {
            lemma_pendings_push(cur, cand, mixed@, entry, false);
            lemma_pending_keys_push(mixed@, entry);
        }
        mixed.push(entry);
    }
}

/// The versions of a grouped identity that one side has, with the
/// representative; the other side may lack it.
proof fn lemma_grouped_sides(
    cur: Seq<IdentifiedView>,
    cand: Seq<IdentifiedView>,
    cur_groups: Seq<Group>,
    cand_groups: Seq<Group>,
    key: (Seq<char>, Seq<char>),
)
    requires
        groups_fit(cur, cur_groups),
        groups_fit(cand, cand_groups),
    ensures
        forall|g: int| 0 <= g < cur_groups.len() && group_key(#[trigger] cur_groups[g]) == key
            ==> versions_at(cur, key) == cur_groups[g].versions.deep_view().to_set(),
        forall|g: int| 0 <= g < cand_groups.len() && group_key(#[trigger] cand_groups[g]) == key
            ==> versions_at(cand, key) == cand_groups[g].versions.deep_view().to_set(),
{
    assert forall|g: int| 0 <= g < cur_groups.len() && group_key(#[trigger] cur_groups[g]) == key
        implies versions_at(cur, key) == cur_groups[g].versions.deep_view().to_set() by {
        lemma_group_versions(cur, cur_groups, g);
    }
    assert forall|g: int| 0 <= g < cand_groups.len() && group_key(#[trigger] cand_groups[g]) == key
        implies versions_at(cand, key) == cand_groups[g].versions.deep_view().to_set() by {
        lemma_group_versions(cand, cand_groups, g);
    }
}

/// Two lists of version texts as sets.
proof fn lemma_same_sets(a: Seq<Seq<char>>, b: Seq<Seq<char>>, x: Set<Seq<char>>, y: Set<Seq<char>>)
    requires
        x == a.to_set(),
        y == b.to_set(),
    ensures
        (forall|v: Seq<char>| a.contains(v) <==> b.contains(v)) <==> x == y,
{
    if forall|v: Seq<char>| a.contains(v) <==> b.contains(v) {
        assert(x =~= y);
    }
    if x == y {
        assert forall|v: Seq<char>| a.contains(v) <==> b.contains(v) by {
            assert(a.to_set().contains(v) <==> a.contains(v));
            assert(b.to_set().contains(v) <==> b.contains(v));
        }
    }
}

/// The identities whose versions changed, plain changes and ambiguous
/// ones apart.
fn pending_changes(current: &Vec<Identified>, candidate: &Vec<Identified>) -> (r: (Vec<Pending>, Vec<Pending>))
    ensures
        pendings_fit(current.deep_view(), candidate.deep_view(), r.0@, true),
        pendings_fit(current.deep_view(), candidate.deep_view(), r.1@, false),
        forall|key: (Seq<char>, Seq<char>)| changed(current.deep_view(), candidate.deep_view(), key)
            ==> #[trigger] pending_in(r.0@, r.1@, key),
{
    let ghost cur = current.deep_view();
    let ghost cand = candidate.deep_view();
    let cur_groups = grouped_versions_by_identity(current);
    let cand_groups = grouped_versions_by_identity(candidate);
    let empty: Vec<String> = Vec::new();
    assert(empty.deep_view().to_set() =~= Set::<Seq<char>>::empty());
    let mut plain: Vec<Pending> = Vec::new();
    let mut mixed: Vec<Pending> = Vec::new();
    let mut g: usize = 0;
    while g < cur_groups.len()
        invariant
            cur == current.deep_view(),
            cand == candidate.deep_view(),
            groups_fit(cur, cur_groups@),
            groups_fit(cand, cand_groups@),
            empty@.len() == 0,
            empty.deep_view().to_set() == Set::<Seq<char>>::empty(),
            g <= cur_groups@.len(),
            pendings_fit(cur, cand, plain@, true),
            pendings_fit(cur, cand, mixed@, false),
            forall|key: (Seq<char>, Seq<char>)| #[trigger] pending_in(plain@, mixed@, key)
                ==> exists|u: int| 0 <= u < g && group_key(#[trigger] cur_groups@[u]) == key,
            forall|u: int| 0 <= u < g && changed(cur, cand, group_key(#[trigger] cur_groups@[u]))
                ==> pending_in(plain@, mixed@, group_key(cur_groups@[u])),
        decreases cur_groups@.len() - g,
    {
        let cg = &cur_groups[g];
        let ghost key = group_key(*cg);
        let ghost old_plain = plain@;
        let ghost old_mixed = mixed@;
        proof {
            assert(group_keys(cur_groups@)[g as int] == key);
            assert(has_key(cur, key));
            lemma_grouped_sides(cur, cand, cur_groups@, cand_groups@, key);
            assert(first_at(cur, key, cg.rep as int));
            assert(cg.versions.deep_view().no_duplicates());
            assert(!pending_in(plain@, mixed@, key)) by {
                if pending_in(plain@, mixed@, key) {
                    let u = choose|u: int| 0 <= u < g && group_key(#[trigger] cur_groups@[u]) == key;
                    assert(group_keys(cur_groups@)[u] == group_keys(cur_groups@)[g as int]);
                }
            }
        }
        let found = find_group(&cand_groups, &cg.name, &cg.origin);
        let (after_versions, from_candidate, rep) = match found {
            Some(h) => (&cand_groups[h].versions, true, cand_groups[h].rep),
            None => (&empty, false, cg.rep),
        };
        proof {
            match found {
                Some(h) => {
                    assert(group_keys(cand_groups@)[h as int] == key);
                    assert(has_key(cand, key));
                    assert(first_at(cand, key, rep as int));
                    lemma_first_at_unique(cand, key, rep as int);
                    assert(cand_groups@[h as int].versions.deep_view().no_duplicates());
                },
                None => {
                    assert(!has_key(cand, key));
                    lemma_absent_versions(cand, key);
                    lemma_first_at_unique(cur, key, rep as int);
                },
            }
            lemma_same_sets(cg.versions.deep_view(), after_versions.deep_view(), versions_at(cur, key), versions_at(cand, key));
        }
        let same = same_texts(&cg.versions, after_versions);
        if !same {
            let (entry, is_plain) = make_pending(&cg.name, &cg.origin, from_candidate, rep, &cg.versions, after_versions, Ghost(cur), Ghost(cand));
            record_pending(&mut plain, &mut mixed, entry, is_plain, Ghost(cur), Ghost(cand));
        }
        proof {
            assert forall|key2: (Seq<char>, Seq<char>)| #[trigger] pending_in(plain@, mixed@, key2)
                implies exists|u: int| 0 <= u < g + 1 && group_key(#[trigger] cur_groups@[u]) == key2 by {
                if key2 != key {
                    assert(pending_in(old_plain, old_mixed, key2));
                    let u = choose|u: int| 0 <= u < g && group_key(#[trigger] cur_groups@[u]) == key2;
                }
            }
            assert forall|u: int| 0 <= u < g + 1 && changed(cur, cand, group_key(#[trigger] cur_groups@[u]))
                implies pending_in(plain@, mixed@, group_key(cur_groups@[u])) by {
                if u < g {
                    assert(pending_in(old_plain, old_mixed, group_key(cur_groups@[u])));
                }
            }
        }
        g = g + 1;
    }
    let mut h: usize = 0;
    while h < cand_groups.len()
        invariant
            cur == current.deep_view(),
            cand == candidate.deep_view(),
            groups_fit(cur, cur_groups@),
            groups_fit(cand, cand_groups@),
            empty@.len() == 0,
            empty.deep_view().to_set() == Set::<Seq<char>>::empty(),
            h <= cand_groups@.len(),
            pendings_fit(cur, cand, plain@, true),
            pendings_fit(cur, cand, mixed@, false),
            forall|key: (Seq<char>, Seq<char>)| #[trigger] pending_in(plain@, mixed@, key)
                ==> group_keys(cur_groups@).contains(key)
                || exists|u: int| 0 <= u < h && group_key(#[trigger] cand_groups@[u]) == key,
            forall|u: int| 0 <= u < cur_groups@.len() && changed(cur, cand, group_key(#[trigger] cur_groups@[u]))
                ==> pending_in(plain@, mixed@, group_key(cur_groups@[u])),
            forall|u: int| 0 <= u < h && changed(cur, cand, group_key(#[trigger] cand_groups@[u]))
                ==> pending_in(plain@, mixed@, group_key(cand_groups@[u])),
        decreases cand_groups@.len() - h,
    {
        let hg = &cand_groups[h];
        let ghost key = group_key(*hg);
        let ghost old_plain = plain@;
        let ghost old_mixed = mixed@;
        proof {
            assert(group_keys(cand_groups@)[h as int] == key);
            assert(has_key(cand, key));
            lemma_grouped_sides(cur, cand, cur_groups@, cand_groups@, key);
            assert(first_at(cand, key, hg.rep as int));
            lemma_first_at_unique(cand, key, hg.rep as int);
            assert(hg.versions.deep_view().no_duplicates());
        }
        match find_group(&cur_groups, &hg.name, &hg.origin) {
            Some(g2) => {
                proof {
                    assert(group_key(cur_groups@[g2 as int]) == key);
                    assert(group_keys(cur_groups@)[g2 as int] == key);
                }
            },
            None => {
                proof {
                    assert(!has_key(cur, key));
                    lemma_absent_versions(cur, key);
                    let k = hg.rep as int;
                    assert(versions_at(cand, key).contains(version_display(cand[k].package.version)));
                    assert(changed(cur, cand, key));
                    assert(!pending_in(plain@, mixed@, key)) by {
                        if pending_in(plain@, mixed@, key) {
                            if !group_keys(cur_groups@).contains(key) {
                                let u = choose|u: int| 0 <= u < h && group_key(#[trigger] cand_groups@[u]) == key;
                                assert(group_keys(cand_groups@)[u] == group_keys(cand_groups@)[h as int]);
                            }
                        }
                    }
                }
                let (entry, is_plain) = make_pending(&hg.name, &hg.origin, true, hg.rep, &empty, &hg.versions, Ghost(cur), Ghost(cand));
                record_pending(&mut plain, &mut mixed, entry, is_plain, Ghost(cur), Ghost(cand));
            },
        }
        proof {
            assert forall|key2: (Seq<char>, Seq<char>)| #[trigger] pending_in(plain@, mixed@, key2)
                implies group_keys(cur_groups@).contains(key2)
                || exists|u: int| 0 <= u < h + 1 && group_key(#[trigger] cand_groups@[u]) == key2 by {
                if key2 != key {
                    assert(pending_in(old_plain, old_mixed, key2));
                    if !group_keys(cur_groups@).contains(key2) {
                        let u = choose|u: int| 0 <= u < h && group_key(#[trigger] cand_groups@[u]) == key2;
                    }
                }
            }
            assert forall|u: int| 0 <= u < cur_groups@.len() && changed(cur, cand, group_key(#[trigger] cur_groups@[u]))
                implies pending_in(plain@, mixed@, group_key(cur_groups@[u])) by {
                assert(pending_in(old_plain, old_mixed, group_key(cur_groups@[u])));
            }
            assert forall|u: int| 0 <= u < h + 1 && changed(cur, cand, group_key(#[trigger] cand_groups@[u]))
                implies pending_in(plain@, mixed@, group_key(cand_groups@[u])) by {
                if u < h {
                    assert(pending_in(old_plain, old_mixed, group_key(cand_groups@[u])));
                } else if group_keys(cur_groups@).contains(key) {
                    let w = choose|w: int| 0 <= w < group_keys(cur_groups@).len() && group_keys(cur_groups@)[w] == key;
                    assert(group_key(cur_groups@[w]) == key);
                    assert(pending_in(old_plain, old_mixed, key));
                }
            }
        }
        h = h + 1;
    }
    proof {
        assert forall|key: (Seq<char>, Seq<char>)| changed(cur, cand, key) implies #[trigger] pending_in(plain@, mixed@, key) by {
            if has_key(cur, key) {
                assert(group_keys(cur_groups@).contains(key));
                let w = choose|w: int| 0 <= w < group_keys(cur_groups@).len() && group_keys(cur_groups@)[w] == key;
                assert(group_key(cur_groups@[w]) == key);
            } else if has_key(cand, key) {
                assert(group_keys(cand_groups@).contains(key));
                let w = choose|w: int| 0 <= w < group_keys(cand_groups@).len() && group_keys(cand_groups@)[w] == key;
                assert(group_key(cand_groups@[w]) == key);
            } else {
                lemma_absent_versions(cur, key);
                lemma_absent_versions(cand, key);
            }
        }
    }
    (plain, mixed)
}

impl SortKey for Pending {
    open spec fn key_order(a: Self, b: Self) -> int {
        key_order(pending_key(a), pending_key(b))
    }

    fn order(&self, other: &Self) -> (r: i8) {
        proof {
            lemma_text_order_antisymmetric(self.name@, other.name@);
            lemma_text_order_antisymmetric(self.origin@, other.origin@);
        }
        let by_name = compare_text(self.name.as_str(), other.name.as_str());
        if by_name != 0 {
            return by_name;
        }
        compare_text(self.origin.as_str(), other.origin.as_str())
    }
}

/// Rearranging pending entries keeps them fitting, with the same
/// identities.
proof fn lemma_pendings_permuted(
    cur: Seq<IdentifiedView>,
    cand: Seq<IdentifiedView>,
    ps: Seq<Pending>,
    qs: Seq<Pending>,
    perm: Seq<int>,
    plain: bool,
)
    requires
        pendings_fit(cur, cand, ps, plain),
        is_permutation_of(perm, qs, ps),
    ensures
        pendings_fit(cur, cand, qs, plain),
        forall|key: (Seq<char>, Seq<char>)| #[trigger] pending_keys(qs).contains(key) <==> pending_keys(ps).contains(key),
{
    lemma_permutation_onto(perm, qs, ps);
    assert forall|k: int| 0 <= k < qs.len() implies pending_fits(cur, cand, #[trigger] qs[k])
        && plain_change(cur, cand, pending_key(qs[k])) == plain by {
        assert(qs[k] == ps[perm[k]]);
    }
    assert forall|a: int, b: int| 0 <= a < pending_keys(qs).len() && 0 <= b < pending_keys(qs).len() && a != b
        implies pending_keys(qs)[a] != pending_keys(qs)[b] by {
        assert(qs[a] == ps[perm[a]] && qs[b] == ps[perm[b]]);
        assert(pending_keys(ps)[perm[a]] != pending_keys(ps)[perm[b]]);
    }
    assert forall|key: (Seq<char>, Seq<char>)| #[trigger] pending_keys(qs).contains(key) <==> pending_keys(ps).contains(key) by {
        if pending_keys(qs).contains(key) {
            let a = choose|a: int| 0 <= a < pending_keys(qs).len() && pending_keys(qs)[a] == key;
            assert(qs[a] == ps[perm[a]]);
            assert(pending_keys(ps)[perm[a]] == key);
        }
        if pending_keys(ps).contains(key) {
            let u = choose|u: int| 0 <= u < pending_keys(ps).len() && pending_keys(ps)[u] == key;
            assert(picked(perm, qs.len() as int, u));
            let a = choose|a: int| 0 <= a < qs.len() && #[trigger] perm[a] == u;
            assert(qs[a] == ps[u]);
            assert(pending_keys(qs)[a] == key);
        }
    }
}

/// Identities of one kind of change, each once, in identity order.
pub open spec fn keys_fit(ks: Seq<(Seq<char>, Seq<char>)>, cur: Seq<IdentifiedView>, cand: Seq<IdentifiedView>, plain: bool) -> bool {
    &&& ks.no_duplicates()
    &&& forall|t: int| 0 <= t < ks.len() - 1 ==> key_order(#[trigger] ks[t], ks[t + 1]) <= 0
    &&& forall|key: (Seq<char>, Seq<char>)| #[trigger] ks.contains(key) <==> if plain {
        plain_change(cur, cand, key)
    } else {
        ambiguous_change(cur, cand, key)
    }
}

/// The base labels of the representatives of identities.
pub open spec fn rep_labels(cur: Seq<IdentifiedView>, cand: Seq<IdentifiedView>, ks: Seq<(Seq<char>, Seq<char>)>) -> Seq<Seq<char>> {
    ks.map_values(|k: (Seq<char>, Seq<char>)| rep_of(cur, cand, k).base_label)
}

/// A representative's label: its base label, with the package id added
/// where the base label occurs more than once among `all_labels`.
pub open spec fn labeled(rep: IdentifiedView, all_labels: Seq<Seq<char>>) -> Seq<char> {
    if crate::identity::occurrences(all_labels, rep.base_label) > 1 {
        rep.base_label + " [package-id: "@ + rep.package.id + "]"@
    } else {
        rep.base_label
    }
}

/// The reported change of an identity.
pub open spec fn change_at(
    cur: Seq<IdentifiedView>,
    cand: Seq<IdentifiedView>,
    key: (Seq<char>, Seq<char>),
    all_labels: Seq<Seq<char>>,
) -> CandidateVersionChangeView {
    let rep = rep_of(cur, cand, key);
    CandidateVersionChangeView {
        package_name: rep.package.name,
        source: rep.package.source,
        package_label: Some(labeled(rep, all_labels)),
        before: single(versions_at(cur, key)),
        after: single(versions_at(cand, key)),
    }
}

/// The changes report the plain changes in identity order; the ambiguous
/// list names the ambiguous ones in identity order.
pub open spec fn changes_fit(
    cur: Seq<IdentifiedView>,
    cand: Seq<IdentifiedView>,
    ks: Seq<(Seq<char>, Seq<char>)>,
    amb: Seq<(Seq<char>, Seq<char>)>,
    changes: Seq<CandidateVersionChangeView>,
    ambiguous: Seq<Seq<char>>,
) -> bool {
    let all_labels = rep_labels(cur, cand, ks) + rep_labels(cur, cand, amb);
    &&& keys_fit(ks, cur, cand, true)
    &&& keys_fit(amb, cur, cand, false)
    &&& changes == ks.map_values(|k: (Seq<char>, Seq<char>)| change_at(cur, cand, k, all_labels))
    &&& ambiguous == amb.map_values(|k: (Seq<char>, Seq<char>)| rep_of(cur, cand, k).identity_label)
}

/// The representative that a pending entry points at.
fn rep_ref<'a>(current: &'a Vec<Identified>, candidate: &'a Vec<Identified>, p: &Pending) -> (r: &'a Identified)
    requires
        p.from_candidate ==> p.rep < candidate@.len(),
        !p.from_candidate ==> p.rep < current@.len(),
    ensures
        r@ == pending_rep(current.deep_view(), candidate.deep_view(), *p),
{
    if p.from_candidate {
        &candidate[p.rep]
    } else {
        &current[p.rep]
    }
}

/// Sorted pending entries of one kind have the identities that
/// `keys_fit` asks for.
proof fn lemma_sorted_keys(
    cur: Seq<IdentifiedView>,
    cand: Seq<IdentifiedView>,
    ps: Seq<Pending>,
    other: Seq<Pending>,
    plain: bool,
)
    requires
        pendings_fit(cur, cand, ps, plain),
        pendings_fit(cur, cand, other, !plain),
        forall|key: (Seq<char>, Seq<char>)| changed(cur, cand, key) ==> #[trigger] pending_in(ps, other, key),
        forall|t: int| 0 <= t < ps.len() - 1 ==> Pending::key_order(#[trigger] ps[t], ps[t + 1]) <= 0,
    ensures
        keys_fit(pending_keys(ps), cur, cand, plain),
{
    let ks = pending_keys(ps);
    assert forall|t: int| 0 <= t < ks.len() - 1 implies key_order(#[trigger] ks[t], ks[t + 1]) <= 0 by {
        assert(Pending::key_order(ps[t], ps[t + 1]) <= 0);
    }
    assert forall|key: (Seq<char>, Seq<char>)| #[trigger] ks.contains(key) <==> if plain {
        plain_change(cur, cand, key)
    } else {
        ambiguous_change(cur, cand, key)
    } by {
        if ks.contains(key) {
            let u = choose|u: int| 0 <= u < ks.len() && ks[u] == key;
            assert(pending_fits(cur, cand, ps[u]));
        }
        let want = if plain { plain_change(cur, cand, key) } else { ambiguous_change(cur, cand, key) };
        if want {
            assert(pending_in(ps, other, key));
            if pending_keys(other).contains(key) {
                let u = choose|u: int| 0 <= u < pending_keys(other).len() && pending_keys(other)[u] == key;
                assert(pending_fits(cur, cand, other[u]));
            }
        }
    }
}

/// The base labels of the representatives of pending entries, in order.
fn rep_label_list(current: &Vec<Identified>, candidate: &Vec<Identified>, ps: &Vec<Pending>, labels: &mut Vec<String>)
    requires
        forall|k: int| 0 <= k < ps@.len() ==> pending_fits(current.deep_view(), candidate.deep_view(), #[trigger] ps@[k]),
    ensures
        final(labels).deep_view() == old(labels).deep_view() + rep_labels(current.deep_view(), candidate.deep_view(), pending_keys(ps@)),
{
    let ghost cur = current.deep_view();
    let ghost cand = candidate.deep_view();
    let ghost start = labels.deep_view();
    let mut i: usize = 0;
    while i < ps.len()
        invariant
            cur == current.deep_view(),
            cand == candidate.deep_view(),
            forall|k: int| 0 <= k < ps@.len() ==> pending_fits(cur, cand, #[trigger] ps@[k]),
            i <= ps@.len(),
            labels.deep_view() == start + rep_labels(cur, cand, pending_keys(ps@).take(i as int)),
        decreases ps@.len() - i,
    {
        let p = &ps[i];
        assert(pending_fits(cur, cand, ps@[i as int]));
        let rep = rep_ref(current, candidate, p);
        let ghost before = labels.deep_view();
        labels.push(rep.base_label.clone());
        proof {
            assert(pending_keys(ps@)[i as int] == pending_key(*p));
            assert(pending_keys(ps@).take(i + 1) =~= pending_keys(ps@).take(i as int).push(pending_key(*p)));
            assert(labels.deep_view() =~= before.push(rep@.base_label));
            assert(rep_labels(cur, cand, pending_keys(ps@).take(i + 1)) =~= rep_labels(cur, cand, pending_keys(ps@).take(i as int)).push(
                rep_of(cur, cand, pending_key(*p)).base_label));
            assert(labels.deep_view() =~= start + rep_labels(cur, cand, pending_keys(ps@).take(i + 1)));
        }
        i = i + 1;
    }
    assert(pending_keys(ps@).take(ps@.len() as int) =~= pending_keys(ps@));
}

/// The version changes between two sides: for each identity whose version
/// texts differ, a change where each side has at most one version, else an
/// ambiguous identity label; both in identity order.
pub fn version_changes_of(current: &Vec<Identified>, candidate: &Vec<Identified>) -> (r: (Vec<CandidateVersionChange>, Vec<String>))
    ensures
        exists|ks: Seq<(Seq<char>, Seq<char>)>, amb: Seq<(Seq<char>, Seq<char>)>|
            #[trigger] changes_fit(current.deep_view(), candidate.deep_view(), ks, amb, r.0.deep_view(), r.1.deep_view()),
{
    let ghost cur = current.deep_view();
    let ghost cand = candidate.deep_view();
    let (plain_unsorted, mixed_unsorted) = pending_changes(current, candidate);
    let ghost pu = plain_unsorted@;
    let ghost mu = mixed_unsorted@;
    let plain = sort_by_key(plain_unsorted);
    let mixed = sort_by_key(mixed_unsorted);
    proof {
        let p1 = choose|perm: Seq<int>| #[trigger] is_permutation_of(perm, plain@, pu);
        lemma_pendings_permuted(cur, cand, pu, plain@, p1, true);
        let p2 = choose|perm: Seq<int>| #[trigger] is_permutation_of(perm, mixed@, mu);
        lemma_pendings_permuted(cur, cand, mu, mixed@, p2, false);
        assert forall|key: (Seq<char>, Seq<char>)| changed(cur, cand, key) implies #[trigger] pending_in(plain@, mixed@, key) by {
            assert(pending_in(pu, mu, key));
        }
        assert forall|key: (Seq<char>, Seq<char>)| changed(cur, cand, key) implies #[trigger] pending_in(mixed@, plain@, key) by {
            assert(pending_in(pu, mu, key));
        }
        lemma_sorted_keys(cur, cand, plain@, mixed@, true);
        lemma_sorted_keys(cur, cand, mixed@, plain@, false);
    }
    let ghost ks = pending_keys(plain@);
    let ghost amb = pending_keys(mixed@);
    let mut labels: Vec<String> = Vec::new();
    assert(labels.deep_view() =~= Seq::<Seq<char>>::empty());
    rep_label_list(current, candidate, &plain, &mut labels);
    rep_label_list(current, candidate, &mixed, &mut labels);
    let ghost all_labels = rep_labels(cur, cand, ks) + rep_labels(cur, cand, amb);
    assert(labels.deep_view() =~= all_labels);
    let collisions = repeated_labels(&labels);
    let mut changes: Vec<CandidateVersionChange> = Vec::new();
    let mut i: usize = 0;
    while i < plain.len()
        invariant
            cur == current.deep_view(),
            cand == candidate.deep_view(),
            ks == pending_keys(plain@),
            pendings_fit(cur, cand, plain@, true),
            forall|x: Seq<char>| collisions.deep_view().contains(x) <==> crate::identity::occurrences(all_labels, x) > 1,
            i <= plain@.len(),
            changes.deep_view() == ks.take(i as int).map_values(|k: (Seq<char>, Seq<char>)| change_at(cur, cand, k, all_labels)),
        decreases plain@.len() - i,
    {
        let p = &plain[i];
        assert(pending_fits(cur, cand, plain@[i as int]) && plain_change(cur, cand, pending_key(plain@[i as int])));
        let rep = rep_ref(current, candidate, p);
        let base = &rep.base_label;
        let label = if contains_text(&collisions, base) {
            let mut l = concat3(base.as_str(), " [package-id: ", rep.package.id.as_str());
            l.append("]");
            l
        } else {
            base.clone()
        };
        let change = CandidateVersionChange {
            package_name: rep.package.name.clone(),
            source: rep.package.source.clone(),
            package_label: Some(label),
            before: p.before.clone(),
            after: p.after.clone(),
        };
        let ghost before = changes.deep_view();
        changes.push(change);
        proof {
            let key = pending_key(*p);
            assert(ks[i as int] == key);
            assert(change@ == change_at(cur, cand, key, all_labels));
            assert(ks.take(i + 1) =~= ks.take(i as int).push(key));
            assert(changes.deep_view() =~= before.push(change@));
            assert(changes.deep_view() =~= ks.take(i + 1).map_values(|k: (Seq<char>, Seq<char>)| change_at(cur, cand, k, all_labels)));
        }
        i = i + 1;
    }
    let mut ambiguous: Vec<String> = Vec::new();
    let mut j: usize = 0;
    while j < mixed.len()
        invariant
            cur == current.deep_view(),
            cand == candidate.deep_view(),
            amb == pending_keys(mixed@),
            pendings_fit(cur, cand, mixed@, false),
            j <= mixed@.len(),
            ambiguous.deep_view() == amb.take(j as int).map_values(|k: (Seq<char>, Seq<char>)| rep_of(cur, cand, k).identity_label),
        decreases mixed@.len() - j,
    {
        let p = &mixed[j];
        assert(pending_fits(cur, cand, mixed@[j as int]));
        let rep = rep_ref(current, candidate, p);
        let ghost before = ambiguous.deep_view();
        ambiguous.push(rep.identity_label.clone());
        proof {
            let key = pending_key(*p);
            assert(amb[j as int] == key);
            assert(amb.take(j + 1) =~= amb.take(j as int).push(key));
            assert(ambiguous.deep_view() =~= before.push(rep@.identity_label));
            assert(ambiguous.deep_view() =~= amb.take(j + 1).map_values(|k: (Seq<char>, Seq<char>)| rep_of(cur, cand, k).identity_label));
        }
        j = j + 1;
    }
    assert(ks.take(plain@.len() as int) =~= ks);
    assert(amb.take(mixed@.len() as int) =~= amb);
    assert(changes_fit(cur, cand, ks, amb, changes.deep_view(), ambiguous.deep_view()));
    let r = (changes, ambiguous);
    assert(changes_fit(current.deep_view(), candidate.deep_view(), ks, amb, r.0.deep_view(), r.1.deep_view()));
    r
}

/// `l` is the package's name with its identity detail in brackets.
pub open spec fn identity_label_fits(p: ResolvedPackageView, root: Seq<char>, l: Seq<char>) -> bool {
    exists|d: Option<Seq<char>>| identity_detail_fits(p, root, d) && l == with_detail(p.name, d)
}

/// The identified packages are the packages, in order, each with a stable
/// origin and labels that fit it, read against the workspace root.
pub open spec fn identified_fit(packages: Seq<ResolvedPackageView>, root: Seq<char>, xs: Seq<IdentifiedView>) -> bool {
    &&& xs.len() == packages.len()
    &&& forall|k: int| 0 <= k < xs.len() ==> (#[trigger] xs[k]).package == packages[k]
        && stable_origin_fits(packages[k], root, xs[k].origin)
        && base_label_fits(packages[k], root, xs[k].base_label)
        && identity_label_fits(packages[k], root, xs[k].identity_label)
}

/// Reads the stable origin and the labels of each package.
pub fn identify_packages(packages: &Vec<ResolvedPackage>, workspace_root: &str) -> (r: Vec<Identified>)
    ensures
        identified_fit(packages.deep_view(), workspace_root@, r.deep_view()),
{
    let mut out: Vec<Identified> = Vec::new();
    let mut k: usize = 0;
    while k < packages.len()
        invariant
            k <= packages@.len(),
            out@.len() == k,
            forall|u: int| 0 <= u < k ==> (#[trigger] out.deep_view()[u]).package == packages.deep_view()[u]
                && stable_origin_fits(packages.deep_view()[u], workspace_root@, out.deep_view()[u].origin)
                && base_label_fits(packages.deep_view()[u], workspace_root@, out.deep_view()[u].base_label)
                && identity_label_fits(packages.deep_view()[u], workspace_root@, out.deep_view()[u].identity_label),
        decreases packages@.len() - k,
    {
        let p = &packages[k];
        let origin = stable_package_origin(p, workspace_root);
        let base_label = base_package_label(p, workspace_root);
        let identity_label = package_identity_label(p, workspace_root);
        let ghost before = out.deep_view();
        out.push(Identified { package: p.clone(), origin, base_label, identity_label });
        proof {
            assert(packages.deep_view()[k as int] == p@);
            assert forall|u: int| 0 <= u < k + 1 implies (#[trigger] out.deep_view()[u]).package == packages.deep_view()[u]
                && stable_origin_fits(packages.deep_view()[u], workspace_root@, out.deep_view()[u].origin)
                && base_label_fits(packages.deep_view()[u], workspace_root@, out.deep_view()[u].base_label)
                && identity_label_fits(packages.deep_view()[u], workspace_root@, out.deep_view()[u].identity_label) by {
                if u < k {
                    assert(out.deep_view()[u] == before[u]);
                }
            }
        }
        k = k + 1;
    }
    out
}

/// The changes and ambiguous identities between two package lists, each
/// read against its workspace root: `changes_fit` for some reading of the
/// packages' identities and labels (one reading where they are plain).
pub open spec fn version_changes_fit(
    current: Seq<ResolvedPackageView>,
    current_root: Seq<char>,
    candidate: Seq<ResolvedPackageView>,
    candidate_root: Seq<char>,
    changes: Seq<CandidateVersionChangeView>,
    ambiguous: Seq<Seq<char>>,
) -> bool {
    exists|cur: Seq<IdentifiedView>, cand: Seq<IdentifiedView>, ks: Seq<(Seq<char>, Seq<char>)>, amb: Seq<(Seq<char>, Seq<char>)>|
        #[trigger] identified_fit(current, current_root, cur)
        && #[trigger] identified_fit(candidate, candidate_root, cand)
        && #[trigger] changes_fit(cur, cand, ks, amb, changes, ambiguous)
}

/// The version changes between the packages of a current and a candidate
/// resolution, each read against its own workspace root (see
/// `version_changes_of`).
pub fn compute_version_changes_from_packages(
    current_packages: &Vec<ResolvedPackage>,
    current_workspace_root: &str,
    candidate_packages: &Vec<ResolvedPackage>,
    candidate_workspace_root: &str,
) -> (r: (Vec<CandidateVersionChange>, Vec<String>))
    ensures
        version_changes_fit(
            current_packages.deep_view(),
            current_workspace_root@,
            candidate_packages.deep_view(),
            candidate_workspace_root@,
            r.0.deep_view(),
            r.1.deep_view(),
        ),
{
    let current = identify_packages(current_packages, current_workspace_root);
    let candidate = identify_packages(candidate_packages, candidate_workspace_root);
    version_changes_of(&current, &candidate)
}

/// A problem package's stable identity, with its label.
#[derive(Debug)]
pub struct Keyed {
    pub key: String,
    pub label: String,
}

impl SortKey for Keyed {
    open spec fn key_order(a: Self, b: Self) -> int {
        text_order(a.key@, b.key@)
    }

    fn order(&self, other: &Self) -> (r: i8) {
        proof {
            lemma_text_order_antisymmetric(self.key@, other.key@);
        }
        compare_text(self.key.as_str(), other.key.as_str())
    }
}

/// The key and label of keyed entries.
pub open spec fn keyed_views(s: Seq<Keyed>) -> Seq<(Seq<char>, Seq<char>)> {
    s.map_values(|e: Keyed| (e.key@, e.label@))
}

/// The label that the last pair with the key carries.
pub open spec fn last_value(pairs: Seq<(Seq<char>, Seq<char>)>, key: Seq<char>) -> Option<Seq<char>>
    decreases pairs.len(),
{
    if pairs.len() == 0 {
        None
    } else if pairs.last().0 == key {
        Some(pairs.last().1)
    } else {
        last_value(pairs.drop_last(), key)
    }
}

/// `name@version|origin`: the stable identity of an identified package.
pub open spec fn stable_key(x: IdentifiedView) -> Seq<char> {
    crate::identity::name_at_version(x.package) + "|"@ + x.origin
}

/// An identified package's label among `all_labels`.
pub open spec fn problem_pairs(xs: Seq<IdentifiedView>, all_labels: Seq<Seq<char>>) -> Seq<(Seq<char>, Seq<char>)> {
    xs.map_values(|x: IdentifiedView| (stable_key(x), labeled(x, all_labels)))
}

/// The base labels of identified packages.
pub open spec fn base_labels_of(xs: Seq<IdentifiedView>) -> Seq<Seq<char>> {
    xs.map_values(|x: IdentifiedView| x.base_label)
}

/// Keys in text order, each once.
pub open spec fn sorted_keys(ks: Seq<Seq<char>>) -> bool {
    &&& ks.no_duplicates()
    &&& forall|t: int| 0 <= t < ks.len() - 1 ==> text_order(#[trigger] ks[t], ks[t + 1]) <= 0
}

/// The labels of a map built from pairs (the last pair of a key wins) for
/// the keys that `keep` admits, in key order.
pub open spec fn map_labels_fit(pairs: Seq<(Seq<char>, Seq<char>)>, keep: spec_fn(Seq<char>) -> bool, out: Seq<Seq<char>>) -> bool {
    exists|ks: Seq<Seq<char>>| #[trigger] sorted_keys(ks)
        && (forall|k: Seq<char>| #[trigger] ks.contains(k) <==> (last_value(pairs, k) is Some && keep(k)))
        && out == ks.map_values(|k: Seq<char>| last_value(pairs, k).unwrap())
}

/// Each key once, with the label of its last pair.
fn last_labels(pairs: &Vec<Keyed>) -> (r: Vec<Keyed>)
    ensures
        forall|k: Seq<char>| #[trigger] last_value(keyed_views(r@), k) == last_value(keyed_views(pairs@), k),
        keyed_views(r@).map_values(|p: (Seq<char>, Seq<char>)| p.0).no_duplicates(),
{
    let mut out: Vec<Keyed> = Vec::new();
    let mut i: usize = 0;
    while i < pairs.len()
        invariant
            i <= pairs@.len(),
            forall|k: Seq<char>| #[trigger] last_value(keyed_views(out@), k) == last_value(keyed_views(pairs@).take(i as int), k),
            keyed_views(out@).map_values(|p: (Seq<char>, Seq<char>)| p.0).no_duplicates(),
        decreases pairs@.len() - i,
    {
        let e = &pairs[i];
        let ghost pv = keyed_views(pairs@);
        let ghost before = keyed_views(out@);
        assert(pv.take(i + 1).drop_last() =~= pv.take(i as int));
        assert(pv.take(i + 1).last() == (e.key@, e.label@));
        let mut found: Option<usize> = None;
        let mut j: usize = 0;
        while j < out.len()
            invariant
                j <= out@.len(),
                before == keyed_views(out@),
                found matches Some(f) ==> f < out@.len() && out@[f as int].key@ == e.key@,
                found is None ==> forall|u: int| 0 <= u < j ==> (#[trigger] out@[u]).key@ != e.key@,
            decreases out@.len() - j,
        {
            if found.is_none() && out[j].key == e.key {
                found = Some(j);
            }
            j = j + 1;
        }
        match found {
            Some(f) => {
                let entry = Keyed { key: e.key.clone(), label: e.label.clone() };
                out.set(f, entry);
                proof {
                    lemma_last_value_set(before, f as int, (e.key@, e.label@));
                    assert(keyed_views(out@) =~= before.update(f as int, (e.key@, e.label@)));
                    assert(keyed_views(out@).map_values(|p: (Seq<char>, Seq<char>)| p.0) =~= before.map_values(|p: (Seq<char>, Seq<char>)| p.0));
                }
            },
            None => {
                out.push(Keyed { key: e.key.clone(), label: e.label.clone() });
                proof {
                    assert(keyed_views(out@) =~= before.push((e.key@, e.label@)));
                    assert(keyed_views(out@).drop_last() =~= before);
                    let keys_before = before.map_values(|p: (Seq<char>, Seq<char>)| p.0);
                    assert(keyed_views(out@).map_values(|p: (Seq<char>, Seq<char>)| p.0) =~= keys_before.push(e.key@));
                    assert forall|u: int| 0 <= u < keys_before.len() implies keys_before[u] != e.key@ by {
                        assert(out@[u].key@ == keys_before[u]);
                    }
                }
            },
        }
        i = i + 1;
    }
    assert(keyed_views(pairs@).take(pairs@.len() as int) =~= keyed_views(pairs@));
    out
}

/// Replacing the pair of a key whose keys are distinct changes only that
/// key's last value.
proof fn lemma_last_value_set(s: Seq<(Seq<char>, Seq<char>)>, f: int, p: (Seq<char>, Seq<char>))
    requires
        0 <= f < s.len(),
        s[f].0 == p.0,
        s.map_values(|q: (Seq<char>, Seq<char>)| q.0).no_duplicates(),
    ensures
        forall|k: Seq<char>| #[trigger] last_value(s.update(f, p), k) == if k == p.0 { Some(p.1) } else { last_value(s, k) },
    decreases s.len(),
{
    let t = s.update(f, p);
    let keys = s.map_values(|q: (Seq<char>, Seq<char>)| q.0);
    if f == s.len() - 1 {
        assert(t.drop_last() =~= s.drop_last());
        assert forall|k: Seq<char>| #[trigger] last_value(t, k) == if k == p.0 { Some(p.1) } else { last_value(s, k) } by {}
    } else {
        let s2 = s.drop_last();
        assert(s2.map_values(|q: (Seq<char>, Seq<char>)| q.0) =~= keys.drop_last());
        lemma_last_value_set(s2, f, p);
        assert(t.drop_last() =~= s2.update(f, p));
        assert(keys[f] != keys[s.len() - 1]);
        assert forall|k: Seq<char>| #[trigger] last_value(t, k) == if k == p.0 { Some(p.1) } else { last_value(s, k) } by {
            assert(last_value(s2.update(f, p), k) == if k == p.0 { Some(p.1) } else { last_value(s2, k) });
        }
    }
}

/// The keys of keyed views.
pub open spec fn view_keys(s: Seq<(Seq<char>, Seq<char>)>) -> Seq<Seq<char>> {
    s.map_values(|p: (Seq<char>, Seq<char>)| p.0)
}

/// With distinct keys, the last value of a key is that of its one pair.
proof fn lemma_last_value_distinct(s: Seq<(Seq<char>, Seq<char>)>, u: int)
    requires
        view_keys(s).no_duplicates(),
        0 <= u < s.len(),
    ensures
        last_value(s, s[u].0) == Some(s[u].1),
    decreases s.len(),
{
    if u < s.len() - 1 {
        assert(view_keys(s)[u] != view_keys(s)[s.len() - 1]);
        assert(view_keys(s.drop_last()) =~= view_keys(s).drop_last());
        lemma_last_value_distinct(s.drop_last(), u);
    }
}

/// A key has a last value exactly when some pair has it.
proof fn lemma_last_value_some(s: Seq<(Seq<char>, Seq<char>)>, k: Seq<char>)
    ensures
        last_value(s, k) is Some <==> view_keys(s).contains(k),
    decreases s.len(),
{
    if s.len() > 0 {
        lemma_last_value_some(s.drop_last(), k);
        assert(view_keys(s.drop_last()) =~= view_keys(s).drop_last());
        if view_keys(s).contains(k) && s.last().0 != k {
            let u = choose|u: int| 0 <= u < view_keys(s).len() && view_keys(s)[u] == k;
            assert(view_keys(s.drop_last())[u] == k);
        }
        if s.last().0 == k {
            assert(view_keys(s)[s.len() - 1] == k);
        }
        if view_keys(s.drop_last()).contains(k) {
            let u = choose|u: int| 0 <= u < view_keys(s.drop_last()).len() && view_keys(s.drop_last())[u] == k;
            assert(view_keys(s)[u] == k);
        }
    }
}

/// The labels of the entries whose keys `drop` lacks, in key order.
fn kept_labels(entries: &Vec<Keyed>, drop: &Vec<Keyed>) -> (r: Vec<String>)
    requires
        view_keys(keyed_views(entries@)).no_duplicates(),
    ensures
        exists|ks: Seq<Seq<char>>| #[trigger] sorted_keys(ks)
            && (forall|k: Seq<char>| #[trigger] ks.contains(k) <==> (last_value(keyed_views(entries@), k) is Some
                && last_value(keyed_views(drop@), k) is None))
            && r.deep_view() == ks.map_values(|k: Seq<char>| last_value(keyed_views(entries@), k).unwrap()),
{
    let ghost ev = keyed_views(entries@);
    let ghost dv = keyed_views(drop@);
    let mut kept: Vec<Keyed> = Vec::new();
    let ghost mut src: Seq<int> = Seq::empty();
    let mut i: usize = 0;
    while i < entries.len()
        invariant
            ev == keyed_views(entries@),
            dv == keyed_views(drop@),
            view_keys(ev).no_duplicates(),
            i <= entries@.len(),
            src.len() == kept@.len(),
            forall|u: int| 0 <= u < src.len() ==> 0 <= #[trigger] src[u] < i && keyed_views(kept@)[u] == ev[src[u]]
                && last_value(dv, ev[src[u]].0) is None,
            forall|u: int, w: int| 0 <= u < w < src.len() ==> #[trigger] src[u] < #[trigger] src[w],
            forall|w: int| 0 <= w < i && last_value(dv, #[trigger] ev[w].0) is None ==> picked(src, src.len() as int, w),
        decreases entries@.len() - i,
    {
        let e = &entries[i];
        assert(ev[i as int] == (e.key@, e.label@));
        let mut in_drop = false;
        let mut j: usize = 0;
        while j < drop.len()
            invariant
                dv == keyed_views(drop@),
                j <= drop@.len(),
                in_drop == exists|u: int| 0 <= u < j && (#[trigger] drop@[u]).key@ == e.key@,
            decreases drop@.len() - j,
        {
            if drop[j].key == e.key {
                in_drop = true;
            }
            j = j + 1;
        }
        proof {
            lemma_last_value_some(dv, e.key@);
            if in_drop {
                let u = choose|u: int| 0 <= u < drop@.len() && (#[trigger] drop@[u]).key@ == e.key@;
                assert(view_keys(dv)[u] == e.key@);
            } else {
                assert forall|u: int| 0 <= u < view_keys(dv).len() implies view_keys(dv)[u] != e.key@ by {
                    assert(drop@[u].key@ == view_keys(dv)[u]);
                }
            }
        }
        if !in_drop {
            let ghost before = keyed_views(kept@);
            let ghost old_src = src;
            kept.push(Keyed { key: e.key.clone(), label: e.label.clone() });
            proof {
                src = src.push(i as int);
                assert(keyed_views(kept@) =~= before.push(ev[i as int]));
                assert forall|u: int| 0 <= u < src.len() implies 0 <= #[trigger] src[u] < i + 1 && keyed_views(kept@)[u] == ev[src[u]]
                    && last_value(dv, ev[src[u]].0) is None by {
                    if u < old_src.len() {
                        assert(src[u] == old_src[u]);
                    }
                }
                assert forall|w: int| 0 <= w < i + 1 && last_value(dv, #[trigger] ev[w].0) is None implies picked(src, src.len() as int, w) by {
                    if w < i {
                        let u = choose|u: int| 0 <= u < old_src.len() && #[trigger] old_src[u] == w;
                        assert(src[u] == old_src[u]);
                    } else {
                        assert(src[old_src.len() as int] == w);
                    }
                }
            }
        } else {
            proof {
                assert forall|w: int| 0 <= w < i + 1 && last_value(dv, #[trigger] ev[w].0) is None implies picked(src, src.len() as int, w) by {
                    if w == i {
                        assert(ev[w].0 == e.key@);
                    }
                }
            }
        }
        i = i + 1;
    }
    let ghost kv = kept@;
    let sorted = sort_by_key(kept);
    let mut out: Vec<String> = Vec::new();
    let mut t: usize = 0;
    while t < sorted.len()
        invariant
            t <= sorted@.len(),
            out.deep_view() == keyed_views(sorted@).take(t as int).map_values(|p: (Seq<char>, Seq<char>)| p.1),
        decreases sorted@.len() - t,
    {
        let ghost before = out.deep_view();
        let ghost before_v = out@;
        let label = sorted[t].label.clone();
        out.push(label);
        proof {
            assert(out@ == before_v.push(label));
            assert(out.deep_view() =~= before.push(label@));
            assert(keyed_views(sorted@)[t as int].1 == sorted@[t as int].label@);
            assert(keyed_views(sorted@).take(t + 1) =~= keyed_views(sorted@).take(t as int).push(keyed_views(sorted@)[t as int]));
            assert(out.deep_view() =~= keyed_views(sorted@).take(t + 1).map_values(|p: (Seq<char>, Seq<char>)| p.1));
        }
        t = t + 1;
    }
    proof {
        let sv = keyed_views(sorted@);
        assert(sv.take(sorted@.len() as int) =~= sv);
        let perm = choose|perm: Seq<int>| #[trigger] is_permutation_of(perm, sorted@, kv);
        lemma_permutation_onto(perm, sorted@, kv);
        let ks = view_keys(sv);
        assert forall|a: int| 0 <= a < sv.len() implies #[trigger] sv[a] == ev[src[perm[a]]] by {
            assert(sorted@[a] == kv[perm[a]]);
            assert(keyed_views(kv)[perm[a]] == ev[src[perm[a]]]);
        }
        assert forall|a: int, b: int| 0 <= a < ks.len() && 0 <= b < ks.len() && a != b implies ks[a] != ks[b] by {
            assert(sv[a] == ev[src[perm[a]]] && sv[b] == ev[src[perm[b]]]);
            assert(src[perm[a]] != src[perm[b]]) by {
                if perm[a] < perm[b] {
                    assert(src[perm[a]] < src[perm[b]]);
                } else {
                    assert(src[perm[b]] < src[perm[a]]);
                }
            }
            assert(view_keys(ev)[src[perm[a]]] != view_keys(ev)[src[perm[b]]]);
        }
        assert forall|a: int| 0 <= a < ks.len() - 1 implies text_order(#[trigger] ks[a], ks[a + 1]) <= 0 by {
            assert(Keyed::key_order(sorted@[a], sorted@[a + 1]) <= 0);
        }
        assert forall|k: Seq<char>| #[trigger] ks.contains(k) <==> (last_value(ev, k) is Some && last_value(dv, k) is None) by {
            lemma_last_value_some(ev, k);
            if ks.contains(k) {
                let a = choose|a: int| 0 <= a < ks.len() && ks[a] == k;
                assert(sv[a] == ev[src[perm[a]]]);
                assert(view_keys(ev)[src[perm[a]]] == k);
            }
            if last_value(ev, k) is Some && last_value(dv, k) is None {
                let w = choose|w: int| 0 <= w < view_keys(ev).len() && view_keys(ev)[w] == k;
                assert(ev[w].0 == k);
                assert(picked(src, src.len() as int, w));
                let u = choose|u: int| 0 <= u < src.len() && #[trigger] src[u] == w;
                assert(picked(perm, sorted@.len() as int, u));
                let a = choose|a: int| 0 <= a < sorted@.len() && #[trigger] perm[a] == u;
                assert(sv[a] == ev[w]);
                assert(ks[a] == k);
            }
        }
        let lhs = sv.map_values(|p: (Seq<char>, Seq<char>)| p.1);
        let rhs = ks.map_values(|k: Seq<char>| last_value(ev, k).unwrap());
        assert forall|a: int| 0 <= a < sv.len() implies #[trigger] lhs[a] == rhs[a] by {
            assert(sv[a] == ev[src[perm[a]]]);
            lemma_last_value_distinct(ev, src[perm[a]]);
        }
        assert(out.deep_view() =~= ks.map_values(|k: Seq<char>| last_value(ev, k).unwrap()));
        assert(sorted_keys(ks));
    }
    out
}

/// A representative's label: its base label, with the package id added
/// where the base label collides.
pub(crate) fn labeled_text(x: &Identified, collisions: &Vec<String>, Ghost(all_labels): Ghost<Seq<Seq<char>>>) -> (r: String)
    requires
        forall|t: Seq<char>| collisions.deep_view().contains(t) <==> crate::identity::occurrences(all_labels, t) > 1,
    ensures
        r@ == labeled(x@, all_labels),
{
    if contains_text(collisions, &x.base_label) {
        let mut l = concat3(x.base_label.as_str(), " [package-id: ", x.package.id.as_str());
        l.append("]");
        l
    } else {
        x.base_label.clone()
    }
}

/// The stable identity text of an identified package.
fn stable_key_text(x: &Identified) -> (r: String)
    ensures
        r@ == stable_key(x@),
{
    let version = x.package.version.text();
    let mut key = concat3(x.package.name.as_str(), "@", version.as_str());
    key.append("|");
    key.append(x.origin.as_str());
    key
}

/// The (identity, label) pairs of identified problem packages.
fn problem_pair_list(xs: &Vec<Identified>, collisions: &Vec<String>, Ghost(all_labels): Ghost<Seq<Seq<char>>>) -> (r: Vec<Keyed>)
    requires
        forall|t: Seq<char>| collisions.deep_view().contains(t) <==> crate::identity::occurrences(all_labels, t) > 1,
    ensures
        keyed_views(r@) == problem_pairs(xs.deep_view(), all_labels),
{
    let mut out: Vec<Keyed> = Vec::new();
    let mut i: usize = 0;
    while i < xs.len()
        invariant
            i <= xs@.len(),
            forall|t: Seq<char>| collisions.deep_view().contains(t) <==> crate::identity::occurrences(all_labels, t) > 1,
            keyed_views(out@) == problem_pairs(xs.deep_view().take(i as int), all_labels),
        decreases xs@.len() - i,
    {
        let x = &xs[i];
        let key = stable_key_text(x);
        let label = labeled_text(x, collisions, Ghost(all_labels));
        let ghost before = keyed_views(out@);
        out.push(Keyed { key, label });
        proof {
            assert(xs.deep_view()[i as int] == x@);
            assert(xs.deep_view().take(i + 1) =~= xs.deep_view().take(i as int).push(x@));
            assert(keyed_views(out@) =~= before.push((stable_key(x@), labeled(x@, all_labels))));
            assert(keyed_views(out@) =~= problem_pairs(xs.deep_view().take(i + 1), all_labels));
        }
        i = i + 1;
    }
    assert(xs.deep_view().take(xs@.len() as int) =~= xs.deep_view());
    out
}

/// The base labels of identified packages, appended in order.
pub(crate) fn push_base_labels(xs: &Vec<Identified>, labels: &mut Vec<String>)
    ensures
        final(labels).deep_view() == old(labels).deep_view() + base_labels_of(xs.deep_view()),
{
    let ghost start = labels.deep_view();
    let mut i: usize = 0;
    while i < xs.len()
        invariant
            i <= xs@.len(),
            labels.deep_view() == start + base_labels_of(xs.deep_view().take(i as int)),
        decreases xs@.len() - i,
    {
        let ghost before = labels.deep_view();
        labels.push(xs[i].base_label.clone());
        proof {
            assert(xs.deep_view()[i as int] == xs@[i as int]@);
            assert(xs.deep_view().take(i + 1) =~= xs.deep_view().take(i as int).push(xs@[i as int]@));
            assert(labels.deep_view() =~= before.push(xs@[i as int]@.base_label));
            assert(labels.deep_view() =~= start + base_labels_of(xs.deep_view().take(i + 1)));
        }
        i = i + 1;
    }
    assert(xs.deep_view().take(xs@.len() as int) =~= xs.deep_view());
}

/// The improved labels are those of current problems whose identity no
/// candidate problem has; the remaining ones those of the candidate
/// problems; each in identity order, the last label of an identity winning.
pub open spec fn problems_fit(
    cur: Seq<IdentifiedView>,
    cand: Seq<IdentifiedView>,
    improved: Seq<Seq<char>>,
    remaining: Seq<Seq<char>>,
) -> bool {
    let all_labels = base_labels_of(cur) + base_labels_of(cand);
    let cur_pairs = problem_pairs(cur, all_labels);
    let cand_pairs = problem_pairs(cand, all_labels);
    &&& map_labels_fit(cur_pairs, |k: Seq<char>| last_value(cand_pairs, k) is None, improved)
    &&& map_labels_fit(cand_pairs, |k: Seq<char>| true, remaining)
}

/// Some package of the side has the stable identity.
pub open spec fn has_identity(xs: Seq<IdentifiedView>, key: Seq<char>) -> bool {
    exists|i: int| 0 <= i < xs.len() && stable_key(#[trigger] xs[i]) == key
}

/// `l` is the label (among `all_labels`) of a package of the side that has
/// the stable identity.
pub open spec fn label_of_identity(xs: Seq<IdentifiedView>, all_labels: Seq<Seq<char>>, key: Seq<char>, l: Seq<char>) -> bool {
    exists|i: int| 0 <= i < xs.len() && stable_key(#[trigger] xs[i]) == key && l == labeled(xs[i], all_labels)
}

/// Each label names a package of the side by an identity of `ks`, the
/// identities different.
pub open spec fn labels_name(xs: Seq<IdentifiedView>, all_labels: Seq<Seq<char>>, ks: Seq<Seq<char>>, labels: Seq<Seq<char>>) -> bool {
    &&& ks.len() == labels.len()
    &&& ks.no_duplicates()
    &&& forall|t: int| 0 <= t < ks.len() ==> label_of_identity(xs, all_labels, #[trigger] ks[t], labels[t])
}

proof fn lemma_last_value_of_pairs(xs: Seq<IdentifiedView>, all_labels: Seq<Seq<char>>, key: Seq<char>)
    ensures
        last_value(problem_pairs(xs, all_labels), key) is Some <==> has_identity(xs, key),
        last_value(problem_pairs(xs, all_labels), key) matches Some(l) ==> label_of_identity(xs, all_labels, key, l),
    decreases xs.len(),
{
    if xs.len() > 0 {
        let ps = problem_pairs(xs, all_labels);
        let rest = xs.drop_last();
        assert(ps.drop_last() =~= problem_pairs(rest, all_labels));
        lemma_last_value_of_pairs(rest, all_labels, key);
        let n = xs.len() - 1;
        assert(ps.last() == (stable_key(xs[n]), labeled(xs[n], all_labels)));
        if stable_key(xs[n]) == key {
            assert(has_identity(xs, key));
            assert(label_of_identity(xs, all_labels, key, labeled(xs[n], all_labels)));
        } else {
            if has_identity(rest, key) {
                let i = choose|i: int| 0 <= i < rest.len() && stable_key(#[trigger] rest[i]) == key;
                assert(xs[i] == rest[i]);
            }
            if has_identity(xs, key) {
                let i = choose|i: int| 0 <= i < xs.len() && stable_key(#[trigger] xs[i]) == key;
                assert(rest[i] == xs[i]);
            }
            if let Some(l) = last_value(ps, key) {
                let i = choose|i: int| 0 <= i < rest.len() && stable_key(#[trigger] rest[i]) == key && l == labeled(rest[i], all_labels);
                assert(xs[i] == rest[i]);
            }
        }
    }
}

/// What the candidate resolves and what remains: the improved labels name,
/// one identity each, current problems whose identity no candidate problem
/// has, and every such identity is named; the remaining labels name the
/// candidate problems, every identity of them. So no improved identity is
/// among the remaining ones.
pub proof fn law_improved_problems_are_gone(
    cur: Seq<IdentifiedView>,
    cand: Seq<IdentifiedView>,
    improved: Seq<Seq<char>>,
    remaining: Seq<Seq<char>>,
)
    requires
        problems_fit(cur, cand, improved, remaining),
    ensures
        exists|ks: Seq<Seq<char>>| #[trigger] labels_name(cur, base_labels_of(cur) + base_labels_of(cand), ks, improved)
            && (forall|t: int| 0 <= t < ks.len() ==> !has_identity(cand, #[trigger] ks[t]))
            && (forall|key: Seq<char>| has_identity(cur, key) && !has_identity(cand, key) ==> #[trigger] ks.contains(key)),
        exists|ks: Seq<Seq<char>>| #[trigger] labels_name(cand, base_labels_of(cur) + base_labels_of(cand), ks, remaining)
            && (forall|key: Seq<char>| has_identity(cand, key) ==> #[trigger] ks.contains(key)),
{
    let all = base_labels_of(cur) + base_labels_of(cand);
    let cur_pairs = problem_pairs(cur, all);
    let cand_pairs = problem_pairs(cand, all);
    let keep = |k: Seq<char>| last_value(cand_pairs, k) is None;
    let ks = choose|ks: Seq<Seq<char>>| #[trigger] sorted_keys(ks)
        && (forall|k: Seq<char>| #[trigger] ks.contains(k) <==> (last_value(cur_pairs, k) is Some && keep(k)))
        && improved == ks.map_values(|k: Seq<char>| last_value(cur_pairs, k).unwrap());
    assert forall|t: int| 0 <= t < ks.len() implies label_of_identity(cur, all, #[trigger] ks[t], improved[t])
        && !has_identity(cand, ks[t]) by {
        assert(ks.contains(ks[t]));
        lemma_last_value_of_pairs(cur, all, ks[t]);
        lemma_last_value_of_pairs(cand, all, ks[t]);
    }
    assert forall|key: Seq<char>| has_identity(cur, key) && !has_identity(cand, key) implies #[trigger] ks.contains(key) by {
        lemma_last_value_of_pairs(cur, all, key);
        lemma_last_value_of_pairs(cand, all, key);
    }
    assert(labels_name(cur, all, ks, improved));
    let ks2 = choose|ks: Seq<Seq<char>>| #[trigger] sorted_keys(ks)
        && (forall|k: Seq<char>| #[trigger] ks.contains(k) <==> (last_value(cand_pairs, k) is Some && (|k: Seq<char>| true)(k)))
        && remaining == ks.map_values(|k: Seq<char>| last_value(cand_pairs, k).unwrap());
    assert forall|t: int| 0 <= t < ks2.len() implies label_of_identity(cand, all, #[trigger] ks2[t], remaining[t]) by {
        assert(ks2.contains(ks2[t]));
        lemma_last_value_of_pairs(cand, all, ks2[t]);
    }
    assert forall|key: Seq<char>| has_identity(cand, key) implies #[trigger] ks2.contains(key) by {
        lemma_last_value_of_pairs(cand, all, key);
    }
    assert(labels_name(cand, all, ks2, remaining));
}

/// The labels of the problems that the candidate resolves (problems of the
/// current graph whose identity the candidate's problems lack), and of the
/// candidate's remaining problems, each in identity order. Labels carry the
/// package id where base labels collide among all these packages.
pub fn problem_labels(current: &Vec<Identified>, candidate: &Vec<Identified>) -> (r: (Vec<String>, Vec<String>))
    ensures
        problems_fit(current.deep_view(), candidate.deep_view(), r.0.deep_view(), r.1.deep_view()),
{
    let ghost all_labels = base_labels_of(current.deep_view()) + base_labels_of(candidate.deep_view());
    let ghost cur_pairs = problem_pairs(current.deep_view(), all_labels);
    let ghost cand_pairs = problem_pairs(candidate.deep_view(), all_labels);
    let mut labels: Vec<String> = Vec::new();
    assert(labels.deep_view() =~= Seq::<Seq<char>>::empty());
    push_base_labels(current, &mut labels);
    push_base_labels(candidate, &mut labels);
    assert(labels.deep_view() =~= all_labels);
    let collisions = repeated_labels(&labels);
    let cur_list = problem_pair_list(current, &collisions, Ghost(all_labels));
    let cand_list = problem_pair_list(candidate, &collisions, Ghost(all_labels));
    let cur_last = last_labels(&cur_list);
    let cand_last = last_labels(&cand_list);
    let empty: Vec<Keyed> = Vec::new();
    let improved = kept_labels(&cur_last, &cand_last);
    let remaining = kept_labels(&cand_last, &empty);
    proof {
        assert(keyed_views(empty@) =~= Seq::<(Seq<char>, Seq<char>)>::empty());
        let ks = choose|ks: Seq<Seq<char>>| #[trigger] sorted_keys(ks)
            && (forall|k: Seq<char>| #[trigger] ks.contains(k) <==> (last_value(keyed_views(cur_last@), k) is Some
                && last_value(keyed_views(cand_last@), k) is None))
            && improved.deep_view() == ks.map_values(|k: Seq<char>| last_value(keyed_views(cur_last@), k).unwrap());
        assert(ks.map_values(|k: Seq<char>| last_value(keyed_views(cur_last@), k).unwrap())
            =~= ks.map_values(|k: Seq<char>| last_value(cur_pairs, k).unwrap()));
        assert forall|k: Seq<char>| #[trigger] ks.contains(k) <==> (last_value(cur_pairs, k) is Some
            && (|k: Seq<char>| last_value(cand_pairs, k) is None)(k)) by {
            assert(last_value(keyed_views(cur_last@), k) == last_value(cur_pairs, k));
            assert(last_value(keyed_views(cand_last@), k) == last_value(cand_pairs, k));
        }
        assert(map_labels_fit(cur_pairs, |k: Seq<char>| last_value(cand_pairs, k) is None, improved.deep_view()));
        let ks2 = choose|ks: Seq<Seq<char>>| #[trigger] sorted_keys(ks)
            && (forall|k: Seq<char>| #[trigger] ks.contains(k) <==> (last_value(keyed_views(cand_last@), k) is Some
                && last_value(keyed_views(empty@), k) is None))
            && remaining.deep_view() == ks.map_values(|k: Seq<char>| last_value(keyed_views(cand_last@), k).unwrap());
        assert(ks2.map_values(|k: Seq<char>| last_value(keyed_views(cand_last@), k).unwrap())
            =~= ks2.map_values(|k: Seq<char>| last_value(cand_pairs, k).unwrap()));
        assert forall|k: Seq<char>| #[trigger] ks2.contains(k) <==> (last_value(cand_pairs, k) is Some
            && (|k: Seq<char>| true)(k)) by {
            assert(last_value(keyed_views(cand_last@), k) == last_value(cand_pairs, k));
            assert(last_value(keyed_views(empty@), k) is None);
        }
        assert(map_labels_fit(cand_pairs, |k: Seq<char>| true, remaining.deep_view()));
    }
    (improved, remaining)
}

/// `char::is_whitespace`: the Unicode `White_Space` property.
pub open spec fn is_white_space(c: char) -> bool {
    ||| '\u{9}' <= c <= '\u{d}'
    ||| c == ' '
    ||| c == '\u{85}'
    ||| c == '\u{a0}'
    ||| c == '\u{1680}'
    ||| '\u{2000}' <= c <= '\u{200a}'
    ||| c == '\u{2028}'
    ||| c == '\u{2029}'
    ||| c == '\u{202f}'
    ||| c == '\u{205f}'
    ||| c == '\u{3000}'
}

/// Computes `is_white_space`.
fn white_space(c: char) -> (r: bool)
    ensures
        r == is_white_space(c),
{
    ('\u{9}' <= c && c <= '\u{d}') || c == ' ' || c == '\u{85}' || c == '\u{a0}' || c == '\u{1680}'
        || ('\u{2000}' <= c && c <= '\u{200a}') || c == '\u{2028}' || c == '\u{2029}' || c == '\u{202f}'
        || c == '\u{205f}' || c == '\u{3000}'
}

/// The position after the white space that starts at `j`, within its line.
pub open spec fn skip_blank(s: Seq<char>, j: int) -> int
    decreases s.len() - j,
{
    if 0 <= j < s.len() && is_white_space(s[j]) && s[j] != '\n' {
        skip_blank(s, j + 1)
    } else {
        j
    }
}

/// A line starts at `k` and, past its leading white space, begins with
/// `name =`.
pub open spec fn name_line_at(s: Seq<char>, k: int) -> bool {
    &&& (k == 0 || (0 < k <= s.len() && s[k - 1] == '\n'))
    &&& skip_blank(s, k) + 6 <= s.len()
    &&& s.subrange(skip_blank(s, k), skip_blank(s, k) + 6) == "name ="@
}

/// The lines that start before `k` and begin with `name =`.
pub open spec fn name_lines_before(s: Seq<char>, k: int) -> nat
    decreases k,
{
    if k <= 0 {
        0
    } else {
        name_lines_before(s, k - 1) + if name_line_at(s, k - 1) { 1nat } else { 0nat }
    }
}

/// The lines of a text that, past their leading white space, begin with
/// `name =`: the package entries of a lockfile.
pub open spec fn name_line_count(s: Seq<char>) -> nat {
    name_lines_before(s, s.len() as int + 1)
}

/// `diff_summary`'s text.
pub open spec fn diff_summary_text(before: Seq<char>, after: Seq<char>) -> Seq<char> {
    "package entries: "@ + crate::text::decimal(name_line_count(before)) + " -> "@ + crate::text::decimal(name_line_count(after))
}

/// Counts the package entries of a lockfile text.
fn count_name_lines(text: &str) -> (n: usize)
    ensures
        n == name_line_count(text@),
{
    let cs = crate::text::chars_of(text);
    let ghost s = text@;
    let pattern = crate::text::chars_of("name =");
    proof {
        reveal_strlit("name =");
    }
    let mut count: usize = 0;
    let mut k: usize = 0;
    while k < cs.len()
        invariant
            cs@ == s,
            pattern@ == "name ="@,
            pattern@.len() == 6,
            k <= cs@.len(),
            count <= k,
            count == name_lines_before(s, k as int),
        decreases cs@.len() - k,
    {
        if k == 0 || cs[k - 1] == '\n' {
            let mut j: usize = k;
            while j < cs.len() && white_space(cs[j]) && cs[j] != '\n'
                invariant
                    cs@ == s,
                    k <= j <= cs@.len(),
                    skip_blank(s, k as int) == skip_blank(s, j as int),
                decreases cs@.len() - j,
            {
                j = j + 1;
            }
            let mut matches = cs.len() - j >= 6;
            let mut t: usize = 0;
            while matches && t < 6
                invariant
                    cs@ == s,
                    pattern@ == "name ="@,
                    pattern@.len() == 6,
                    j <= cs@.len(),
                    matches ==> j + 6 <= cs@.len(),
                    cs@.len() <= usize::MAX,
                    t <= 6,
                    matches ==> forall|u: int| 0 <= u < t ==> s[j + u] == pattern@[u],
                    !matches ==> !(j + 6 <= cs@.len() && s.subrange(j as int, j + 6) == "name ="@),
                decreases 6 - t,
            {
                if cs[j + t] != pattern[t] {
                    matches = false;
                    proof {
                        if j + 6 <= cs@.len() && s.subrange(j as int, j + 6) == "name ="@ {
                            assert(s.subrange(j as int, j + 6)[t as int] == s[j + t]);
                        }
                    }
                }
                t = t + 1;
            }
            proof {
                reveal_strlit("name =");
                if matches {
                    assert(s.subrange(j as int, j + 6) =~= pattern@);
                }
            }
            if matches {
                count = count + 1;
            }
        }
        k = k + 1;
    }
    proof {
        let n = cs@.len() as int;
        assert(skip_blank(s, n) == n);
        assert(!name_line_at(s, n));
    }
    count
}

/// Summarizes how the package entries of a lockfile change:
/// `package entries: <before> -> <after>`.
pub fn diff_summary(before: &str, after: &str) -> (r: String)
    ensures
        r@ == diff_summary_text(before@, after@),
{
    let b = count_name_lines(before);
    let a = count_name_lines(after);
    let mut r = String::from_str("package entries: ");
    proof {
        reveal_strlit("package entries: ");
        reveal_strlit(" -> ");
    }
    let bt = crate::text::usize_text(b);
    r.append(bt.as_str());
    r.append(" -> ");
    let at = crate::text::usize_text(a);
    r.append(at.as_str());
    r
}

/// The packages of a report's issues, incompatible ones first.
pub open spec fn issue_packages(report: ScanReportView) -> Seq<ResolvedPackageView> {
    (report.incompatible_packages + report.unknown_packages).map_values(|x: PackageIssueView| x.package)
}

/// The note for a candidate that changes nothing.
pub open spec fn unchanged_note() -> Seq<char> {
    "candidate lockfile did not change the resolved dependency graph"@
}

/// The note that names the identities with several versions.
pub open spec fn ambiguous_note(ambiguous: Seq<Seq<char>>) -> Seq<char> {
    "omitted detailed version change reporting for "@ + join(ambiguous, ", "@)
        + " because multiple resolved versions shared the same package identity"@
}

/// A resolve report's notes: the workspace's recommendations, then a note
/// when nothing changed, then one naming the ambiguous identities.
pub open spec fn resolve_notes(recommendations: Seq<Seq<char>>, change_count: nat, ambiguous: Seq<Seq<char>>) -> Seq<Seq<char>> {
    let first = if change_count == 0 && ambiguous.len() == 0 { recommendations.push(unchanged_note()) } else { recommendations };
    if ambiguous.len() > 0 { first.push(ambiguous_note(ambiguous)) } else { first }
}

/// The packages of a report's issues, incompatible ones first.
pub(crate) fn issue_package_list(report: &ScanReport) -> (r: Vec<ResolvedPackage>)
    ensures
        r.deep_view() == issue_packages(report@),
{
    let ghost all = report@.incompatible_packages + report@.unknown_packages;
    let mut out: Vec<ResolvedPackage> = Vec::new();
    let mut i: usize = 0;
    while i < report.incompatible_packages.len()
        invariant
            all == report@.incompatible_packages + report@.unknown_packages,
            i <= report.incompatible_packages@.len(),
            out.deep_view() == all.take(i as int).map_values(|x: PackageIssueView| x.package),
        decreases report.incompatible_packages@.len() - i,
    {
        let ghost before = out.deep_view();
        let p = report.incompatible_packages[i].package.clone();
        out.push(p);
        proof {
            assert(out.deep_view() =~= before.push(p@));
            assert(all[i as int] == report.incompatible_packages@[i as int]@);
            assert(all.take(i + 1) =~= all.take(i as int).push(all[i as int]));
            assert(out.deep_view() =~= all.take(i + 1).map_values(|x: PackageIssueView| x.package));
        }
        i = i + 1;
    }
    let n = report.incompatible_packages.len();
    let mut j: usize = 0;
    while j < report.unknown_packages.len()
        invariant
            all == report@.incompatible_packages + report@.unknown_packages,
            n == report@.incompatible_packages.len(),
            j <= report.unknown_packages@.len(),
            out.deep_view() == all.take(n + j).map_values(|x: PackageIssueView| x.package),
        decreases report.unknown_packages@.len() - j,
    {
        let ghost before = out.deep_view();
        let p = report.unknown_packages[j].package.clone();
        out.push(p);
        proof {
            assert(out.deep_view() =~= before.push(p@));
            assert(all[n + j] == report.unknown_packages@[j as int]@);
            assert(all.take(n + j + 1) =~= all.take(n + j).push(all[n + j]));
            assert(out.deep_view() =~= all.take(n + j + 1).map_values(|x: PackageIssueView| x.package));
        }
        j = j + 1;
    }
    assert(all.take(all.len() as int) =~= all);
    out
}

/// Assembles the report of a candidate resolution from the analyses of the
/// current and the candidate graph: the version changes between the two
/// package sets, the problems the candidate resolves and those that remain,
/// and the notes.
pub fn assemble_resolve_report(
    workspace: &WorkspaceData,
    current: ScanReport,
    candidate_workspace: &WorkspaceData,
    candidate: ScanReport,
    candidate_lockfile: Option<String>,
) -> (r: ResolveReport)
    ensures
        r@.current == current@,
        r@.candidate == candidate@,
        r@.candidate_lockfile == candidate_lockfile.deep_view(),
        exists|cur: Seq<IdentifiedView>, cand: Seq<IdentifiedView>, ks: Seq<(Seq<char>, Seq<char>)>,
            amb: Seq<(Seq<char>, Seq<char>)>, ambiguous: Seq<Seq<char>>|
            #[trigger] identified_fit(workspace@.packages_by_id, workspace@.workspace_root, cur)
            && #[trigger] identified_fit(candidate_workspace@.packages_by_id, candidate_workspace@.workspace_root, cand)
            && #[trigger] changes_fit(cur, cand, ks, amb, r@.version_changes, ambiguous)
            && r@.notes == resolve_notes(workspace@.recommendations, r@.version_changes.len(), ambiguous),
        exists|ci: Seq<IdentifiedView>, di: Seq<IdentifiedView>|
            #[trigger] identified_fit(issue_packages(current@), workspace@.workspace_root, ci)
            && #[trigger] identified_fit(issue_packages(candidate@), candidate_workspace@.workspace_root, di)
            && problems_fit(ci, di, r@.improved_packages, r@.remaining_blockers),
{
    let (version_changes, ambiguous) = compute_version_changes_from_packages(
        &workspace.packages_by_id,
        workspace.workspace_root.as_str(),
        &candidate_workspace.packages_by_id,
        candidate_workspace.workspace_root.as_str(),
    );
    let ghost vc = version_changes.deep_view();
    let ghost amb_v = ambiguous.deep_view();
    let current_issues = issue_package_list(&current);
    let candidate_issues = issue_package_list(&candidate);
    let current_ids = identify_packages(&current_issues, workspace.workspace_root.as_str());
    let candidate_ids = identify_packages(&candidate_issues, candidate_workspace.workspace_root.as_str());
    let (improved_packages, remaining_blockers) = problem_labels(&current_ids, &candidate_ids);
    let mut notes = workspace.recommendations.clone();
    assert(notes.deep_view() =~= workspace@.recommendations);
    proof {
        reveal_strlit("candidate lockfile did not change the resolved dependency graph");
        reveal_strlit("omitted detailed version change reporting for ");
        reveal_strlit(", ");
        reveal_strlit(" because multiple resolved versions shared the same package identity");
    }
    if version_changes.len() == 0 && ambiguous.len() == 0 {
        let ghost before = notes.deep_view();
        notes.push(String::from_str("candidate lockfile did not change the resolved dependency graph"));
        assert(notes.deep_view() =~= before.push(unchanged_note()));
    }
    if ambiguous.len() > 0 {
        let ghost before = notes.deep_view();
        let mut note = String::from_str("omitted detailed version change reporting for ");
        let joined = crate::text::join_strings(&ambiguous, ", ");
        note.append(joined.as_str());
        note.append(" because multiple resolved versions shared the same package identity");
        assert(crate::text::views(ambiguous@) =~= ambiguous.deep_view());
        notes.push(note);
        assert(notes.deep_view() =~= before.push(ambiguous_note(ambiguous.deep_view())));
    }
    let report = ResolveReport {
        current,
        candidate,
        version_changes,
        improved_packages,
        remaining_blockers,
        candidate_lockfile,
        notes,
    };
    proof {
        let (cur, cand, ks, amb) = choose|cur: Seq<IdentifiedView>, cand: Seq<IdentifiedView>, ks: Seq<(Seq<char>, Seq<char>)>,
            amb: Seq<(Seq<char>, Seq<char>)>| #[trigger] identified_fit(workspace.packages_by_id.deep_view(), workspace.workspace_root@, cur)
            && #[trigger] identified_fit(candidate_workspace.packages_by_id.deep_view(), candidate_workspace.workspace_root@, cand)
            && #[trigger] changes_fit(cur, cand, ks, amb, vc, amb_v);
        assert(identified_fit(workspace@.packages_by_id, workspace@.workspace_root, cur));
        assert(identified_fit(candidate_workspace@.packages_by_id, candidate_workspace@.workspace_root, cand));
        assert(changes_fit(cur, cand, ks, amb, report@.version_changes, amb_v));
        assert(report@.notes == resolve_notes(workspace@.recommendations, report@.version_changes.len(), amb_v));
    }
    report
}

/// Where every identity has at most one version on each side, nothing is
/// ambiguous, and the changes are exactly the identities whose version
/// differs, each with its version before and after, which differ.
pub proof fn law_version_changes_are_the_differing_versions(
    cur: Seq<IdentifiedView>,
    cand: Seq<IdentifiedView>,
    ks: Seq<(Seq<char>, Seq<char>)>,
    amb: Seq<(Seq<char>, Seq<char>)>,
    changes: Seq<CandidateVersionChangeView>,
    ambiguous: Seq<Seq<char>>,
)
    requires
        changes_fit(cur, cand, ks, amb, changes, ambiguous),
        forall|key: (Seq<char>, Seq<char>)| at_most_one(#[trigger] versions_at(cur, key)) && at_most_one(versions_at(cand, key)),
    ensures
        ambiguous.len() == 0,
        changes.len() == ks.len(),
        forall|key: (Seq<char>, Seq<char>)| #[trigger] ks.contains(key) <==> versions_at(cur, key) != versions_at(cand, key),
        forall|t: int| 0 <= t < changes.len() ==> (#[trigger] changes[t]).before == single(versions_at(cur, ks[t]))
            && changes[t].after == single(versions_at(cand, ks[t]))
            && changes[t].before != changes[t].after,
{
    if amb.len() > 0 {
        assert(amb.contains(amb[0]));
        assert(at_most_one(versions_at(cur, amb[0])));
    }
    assert forall|key: (Seq<char>, Seq<char>)| #[trigger] ks.contains(key) <==> versions_at(cur, key) != versions_at(cand, key) by {
        assert(at_most_one(versions_at(cur, key)));
    }
    assert forall|t: int| 0 <= t < changes.len() implies (#[trigger] changes[t]).before == single(versions_at(cur, ks[t]))
        && changes[t].after == single(versions_at(cand, ks[t]))
        && changes[t].before != changes[t].after by {
        let key = ks[t];
        assert(ks.contains(key));
        let x = versions_at(cur, key);
        let y = versions_at(cand, key);
        assert(at_most_one(x) && at_most_one(y));
        if single(x) == single(y) {
            assert(x =~= y) by {
                assert forall|v: Seq<char>| x.contains(v) <==> y.contains(v) by {
                    if x.contains(v) {
                        let c = choose|c: Seq<char>| x.contains(c);
                        assert(c == v);
                        let d = choose|d: Seq<char>| y.contains(d);
                        assert(y.contains(d));
                    }
                    if y.contains(v) {
                        let d = choose|d: Seq<char>| y.contains(d);
                        assert(d == v);
                        let c = choose|c: Seq<char>| x.contains(c);
                        assert(x.contains(c));
                    }
                }
            }
        }
    }
}

/// Comparing a side with itself reports nothing: every identity has the
/// same versions on both sides, so there is neither a change nor an
/// ambiguous identity.
pub proof fn law_same_side_changes_nothing(
    xs: Seq<IdentifiedView>,
    ks: Seq<(Seq<char>, Seq<char>)>,
    amb: Seq<(Seq<char>, Seq<char>)>,
    changes: Seq<CandidateVersionChangeView>,
    ambiguous: Seq<Seq<char>>,
)
    requires
        changes_fit(xs, xs, ks, amb, changes, ambiguous),
    ensures
        changes.len() == 0,
        ambiguous.len() == 0,
{
    if ks.len() > 0 {
        assert(ks.contains(ks[0]));
    }
    if amb.len() > 0 {
        assert(amb.contains(amb[0]));
    }
}

/// Every package's identity is plain against the root.
pub open spec fn plain_identities(packages: Seq<ResolvedPackageView>, root: Seq<char>) -> bool {
    forall|k: int| 0 <= k < packages.len() ==> plain_identity(#[trigger] packages[k], root)
}

/// Comparing a package list with itself, against the same root, reports
/// no change and no ambiguous identity, where every package's identity is
/// plain (so that both sides read each package alike).
pub proof fn law_unchanged_packages_change_nothing(
    packages: Seq<ResolvedPackageView>,
    root: Seq<char>,
    changes: Seq<CandidateVersionChangeView>,
    ambiguous: Seq<Seq<char>>,
)
    requires
        plain_identities(packages, root),
        version_changes_fit(packages, root, packages, root, changes, ambiguous),
    ensures
        changes.len() == 0,
        ambiguous.len() == 0,
{
    let (cur, cand, ks, amb) = choose|cur: Seq<IdentifiedView>, cand: Seq<IdentifiedView>, ks: Seq<(Seq<char>, Seq<char>)>,
        amb: Seq<(Seq<char>, Seq<char>)>| #[trigger] identified_fit(packages, root, cur)
        && #[trigger] identified_fit(packages, root, cand)
        && #[trigger] changes_fit(cur, cand, ks, amb, changes, ambiguous);
    assert forall|k: int| 0 <= k < cur.len() implies key_of(#[trigger] cur[k]) == key_of(cand[k]) by {
        lemma_origin_is_text(packages[k], root, cur[k].origin);
        lemma_origin_is_text(packages[k], root, cand[k].origin);
    }
    assert forall|key: (Seq<char>, Seq<char>)| #[trigger] versions_at(cur, key) == versions_at(cand, key) by {
        assert forall|v: Seq<char>| versions_at(cur, key).contains(v) <==> versions_at(cand, key).contains(v) by {
            if versions_at(cur, key).contains(v) {
                let k = choose|k: int| 0 <= k < cur.len() && key_of(#[trigger] cur[k]) == key && version_display(cur[k].package.version) == v;
                assert(key_of(cand[k]) == key);
            }
            if versions_at(cand, key).contains(v) {
                let k = choose|k: int| 0 <= k < cand.len() && key_of(#[trigger] cand[k]) == key && version_display(cand[k].package.version) == v;
                assert(key_of(cur[k]) == key);
            }
        }
        assert(versions_at(cur, key) =~= versions_at(cand, key));
    }
    if ks.len() > 0 {
        assert(ks.contains(ks[0]));
        assert(versions_at(cur, ks[0]) == versions_at(cand, ks[0]));
    }
    if amb.len() > 0 {
        assert(amb.contains(amb[0]));
        assert(versions_at(cur, amb[0]) == versions_at(cand, amb[0]));
    }
}

/// No two packages share a name.
pub open spec fn package_names_distinct(packages: Seq<ResolvedPackageView>) -> bool {
    forall|i: int, j: int| 0 <= i < j < packages.len() ==> (#[trigger] packages[i]).name != (#[trigger] packages[j]).name
}

/// Every package comes from a source (a registry, a git repository, ...):
/// it has one and is neither a workspace member nor a path package.
pub open spec fn sourced_packages(packages: Seq<ResolvedPackageView>) -> bool {
    forall|k: int| 0 <= k < packages.len() ==> (#[trigger] packages[k]).source is Some
        && packages[k].source_kind != PackageSourceKind::Workspace
        && packages[k].source_kind != PackageSourceKind::Path
}

/// The version texts of the packages with this name and source.
pub open spec fn versions_named(packages: Seq<ResolvedPackageView>, name: Seq<char>, source: Seq<char>) -> Set<Seq<char>> {
    Set::new(|v: Seq<char>| exists|k: int| 0 <= k < packages.len() && (#[trigger] packages[k]).name == name
        && packages[k].source == Some(source) && version_display(packages[k].version) == v)
}

proof fn lemma_sourced_side(packages: Seq<ResolvedPackageView>, root: Seq<char>, side: Seq<IdentifiedView>)
    requires
        identified_fit(packages, root, side),
        sourced_packages(packages),
        package_names_distinct(packages),
    ensures
        names_distinct(side),
        origins_are_sources(side),
        forall|name: Seq<char>, source: Seq<char>| #[trigger] versions_at(side, (name, source)) == versions_named(packages, name, source),
{
    assert forall|i: int, j: int| 0 <= i < j < side.len() implies (#[trigger] side[i]).package.name != (#[trigger] side[j]).package.name by {
        assert(packages[i].name != packages[j].name);
    }
    assert forall|k: int| 0 <= k < side.len() implies (#[trigger] side[k]).package.source == Some(side[k].origin) by {
        assert(packages[k].source is Some);
    }
    assert forall|name: Seq<char>, source: Seq<char>| #[trigger] versions_at(side, (name, source)) == versions_named(packages, name, source) by {
        assert forall|v: Seq<char>| versions_at(side, (name, source)).contains(v) <==> versions_named(packages, name, source).contains(v) by {
            if versions_at(side, (name, source)).contains(v) {
                let k = choose|k: int| 0 <= k < side.len() && key_of(#[trigger] side[k]) == (name, source)
                    && version_display(side[k].package.version) == v;
                assert(side[k].package.source == Some(side[k].origin));
                assert(packages[k].name == name && packages[k].source == Some(source));
            }
            if versions_named(packages, name, source).contains(v) {
                let k = choose|k: int| 0 <= k < packages.len() && (#[trigger] packages[k]).name == name
                    && packages[k].source == Some(source) && version_display(packages[k].version) == v;
                assert(side[k].package.source == Some(side[k].origin));
                assert(key_of(side[k]) == (name, source));
            }
        }
        assert(versions_at(side, (name, source)) =~= versions_named(packages, name, source));
    }
}

/// The version-change law at `compute_version_changes_from_packages`, read
/// by package name and source: where within each list no two packages
/// share a name and every package comes from a source, nothing is
/// ambiguous, and the changes name exactly the (name, source) pairs whose
/// versions differ between the lists, each with its version before (none
/// where the current list lacks it) and after (none where the candidate
/// list lacks it), which differ.
pub proof fn law_version_changes_follow_names_and_sources(
    current: Seq<ResolvedPackageView>,
    current_root: Seq<char>,
    candidate: Seq<ResolvedPackageView>,
    candidate_root: Seq<char>,
    changes: Seq<CandidateVersionChangeView>,
    ambiguous: Seq<Seq<char>>,
)
    requires
        version_changes_fit(current, current_root, candidate, candidate_root, changes, ambiguous),
        package_names_distinct(current),
        package_names_distinct(candidate),
        sourced_packages(current),
        sourced_packages(candidate),
    ensures
        ambiguous.len() == 0,
        forall|name: Seq<char>, source: Seq<char>|
            (exists|t: int| 0 <= t < changes.len() && (#[trigger] changes[t]).package_name == name && changes[t].source == Some(source))
            <==> versions_named(current, name, source) != versions_named(candidate, name, source),
        forall|t: int| 0 <= t < changes.len() ==> ((#[trigger] changes[t]).source matches Some(s)
            && changes[t].before == single(versions_named(current, changes[t].package_name, s))
            && changes[t].after == single(versions_named(candidate, changes[t].package_name, s))
            && changes[t].before != changes[t].after),
{
    let (cur, cand, ks, amb) = choose|cur: Seq<IdentifiedView>, cand: Seq<IdentifiedView>, ks: Seq<(Seq<char>, Seq<char>)>,
        amb: Seq<(Seq<char>, Seq<char>)>| #[trigger] identified_fit(current, current_root, cur)
        && #[trigger] identified_fit(candidate, candidate_root, cand)
        && #[trigger] changes_fit(cur, cand, ks, amb, changes, ambiguous);
    lemma_sourced_side(current, current_root, cur);
    lemma_sourced_side(candidate, candidate_root, cand);
    law_version_changes_by_name_and_source(cur, cand, ks, amb, changes, ambiguous);
    assert forall|name: Seq<char>, source: Seq<char>|
        (exists|t: int| 0 <= t < changes.len() && (#[trigger] changes[t]).package_name == name && changes[t].source == Some(source))
        <==> versions_named(current, name, source) != versions_named(candidate, name, source) by {
        assert(versions_at(cur, (name, source)) == versions_named(current, name, source));
        assert(versions_at(cand, (name, source)) == versions_named(candidate, name, source));
    }
    assert forall|t: int| 0 <= t < changes.len() implies ((#[trigger] changes[t]).source matches Some(s)
        && changes[t].before == single(versions_named(current, changes[t].package_name, s))
        && changes[t].after == single(versions_named(candidate, changes[t].package_name, s))
        && changes[t].before != changes[t].after) by {
        assert(versions_at(cur, (changes[t].package_name, ks[t].1)) == versions_named(current, changes[t].package_name, ks[t].1));
        assert(versions_at(cand, (changes[t].package_name, ks[t].1)) == versions_named(candidate, changes[t].package_name, ks[t].1));
    }
}

/// No two packages of the side share a name.
pub open spec fn names_distinct(side: Seq<IdentifiedView>) -> bool {
    forall|i: int, j: int| 0 <= i < j < side.len() ==> (#[trigger] side[i]).package.name != (#[trigger] side[j]).package.name
}

/// Every package of the side has a source, and its stable origin is that
/// source (as for registry and git packages).
pub open spec fn origins_are_sources(side: Seq<IdentifiedView>) -> bool {
    forall|k: int| 0 <= k < side.len() ==> (#[trigger] side[k]).package.source == Some(side[k].origin)
}

proof fn lemma_named_key_first(side: Seq<IdentifiedView>, key: (Seq<char>, Seq<char>), k: int)
    requires
        names_distinct(side),
        0 <= k < side.len(),
        key_of(side[k]) == key,
    ensures
        first_at(side, key, k),
        forall|k2: int| 0 <= k2 < side.len() && key_of(#[trigger] side[k2]) == key ==> k2 == k,
{
    assert forall|k2: int| 0 <= k2 < side.len() && key_of(#[trigger] side[k2]) == key implies k2 == k by {
        if k2 < k {
            assert(side[k2].package.name != side[k].package.name);
        } else if k < k2 {
            assert(side[k].package.name != side[k2].package.name);
        }
    }
}

proof fn lemma_named_versions_single(side: Seq<IdentifiedView>, key: (Seq<char>, Seq<char>))
    requires
        names_distinct(side),
    ensures
        at_most_one(versions_at(side, key)),
{
    assert forall|a: Seq<char>, b: Seq<char>| versions_at(side, key).contains(a) && versions_at(side, key).contains(b) implies a == b by {
        let ka = choose|k: int| 0 <= k < side.len() && key_of(#[trigger] side[k]) == key && version_display(side[k].package.version) == a;
        let kb = choose|k: int| 0 <= k < side.len() && key_of(#[trigger] side[k]) == key && version_display(side[k].package.version) == b;
        lemma_named_key_first(side, key, ka);
    }
}

proof fn lemma_rep_names_key(cur: Seq<IdentifiedView>, cand: Seq<IdentifiedView>, key: (Seq<char>, Seq<char>))
    requires
        names_distinct(cur),
        names_distinct(cand),
        origins_are_sources(cur),
        origins_are_sources(cand),
        changed(cur, cand, key),
    ensures
        rep_of(cur, cand, key).package.name == key.0,
        rep_of(cur, cand, key).package.source == Some(key.1),
{
    if has_key(cand, key) {
        let k = choose|k: int| 0 <= k < cand.len() && key_of(#[trigger] cand[k]) == key;
        lemma_named_key_first(cand, key, k);
        let f = choose|f: int| first_at(cand, key, f);
        assert(cand[f].package.source == Some(cand[f].origin));
    } else {
        if !has_key(cur, key) {
            assert(versions_at(cur, key) =~= versions_at(cand, key));
        }
        let k = choose|k: int| 0 <= k < cur.len() && key_of(#[trigger] cur[k]) == key;
        lemma_named_key_first(cur, key, k);
        let f = choose|f: int| first_at(cur, key, f);
        assert(cur[f].package.source == Some(cur[f].origin));
    }
}

/// Where within each side no two packages share a name and every
/// package's stable origin is its source, the changes, read by package
/// name and source, are exactly the (name, source) pairs whose version
/// differs between the sides, each with its version before (none where the
/// current side lacks it) and after (none where the candidate lacks it);
/// nothing is ambiguous.
pub proof fn law_version_changes_by_name_and_source(
    cur: Seq<IdentifiedView>,
    cand: Seq<IdentifiedView>,
    ks: Seq<(Seq<char>, Seq<char>)>,
    amb: Seq<(Seq<char>, Seq<char>)>,
    changes: Seq<CandidateVersionChangeView>,
    ambiguous: Seq<Seq<char>>,
)
    requires
        changes_fit(cur, cand, ks, amb, changes, ambiguous),
        names_distinct(cur),
        names_distinct(cand),
        origins_are_sources(cur),
        origins_are_sources(cand),
    ensures
        ambiguous.len() == 0,
        forall|name: Seq<char>, source: Seq<char>|
            (exists|t: int| 0 <= t < changes.len() && (#[trigger] changes[t]).package_name == name && changes[t].source == Some(source))
            <==> versions_at(cur, (name, source)) != versions_at(cand, (name, source)),
        forall|t: int| 0 <= t < changes.len() ==> (#[trigger] changes[t]).before == single(versions_at(cur, (changes[t].package_name, ks[t].1)))
            && changes[t].after == single(versions_at(cand, (changes[t].package_name, ks[t].1)))
            && changes[t].source == Some(ks[t].1)
            && changes[t].before != changes[t].after,
{
    assert forall|key: (Seq<char>, Seq<char>)| at_most_one(#[trigger] versions_at(cur, key)) && at_most_one(versions_at(cand, key)) by {
        lemma_named_versions_single(cur, key);
        lemma_named_versions_single(cand, key);
    }
    law_version_changes_are_the_differing_versions(cur, cand, ks, amb, changes, ambiguous);
    assert forall|t: int| 0 <= t < changes.len() implies (#[trigger] changes[t]).package_name == ks[t].0 && changes[t].source == Some(ks[t].1) by {
        assert(ks.contains(ks[t]));
        lemma_rep_names_key(cur, cand, ks[t]);
    }
    assert forall|name: Seq<char>, source: Seq<char>|
        (exists|t: int| 0 <= t < changes.len() && (#[trigger] changes[t]).package_name == name && changes[t].source == Some(source))
        <==> versions_at(cur, (name, source)) != versions_at(cand, (name, source)) by {
        let key = (name, source);
        if versions_at(cur, key) != versions_at(cand, key) {
            assert(ks.contains(key));
            let t = choose|t: int| 0 <= t < ks.len() && ks[t] == key;
            assert(changes[t].package_name == name && changes[t].source == Some(source));
        }
        if exists|t: int| 0 <= t < changes.len() && (#[trigger] changes[t]).package_name == name && changes[t].source == Some(source) {
            let t = choose|t: int| 0 <= t < changes.len() && (#[trigger] changes[t]).package_name == name && changes[t].source == Some(source);
            assert(ks[t] == key);
            assert(ks.contains(ks[t]));
        }
    }
}

/// What applying a candidate lockfile says: nothing to apply when it
/// matches the current one, else where it was applied, with the entry
/// counts.
pub open spec fn apply_message(before: Seq<char>, after: Seq<char>, destination: Seq<char>) -> Seq<char> {
    if before == after {
        "candidate lockfile matches the current Cargo.lock; nothing to apply"@
    } else {
        "applied candidate lockfile to "@ + destination + " ("@ + diff_summary_text(before, after) + ")"@
    }
}

/// Decides how to apply a candidate lockfile over the current one (empty
/// where there is none): whether it must be written, and the message.
pub fn lockfile_apply_outcome(before: &str, after: &str, destination: &str) -> (r: (bool, String))
    ensures
        r.0 == (before@ != after@),
        r.1@ == apply_message(before@, after@, destination@),
{
    proof {
        reveal_strlit("candidate lockfile matches the current Cargo.lock; nothing to apply");
        reveal_strlit("applied candidate lockfile to ");
        reveal_strlit(" (");
        reveal_strlit(")");
    }
    if crate::text::text_eq(before, after) {
        return (false, String::from_str("candidate lockfile matches the current Cargo.lock; nothing to apply"));
    }
    let summary = diff_summary(before, after);
    let mut message = concat3("applied candidate lockfile to ", destination, " (");
    message.append(summary.as_str());
    message.append(")");
    (true, message)
}

/// The error for a candidate lockfile that does not exist.
pub fn missing_candidate_message(path: &str) -> (r: String)
    ensures
        r@ == "candidate lockfile `"@ + path@ + "` does not exist; run `cargo compatible resolve --write-candidate "@
            + path@ + "` first"@,
{
    proof {
        reveal_strlit("candidate lockfile `");
        reveal_strlit("` does not exist; run `cargo compatible resolve --write-candidate ");
        reveal_strlit("` first");
    }
    let mut r = concat3("candidate lockfile `", path, "` does not exist; run `cargo compatible resolve --write-candidate ");
    r.append(path);
    r.append("` first");
    r
}

/// Where a candidate lockfile is saved and looked for by default.
pub open spec fn default_candidate_lockfile_text() -> Seq<char> {
    ".cargo-compatible/candidate/Cargo.lock"@
}

/// The default path of a candidate lockfile.
pub fn default_candidate_lockfile_path() -> (r: String)
    ensures
        r@ == default_candidate_lockfile_text(),
{
    String::from_str(".cargo-compatible/candidate/Cargo.lock")
}

/// `r` is the manifest inside the copy, by way of the relative part
/// `relative` (see `manifest_in_temp`).
pub open spec fn temp_manifest_fits(real_root: Seq<char>, temp_root: Seq<char>, real_manifest: Seq<char>, relative: Seq<char>, r: Seq<char>) -> bool {
    &&& crate::paths::plain_path(real_manifest) ==> relative == "Cargo.toml"@ || crate::paths::has_suffix(real_manifest, relative)
    &&& crate::paths::plain_path(real_manifest) && crate::paths::plain_path(real_root) ==> relative == match crate::paths::strip_prefix_text(real_manifest, real_root) {
        Some(x) => x,
        None => "Cargo.toml"@,
    }
    &&& crate::paths::plain_path(temp_root) && crate::paths::plain_path(relative) ==> crate::paths::joined_text(temp_root, relative, r)
}

/// The workspace manifest inside a copy of the workspace: the manifest's
/// path relative to the real root, put under the copy's root; a manifest
/// outside the root becomes `Cargo.toml` at the copy's root. The relative
/// part is a trailing part of the manifest's path (read off the text for
/// plain paths); for a plain copy root and relative part the result is
/// the copy root, one separator, then the relative part (`joined_text`).
pub fn manifest_in_temp(real_root: &str, temp_root: &str, real_manifest: &str) -> (r: String)
    ensures
        exists|relative: Seq<char>| #[trigger] temp_manifest_fits(real_root@, temp_root@, real_manifest@, relative, r@),
{
    proof {
        reveal_strlit("Cargo.toml");
    }
    let relative = match crate::paths::path_strip_prefix(real_manifest, real_root) {
        Some(rel) => rel,
        None => String::from_str("Cargo.toml"),
    };
    let r = crate::paths::path_join(temp_root, relative.as_str());
    assert(temp_manifest_fits(real_root@, temp_root@, real_manifest@, relative@, r@));
    r
}

/// The directory entries that a workspace copy leaves out: version control
/// data, build output and the tool's own directory.
pub open spec fn skipped_entry(name: Seq<char>) -> bool {
    name == ".git"@ || name == "target"@ || name == ".cargo-compatible"@
}

/// Whether a directory entry of this name goes into a workspace copy.
pub fn copied_entry(name: &str) -> (r: bool)
    ensures
        r == !skipped_entry(name@),
{
    !(crate::text::text_eq(name, ".git") || crate::text::text_eq(name, "target")
        || crate::text::text_eq(name, ".cargo-compatible"))
}

/// The `cargo` arguments that resolve a workspace copy: `update` where a
/// lockfile exists (of every dependency, so locked versions may move to
/// newer compatible ones), else `generate-lockfile`.
pub open spec fn resolution_args_text(lockfile_exists: bool, manifest_path: Seq<char>) -> Seq<Seq<char>> {
    if lockfile_exists {
        seq!["update"@, "--manifest-path"@, manifest_path]
    } else {
        seq!["generate-lockfile"@, "--manifest-path"@, manifest_path]
    }
}

/// The arguments of the `cargo` run that resolves a workspace copy.
pub fn resolution_command_args(lockfile_exists: bool, manifest_path: &str) -> (r: Vec<String>)
    ensures
        r.deep_view() == resolution_args_text(lockfile_exists, manifest_path@),
{
    let mut r: Vec<String> = Vec::new();
    if lockfile_exists {
        r.push(String::from_str("update"));
    } else {
        r.push(String::from_str("generate-lockfile"));
    }
    r.push(String::from_str("--manifest-path"));
    r.push(String::from_str(manifest_path));
    assert(r.deep_view() =~= resolution_args_text(lockfile_exists, manifest_path@));
    r
}

} // verus!
