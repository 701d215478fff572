//! Compatibility analysis of a resolved graph against target Rust versions.
use crate::error::Error;
use crate::graph::{
    bfs_walk, dependency_walks, find_package, package_of, reachable, shortest_walk, walk_from_to, walk_ids, WalkEntry,
};
use crate::identity::{base_label_fits, base_labels_fit, colliding_base_labels, repeated_in, unique_label_fits, unique_package_label};
use crate::model::{
    CompatibilityStatus, DependencyPath, DependencyPathView, GraphEntryView, PackageIssue,
    PackageIssueView, PackageSummary, ResolvedPackage, ResolvedPackageView, ScanReport, SelectedMember,
    SelectedMemberView, Selection, SelectionView, TargetSelectionMode, TargetSelectionView, WorkspaceData,
    WorkspaceDataView, WorkspaceSummary, PackageSummaryView, ScanReportView, WorkspaceSummaryView,
};
use crate::sort::{adjacent_sorted, is_permutation_of, lemma_permutation_onto, picked, sort_by_key, SortKey};
use crate::text::{compare_text, concat2, concat3, lemma_text_order_antisymmetric, text_order};
use crate::version::{
    compare_versions, display_rust_version, padded_rust_version, parse_rust_version,
    rust_version_display, semver_order, semver_parse, Version, VersionParts,
};
use vstd::prelude::*;

verus! {

/// The version a declared Rust version text stands for, padded to three
/// parts.
pub open spec fn declared_rust_version(value: Seq<char>) -> Option<VersionParts> {
    semver_parse(padded_rust_version(value))
}

/// The verdict on a package's declared Rust version against a target:
/// unknown without a declaration, incompatible when the declaration is newer
/// than the target, compatible otherwise.
pub open spec fn classified_status(rust_version: Option<Seq<char>>, target: VersionParts) -> CompatibilityStatus {
    match rust_version {
        None => CompatibilityStatus::Unknown,
        Some(value) => if semver_order(declared_rust_version(value).unwrap(), target) > 0 {
            CompatibilityStatus::Incompatible
        } else {
            CompatibilityStatus::Compatible
        },
    }
}

/// The explanation that goes with `classified_status`.
pub open spec fn classified_reason(rust_version: Option<Seq<char>>, target: VersionParts) -> Seq<char> {
    match rust_version {
        None => "resolved package does not declare `rust-version`; compatibility is unknown"@,
        Some(value) => if semver_order(declared_rust_version(value).unwrap(), target) > 0 {
            "resolved package declares rust-version "@ + value + ", which exceeds target "@ + rust_version_display(target)
        } else {
            "resolved package declares rust-version "@ + value + ", which is compatible with target "@
                + rust_version_display(target)
        },
    }
}

/// Parses a declared Rust version; it must parse.
fn parse_version_display(value: &str) -> (v: Version)
    requires
        declared_rust_version(value@) is Some,
    ensures
        declared_rust_version(value@) == Some(v@),
{
    match parse_rust_version(value) {
        Some(v) => v,
        None => {
            assert(false);
            Version::new(0, 0, 0)
        },
    }
}

/// Classifies a package's declared Rust version against a target, with the
/// reason. A declared version must parse once padded to three parts.
pub fn classify_package(rust_version: Option<&str>, target: &Version) -> (r: (CompatibilityStatus, String))
    requires
        rust_version matches Some(v) ==> declared_rust_version(v@) is Some,
    ensures
        r.0 == classified_status(rust_version.deep_view(), target@),
        r.1@ == classified_reason(rust_version.deep_view(), target@),
{
    match rust_version {
        Some(value) => {
            let package_rust = parse_version_display(value);
            let shown = display_rust_version(target);
            if compare_versions(&package_rust, target) > 0 {
                let mut reason = concat3("resolved package declares rust-version ", value, ", which exceeds target ");
                reason.append(shown.as_str());
                (CompatibilityStatus::Incompatible, reason)
            } else {
                let mut reason = concat3(
                    "resolved package declares rust-version ",
                    value,
                    ", which is compatible with target ",
                );
                reason.append(shown.as_str());
                (CompatibilityStatus::Compatible, reason)
            }
        },
        None => (
            CompatibilityStatus::Unknown,
            String::from_str("resolved package does not declare `rust-version`; compatibility is unknown"),
        ),
    }
}

/// `classify_package` where the declared version parses; `None` where it
/// does not (there the classification has no answer).
pub fn try_classify_package(rust_version: Option<&str>, target: &Version) -> (r: Option<(CompatibilityStatus, String)>)
    ensures
        match rust_version {
            Some(v) if declared_rust_version(v@) is None => r is None,
            _ => r matches Some(c) && c.0 == classified_status(rust_version.deep_view(), target@)
                && c.1@ == classified_reason(rust_version.deep_view(), target@),
        },
{
    if let Some(value) = rust_version {
        if parse_rust_version(value).is_none() {
            return None;
        }
    }
    Some(classify_package(rust_version, target))
}

/// Incompatible outranks unknown, which outranks compatible.
pub open spec fn status_rank(s: CompatibilityStatus) -> int {
    match s {
        CompatibilityStatus::Compatible => 0,
        CompatibilityStatus::Unknown => 1,
        CompatibilityStatus::Incompatible => 2,
    }
}

/// The stronger of two verdicts.
pub fn strongest_status(current: CompatibilityStatus, next: CompatibilityStatus) -> (r: CompatibilityStatus)
    ensures
        r == if status_rank(current) >= status_rank(next) { current } else { next },
{
    match (current, next) {
        (CompatibilityStatus::Incompatible, _) | (_, CompatibilityStatus::Incompatible) => CompatibilityStatus::Incompatible,
        (CompatibilityStatus::Unknown, _) | (_, CompatibilityStatus::Unknown) => CompatibilityStatus::Unknown,
        _ => CompatibilityStatus::Compatible,
    }
}

/// The selection's target applies to every member.
pub open spec fn shared_target(t: TargetSelectionView) -> bool {
    &&& t.target_rust_version is Some
    &&& (t.mode == TargetSelectionMode::Explicit || t.mode == TargetSelectionMode::SelectedPackage
        || t.mode == TargetSelectionMode::WorkspaceUniform)
}

/// The target of a member: the selection's shared target where there is
/// one, else the member's own declared Rust version.
pub open spec fn member_target_of(t: TargetSelectionView, m: SelectedMemberView) -> Option<VersionParts> {
    if shared_target(t) {
        declared_rust_version(t.target_rust_version.unwrap())
    } else {
        m.rust_version
    }
}

/// A shared target text parses.
pub open spec fn target_parses(t: TargetSelectionView) -> bool {
    shared_target(t) ==> declared_rust_version(t.target_rust_version.unwrap()) is Some
}

fn member_target(selection: &Selection, member: &SelectedMember) -> (r: Option<Version>)
    requires
        target_parses(selection.target@),
    ensures
        r.deep_view() == member_target_of(selection.target@, member@),
        shared_target(selection.target@) ==> r is Some,
{
    if let Some(explicit) = &selection.target.target_rust_version {
        let mode = selection.target.mode;
        if mode == TargetSelectionMode::Explicit || mode == TargetSelectionMode::SelectedPackage
            || mode == TargetSelectionMode::WorkspaceUniform
        {
            return Some(parse_version_display(explicit.as_str()));
        }
    }
    member.rust_version.clone()
}

/// The packages along walk `w`, each labeled as `unique_package_label`
/// labels it against the workspace root and the collisions.
pub open spec fn labels_fit(packages: Seq<ResolvedPackageView>, root: Seq<char>, collisions: Seq<Seq<char>>, w: Seq<Seq<char>>, labels: Seq<Seq<char>>) -> bool {
    &&& labels.len() == w.len()
    &&& forall|k: int| 0 <= k < w.len() ==> (package_of(packages, #[trigger] w[k]) matches Some(p)
        && unique_label_fits(p, root, collisions, labels[k]))
}

/// `collisions` are the base labels that more than one package of the
/// package map shares, each read against the workspace root.
pub open spec fn collisions_fit(ws: WorkspaceDataView, collisions: Seq<Seq<char>>) -> bool {
    exists|bases: Seq<Seq<char>>| #[trigger] package_bases_fit(ws, bases) && repeated_in(collisions, bases)
}

/// `bases` are base labels of the packages of the package map, in order.
pub open spec fn package_bases_fit(ws: WorkspaceDataView, bases: Seq<Seq<char>>) -> bool {
    &&& bases.len() == ws.packages_by_id.len()
    &&& forall|i: int| 0 <= i < bases.len() ==> base_label_fits(ws.packages_by_id[i], ws.workspace_root, #[trigger] bases[i])
}

/// `labels` name the packages of the walk along which a breadth-first
/// search from `root` first meets `id`, a shortest walk, each with its
/// source-aware label (the package id added where labels collide).
pub open spec fn labeled_walk(ws: WorkspaceDataView, root: Seq<char>, id: Seq<char>, labels: Seq<Seq<char>>) -> bool {
    &&& shortest_walk(ws.graph, bfs_walk(ws.graph, root, id), root, id)
    &&& exists|collisions: Seq<Seq<char>>| #[trigger] collisions_fit(ws, collisions)
        && labels_fit(ws.packages_by_id, ws.workspace_root, collisions, bfs_walk(ws.graph, root, id), labels)
}

/// Every package that `root` reaches is in the package map.
pub open spec fn reach_known(ws: WorkspaceDataView, root: Seq<char>) -> bool {
    forall|id: Seq<char>| #[trigger] reachable(ws.graph, root, id) ==> package_of(ws.packages_by_id, id) is Some
}

/// A package id with the labels of a walk that reaches it.
#[derive(Debug)]
pub struct LabeledWalk {
    pub id: String,
    pub labels: Vec<String>,
}

/// The ids of labeled walks.
pub open spec fn labeled_ids(s: Seq<LabeledWalk>) -> Seq<Seq<char>> {
    s.map_values(|e: LabeledWalk| e.id@)
}

proof fn lemma_walk_prefix(g: Seq<GraphEntryView>, w: Seq<Seq<char>>, a: Seq<char>, b: Seq<char>, k: int)
    requires
        walk_from_to(g, w, a, b),
        0 <= k < w.len(),
    ensures
        reachable(g, a, w[k]),
{
    let p = w.take(k + 1);
    assert forall|i: int| 0 <= i < p.len() - 1 implies crate::graph::deps_of(g, #[trigger] p[i]).contains(p[i + 1]) by {
        assert(p[i] == w[i] && p[i + 1] == w[i + 1]);
    }
    assert(walk_from_to(g, p, a, w[k]));
}

/// Names the packages along a walk, checking them from its end.
fn walk_labels(packages: &Vec<ResolvedPackage>, root: &str, collisions: &Vec<String>, walk: &Vec<String>) -> (r: Result<Vec<String>, Error>)
    ensures
        r matches Ok(labels) ==> labels_fit(packages.deep_view(), root@, collisions.deep_view(), walk.deep_view(), labels.deep_view()),
        r matches Err(e) ==> (e matches Error::PackageMissing(x) && walk.deep_view().contains(x@)
            && package_of(packages.deep_view(), x@) is None),
{
    let ghost w = walk.deep_view();
    let mut reversed: Vec<String> = Vec::new();
    let mut k: usize = walk.len();
    while k > 0
        invariant
            w == walk.deep_view(),
            k <= walk@.len(),
            reversed@.len() == walk@.len() - k,
            forall|t: int| 0 <= t < reversed@.len() ==> (package_of(packages.deep_view(), #[trigger] w[walk@.len() - 1 - t]) matches Some(p)
                && unique_label_fits(p, root@, collisions.deep_view(), reversed.deep_view()[t])),
        decreases k,
    {
        let id = &walk[k - 1];
        assert(w[k - 1] == id@);
        match find_package(packages, id) {
            Some(p) => {
                let label = unique_package_label(p, root, collisions);
                let ghost before = reversed.deep_view();
                reversed.push(label);
                assert forall|t: int| 0 <= t < reversed@.len() implies (package_of(packages.deep_view(), #[trigger] w[walk@.len() - 1 - t]) matches Some(q)
                    && unique_label_fits(q, root@, collisions.deep_view(), reversed.deep_view()[t])) by {
                    if t < before.len() {
                        assert(reversed.deep_view()[t] == before[t]);
                    }
                }
            },
            None => {
                return Err(Error::PackageMissing(id.clone()));
            },
        }
        k = k - 1;
    }
    let mut labels: Vec<String> = Vec::new();
    let mut t: usize = reversed.len();
    while t > 0
        invariant
            w == walk.deep_view(),
            reversed@.len() == walk@.len(),
            t <= reversed@.len(),
            labels@.len() == reversed@.len() - t,
            forall|u: int| 0 <= u < reversed@.len() ==> (package_of(packages.deep_view(), #[trigger] w[walk@.len() - 1 - u]) matches Some(p)
                && unique_label_fits(p, root@, collisions.deep_view(), reversed.deep_view()[u])),
            forall|k2: int| 0 <= k2 < labels@.len() ==> labels.deep_view()[k2] == reversed.deep_view()[walk@.len() - 1 - k2],
        decreases t,
    {
        let ghost before = labels.deep_view();
        labels.push(reversed[t - 1].clone());
        assert forall|k2: int| 0 <= k2 < labels@.len() implies labels.deep_view()[k2] == reversed.deep_view()[walk@.len() - 1 - k2] by {
            if k2 < before.len() {
                assert(labels.deep_view()[k2] == before[k2]);
            }
        }
        t = t - 1;
    }
    assert forall|k2: int| 0 <= k2 < w.len() implies (package_of(packages.deep_view(), #[trigger] w[k2]) matches Some(p)
        && unique_label_fits(p, root@, collisions.deep_view(), labels.deep_view()[k2])) by {
        let u = walk@.len() - 1 - k2;
        assert(w[walk@.len() - 1 - u] == w[k2]);
    }
    Ok(labels)
}

/// The base labels that more than one package of the package map shares.
fn package_collisions(workspace: &WorkspaceData) -> (r: Vec<String>)
    ensures
        collisions_fit(workspace@, r.deep_view()),
{
    let root = workspace.workspace_root.as_str();
    let mut pairs: Vec<(&ResolvedPackage, &str)> = Vec::new();
    let mut i: usize = 0;
    while i < workspace.packages_by_id.len()
        invariant
            i <= workspace.packages_by_id@.len(),
            root@ == workspace@.workspace_root,
            pairs@.len() == i,
            forall|k: int| 0 <= k < i ==> (#[trigger] pairs@[k]).0@ == workspace@.packages_by_id[k] && pairs@[k].1@ == root@,
        decreases workspace.packages_by_id@.len() - i,
    {
        pairs.push((&workspace.packages_by_id[i], root));
        i = i + 1;
    }
    let r = colliding_base_labels(pairs.as_slice());
    proof {
        let labels = choose|labels: Seq<Seq<char>>| #[trigger] base_labels_fit(pairs@, labels) && repeated_in(r.deep_view(), labels);
        assert(package_bases_fit(workspace@, labels)) by {
            assert forall|k: int| 0 <= k < labels.len() implies base_label_fits(workspace@.packages_by_id[k], workspace@.workspace_root, #[trigger] labels[k]) by {
                assert(base_label_fits(pairs@[k].0@, pairs@[k].1@, labels[k]));
            }
        }
    }
    r
}

/// The labeled walks from a member to every package it reaches; an error
/// names a reached package that the package map lacks.
fn member_walks(workspace: &WorkspaceData, root: &String, collisions: &Vec<String>) -> (r: Result<Vec<LabeledWalk>, Error>)
    requires
        collisions_fit(workspace@, collisions.deep_view()),
    ensures
        r matches Ok(v) ==> reach_known(workspace@, root@),
        r matches Ok(v) ==> labeled_ids(v@).no_duplicates(),
        r matches Ok(v) ==> forall|i: int| 0 <= i < v@.len() ==> reachable(workspace@.graph, root@, (#[trigger] v@[i]).id@)
            && labeled_walk(workspace@, root@, v@[i].id@, v@[i].labels.deep_view()),
        r matches Ok(v) ==> forall|id: Seq<char>| reachable(workspace@.graph, root@, id) ==> #[trigger] labeled_ids(v@).contains(id),
        r matches Err(e) ==> (e matches Error::PackageMissing(x) && reachable(workspace@.graph, root@, x@)
            && package_of(workspace@.packages_by_id, x@) is None),
{
    let walks = dependency_walks(&workspace.graph, root);
    let ghost g = workspace@.graph;
    assert forall|k: int| 0 <= k < walks@.len() implies shortest_walk(g, (#[trigger] walks@[k]).walk.deep_view(), root@, walks@[k].id@) by {
        assert forall|w2: Seq<Seq<char>>| #[trigger] walk_from_to(g, w2, root@, walks@[k].id@) implies walks@[k].walk.deep_view().len() <= w2.len() by {}
    }
    let mut out: Vec<LabeledWalk> = Vec::new();
    let mut i: usize = 0;
    while i < walks.len()
        invariant
            g == workspace@.graph,
            g == workspace.graph.deep_view(),
            i <= walks@.len(),
            out@.len() == i,
            walk_ids(walks@).no_duplicates(),
            forall|k: int| 0 <= k < walks@.len() ==> walk_from_to(g, (#[trigger] walks@[k]).walk.deep_view(), root@, walks@[k].id@),
            forall|k: int| 0 <= k < walks@.len() ==> shortest_walk(g, (#[trigger] walks@[k]).walk.deep_view(), root@, walks@[k].id@),
            forall|k: int| 0 <= k < i ==> (#[trigger] out@[k]).id@ == walks@[k].id@
                && labels_fit(workspace@.packages_by_id, workspace@.workspace_root, collisions.deep_view(), walks@[k].walk.deep_view(), out@[k].labels.deep_view()),
            collisions_fit(workspace@, collisions.deep_view()),
        decreases walks@.len() - i,
    {
        let entry = &walks[i];
        match walk_labels(&workspace.packages_by_id, workspace.workspace_root.as_str(), collisions, &entry.walk) {
            Ok(labels) => {
                let ghost before = out@;
                out.push(LabeledWalk { id: entry.id.clone(), labels });
                assert forall|k: int| 0 <= k < i + 1 implies (#[trigger] out@[k]).id@ == walks@[k].id@
                    && labels_fit(workspace@.packages_by_id, workspace@.workspace_root, collisions.deep_view(), walks@[k].walk.deep_view(), out@[k].labels.deep_view()) by {
                    if k < i {
                        assert(out@[k] == before[k]);
                    }
                }
            },
            Err(e) => {
                proof {
                    if let Error::PackageMissing(x) = &e {
                        let w = entry.walk.deep_view();
                        let k = choose|k: int| 0 <= k < w.len() && w[k] == x@;
                        lemma_walk_prefix(g, w, root@, entry.id@, k);
                    }
                }
                return Err(e);
            },
        }
        i = i + 1;
    }
    proof {
        assert(labeled_ids(out@) =~= walk_ids(walks@));
        assert forall|k: int| 0 <= k < out@.len() implies reachable(workspace@.graph, root@, (#[trigger] out@[k]).id@)
            && labeled_walk(workspace@, root@, out@[k].id@, out@[k].labels.deep_view()) by {
            assert(shortest_walk(g, walks@[k].walk.deep_view(), root@, out@[k].id@));
            assert(walk_ids(walks@)[k] == out@[k].id@);
            crate::graph::lemma_bfs_walk_of(g, root@, walks@, k);
            assert(collisions_fit(workspace@, collisions.deep_view()));
        }
        assert forall|id: Seq<char>| #[trigger] reachable(workspace@.graph, root@, id) implies package_of(workspace@.packages_by_id, id) is Some by {
            assert(walk_ids(walks@).contains(id));
            let k = choose|k: int| 0 <= k < walk_ids(walks@).len() && walk_ids(walks@)[k] == id;
            let w = walks@[k].walk.deep_view();
            assert(w[w.len() - 1] == id);
            assert(package_of(workspace@.packages_by_id, w[w.len() - 1]) is Some);
        }
    }
    Ok(out)
}

/// The id of member `i`.
pub open spec fn member_root(sel: SelectionView, i: int) -> Seq<char> {
    sel.members[i].package_id
}

/// What the first pass says of a package that member `i` reaches: its
/// verdict against the member's target, where there is a target and the
/// verdict is not "compatible".
pub open spec fn first_pass_status(ws: WorkspaceDataView, sel: SelectionView, i: int, id: Seq<char>) -> Option<CompatibilityStatus> {
    match member_target_of(sel.target, sel.members[i]) {
        Some(t) => {
            let st = classified_status(package_of(ws.packages_by_id, id).unwrap().rust_version, t);
            if st == CompatibilityStatus::Compatible { None } else { Some(st) }
        },
        None => None,
    }
}

/// Member `i` declares no Rust version in a selection that misses one.
pub open spec fn lacks_rust_version(sel: SelectionView, i: int) -> bool {
    sel.target.mode == TargetSelectionMode::Missing && sel.members[i].rust_version is None
}

/// What member `i` says of package `id`: nothing unless it reaches it; the
/// first pass's verdict where there is one; "unknown" for a member that
/// declares no Rust version in a selection that misses one.
pub open spec fn contribution(ws: WorkspaceDataView, sel: SelectionView, i: int, id: Seq<char>) -> Option<CompatibilityStatus> {
    if 0 <= i < sel.members.len() && reachable(ws.graph, member_root(sel, i), id) {
        match first_pass_status(ws, sel, i, id) {
            Some(st) => Some(st),
            None => if lacks_rust_version(sel, i) { Some(CompatibilityStatus::Unknown) } else { None },
        }
    } else {
        None
    }
}

/// The reason a member without a Rust version gives.
pub open spec fn missing_member_reason() -> Seq<char> {
    "selected member is missing `rust-version`"@
}

/// One member's verdict on one package, with the path that shows how the
/// member reaches it.
#[derive(Debug)]
pub struct Contribution {
    pub member: usize,
    pub id: String,
    pub status: CompatibilityStatus,
    pub first_pass: bool,
    pub target: Option<String>,
    pub reason: String,
    pub path: DependencyPath,
}

/// The plain-value view of [`Contribution`].
pub struct ContributionView {
    pub member: usize,
    pub id: Seq<char>,
    pub status: CompatibilityStatus,
    pub first_pass: bool,
    pub target: Option<Seq<char>>,
    pub reason: Seq<char>,
    pub path: DependencyPathView,
}

impl View for Contribution {
    type V = ContributionView;

    open spec fn view(&self) -> ContributionView {
        ContributionView {
            member: self.member,
            id: self.id@,
            status: self.status,
            first_pass: self.first_pass,
            target: self.target.deep_view(),
            reason: self.reason@,
            path: self.path@,
        }
    }
}

/// The views of contributions.
pub open spec fn contribution_views(s: Seq<Contribution>) -> Seq<ContributionView> {
    s.map_values(|c: Contribution| c@)
}

/// A contribution says what `contribution` says, with the reason, target and
/// path that go with it.
pub open spec fn contribution_fits(ws: WorkspaceDataView, sel: SelectionView, c: ContributionView) -> bool {
    &&& 0 <= c.member < sel.members.len()
    &&& reachable(ws.graph, member_root(sel, c.member as int), c.id)
    &&& contribution(ws, sel, c.member as int, c.id) == Some(c.status)
    &&& c.first_pass == (first_pass_status(ws, sel, c.member as int, c.id) is Some)
    &&& c.first_pass ==> ({
        let t = member_target_of(sel.target, sel.members[c.member as int]).unwrap();
        &&& c.target == Some(rust_version_display(t))
        &&& c.reason == classified_reason(package_of(ws.packages_by_id, c.id).unwrap().rust_version, t)
    })
    &&& !c.first_pass ==> c.target is None && c.reason == missing_member_reason()
    &&& c.path.member == sel.members[c.member as int].package_name
    &&& c.path.target_rust_version == c.target
    &&& labeled_walk(ws, member_root(sel, c.member as int), c.id, c.path.packages)
}

/// Some contribution is member `i`'s on package `id`.
pub open spec fn has_contribution(cs: Seq<ContributionView>, i: int, id: Seq<char>) -> bool {
    exists|k: int| 0 <= k < cs.len() && (#[trigger] cs[k]).member == i && cs[k].id == id
}

/// The labeled walks of every member: complete, distinct, correct.
pub open spec fn walks_fit(ws: WorkspaceDataView, sel: SelectionView, walks: Seq<Vec<LabeledWalk>>) -> bool {
    &&& walks.len() == sel.members.len()
    &&& forall|i: int| 0 <= i < walks.len() ==> walks_of_member_fit(ws, member_root(sel, i), (#[trigger] walks[i])@)
}

/// One member's labeled walks: complete, distinct, correct.
pub open spec fn walks_of_member_fit(ws: WorkspaceDataView, root: Seq<char>, v: Seq<LabeledWalk>) -> bool {
    &&& reach_known(ws, root)
    &&& labeled_ids(v).no_duplicates()
    &&& forall|k: int| 0 <= k < v.len() ==> reachable(ws.graph, root, (#[trigger] v[k]).id@)
        && labeled_walk(ws, root, v[k].id@, v[k].labels.deep_view())
    &&& forall|id: Seq<char>| reachable(ws.graph, root, id) ==> #[trigger] labeled_ids(v).contains(id)
}

/// Declared Rust versions parse wherever a member with a target reaches a
/// package that declares one.
pub open spec fn reached_versions_parse(ws: WorkspaceDataView, sel: SelectionView) -> bool {
    forall|i: int, id: Seq<char>| 0 <= i < sel.members.len() && member_target_of(sel.target, sel.members[i]) is Some
        && #[trigger] reachable(ws.graph, member_root(sel, i), id)
        && (package_of(ws.packages_by_id, id) matches Some(p) && p.rust_version matches Some(v))
        ==> declared_rust_version(package_of(ws.packages_by_id, id).unwrap().rust_version.unwrap()) is Some
}

/// The contributions of one member in one pass.
fn member_contributions(
    workspace: &WorkspaceData,
    selection: &Selection,
    i: usize,
    walks: &Vec<LabeledWalk>,
    first: bool,
    out: &mut Vec<Contribution>,
)
    requires
        i < selection.members@.len(),
        walks_of_member_fit(workspace@, member_root(selection@, i as int), walks@),
        target_parses(selection.target@),
        reached_versions_parse(workspace@, selection@),
        forall|k: int| 0 <= k < old(out)@.len() ==> contribution_fits(workspace@, selection@, (#[trigger] old(out)@[k])@),
        forall|k: int| 0 <= k < old(out)@.len() ==> (#[trigger] old(out)@[k])@.member != i
            || old(out)@[k]@.first_pass != first,
    ensures
        forall|k: int| 0 <= k < final(out)@.len() ==> contribution_fits(workspace@, selection@, (#[trigger] final(out)@[k])@),
        final(out)@.len() >= old(out)@.len(),
        forall|k: int| 0 <= k < old(out)@.len() ==> final(out)@[k] == old(out)@[k],
        forall|k: int| old(out)@.len() <= k < final(out)@.len() ==> (#[trigger] final(out)@[k])@.member == i
            && final(out)@[k]@.first_pass == first,
        forall|id: Seq<char>| (if first {
            first_pass_status(workspace@, selection@, i as int, id) is Some
        } else {
            lacks_rust_version(selection@, i as int)
        }) && reachable(workspace@.graph, member_root(selection@, i as int), id)
            ==> #[trigger] has_contribution(contribution_views(final(out)@), i as int, id),
        forall|a: int, b: int| old(out)@.len() <= a < b < final(out)@.len() ==> (#[trigger] final(out)@[a])@.id != (#[trigger] final(out)@[b])@.id,
{
    let member = &selection.members[i];
    let ghost ws = workspace@;
    let ghost sel = selection@;
    let ghost root = member_root(sel, i as int);
    let ghost start = out@.len();
    assert(sel.members[i as int] == member@);
    let target = member_target(selection, member);
    if first && target.is_none() {
        assert forall|id: Seq<char>| first_pass_status(ws, sel, i as int, id) is None by {}
        return;
    }
    if !first && !(selection.target.mode == TargetSelectionMode::Missing && member.rust_version.is_none()) {
        return;
    }
    let shown: Option<String> = match &target {
        Some(t) => if first { Some(display_rust_version(t)) } else { None },
        None => None,
    };
    let mut j: usize = 0;
    while j < walks.len()
        invariant
            ws == workspace@,
            sel == selection@,
            root == member_root(sel, i as int),
            i < sel.members.len(),
            sel.members[i as int] == member@,
            target.deep_view() == member_target_of(sel.target, member@),
            first ==> target is Some,
            first ==> shown.deep_view() == Some(rust_version_display(target.deep_view().unwrap())),
            !first ==> shown is None && lacks_rust_version(sel, i as int),
            walks_of_member_fit(ws, root, walks@),
            reached_versions_parse(ws, sel),
            start <= out@.len(),
            j <= walks@.len(),
            forall|k: int| 0 <= k < out@.len() ==> contribution_fits(ws, sel, (#[trigger] out@[k])@),
            forall|k: int| 0 <= k < start ==> out@[k] == old(out)@[k],
            start == old(out)@.len(),
            forall|k: int| start <= k < out@.len() ==> (#[trigger] out@[k])@.member == i && out@[k]@.first_pass == first,
            forall|k: int| start <= k < out@.len() ==> exists|t: int| 0 <= t < j && (#[trigger] out@[k])@.id == walks@[t].id@,
            forall|t: int| 0 <= t < j && (if first { first_pass_status(ws, sel, i as int, walks@[t].id@) is Some } else { true })
                ==> #[trigger] has_contribution(contribution_views(out@), i as int, walks@[t].id@),
            forall|a: int, b: int| start <= a < b < out@.len() ==> (#[trigger] out@[a])@.id != (#[trigger] out@[b])@.id,
        decreases walks@.len() - j,
    {
        let entry = &walks[j];
        let ghost id = entry.id@;
        assert(labeled_ids(walks@)[j as int] == id);
        assert(reachable(ws.graph, root, id));
        let ghost before = out@;
        let package = match find_package(&workspace.packages_by_id, &entry.id) {
            Some(p) => p,
            None => {
                assert(false);
                return;
            },
        };
        let mut add = false;
        let mut status = CompatibilityStatus::Unknown;
        let mut reason = String::new();
        if first {
            let t = match &target {
                Some(t) => t,
                None => {
                    assert(false);
                    return;
                },
            };
            let rv = match &package.rust_version {
                Some(v) => Some(v.as_str()),
                None => None,
            };
            assert(rv.deep_view() == package@.rust_version);
            let (st, why) = classify_package(rv, t);
            if st != CompatibilityStatus::Compatible {
                add = true;
                status = st;
                reason = why;
            }
        } else {
            add = true;
            reason = String::from_str("selected member is missing `rust-version`");
        }
        if add {
            let path = DependencyPath {
                member: member.package_name.clone(),
                target_rust_version: shown.clone(),
                packages: entry.labels.clone(),
            };
            assert(path@.packages == entry.labels.deep_view());
            out.push(Contribution {
                member: i,
                id: entry.id.clone(),
                status,
                first_pass: first,
                target: shown.clone(),
                reason,
                path,
            });
            proof {
                let c = out@[out@.len() - 1]@;
                assert(contribution_fits(ws, sel, c));
                assert(has_contribution(contribution_views(out@), i as int, id)) by {
                    assert(contribution_views(out@)[out@.len() - 1] == c);
                }
            }
        }
        proof {
            assert forall|k: int| 0 <= k < out@.len() implies contribution_fits(ws, sel, (#[trigger] out@[k])@) by {
                if k < before.len() {
                    assert(out@[k] == before[k]);
                }
            }
            assert forall|k: int| start <= k < out@.len() implies exists|t: int| 0 <= t < j + 1 && (#[trigger] out@[k])@.id == walks@[t].id@ by {
                if k < before.len() {
                    assert(out@[k] == before[k]);
                    let t = choose|t: int| 0 <= t < j && before[k]@.id == walks@[t].id@;
                } else {
                    assert(out@[k]@.id == walks@[j as int].id@);
                }
            }
            assert forall|t: int| 0 <= t < j + 1 && (if first { first_pass_status(ws, sel, i as int, walks@[t].id@) is Some } else { true })
                implies #[trigger] has_contribution(contribution_views(out@), i as int, walks@[t].id@) by {
                if t < j {
                    assert(has_contribution(contribution_views(before), i as int, walks@[t].id@));
                    let k = choose|k: int| 0 <= k < contribution_views(before).len() && (#[trigger] contribution_views(before)[k]).member == i
                        && contribution_views(before)[k].id == walks@[t].id@;
                    assert(out@[k] == before[k]);
                    assert(contribution_views(out@)[k] == contribution_views(before)[k]);
                }
            }
            assert forall|a: int, b: int| start <= a < b < out@.len() implies (#[trigger] out@[a])@.id != (#[trigger] out@[b])@.id by {
                if b < before.len() {
                    assert(out@[a] == before[a] && out@[b] == before[b]);
                } else if a < before.len() {
                    assert(out@[a] == before[a]);
                    let t = choose|t: int| 0 <= t < j && before[a]@.id == walks@[t].id@;
                    assert(labeled_ids(walks@)[t] == walks@[t].id@);
                    assert(labeled_ids(walks@)[j as int] == walks@[j as int].id@);
                }
            }
        }
        j = j + 1;
    }
    proof {
        assert forall|id: Seq<char>| (if first {
            first_pass_status(ws, sel, i as int, id) is Some
        } else {
            lacks_rust_version(sel, i as int)
        }) && reachable(ws.graph, root, id) implies #[trigger] has_contribution(contribution_views(out@), i as int, id) by {
            assert(labeled_ids(walks@).contains(id));
            let t = choose|t: int| 0 <= t < labeled_ids(walks@).len() && labeled_ids(walks@)[t] == id;
            assert(walks@[t].id@ == id);
        }
    }
}

/// Contributions come pass by pass, and member by member within a pass.
pub open spec fn contribution_before(x: ContributionView, y: ContributionView) -> bool {
    (x.first_pass && !y.first_pass) || (x.first_pass == y.first_pass && x.member <= y.member)
}

/// The target and the declared versions that the analysis reads parse,
/// where there is a member to read them for.
pub open spec fn analysis_parses(ws: WorkspaceDataView, sel: SelectionView) -> bool {
    sel.members.len() > 0 ==> target_parses(sel.target) && reached_versions_parse(ws, sel)
}

/// The contributions of every member: the first pass over all members, then
/// the second.
fn collect_contributions(workspace: &WorkspaceData, selection: &Selection, walks: &Vec<Vec<LabeledWalk>>) -> (r: Vec<Contribution>)
    requires
        walks_fit(workspace@, selection@, walks@),
        analysis_parses(workspace@, selection@),
    ensures
        forall|a: int, b: int| 0 <= a < b < r@.len() ==> contribution_before((#[trigger] r@[a])@, (#[trigger] r@[b])@),
        forall|k: int| 0 <= k < r@.len() ==> contribution_fits(workspace@, selection@, (#[trigger] r@[k])@),
        forall|i: int, id: Seq<char>| contribution(workspace@, selection@, i, id) is Some
            ==> #[trigger] has_contribution(contribution_views(r@), i, id),
        forall|a: int, b: int| 0 <= a < b < r@.len() && (#[trigger] r@[a])@.member == (#[trigger] r@[b])@.member
            ==> r@[a]@.id != r@[b]@.id,
{
    let ghost ws = workspace@;
    let ghost sel = selection@;
    let mut out: Vec<Contribution> = Vec::new();
    let mut pass: usize = 0;
    while pass < 2
        invariant
            ws == workspace@,
            sel == selection@,
            walks_fit(ws, sel, walks@),
            analysis_parses(ws, sel),
            pass <= 2,
            forall|a: int, b: int| 0 <= a < b < out@.len() ==> contribution_before((#[trigger] out@[a])@, (#[trigger] out@[b])@),
            forall|k: int| 0 <= k < out@.len() ==> contribution_fits(ws, sel, (#[trigger] out@[k])@),
            pass >= 1 ==> forall|i: int, id: Seq<char>| 0 <= i < sel.members.len() && first_pass_status(ws, sel, i, id) is Some
                && reachable(ws.graph, member_root(sel, i), id) ==> #[trigger] has_contribution(contribution_views(out@), i, id),
            pass == 0 ==> out@.len() == 0,
            pass == 1 ==> forall|k: int| 0 <= k < out@.len() ==> (#[trigger] out@[k])@.first_pass,
            forall|a: int, b: int| 0 <= a < b < out@.len() && (#[trigger] out@[a])@.member == (#[trigger] out@[b])@.member
                ==> out@[a]@.id != out@[b]@.id,
            pass == 2 ==> forall|i: int, id: Seq<char>| contribution(ws, sel, i, id) is Some
                ==> #[trigger] has_contribution(contribution_views(out@), i, id),
        decreases 2 - pass,
    {
        let first = pass == 0;
        let ghost pass_start = out@;
        let mut i: usize = 0;
        while i < selection.members.len()
            invariant
                ws == workspace@,
                sel == selection@,
                walks_fit(ws, sel, walks@),
                analysis_parses(ws, sel),
                first == (pass == 0),
                forall|a: int, b: int| 0 <= a < b < out@.len() ==> contribution_before((#[trigger] out@[a])@, (#[trigger] out@[b])@),
                pass < 2,
                i <= sel.members.len(),
                pass_start.len() <= out@.len(),
                forall|k: int| 0 <= k < pass_start.len() ==> out@[k] == pass_start[k],
                forall|k: int| 0 <= k < out@.len() ==> contribution_fits(ws, sel, (#[trigger] out@[k])@),
                forall|k: int| pass_start.len() <= k < out@.len() ==> (#[trigger] out@[k])@.first_pass == first
                    && out@[k]@.member < i,
                pass == 1 ==> forall|k: int| 0 <= k < pass_start.len() ==> (#[trigger] pass_start[k])@.first_pass,
                pass == 0 ==> pass_start.len() == 0,
                forall|a: int, b: int| 0 <= a < b < out@.len() && (#[trigger] out@[a])@.member == (#[trigger] out@[b])@.member
                    ==> out@[a]@.id != out@[b]@.id,
                pass >= 1 ==> forall|m: int, id: Seq<char>| 0 <= m < sel.members.len() && first_pass_status(ws, sel, m, id) is Some
                    && reachable(ws.graph, member_root(sel, m), id) ==> #[trigger] has_contribution(contribution_views(pass_start), m, id),
                forall|m: int, id: Seq<char>| 0 <= m < i && (if first { first_pass_status(ws, sel, m, id) is Some } else { lacks_rust_version(sel, m) })
                    && reachable(ws.graph, member_root(sel, m), id) ==> #[trigger] has_contribution(contribution_views(out@), m, id),
            decreases sel.members.len() - i,
        {
            let ghost before = out@;
            assert(walks_of_member_fit(ws, member_root(sel, i as int), walks@[i as int]@));
            proof {
                assert forall|k: int| 0 <= k < before.len() implies (#[trigger] before[k])@.member != i || before[k]@.first_pass != first by {
                    if k >= pass_start.len() {
                        assert(before[k]@.member < i);
                    } else {
                        assert(before[k] == pass_start[k]);
                        assert(pass_start[k]@.first_pass);
                    }
                }
            }
            member_contributions(workspace, selection, i, &walks[i], first, &mut out);
            proof {
                assert forall|a: int, b: int| 0 <= a < b < out@.len() implies contribution_before((#[trigger] out@[a])@, (#[trigger] out@[b])@) by {
                    if b < before.len() {
                        assert(out@[a] == before[a] && out@[b] == before[b]);
                    } else if a < before.len() {
                        assert(out@[a] == before[a]);
                        if a < pass_start.len() {
                            assert(before[a] == pass_start[a]);
                        }
                    }
                }
                assert forall|a: int, b: int| 0 <= a < b < out@.len() && (#[trigger] out@[a])@.member == (#[trigger] out@[b])@.member
                    implies out@[a]@.id != out@[b]@.id by {
                    if b >= before.len() && a < before.len() {
                        assert(out@[a] == before[a]);
                        if a >= pass_start.len() {
                            assert(before[a]@.member < i);
                        } else {
                            // the same member and id in both passes cannot both fit
                            assert(out@[a]@.first_pass);
                            assert(!out@[b]@.first_pass);
                        }
                    } else if b < before.len() {
                        assert(out@[a] == before[a] && out@[b] == before[b]);
                    }
                }
                assert forall|m: int, id: Seq<char>| 0 <= m < i + 1 && (if first { first_pass_status(ws, sel, m, id) is Some } else { lacks_rust_version(sel, m) })
                    && reachable(ws.graph, member_root(sel, m), id) implies #[trigger] has_contribution(contribution_views(out@), m, id) by {
                    if m < i {
                        assert(has_contribution(contribution_views(before), m, id));
                        let k = choose|k: int| 0 <= k < contribution_views(before).len() && (#[trigger] contribution_views(before)[k]).member == m
                            && contribution_views(before)[k].id == id;
                        assert(out@[k] == before[k]);
                        assert(contribution_views(out@)[k] == contribution_views(before)[k]);
                    }
                }
                assert forall|m: int, id: Seq<char>| 0 <= m < sel.members.len() && first_pass_status(ws, sel, m, id) is Some
                    && reachable(ws.graph, member_root(sel, m), id) && pass >= 1 implies #[trigger] has_contribution(contribution_views(pass_start), m, id) by {}
            }
            i = i + 1;
        }
        proof {
            if pass == 1 {
                assert forall|m: int, id: Seq<char>| contribution(ws, sel, m, id) is Some implies #[trigger] has_contribution(contribution_views(out@), m, id) by {
                    if first_pass_status(ws, sel, m, id) is Some {
                        assert(has_contribution(contribution_views(pass_start), m, id));
                        let k = choose|k: int| 0 <= k < contribution_views(pass_start).len() && (#[trigger] contribution_views(pass_start)[k]).member == m
                            && contribution_views(pass_start)[k].id == id;
                        assert(out@[k] == pass_start[k]);
                        assert(contribution_views(out@)[k] == contribution_views(pass_start)[k]);
                    }
                }
            }
        }
        pass = pass + 1;
    }
    out
}

/// The ids of issues.
pub open spec fn issue_ids(s: Seq<PackageIssue>) -> Seq<Seq<char>> {
    s.map_values(|x: PackageIssue| x.package.id@)
}

/// The verdict that a package's contributions add up to: incompatible if
/// any says so, else unknown.
pub open spec fn summed_status(cs: Seq<ContributionView>, id: Seq<char>) -> CompatibilityStatus {
    if exists|k: int| 0 <= k < cs.len() && (#[trigger] cs[k]).id == id && cs[k].status == CompatibilityStatus::Incompatible {
        CompatibilityStatus::Incompatible
    } else {
        CompatibilityStatus::Unknown
    }
}

/// The contributions on package `id`, in order.
pub open spec fn on_package(cs: Seq<ContributionView>, id: Seq<char>) -> Seq<ContributionView> {
    cs.filter(|c: ContributionView| c.id == id)
}

/// The first-pass contributions on package `id`, in order.
pub open spec fn first_pass_on(cs: Seq<ContributionView>, id: Seq<char>) -> Seq<ContributionView> {
    cs.filter(|c: ContributionView| c.id == id && c.first_pass)
}

/// The paths of the contributions on package `id`, in order.
pub open spec fn paths_on(cs: Seq<ContributionView>, id: Seq<char>) -> Seq<DependencyPathView> {
    on_package(cs, id).map_values(|c: ContributionView| c.path)
}

/// An issue's reason: that of the last first-pass contribution on its
/// package, else the reason of a member without a Rust version.
pub open spec fn issue_reason(cs: Seq<ContributionView>, id: Seq<char>) -> Seq<char> {
    let fp = first_pass_on(cs, id);
    if fp.len() > 0 { fp.last().reason } else { missing_member_reason() }
}

/// An issue's target: that of the last first-pass contribution on its
/// package, else none.
pub open spec fn issue_target(cs: Seq<ContributionView>, id: Seq<char>) -> Option<Seq<char>> {
    let fp = first_pass_on(cs, id);
    if fp.len() > 0 { fp.last().target } else { None }
}

/// An issue sums up the contributions on its package: the package itself,
/// the summed verdict, the reason and target of the last first-pass
/// contribution, exactly the contributing members in name order, and the
/// paths of the contributions in order.
pub open spec fn issue_fits(ws: WorkspaceDataView, sel: SelectionView, cs: Seq<ContributionView>, x: PackageIssueView) -> bool {
    let id = x.package.id;
    &&& package_of(ws.packages_by_id, id) == Some(x.package)
    &&& exists|k: int| 0 <= k < cs.len() && (#[trigger] cs[k]).id == id
    &&& x.status == summed_status(cs, id)
    &&& x.reason == issue_reason(cs, id)
    &&& x.target_rust_version == issue_target(cs, id)
    &&& x.affected_members.no_duplicates()
    &&& forall|t: int| 0 <= t < x.affected_members.len() - 1 ==> text_order(#[trigger] x.affected_members[t], x.affected_members[t + 1]) <= 0
    &&& forall|n: Seq<char>| x.affected_members.contains(n) <==> member_contributes(sel, cs, id, n)
    &&& x.paths == paths_on(cs, id)
}

/// Adding a contribution on another package leaves what is said of `id`
/// unchanged; one on `id` is appended.
proof fn lemma_on_package_push(cs: Seq<ContributionView>, c: ContributionView, id: Seq<char>)
    ensures
        c.id != id ==> on_package(cs.push(c), id) == on_package(cs, id) && first_pass_on(cs.push(c), id) == first_pass_on(cs, id)
            && paths_on(cs.push(c), id) == paths_on(cs, id),
        c.id == id ==> on_package(cs.push(c), id) == on_package(cs, id).push(c)
            && paths_on(cs.push(c), id) == paths_on(cs, id).push(c.path),
        c.id == id && c.first_pass ==> first_pass_on(cs.push(c), id) == first_pass_on(cs, id).push(c),
        c.id == id && !c.first_pass ==> first_pass_on(cs.push(c), id) == first_pass_on(cs, id),
{
    broadcast use Seq::lemma_filter_push;
    if c.id == id {
        assert(paths_on(cs.push(c), id) =~= paths_on(cs, id).push(c.path));
    }
}

/// A member named `n` contributes on package `id`.
pub open spec fn member_contributes(sel: SelectionView, cs: Seq<ContributionView>, id: Seq<char>, n: Seq<char>) -> bool {
    exists|k: int| 0 <= k < cs.len() && (#[trigger] cs[k]).id == id && sel.members[cs[k].member as int].package_name == n
}

/// Issues for exactly the packages the contributions are on, one each.
pub open spec fn issues_fit(ws: WorkspaceDataView, sel: SelectionView, cs: Seq<ContributionView>, issues: Seq<PackageIssue>) -> bool {
    &&& issue_ids(issues).no_duplicates()
    &&& forall|t: int| 0 <= t < issues.len() ==> issue_fits(ws, sel, cs, (#[trigger] issues[t])@)
    &&& forall|k: int| 0 <= k < cs.len() ==> #[trigger] issue_ids(issues).contains(cs[k].id)
}

/// Finds the issue of a package.
fn find_issue_index(issues: &Vec<PackageIssue>, id: &String) -> (r: Option<usize>)
    ensures
        r matches Some(t) ==> t < issues@.len() && issues@[t as int].package.id@ == id@,
        r is None ==> !issue_ids(issues@).contains(id@),
{
    let mut t: usize = 0;
    while t < issues.len()
        invariant
            t <= issues@.len(),
            forall|u: int| 0 <= u < t ==> issue_ids(issues@)[u] != id@,
        decreases issues@.len() - t,
    {
        assert(issue_ids(issues@)[t as int] == issues@[t as int].package.id@);
        if issues[t].package.id == *id {
            return Some(t);
        }
        t = t + 1;
    }
    None
}

/// Adds contribution `c` to the existing issue at `t`.
fn add_to_issue(
    issues: &mut Vec<PackageIssue>,
    t: usize,
    c: &Contribution,
    name: &String,
    Ghost(ws): Ghost<WorkspaceDataView>,
    Ghost(sel): Ghost<SelectionView>,
    Ghost(cs): Ghost<Seq<ContributionView>>,
)
    requires
        issues_fit(ws, sel, cs, old(issues)@),
        contribution_fits(ws, sel, c@),
        t < old(issues)@.len(),
        old(issues)@[t as int].package.id@ == c.id@,
        sel.members[c.member as int].package_name == name@,
    ensures
        issues_fit(ws, sel, cs.push(c@), final(issues)@),
{
    let ghost before = issues@;
    let ghost next = cs.push(c@);
    let ghost k = cs.len() as int;
    assert forall|u: int| 0 <= u < cs.len() implies next[u] == cs[u] by {}
    assert(next[k] == c@);
    let mut issue = issues[t].clone();
    if c.first_pass {
        issue.status = strongest_status(issue.status, c.status);
        issue.target_rust_version = c.target.clone();
        issue.reason = c.reason.clone();
    }
    crate::index::insert_sorted_text(&mut issue.affected_members, name);
    issue.paths.push(c.path.clone());
    issues.set(t, issue);
    proof {
        let id = c.id@;
        let x = issues@[t as int]@;
        let b = before[t as int]@;
        assert(issue_fits(ws, sel, cs, b));
        assert(b.package.id == id);
        assert(exists|u: int| 0 <= u < next.len() && (#[trigger] next[u]).id == id) by {
            assert(next[k].id == id);
        }
        lemma_on_package_push(cs, c@, id);
        assert(x.paths =~= b.paths.push(c@.path));
        if c.status == CompatibilityStatus::Incompatible {
            assert(next[k].id == id && next[k].status == CompatibilityStatus::Incompatible);
        } else {
            if summed_status(next, id) == CompatibilityStatus::Incompatible {
                let u = choose|u: int| 0 <= u < next.len() && (#[trigger] next[u]).id == id && next[u].status == CompatibilityStatus::Incompatible;
                assert(u < cs.len());
                assert(cs[u].id == id && cs[u].status == CompatibilityStatus::Incompatible);
            }
            if summed_status(cs, id) == CompatibilityStatus::Incompatible {
                let u = choose|u: int| 0 <= u < cs.len() && (#[trigger] cs[u]).id == id && cs[u].status == CompatibilityStatus::Incompatible;
                assert(next[u] == cs[u]);
            }
        }
        assert(x.status == summed_status(next, id));
        assert forall|n: Seq<char>| x.affected_members.contains(n) <==> member_contributes(sel, next, id, n) by {
            if member_contributes(sel, next, id, n) {
                let u = choose|u: int| 0 <= u < next.len() && (#[trigger] next[u]).id == id && sel.members[next[u].member as int].package_name == n;
                if u < cs.len() {
                    assert(cs[u] == next[u]);
                    assert(member_contributes(sel, cs, id, n));
                }
            }
            if b.affected_members.contains(n) {
                assert(member_contributes(sel, cs, id, n));
                let u = choose|u: int| 0 <= u < cs.len() && (#[trigger] cs[u]).id == id && sel.members[cs[u].member as int].package_name == n;
                assert(next[u] == cs[u]);
            }
            if n == name@ {
                assert(next[k].id == id);
            }
        }
        assert(issue_fits(ws, sel, next, x));
        assert(issue_ids(issues@) =~= issue_ids(before));
        assert forall|v: int| 0 <= v < issues@.len() implies issue_fits(ws, sel, next, (#[trigger] issues@[v])@) by {
            if v != t {
                assert(issues@[v] == before[v]);
                assert(issue_ids(before)[v] != issue_ids(before)[t as int]);
                lemma_issue_fits_grow(ws, sel, cs, c@, before[v]@);
            }
        }
        assert forall|u: int| 0 <= u < next.len() implies #[trigger] issue_ids(issues@).contains(next[u].id) by {
            if u < cs.len() {
                assert(next[u] == cs[u]);
            } else {
                assert(issue_ids(issues@)[t as int] == id);
            }
        }
    }
}

/// Opens a new issue for contribution `c`, whose package has none.
fn open_issue(
    issues: &mut Vec<PackageIssue>,
    c: &Contribution,
    name: &String,
    package: ResolvedPackage,
    Ghost(ws): Ghost<WorkspaceDataView>,
    Ghost(sel): Ghost<SelectionView>,
    Ghost(cs): Ghost<Seq<ContributionView>>,
)
    requires
        issues_fit(ws, sel, cs, old(issues)@),
        contribution_fits(ws, sel, c@),
        !issue_ids(old(issues)@).contains(c.id@),
        package_of(ws.packages_by_id, c.id@) == Some(package@),
        sel.members[c.member as int].package_name == name@,
    ensures
        issues_fit(ws, sel, cs.push(c@), final(issues)@),
{
    let ghost before = issues@;
    let ghost next = cs.push(c@);
    let ghost k = cs.len() as int;
    assert forall|u: int| 0 <= u < cs.len() implies next[u] == cs[u] by {}
    assert(next[k] == c@);
    proof {
        crate::graph::lemma_package_index(ws.packages_by_id, c.id@);
    }
    let mut members: Vec<String> = Vec::new();
    members.push(name.clone());
    let mut paths: Vec<DependencyPath> = Vec::new();
    paths.push(c.path.clone());
    issues.push(PackageIssue {
        package,
        status: c.status,
        target_rust_version: c.target.clone(),
        reason: c.reason.clone(),
        affected_members: members,
        paths,
    });
    proof {
        let id = c.id@;
        let t = before.len() as int;
        let x = issues@[t]@;
        assert(x.package.id == id);
        assert(x.affected_members =~= seq![name@]);
        assert(x.affected_members.no_duplicates());
        assert(x.paths =~= seq![c@.path]);
        assert(exists|u: int| 0 <= u < next.len() && (#[trigger] next[u]).id == id) by {
            assert(next[k].id == id);
        }
        assert forall|u: int| 0 <= u < cs.len() implies (#[trigger] cs[u]).id != id by {
            assert(issue_ids(before).contains(cs[u].id));
        }
        if c.status == CompatibilityStatus::Incompatible {
            assert(next[k].id == id && next[k].status == CompatibilityStatus::Incompatible);
        } else {
            if summed_status(next, id) == CompatibilityStatus::Incompatible {
                let u = choose|u: int| 0 <= u < next.len() && (#[trigger] next[u]).id == id && next[u].status == CompatibilityStatus::Incompatible;
                if u < cs.len() {
                    assert(cs[u].id == id);
                }
            }
        }
        assert forall|n: Seq<char>| x.affected_members.contains(n) <==> member_contributes(sel, next, id, n) by {
            if member_contributes(sel, next, id, n) {
                let u = choose|u: int| 0 <= u < next.len() && (#[trigger] next[u]).id == id && sel.members[next[u].member as int].package_name == n;
                if u < cs.len() {
                    assert(cs[u].id == id);
                }
                assert(x.affected_members[0] == n);
            }
            if n == name@ {
                assert(next[k].id == id);
            }
        }
        lemma_on_package_push(cs, c@, id);
        assert(on_package(cs, id) =~= Seq::<ContributionView>::empty()) by {
            broadcast use Seq::lemma_filter_contains_rev, Seq::lemma_filter_pred;
            if on_package(cs, id).len() > 0 {
                assert(on_package(cs, id).contains(on_package(cs, id)[0]));
            }
        }
        assert(first_pass_on(cs, id) =~= Seq::<ContributionView>::empty()) by {
            broadcast use Seq::lemma_filter_contains_rev, Seq::lemma_filter_pred;
            if first_pass_on(cs, id).len() > 0 {
                assert(first_pass_on(cs, id).contains(first_pass_on(cs, id)[0]));
            }
        }
        assert(x.paths =~= paths_on(next, id));
        assert(issue_fits(ws, sel, next, x));
        assert(issue_ids(issues@) =~= issue_ids(before).push(id));
        assert forall|v: int| 0 <= v < issues@.len() implies issue_fits(ws, sel, next, (#[trigger] issues@[v])@) by {
            if v < before.len() {
                assert(issues@[v] == before[v]);
                assert(issue_ids(before)[v] == before[v].package.id@);
                lemma_issue_fits_grow(ws, sel, cs, c@, before[v]@);
            }
        }
        assert forall|u: int| 0 <= u < next.len() implies #[trigger] issue_ids(issues@).contains(next[u].id) by {
            if u < cs.len() {
                assert(next[u] == cs[u]);
                assert(issue_ids(before).contains(cs[u].id));
                let w = choose|w: int| 0 <= w < issue_ids(before).len() && issue_ids(before)[w] == cs[u].id;
                assert(issue_ids(issues@)[w] == cs[u].id);
            } else {
                assert(issue_ids(issues@)[t] == id);
            }
        }
    }
}

/// Sums up contributions into one issue per package.
fn fold_issues(workspace: &WorkspaceData, selection: &Selection, contributions: &Vec<Contribution>) -> (r: Vec<PackageIssue>)
    requires
        forall|k: int| 0 <= k < contributions@.len() ==> contribution_fits(workspace@, selection@, (#[trigger] contributions@[k])@),
        forall|i: int| 0 <= i < selection@.members.len() ==> reach_known(workspace@, member_root(selection@, i)),
    ensures
        issues_fit(workspace@, selection@, contribution_views(contributions@), r@),
{
    let ghost ws = workspace@;
    let ghost sel = selection@;
    let ghost all = contribution_views(contributions@);
    let mut issues: Vec<PackageIssue> = Vec::new();
    let mut k: usize = 0;
    assert(all.take(0) =~= Seq::<ContributionView>::empty());
    while k < contributions.len()
        invariant
            ws == workspace@,
            sel == selection@,
            all == contribution_views(contributions@),
            k <= contributions@.len(),
            forall|u: int| 0 <= u < all.len() ==> contribution_fits(ws, sel, #[trigger] all[u]),
            forall|i: int| 0 <= i < sel.members.len() ==> reach_known(ws, member_root(sel, i)),
            issues_fit(ws, sel, all.take(k as int), issues@),
        decreases contributions@.len() - k,
    {
        let c = &contributions[k];
        let ghost cs = all.take(k as int);
        assert(all[k as int] == c@);
        assert(all.take(k + 1) =~= cs.push(c@));
        assert(contribution_fits(ws, sel, c@));
        let name = &selection.members[c.member].package_name;
        assert(sel.members[c.member as int].package_name == name@);
        match find_issue_index(&issues, &c.id) {
            Some(t) => {
                add_to_issue(&mut issues, t, c, name, Ghost(ws), Ghost(sel), Ghost(cs));
            },
            None => {
                proof {
                    assert(reach_known(ws, member_root(sel, c.member as int)));
                }
                let package = match find_package(&workspace.packages_by_id, &c.id) {
                    Some(p) => p.clone(),
                    None => {
                        assert(false);
                        return issues;
                    },
                };
                open_issue(&mut issues, c, name, package, Ghost(ws), Ghost(sel), Ghost(cs));
            },
        }
        k = k + 1;
    }
    assert(all.take(contributions@.len() as int) =~= all);
    issues
}

/// An issue on another package keeps fitting when a contribution is added.
proof fn lemma_issue_fits_grow(ws: WorkspaceDataView, sel: SelectionView, cs: Seq<ContributionView>, c: ContributionView, x: PackageIssueView)
    requires
        issue_fits(ws, sel, cs, x),
        c.id != x.package.id,
    ensures
        issue_fits(ws, sel, cs.push(c), x),
{
    let next = cs.push(c);
    let id = x.package.id;
    assert forall|u: int| 0 <= u < cs.len() implies next[u] == cs[u] by {}
    let u0 = choose|u: int| 0 <= u < cs.len() && (#[trigger] cs[u]).id == id;
    assert(next[u0].id == id);
    lemma_on_package_push(cs, c, id);
    if summed_status(next, id) == CompatibilityStatus::Incompatible {
        let u = choose|u: int| 0 <= u < next.len() && (#[trigger] next[u]).id == id && next[u].status == CompatibilityStatus::Incompatible;
        assert(u < cs.len());
        assert(cs[u].id == id);
    }
    if summed_status(cs, id) == CompatibilityStatus::Incompatible {
        let u = choose|u: int| 0 <= u < cs.len() && (#[trigger] cs[u]).id == id && cs[u].status == CompatibilityStatus::Incompatible;
        assert(next[u] == cs[u]);
    }
    assert forall|n: Seq<char>| x.affected_members.contains(n) <==> member_contributes(sel, next, id, n) by {
        if member_contributes(sel, next, id, n) {
            let u = choose|u: int| 0 <= u < next.len() && (#[trigger] next[u]).id == id && sel.members[next[u].member as int].package_name == n;
            assert(u < cs.len());
            assert(cs[u] == next[u]);
        }
        if member_contributes(sel, cs, id, n) {
            let u = choose|u: int| 0 <= u < cs.len() && (#[trigger] cs[u]).id == id && sel.members[cs[u].member as int].package_name == n;
            assert(next[u] == cs[u]);
        }
    }
}

/// Issues are ordered by package name, then version, then id.
pub open spec fn issue_order(a: PackageIssueView, b: PackageIssueView) -> int {
    let by_name = text_order(a.package.name, b.package.name);
    if by_name != 0 {
        by_name
    } else {
        let by_version = semver_order(a.package.version, b.package.version);
        if by_version != 0 { by_version } else { text_order(a.package.id, b.package.id) }
    }
}

impl SortKey for PackageIssue {
    open spec fn key_order(a: Self, b: Self) -> int {
        issue_order(a@, b@)
    }

    fn order(&self, other: &Self) -> (r: i8) {
        proof {
            lemma_text_order_antisymmetric(self.package.name@, other.package.name@);
            lemma_text_order_antisymmetric(self.package.id@, other.package.id@);
        }
        let by_name = compare_text(self.package.name.as_str(), other.package.name.as_str());
        if by_name != 0 {
            return by_name;
        }
        let by_version = compare_versions(&self.package.version, &other.package.version);
        if by_version != 0 {
            return by_version;
        }
        compare_text(self.package.id.as_str(), other.package.id.as_str())
    }
}

impl SortKey for PackageSummary {
    open spec fn key_order(a: Self, b: Self) -> int {
        text_order(a.package_name@, b.package_name@)
    }

    fn order(&self, other: &Self) -> (r: i8) {
        proof {
            lemma_text_order_antisymmetric(self.package_name@, other.package_name@);
        }
        compare_text(self.package_name.as_str(), other.package_name.as_str())
    }
}

/// The ids of issue views.
pub open spec fn issue_view_ids(s: Seq<PackageIssueView>) -> Seq<Seq<char>> {
    s.map_values(|x: PackageIssueView| x.package.id)
}

/// The issues with the given verdict, ordered by `issue_order`.
fn issues_with_status(issues: &Vec<PackageIssue>, status: CompatibilityStatus) -> (r: Vec<PackageIssue>)
    ensures
        forall|t: int| 0 <= t < r@.len() ==> (#[trigger] r.deep_view()[t]).status == status
            && issues.deep_view().contains(r.deep_view()[t]),
        forall|t: int| 0 <= t < issues@.len() && (#[trigger] issues.deep_view()[t]).status == status
            ==> r.deep_view().contains(issues.deep_view()[t]),
        forall|t: int| 0 <= t < r@.len() - 1 ==> issue_order(#[trigger] r.deep_view()[t], r.deep_view()[t + 1]) <= 0,
        issue_view_ids(issues.deep_view()).no_duplicates() ==> issue_view_ids(r.deep_view()).no_duplicates(),
{
    let ghost vs = issues.deep_view();
    let mut chosen: Vec<PackageIssue> = Vec::new();
    let ghost mut src: Seq<int> = Seq::empty();
    let mut t: usize = 0;
    while t < issues.len()
        invariant
            vs == issues.deep_view(),
            t <= issues@.len(),
            src.len() == chosen@.len(),
            forall|u: int| 0 <= u < src.len() ==> 0 <= #[trigger] src[u] < t && chosen.deep_view()[u] == vs[src[u]]
                && vs[src[u]].status == status,
            forall|u: int, w: int| 0 <= u < w < src.len() ==> #[trigger] src[u] < #[trigger] src[w],
            forall|w: int| 0 <= w < t && (#[trigger] vs[w]).status == status ==> picked(src, src.len() as int, w),
        decreases issues@.len() - t,
    {
        if issues[t].status == status {
            let ghost before = chosen.deep_view();
            let ghost old_src = src;
            chosen.push(issues[t].clone());
            proof {
                src = src.push(t as int);
                assert(chosen.deep_view()[old_src.len() as int] == vs[t as int]);
                assert forall|u: int| 0 <= u < src.len() implies 0 <= #[trigger] src[u] < t + 1 && chosen.deep_view()[u] == vs[src[u]]
                    && vs[src[u]].status == status by {
                    if u < old_src.len() {
                        assert(src[u] == old_src[u]);
                        assert(chosen.deep_view()[u] == before[u]);
                    }
                }
                assert forall|w: int| 0 <= w < t + 1 && (#[trigger] vs[w]).status == status implies picked(src, src.len() as int, w) by {
                    if w < t {
                        let u = choose|u: int| 0 <= u < old_src.len() && #[trigger] old_src[u] == w;
                        assert(src[u] == old_src[u]);
                    } else {
                        assert(src[old_src.len() as int] == w);
                    }
                }
            }
        }
        t = t + 1;
    }
    let ghost cv = chosen@;
    let r = sort_by_key(chosen);
    proof {
        let perm = choose|perm: Seq<int>| #[trigger] is_permutation_of(perm, r@, cv);
        lemma_permutation_onto(perm, r@, cv);
        assert forall|a: int| 0 <= a < r@.len() implies #[trigger] r.deep_view()[a] == vs[src[perm[a]]] by {
            assert(r@[a] == cv[perm[a]]);
        }
        assert forall|a: int| 0 <= a < r@.len() implies (#[trigger] r.deep_view()[a]).status == status
            && vs.contains(r.deep_view()[a]) by {
            assert(r.deep_view()[a] == vs[src[perm[a]]]);
        }
        assert forall|w: int| 0 <= w < issues@.len() && (#[trigger] vs[w]).status == status implies r.deep_view().contains(vs[w]) by {
            let u = choose|u: int| 0 <= u < src.len() && #[trigger] src[u] == w;
            assert(picked(perm, r@.len() as int, u));
            let a = choose|a: int| 0 <= a < r@.len() && #[trigger] perm[a] == u;
            assert(r.deep_view()[a] == vs[src[perm[a]]]);
        }
        assert forall|a: int| 0 <= a < r@.len() - 1 implies issue_order(#[trigger] r.deep_view()[a], r.deep_view()[a + 1]) <= 0 by {
            assert(PackageIssue::key_order(r@[a], r@[a + 1]) <= 0);
        }
        if issue_view_ids(vs).no_duplicates() {
            assert forall|a: int, b: int| 0 <= a < issue_view_ids(r.deep_view()).len() && 0 <= b < issue_view_ids(r.deep_view()).len() && a != b
                implies issue_view_ids(r.deep_view())[a] != issue_view_ids(r.deep_view())[b] by {
                assert(r.deep_view()[a] == vs[src[perm[a]]]);
                assert(r.deep_view()[b] == vs[src[perm[b]]]);
                assert(perm[a] != perm[b]);
                assert(src[perm[a]] != src[perm[b]]) by {
                    if perm[a] < perm[b] {
                        assert(src[perm[a]] < src[perm[b]]);
                    } else {
                        assert(src[perm[b]] < src[perm[a]]);
                    }
                }
                assert(issue_view_ids(vs)[src[perm[a]]] != issue_view_ids(vs)[src[perm[b]]]);
            }
        }
    }
    r
}

/// Every member reaches only packages in the package map.
pub open spec fn all_reach_known(ws: WorkspaceDataView, sel: SelectionView) -> bool {
    forall|i: int| 0 <= i < sel.members.len() ==> reach_known(ws, #[trigger] member_root(sel, i))
}

/// The members before `i` reach only packages in the package map.
pub open spec fn reach_known_before(ws: WorkspaceDataView, sel: SelectionView, i: int) -> bool {
    forall|j: int| 0 <= j < i ==> reach_known(ws, #[trigger] member_root(sel, j))
}

/// Member `i` is the first whose reach holds a package that the package
/// map lacks, and `x` is such a package.
pub open spec fn missing_at(ws: WorkspaceDataView, sel: SelectionView, i: int, x: Seq<char>) -> bool {
    &&& 0 <= i < sel.members.len()
    &&& reach_known_before(ws, sel, i)
    &&& reachable(ws.graph, member_root(sel, i), x)
    &&& package_of(ws.packages_by_id, x) is None
}

/// The error names a package that the first failing member reaches and the
/// package map lacks.
pub open spec fn missing_reached(ws: WorkspaceDataView, sel: SelectionView, e: Error) -> bool {
    e matches Error::PackageMissing(x) && exists|i: int| #[trigger] missing_at(ws, sel, i, x@)
}

/// The labeled walks of every member, member by member.
fn all_member_walks(workspace: &WorkspaceData, selection: &Selection) -> (r: Result<Vec<Vec<LabeledWalk>>, Error>)
    ensures
        r is Ok <==> all_reach_known(workspace@, selection@),
        r matches Ok(w) ==> walks_fit(workspace@, selection@, w@),
        r matches Err(e) ==> missing_reached(workspace@, selection@, e),
{
    let ghost ws = workspace@;
    let ghost sel = selection@;
    let collisions = package_collisions(workspace);
    let mut walks: Vec<Vec<LabeledWalk>> = Vec::new();
    let mut i: usize = 0;
    while i < selection.members.len()
        invariant
            ws == workspace@,
            collisions_fit(ws, collisions.deep_view()),
            sel == selection@,
            i <= sel.members.len(),
            walks@.len() == i,
            forall|k: int| 0 <= k < i ==> walks_of_member_fit(ws, member_root(sel, k), (#[trigger] walks@[k])@),
        decreases sel.members.len() - i,
    {
        assert(member_root(sel, i as int) == selection.members@[i as int].package_id@);
        match member_walks(workspace, &selection.members[i].package_id, &collisions) {
            Ok(v) => {
                let ghost before = walks@;
                walks.push(v);
                assert forall|k: int| 0 <= k < i + 1 implies walks_of_member_fit(ws, member_root(sel, k), (#[trigger] walks@[k])@) by {
                    if k < i {
                        assert(walks@[k] == before[k]);
                    }
                }
            },
            Err(e) => {
                proof {
                    if let Error::PackageMissing(x) = &e {
                        assert forall|j: int| 0 <= j < i implies reach_known(ws, #[trigger] member_root(sel, j)) by {
                            assert(walks_of_member_fit(ws, member_root(sel, j), walks@[j]@));
                        }
                        assert(missing_at(ws, sel, i as int, x@));
                        assert(!reach_known(ws, member_root(sel, i as int)));
                    }
                }
                return Err(e);
            },
        }
        i = i + 1;
    }
    assert forall|k: int| 0 <= k < sel.members.len() implies reach_known(ws, #[trigger] member_root(sel, k)) by {
        assert(walks_of_member_fit(ws, member_root(sel, k), walks@[k]@));
    }
    Ok(walks)
}

/// Whether the target and the declared versions that the analysis reads
/// parse.
fn check_analysis_parses(workspace: &WorkspaceData, selection: &Selection, walks: &Vec<Vec<LabeledWalk>>) -> (b: bool)
    requires
        walks_fit(workspace@, selection@, walks@),
    ensures
        b == analysis_parses(workspace@, selection@),
{
    let ghost ws = workspace@;
    let ghost sel = selection@;
    if selection.members.len() == 0 {
        return true;
    }
    if let Some(explicit) = &selection.target.target_rust_version {
        let mode = selection.target.mode;
        if (mode == TargetSelectionMode::Explicit || mode == TargetSelectionMode::SelectedPackage
            || mode == TargetSelectionMode::WorkspaceUniform) && parse_rust_version(explicit.as_str()).is_none()
        {
            return false;
        }
    }
    assert(target_parses(sel.target));
    let mut i: usize = 0;
    while i < selection.members.len()
        invariant
            ws == workspace@,
            sel == selection@,
            walks_fit(ws, sel, walks@),
            target_parses(sel.target),
            i <= sel.members.len(),
            forall|m: int, id: Seq<char>| 0 <= m < i && member_target_of(sel.target, sel.members[m]) is Some
                && #[trigger] reachable(ws.graph, member_root(sel, m), id)
                && (package_of(ws.packages_by_id, id) matches Some(p) && p.rust_version matches Some(v))
                ==> declared_rust_version(package_of(ws.packages_by_id, id).unwrap().rust_version.unwrap()) is Some,
        decreases sel.members.len() - i,
    {
        let member = &selection.members[i];
        assert(sel.members[i as int] == member@);
        let target = member_target(selection, member);
        if target.is_some() {
            let v = &walks[i];
            assert(walks_of_member_fit(ws, member_root(sel, i as int), v@));
            let mut j: usize = 0;
            while j < v.len()
                invariant
                    ws == workspace@,
                    sel == selection@,
                    i < sel.members.len(),
                    member_target_of(sel.target, sel.members[i as int]) is Some,
                    walks_of_member_fit(ws, member_root(sel, i as int), v@),
                    j <= v@.len(),
                    forall|t: int| 0 <= t < j ==> (package_of(ws.packages_by_id, (#[trigger] v@[t]).id@) matches Some(p)
                        ==> (p.rust_version matches Some(rv) ==> declared_rust_version(rv) is Some)),
                decreases v@.len() - j,
            {
                let id = &v[j].id;
                assert(labeled_ids(v@)[j as int] == id@);
                match find_package(&workspace.packages_by_id, id) {
                    Some(p) => {
                        if let Some(rv) = &p.rust_version {
                            if parse_rust_version(rv.as_str()).is_none() {
                                proof {
                                    assert(reachable(ws.graph, member_root(sel, i as int), id@));
                                    assert(member_target_of(sel.target, sel.members[i as int]) is Some);
                                    assert(package_of(ws.packages_by_id, id@) == Some(p@));
                                    assert(p@.rust_version == Some(rv@));
                                    assert(declared_rust_version(rv@) is None);
                                    assert(!reached_versions_parse(ws, sel));
                                }
                                return false;
                            }
                        }
                    },
                    None => {},
                }
                j = j + 1;
            }
            proof {
                assert forall|id: Seq<char>| #[trigger] reachable(ws.graph, member_root(sel, i as int), id)
                    && (package_of(ws.packages_by_id, id) matches Some(p) && p.rust_version matches Some(rv))
                    implies declared_rust_version(package_of(ws.packages_by_id, id).unwrap().rust_version.unwrap()) is Some by {
                    assert(labeled_ids(v@).contains(id));
                    let t = choose|t: int| 0 <= t < labeled_ids(v@).len() && labeled_ids(v@)[t] == id;
                    assert(v@[t].id@ == id);
                }
            }
        }
        i = i + 1;
    }
    true
}

/// The names of the selected members, in order.
pub open spec fn member_names(sel: SelectionView) -> Seq<Seq<char>> {
    sel.members.map_values(|m: SelectedMemberView| m.package_name)
}

/// The contributions are exactly those that the selection makes, each
/// once, pass by pass and member by member.
pub open spec fn contributions_exact(ws: WorkspaceDataView, sel: SelectionView, cs: Seq<ContributionView>) -> bool {
    &&& forall|k: int| 0 <= k < cs.len() ==> contribution_fits(ws, sel, #[trigger] cs[k])
    &&& forall|i: int, id: Seq<char>| contribution(ws, sel, i, id) is Some ==> #[trigger] has_contribution(cs, i, id)
    &&& forall|a: int, b: int| 0 <= a < b < cs.len() && (#[trigger] cs[a]).member == (#[trigger] cs[b]).member
        ==> cs[a].id != cs[b].id
    &&& forall|a: int, b: int| 0 <= a < b < cs.len() ==> contribution_before(#[trigger] cs[a], #[trigger] cs[b])
}

/// The first-pass contributions with verdict `st` from members named `name`
/// are counted.
pub open spec fn counted(sel: SelectionView, name: Seq<char>, st: CompatibilityStatus) -> spec_fn(ContributionView) -> bool {
    |c: ContributionView| c.first_pass && c.status == st && sel.members[c.member as int].package_name == name
}

/// How many first-pass contributions with verdict `st` come from members
/// named `name`.
pub open spec fn member_count(sel: SelectionView, cs: Seq<ContributionView>, name: Seq<char>, st: CompatibilityStatus) -> nat {
    cs.filter(counted(sel, name, st)).len()
}

/// The issues of a list have the verdict `st` and come in issue order.
pub open spec fn issue_list_fits(list: Seq<PackageIssueView>, st: CompatibilityStatus) -> bool {
    &&& forall|t: int| 0 <= t < list.len() ==> (#[trigger] list[t]).status == st
    &&& forall|t: int| 0 <= t < list.len() - 1 ==> issue_order(#[trigger] list[t], list[t + 1]) <= 0
}

/// The incompatible and unknown lists hold, between them, one issue for
/// each package that a contribution is on, and nothing else.
pub open spec fn report_issues_fit(
    ws: WorkspaceDataView,
    sel: SelectionView,
    cs: Seq<ContributionView>,
    incompatible: Seq<PackageIssueView>,
    unknown: Seq<PackageIssueView>,
) -> bool {
    let all = incompatible + unknown;
    &&& issue_list_fits(incompatible, CompatibilityStatus::Incompatible)
    &&& issue_list_fits(unknown, CompatibilityStatus::Unknown)
    &&& issue_view_ids(all).no_duplicates()
    &&& forall|t: int| 0 <= t < all.len() ==> issue_fits(ws, sel, cs, #[trigger] all[t])
    &&& forall|k: int| 0 <= k < cs.len() ==> #[trigger] issue_view_ids(all).contains(cs[k].id)
}

/// The names of summaries, in order.
pub open spec fn summary_names(s: Seq<PackageSummaryView>) -> Seq<Seq<char>> {
    s.map_values(|x: PackageSummaryView| x.package_name)
}

/// One summary per member, in name order, each with the counts of the
/// members of its name.
pub open spec fn summaries_fit(sel: SelectionView, cs: Seq<ContributionView>, s: Seq<PackageSummaryView>) -> bool {
    &&& exists|perm: Seq<int>| #[trigger] is_permutation_of(perm, summary_names(s), member_names(sel))
    &&& forall|t: int| 0 <= t < s.len() - 1 ==> text_order((#[trigger] s[t]).package_name, s[t + 1].package_name) <= 0
    &&& forall|t: int| 0 <= t < s.len() ==> (#[trigger] s[t]).incompatible == member_count(sel, cs, s[t].package_name, CompatibilityStatus::Incompatible)
        && s[t].unknown == member_count(sel, cs, s[t].package_name, CompatibilityStatus::Unknown)
}

/// The workspace part of a report.
pub open spec fn workspace_summary_of(ws: WorkspaceDataView, sel: SelectionView) -> WorkspaceSummaryView {
    WorkspaceSummaryView {
        workspace_root: ws.workspace_root,
        selected_members: member_names(sel),
        is_virtual_workspace: ws.is_virtual_workspace,
        resolver: ws.resolver,
        recommendations: ws.recommendations,
    }
}

/// A scan report repeats the selection's target, summarizes the workspace,
/// notes its recommendations, and sums up the contributions that the
/// selection makes.
pub open spec fn scan_fits(ws: WorkspaceDataView, sel: SelectionView, report: ScanReportView) -> bool {
    &&& report.target == sel.target
    &&& report.workspace == workspace_summary_of(ws, sel)
    &&& report.notes == ws.recommendations
    &&& exists|cs: Seq<ContributionView>| #[trigger] contributions_exact(ws, sel, cs)
        && report_issues_fit(ws, sel, cs, report.incompatible_packages, report.unknown_packages)
        && summaries_fit(sel, cs, report.package_summaries)
}

/// Counts the first-pass contributions with verdict `st` from members named
/// `name`.
fn count_member(selection: &Selection, contributions: &Vec<Contribution>, name: &String, st: CompatibilityStatus) -> (n: usize)
    requires
        forall|k: int| 0 <= k < contributions@.len() ==> (#[trigger] contributions@[k]).member < selection@.members.len(),
    ensures
        n == member_count(selection@, contribution_views(contributions@), name@, st),
{
    let ghost sel = selection@;
    let ghost cs = contribution_views(contributions@);
    let mut n: usize = 0;
    let mut k: usize = 0;
    assert(cs.take(0) =~= Seq::<ContributionView>::empty());
    while k < contributions.len()
        invariant
            sel == selection@,
            cs == contribution_views(contributions@),
            forall|u: int| 0 <= u < contributions@.len() ==> (#[trigger] contributions@[u]).member < sel.members.len(),
            k <= contributions@.len(),
            n <= k,
            n == member_count(sel, cs.take(k as int), name@, st),
        decreases contributions@.len() - k,
    {
        let c = &contributions[k];
        assert(cs.take(k + 1) =~= cs.take(k as int).push(cs[k as int]));
        assert(cs[k as int] == c@);
        proof {
            Seq::lemma_filter_push(cs.take(k as int), cs[k as int], counted(sel, name@, st));
        }
        if c.first_pass && c.status == st && selection.members[c.member].package_name == *name {
            n = n + 1;
        }
        k = k + 1;
    }
    assert(cs.take(contributions@.len() as int) =~= cs);
    n
}

/// The two issue lists drawn from the folded issues fit the report.
#[verifier::spinoff_prover]
#[verifier::rlimit(40)]
proof fn lemma_report_issues(
    ws: WorkspaceDataView,
    sel: SelectionView,
    cs: Seq<ContributionView>,
    issues: Seq<PackageIssueView>,
    incompatible: Seq<PackageIssueView>,
    unknown: Seq<PackageIssueView>,
)
    requires
        issue_view_ids(issues).no_duplicates(),
        forall|t: int| 0 <= t < issues.len() ==> issue_fits(ws, sel, cs, #[trigger] issues[t]),
        forall|k: int| 0 <= k < cs.len() ==> #[trigger] issue_view_ids(issues).contains(cs[k].id),
        forall|t: int| 0 <= t < incompatible.len() ==> (#[trigger] incompatible[t]).status == CompatibilityStatus::Incompatible
            && issues.contains(incompatible[t]),
        forall|t: int| 0 <= t < issues.len() && (#[trigger] issues[t]).status == CompatibilityStatus::Incompatible
            ==> incompatible.contains(issues[t]),
        forall|t: int| 0 <= t < incompatible.len() - 1 ==> issue_order(#[trigger] incompatible[t], incompatible[t + 1]) <= 0,
        issue_view_ids(incompatible).no_duplicates(),
        forall|t: int| 0 <= t < unknown.len() ==> (#[trigger] unknown[t]).status == CompatibilityStatus::Unknown
            && issues.contains(unknown[t]),
        forall|t: int| 0 <= t < issues.len() && (#[trigger] issues[t]).status == CompatibilityStatus::Unknown
            ==> unknown.contains(issues[t]),
        forall|t: int| 0 <= t < unknown.len() - 1 ==> issue_order(#[trigger] unknown[t], unknown[t + 1]) <= 0,
        issue_view_ids(unknown).no_duplicates(),
    ensures
        report_issues_fit(ws, sel, cs, incompatible, unknown),
{
    let all = incompatible + unknown;
    let n = incompatible.len() as int;
    assert forall|t: int| 0 <= t < all.len() implies issues.contains(#[trigger] all[t]) && (all[t].status == CompatibilityStatus::Incompatible) == (t < n) by {
        if t < n {
            assert(all[t] == incompatible[t]);
        } else {
            assert(all[t] == unknown[t - n]);
        }
    }
    assert forall|t: int| 0 <= t < all.len() implies issue_fits(ws, sel, cs, #[trigger] all[t]) by {
        assert(issues.contains(all[t]));
    }
    assert forall|a: int, b: int| 0 <= a < issue_view_ids(all).len() && 0 <= b < issue_view_ids(all).len() && a != b
        implies issue_view_ids(all)[a] != issue_view_ids(all)[b] by {
        if a < n && b < n {
            assert(all[a] == incompatible[a] && all[b] == incompatible[b]);
            assert(issue_view_ids(incompatible)[a] != issue_view_ids(incompatible)[b]);
        } else if a >= n && b >= n {
            assert(all[a] == unknown[a - n] && all[b] == unknown[b - n]);
            assert(issue_view_ids(unknown)[a - n] != issue_view_ids(unknown)[b - n]);
        } else {
            assert(issues.contains(all[a]) && issues.contains(all[b]));
            let p = choose|p: int| 0 <= p < issues.len() && issues[p] == all[a];
            let q = choose|q: int| 0 <= q < issues.len() && issues[q] == all[b];
            assert(issue_view_ids(issues)[p] == all[a].package.id);
            assert(issue_view_ids(issues)[q] == all[b].package.id);
            if all[a].package.id == all[b].package.id {
                assert(p == q);
            }
        }
    }
    assert forall|k: int| 0 <= k < cs.len() implies #[trigger] issue_view_ids(all).contains(cs[k].id) by {
        assert(issue_view_ids(issues).contains(cs[k].id));
        let p = choose|p: int| 0 <= p < issue_view_ids(issues).len() && issue_view_ids(issues)[p] == cs[k].id;
        assert(issue_fits(ws, sel, cs, issues[p]));
        if issues[p].status == CompatibilityStatus::Incompatible {
            assert(incompatible.contains(issues[p]));
            let t = choose|t: int| 0 <= t < incompatible.len() && incompatible[t] == issues[p];
            assert(all[t] == incompatible[t]);
            assert(issue_view_ids(all)[t] == cs[k].id);
        } else {
            assert(unknown.contains(issues[p]));
            let t = choose|t: int| 0 <= t < unknown.len() && unknown[t] == issues[p];
            assert(all[n + t] == unknown[t]);
            assert(issue_view_ids(all)[n + t] == cs[k].id);
        }
    }
}

/// One summary per member, sorted by name, with the counts of the members
/// of its name.
fn member_summaries(selection: &Selection, contributions: &Vec<Contribution>) -> (r: Vec<PackageSummary>)
    requires
        forall|k: int| 0 <= k < contributions@.len() ==> (#[trigger] contributions@[k]).member < selection@.members.len(),
    ensures
        summaries_fit(selection@, contribution_views(contributions@), r.deep_view()),
{
    let ghost sel = selection@;
    let ghost cs = contribution_views(contributions@);
    let mut summaries: Vec<PackageSummary> = Vec::new();
    let mut i: usize = 0;
    while i < selection.members.len()
        invariant
            sel == selection@,
            cs == contribution_views(contributions@),
            forall|k: int| 0 <= k < contributions@.len() ==> (#[trigger] contributions@[k]).member < sel.members.len(),
            i <= sel.members.len(),
            summaries@.len() == i,
            forall|t: int| 0 <= t < i ==> (#[trigger] summaries@[t])@.package_name == member_names(sel)[t]
                && summaries@[t]@.incompatible == member_count(sel, cs, summaries@[t]@.package_name, CompatibilityStatus::Incompatible)
                && summaries@[t]@.unknown == member_count(sel, cs, summaries@[t]@.package_name, CompatibilityStatus::Unknown),
        decreases sel.members.len() - i,
    {
        let name = &selection.members[i].package_name;
        let incompatible_count = count_member(selection, &contributions, name, CompatibilityStatus::Incompatible);
        let unknown_count = count_member(selection, &contributions, name, CompatibilityStatus::Unknown);
        let ghost before = summaries@;
        summaries.push(PackageSummary { package_name: name.clone(), incompatible: incompatible_count, unknown: unknown_count });
        assert forall|t: int| 0 <= t < i + 1 implies (#[trigger] summaries@[t])@.package_name == member_names(sel)[t]
            && summaries@[t]@.incompatible == member_count(sel, cs, summaries@[t]@.package_name, CompatibilityStatus::Incompatible)
            && summaries@[t]@.unknown == member_count(sel, cs, summaries@[t]@.package_name, CompatibilityStatus::Unknown) by {
            if t < i {
                assert(summaries@[t] == before[t]);
            }
        }
        i = i + 1;
    }
    let ghost unsorted = summaries@;
    let package_summaries = sort_by_key(summaries);
    proof {
        let ps = package_summaries.deep_view();
        let perm = choose|perm: Seq<int>| #[trigger] is_permutation_of(perm, package_summaries@, unsorted);
        assert forall|a: int| 0 <= a < ps.len() implies #[trigger] ps[a] == unsorted[perm[a]]@ by {
            assert(package_summaries@[a] == unsorted[perm[a]]);
        }
        assert(is_permutation_of(perm, summary_names(ps), member_names(sel))) by {
            assert forall|a: int| 0 <= a < ps.len() implies 0 <= #[trigger] perm[a] < member_names(sel).len()
                && summary_names(ps)[a] == member_names(sel)[perm[a]] by {
                assert(ps[a] == unsorted[perm[a]]@);
            }
        }
        assert forall|t: int| 0 <= t < ps.len() - 1 implies text_order((#[trigger] ps[t]).package_name, ps[t + 1].package_name) <= 0 by {
            assert(PackageSummary::key_order(package_summaries@[t], package_summaries@[t + 1]) <= 0);
        }
        assert forall|t: int| 0 <= t < ps.len() implies (#[trigger] ps[t]).incompatible == member_count(sel, cs, ps[t].package_name, CompatibilityStatus::Incompatible)
            && ps[t].unknown == member_count(sel, cs, ps[t].package_name, CompatibilityStatus::Unknown) by {
            assert(ps[t] == unsorted[perm[t]]@);
        }
        assert(summaries_fit(sel, cs, ps));
    }
    package_summaries
}

/// The names of the selected members, in order.
fn member_name_list(selection: &Selection) -> (r: Vec<String>)
    ensures
        r.deep_view() == member_names(selection@),
{
    let ghost sel = selection@;
    let mut selected: Vec<String> = Vec::new();
    let mut j: usize = 0;
    while j < selection.members.len()
        invariant
            sel == selection@,
            j <= sel.members.len(),
            selected.deep_view() == member_names(sel).take(j as int),
            selected@.len() == j,
        decreases sel.members.len() - j,
    {
        let name = selection.members[j].package_name.clone();
        assert(name@ == member_names(sel)[j as int]);
        let ghost before = selected@;
        selected.push(name);
        assert forall|k: int| 0 <= k < j + 1 implies #[trigger] selected.deep_view()[k] == member_names(sel).take(j + 1)[k] by {
            if k < j {
                assert(selected@[k] == before[k]);
            }
        }
        assert(selected.deep_view() =~= member_names(sel).take(j + 1));
        j = j + 1;
    }
    assert(member_names(sel).take(sel.members.len() as int) =~= member_names(sel));
    selected
}

/// What `collect_contributions` ensures is `contributions_exact`.
proof fn lemma_contributions_exact(ws: WorkspaceDataView, sel: SelectionView, r: Seq<Contribution>)
    requires
        forall|k: int| 0 <= k < r.len() ==> contribution_fits(ws, sel, (#[trigger] r[k])@),
        forall|i: int, id: Seq<char>| contribution(ws, sel, i, id) is Some
            ==> #[trigger] has_contribution(contribution_views(r), i, id),
        forall|a: int, b: int| 0 <= a < b < r.len() && (#[trigger] r[a])@.member == (#[trigger] r[b])@.member
            ==> r[a]@.id != r[b]@.id,
        forall|a: int, b: int| 0 <= a < b < r.len() ==> contribution_before((#[trigger] r[a])@, (#[trigger] r[b])@),
    ensures
        contributions_exact(ws, sel, contribution_views(r)),
{
    let cs = contribution_views(r);
    assert forall|k: int| 0 <= k < cs.len() implies contribution_fits(ws, sel, #[trigger] cs[k]) by {
        assert(cs[k] == r[k]@);
    }
    assert forall|a: int, b: int| 0 <= a < b < cs.len() && (#[trigger] cs[a]).member == (#[trigger] cs[b]).member
        implies cs[a].id != cs[b].id by {
        assert(cs[a] == r[a]@ && cs[b] == r[b]@);
    }
    assert forall|a: int, b: int| 0 <= a < b < cs.len() implies contribution_before(#[trigger] cs[a], #[trigger] cs[b]) by {
        assert(cs[a] == r[a]@ && cs[b] == r[b]@);
    }
}

/// The report on walks that fit: contributions, folded issues, lists and
/// summaries.
#[verifier::rlimit(50)]
#[verifier::spinoff_prover]
fn scan_with_walks(workspace: &WorkspaceData, selection: &Selection, walks: &Vec<Vec<LabeledWalk>>) -> (r: ScanReport)
    requires
        walks_fit(workspace@, selection@, walks@),
        analysis_parses(workspace@, selection@),
    ensures
        scan_fits(workspace@, selection@, r@),
{
    let ghost ws = workspace@;
    let ghost sel = selection@;
    let contributions = collect_contributions(workspace, selection, walks);
    let ghost cs = contribution_views(contributions@);
    assert forall|i: int| 0 <= i < sel.members.len() implies reach_known(ws, member_root(sel, i)) by {
        assert(walks_of_member_fit(ws, member_root(sel, i), walks@[i]@));
    }
    let issues = fold_issues(workspace, selection, &contributions);
    let incompatible = issues_with_status(&issues, CompatibilityStatus::Incompatible);
    let unknown = issues_with_status(&issues, CompatibilityStatus::Unknown);
    proof {
        assert(issue_view_ids(issues.deep_view()) =~= issue_ids(issues@));
        assert forall|t: int| 0 <= t < issues@.len() implies issue_fits(ws, sel, cs, #[trigger] issues.deep_view()[t]) by {
            assert(issue_fits(ws, sel, cs, issues@[t]@));
        }
        lemma_report_issues(ws, sel, cs, issues.deep_view(), incompatible.deep_view(), unknown.deep_view());
        assert forall|k: int| 0 <= k < contributions@.len() implies (#[trigger] contributions@[k]).member < sel.members.len() by {
            assert(contribution_fits(ws, sel, contributions@[k]@));
        }
    }
    let package_summaries = member_summaries(selection, &contributions);
    let selected = member_name_list(selection);
    let recommendations = workspace.recommendations.clone();
    let notes = workspace.recommendations.clone();
    assert(recommendations.deep_view() =~= ws.recommendations);
    assert(notes.deep_view() =~= ws.recommendations);
    let report = ScanReport {
        target: selection.target.clone(),
        workspace: WorkspaceSummary {
            workspace_root: workspace.workspace_root.clone(),
            selected_members: selected,
            is_virtual_workspace: workspace.is_virtual_workspace,
            resolver: workspace.resolver.clone(),
            recommendations,
        },
        package_summaries,
        incompatible_packages: incompatible,
        unknown_packages: unknown,
        notes,
    };
    proof {
        lemma_contributions_exact(ws, sel, contributions@);
    }
    report
}

/// Analyzes the selected members against their targets: for each member,
/// every package it reaches is classified, and the problem packages are
/// gathered into issues with the paths that reach them. Fails where a
/// member reaches a package that the package map lacks.
pub fn analyze_current_workspace(workspace: &WorkspaceData, selection: &Selection) -> (r: Result<ScanReport, Error>)
    requires
        all_reach_known(workspace@, selection@) ==> analysis_parses(workspace@, selection@),
    ensures
        r is Ok <==> all_reach_known(workspace@, selection@),
        r matches Err(e) ==> missing_reached(workspace@, selection@, e),
        r matches Ok(report) ==> scan_fits(workspace@, selection@, report@),
{
    let walks = match all_member_walks(workspace, selection) {
        Ok(w) => w,
        Err(e) => return Err(e),
    };
    Ok(scan_with_walks(workspace, selection, &walks))
}

/// `analyze_current_workspace` where the target and the declared versions
/// it reads parse; `None` where one of them does not.
pub fn checked_analyze_current_workspace(workspace: &WorkspaceData, selection: &Selection) -> (r: Option<Result<ScanReport, Error>>)
    ensures
        r is None <==> all_reach_known(workspace@, selection@) && !analysis_parses(workspace@, selection@),
        r matches Some(res) ==> (res is Ok <==> all_reach_known(workspace@, selection@)),
        r matches Some(Err(e)) ==> missing_reached(workspace@, selection@, e),
        r matches Some(Ok(report)) ==> scan_fits(workspace@, selection@, report@),
{
    let walks = match all_member_walks(workspace, selection) {
        Ok(w) => w,
        Err(e) => return Some(Err(e)),
    };
    if !check_analysis_parses(workspace, selection, &walks) {
        return None;
    }
    Some(Ok(scan_with_walks(workspace, selection, &walks)))
}

/// A package that declares no `rust-version` is never taken for compatible:
/// where a member with a target reaches it, the scan reports it among the
/// unknown packages and never among the incompatible ones.
pub proof fn law_missing_rust_version_is_unknown(
    ws: WorkspaceDataView,
    sel: SelectionView,
    report: ScanReportView,
    i: int,
    id: Seq<char>,
)
    requires
        scan_fits(ws, sel, report),
        0 <= i < sel.members.len(),
        member_target_of(sel.target, sel.members[i]) is Some,
        reachable(ws.graph, member_root(sel, i), id),
        package_of(ws.packages_by_id, id) matches Some(p) && p.rust_version is None,
    ensures
        issue_view_ids(report.unknown_packages).contains(id),
        !issue_view_ids(report.incompatible_packages).contains(id),
{
    let cs = choose|cs: Seq<ContributionView>| #[trigger] contributions_exact(ws, sel, cs)
        && report_issues_fit(ws, sel, cs, report.incompatible_packages, report.unknown_packages)
        && summaries_fit(sel, cs, report.package_summaries);
    let inc = report.incompatible_packages;
    let unk = report.unknown_packages;
    let all = inc + unk;
    assert(contribution(ws, sel, i, id) == Some(CompatibilityStatus::Unknown));
    assert(has_contribution(cs, i, id));
    let k = choose|k: int| 0 <= k < cs.len() && (#[trigger] cs[k]).member == i && cs[k].id == id;
    assert(issue_view_ids(all).contains(cs[k].id));
    let t = choose|t: int| 0 <= t < issue_view_ids(all).len() && issue_view_ids(all)[t] == id;
    assert(all[t].package.id == id);
    assert forall|j: int| 0 <= j < cs.len() && (#[trigger] cs[j]).id == id implies cs[j].status == CompatibilityStatus::Unknown by {
        assert(contribution_fits(ws, sel, cs[j]));
    }
    assert(summed_status(cs, id) == CompatibilityStatus::Unknown);
    assert(issue_fits(ws, sel, cs, all[t]));
    assert(all[t].status == CompatibilityStatus::Unknown);
    if t < inc.len() {
        assert(all[t] == inc[t]);
        assert(inc[t].status == CompatibilityStatus::Incompatible);
    }
    assert(all[t] == unk[t - inc.len()]);
    assert(issue_view_ids(unk)[t - inc.len()] == id);
    if issue_view_ids(inc).contains(id) {
        let u = choose|u: int| 0 <= u < issue_view_ids(inc).len() && issue_view_ids(inc)[u] == id;
        assert(all[u] == inc[u]);
        assert(issue_fits(ws, sel, cs, all[u]));
        assert(inc[u].status == CompatibilityStatus::Incompatible);
    }
}

} // verus!
