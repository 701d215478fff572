//! Explaining one package: where it sits in the selected graph, its
//! verdict, what a candidate resolution does to it, and why it blocks.
use crate::error::Error;
use crate::model::{
    BlockerKind, CandidateVersionChange, CandidateVersionChangeView, CompatibilityStatus, PackageIssue,
    PackageIssueView, PackageSourceKind, ResolvedPackage, ResolvedPackageView, ScanReport, ScanReportView,
    TargetSelectionMode, TargetSelectionView,
};
use crate::graph::{dependency_walks, reachable, walk_from_to, walk_ids};
use crate::index::insert_text;
use crate::text::has_prefix;
use vstd::prelude::*;

verus! {

/// The issues of a report, incompatible ones first.
pub open spec fn report_issues(report: ScanReportView) -> Seq<PackageIssueView> {
    report.incompatible_packages + report.unknown_packages
}

/// The first issue of the report on the package, if any.
pub open spec fn issue_index(issues: Seq<PackageIssueView>, id: Seq<char>) -> Option<int>
    decreases issues.len(),
{
    if issues.len() == 0 {
        None
    } else {
        match issue_index(issues.drop_last(), id) {
            Some(i) => Some(i),
            None => if issues.last().package.id == id { Some(issues.len() - 1) } else { None },
        }
    }
}

/// What `issue_index` finds.
pub proof fn lemma_issue_index(issues: Seq<PackageIssueView>, id: Seq<char>)
    ensures
        issue_index(issues, id) matches Some(i) ==> 0 <= i < issues.len() && issues[i].package.id == id
            && forall|j: int| 0 <= j < i ==> (#[trigger] issues[j]).package.id != id,
        issue_index(issues, id) is None ==> forall|j: int| 0 <= j < issues.len() ==> (#[trigger] issues[j]).package.id != id,
    decreases issues.len(),
{
    if issues.len() > 0 {
        lemma_issue_index(issues.drop_last(), id);
        assert forall|j: int| 0 <= j < issues.len() - 1 implies issues.drop_last()[j] == issues[j] by {}
    }
}

/// The issue that the report has on the package, if any.
pub open spec fn issue_of(report: ScanReportView, id: Seq<char>) -> Option<PackageIssueView> {
    match issue_index(report_issues(report), id) {
        Some(i) => Some(report_issues(report)[i]),
        None => None,
    }
}

/// Finds the report's first issue on the package, incompatible ones first.
pub fn find_issue<'a>(report: &'a ScanReport, package_id: &str) -> (r: Option<&'a PackageIssue>)
    ensures
        match issue_of(report@, package_id@) {
            Some(x) => r matches Some(i) && i@ == x,
            None => r is None,
        },
{
    let ghost all = report_issues(report@);
    let ghost n = report@.incompatible_packages.len();
    proof {
        lemma_issue_index(all, package_id@);
    }
    let mut i: usize = 0;
    while i < report.incompatible_packages.len()
        invariant
            all == report_issues(report@),
            n == report@.incompatible_packages.len(),
            i <= n,
            forall|j: int| 0 <= j < i ==> (#[trigger] all[j]).package.id != package_id@,
        decreases n - i,
    {
        assert(all[i as int] == report.incompatible_packages@[i as int]@);
        if crate::text::text_eq(report.incompatible_packages[i].package.id.as_str(), package_id) {
            proof {
                lemma_issue_index(all, package_id@);
                if let Some(k) = issue_index(all, package_id@) {
                    if k > i {
                        assert(all[i as int].package.id != package_id@);
                    }
                } else {
                    assert(all[i as int].package.id != package_id@);
                }
            }
            return Some(&report.incompatible_packages[i]);
        }
        i = i + 1;
    }
    let mut j: usize = 0;
    while j < report.unknown_packages.len()
        invariant
            all == report_issues(report@),
            n == report@.incompatible_packages.len(),
            j <= report@.unknown_packages.len(),
            forall|k: int| 0 <= k < n + j ==> (#[trigger] all[k]).package.id != package_id@,
        decreases report@.unknown_packages.len() - j,
    {
        assert(all[n + j] == report.unknown_packages@[j as int]@);
        if crate::text::text_eq(report.unknown_packages[j].package.id.as_str(), package_id) {
            proof {
                lemma_issue_index(all, package_id@);
                if let Some(k) = issue_index(all, package_id@) {
                    if k > n + j {
                        assert(all[n + j].package.id != package_id@);
                    }
                } else {
                    assert(all[n + j].package.id != package_id@);
                }
            }
            return Some(&report.unknown_packages[j]);
        }
        j = j + 1;
    }
    proof {
        lemma_issue_index(all, package_id@);
        if let Some(k) = issue_index(all, package_id@) {
            assert(all[k].package.id != package_id@);
        }
    }
    None
}

/// Why a package blocks: nothing without a current issue; else path and
/// git packages first, then an undeclared Rust version, then a problem the
/// candidate resolves, then a mixed workspace, then by the verdict.
pub open spec fn blocker_for(
    package: Option<ResolvedPackageView>,
    current: Option<PackageIssueView>,
    candidate: Option<PackageIssueView>,
    mode: TargetSelectionMode,
) -> Option<BlockerKind> {
    match package {
        None => None,
        Some(p) => Some(
            if current is None {
                BlockerKind::Compatible
            } else if (p.source matches Some(s) && has_prefix(s, "git+"@)) || p.source_kind == PackageSourceKind::Path {
                BlockerKind::PathOrGitConstraint
            } else if p.rust_version is None {
                BlockerKind::UnknownRustVersion
            } else if candidate is None {
                BlockerKind::LockfileDrift
            } else if mode == TargetSelectionMode::WorkspaceMixed {
                BlockerKind::MixedWorkspaceRustVersionUnification
            } else if current.unwrap().status == CompatibilityStatus::Unknown {
                BlockerKind::NonRegistryConstraint
            } else if current.unwrap().status == CompatibilityStatus::Incompatible {
                BlockerKind::DirectDependencyTooNew
            } else {
                BlockerKind::Compatible
            },
        ),
    }
}

/// Classifies why a package blocks the target.
pub fn classify_blocker(
    package: Option<&ResolvedPackage>,
    current_issue: Option<&PackageIssue>,
    candidate_issue: Option<&PackageIssue>,
    selection: &crate::model::Selection,
) -> (r: Option<BlockerKind>)
    ensures
        r == blocker_for(package.deep_view(), current_issue.deep_view(), candidate_issue.deep_view(), selection@.target.mode),
{
    let package = match package {
        Some(p) => p,
        None => return None,
    };
    let current = match current_issue {
        Some(c) => c,
        None => return Some(BlockerKind::Compatible),
    };
    proof {
        reveal_strlit("git+");
    }
    let git = match &package.source {
        Some(s) => {
            let chars = crate::text::chars_of(s.as_str());
            let prefix = crate::text::chars_of("git+");
            crate::text::starts_with(&chars, &prefix)
        },
        None => false,
    };
    if git || package.source_kind == PackageSourceKind::Path {
        return Some(BlockerKind::PathOrGitConstraint);
    }
    if package.rust_version.is_none() {
        return Some(BlockerKind::UnknownRustVersion);
    }
    if candidate_issue.is_none() {
        return Some(BlockerKind::LockfileDrift);
    }
    if selection.target.mode == TargetSelectionMode::WorkspaceMixed {
        return Some(BlockerKind::MixedWorkspaceRustVersionUnification);
    }
    match current.status {
        CompatibilityStatus::Unknown => Some(BlockerKind::NonRegistryConstraint),
        CompatibilityStatus::Incompatible => Some(BlockerKind::DirectDependencyTooNew),
        _ => Some(BlockerKind::Compatible),
    }
}

/// How a registry package with a declared Rust version blocks, once it
/// has a current issue: a candidate resolution that clears the issue means
/// lockfile drift; otherwise a mixed workspace blocks by unifying Rust
/// versions, and else the current verdict decides: an incompatible release
/// is a direct dependency too new, an unknown one a constraint outside the
/// registry, a compatible one nothing. Without a current issue nothing
/// blocks; path and git packages are held by their source.
pub proof fn law_registry_blockers_follow_the_verdict(
    p: ResolvedPackageView,
    current: PackageIssueView,
    candidate: PackageIssueView,
    mode: TargetSelectionMode,
)
    requires
        p.source matches Some(s) && has_prefix(s, "registry+"@),
        p.source_kind == PackageSourceKind::Registry,
        p.rust_version is Some,
    ensures
        mode != TargetSelectionMode::WorkspaceMixed && current.status == CompatibilityStatus::Incompatible
            ==> blocker_for(Some(p), Some(current), Some(candidate), mode) == Some(BlockerKind::DirectDependencyTooNew),
        mode != TargetSelectionMode::WorkspaceMixed && current.status == CompatibilityStatus::Unknown
            ==> blocker_for(Some(p), Some(current), Some(candidate), mode) == Some(BlockerKind::NonRegistryConstraint),
        mode != TargetSelectionMode::WorkspaceMixed && current.status == CompatibilityStatus::Compatible
            ==> blocker_for(Some(p), Some(current), Some(candidate), mode) == Some(BlockerKind::Compatible),
        mode == TargetSelectionMode::WorkspaceMixed
            ==> blocker_for(Some(p), Some(current), Some(candidate), mode) == Some(BlockerKind::MixedWorkspaceRustVersionUnification),
        blocker_for(Some(p), Some(current), None, mode) == Some(BlockerKind::LockfileDrift),
        blocker_for(Some(p), None, Some(candidate), mode) == Some(BlockerKind::Compatible),
        blocker_for(None, Some(current), Some(candidate), mode) is None,
{
    reveal_strlit("registry+");
    reveal_strlit("git+");
    let s = p.source->0;
    assert(s.take(9)[0] == "registry+"@[0]);
    assert(s[0] == 'r');
    assert(!has_prefix(s, "git+"@)) by {
        if has_prefix(s, "git+"@) {
            assert(s.take(4)[0] == "git+"@[0]);
        }
    }
}

/// Which packages block at all, and the first reasons: a package without a
/// current issue blocks nothing; with one, a package whose source is a git
/// repository or that is a path package is held by that source, and any
/// other that declares no Rust version blocks for that reason.
pub proof fn law_blockers_need_a_current_issue(
    p: ResolvedPackageView,
    current: Option<PackageIssueView>,
    candidate: Option<PackageIssueView>,
    mode: TargetSelectionMode,
)
    ensures
        current is None ==> blocker_for(Some(p), current, candidate, mode) == Some(BlockerKind::Compatible),
        current is Some && p.source_kind == PackageSourceKind::Path
            ==> blocker_for(Some(p), current, candidate, mode) == Some(BlockerKind::PathOrGitConstraint),
        current is Some && (p.source matches Some(s) && has_prefix(s, "git+"@))
            ==> blocker_for(Some(p), current, candidate, mode) == Some(BlockerKind::PathOrGitConstraint),
        current is Some && p.source_kind != PackageSourceKind::Path && !(p.source matches Some(s) && has_prefix(s, "git+"@))
            && p.rust_version is None ==> blocker_for(Some(p), current, candidate, mode) == Some(BlockerKind::UnknownRustVersion),
        current is Some && p.source_kind != PackageSourceKind::Path && !(p.source matches Some(s) && has_prefix(s, "git+"@))
            && p.rust_version is Some && candidate is None ==> blocker_for(Some(p), current, candidate, mode) == Some(BlockerKind::LockfileDrift),
{
}

/// The candidate version is the new version of the one change that names
/// the package (same name, same source); with no such change, or several,
/// there is none.
pub proof fn law_candidate_version_is_the_new_version(p: ResolvedPackageView, cs: Seq<CandidateVersionChangeView>, k: int)
    ensures
        0 <= k < cs.len() && cs[k].package_name == p.name && cs[k].source == p.source
            && (forall|j: int| 0 <= j < cs.len() && j != k ==> !((#[trigger] cs[j]).package_name == p.name && cs[j].source == p.source))
            ==> version_from_changes(p, cs) == cs[k].after,
        (forall|j: int| 0 <= j < cs.len() ==> !((#[trigger] cs[j]).package_name == p.name && cs[j].source == p.source))
            ==> version_from_changes(p, cs) is None,
        0 <= k < cs.len() && cs[k].package_name == p.name && cs[k].source == p.source
            && (exists|j: int| 0 <= j < cs.len() && j != k && (#[trigger] cs[j]).package_name == p.name && cs[j].source == p.source)
            ==> version_from_changes(p, cs) is None,
{
    if 0 <= k < cs.len() && cs[k].package_name == p.name && cs[k].source == p.source
        && (forall|j: int| 0 <= j < cs.len() && j != k ==> !((#[trigger] cs[j]).package_name == p.name && cs[j].source == p.source)) {
        assert(only_change_at(p, cs, k));
        let f = choose|f: int| #[trigger] only_change_at(p, cs, f);
        if f != k {
            assert(change_on(p, cs[k]));
        }
    }
    if 0 <= k < cs.len() && cs[k].package_name == p.name && cs[k].source == p.source
        && (exists|j: int| 0 <= j < cs.len() && j != k && (#[trigger] cs[j]).package_name == p.name && cs[j].source == p.source) {
        let j = choose|j: int| 0 <= j < cs.len() && j != k && (#[trigger] cs[j]).package_name == p.name && cs[j].source == p.source;
        assert forall|f: int| !#[trigger] only_change_at(p, cs, f) by {
            if only_change_at(p, cs, f) {
                if f != k {
                    assert(change_on(p, cs[k]));
                } else {
                    assert(change_on(p, cs[j]));
                }
            }
        }
    }
    if forall|j: int| 0 <= j < cs.len() ==> !((#[trigger] cs[j]).package_name == p.name && cs[j].source == p.source) {
        assert forall|f: int| !#[trigger] only_change_at(p, cs, f) by {
            if only_change_at(p, cs, f) {
                assert(change_on(p, cs[f]));
            }
        }
    }
}

/// A change is on the package: same name and source.
pub open spec fn change_on(p: ResolvedPackageView, c: CandidateVersionChangeView) -> bool {
    c.package_name == p.name && c.source == p.source
}

/// The candidate version of a package from the version changes: the new
/// version of the one change on it, if exactly one is.
pub fn candidate_version_from_changes(package: &ResolvedPackage, changes: &Vec<CandidateVersionChange>) -> (r: Option<String>)
    ensures
        r.deep_view() == version_from_changes(package@, changes.deep_view()),
{
    let ghost cv = changes.deep_view();
    let mut found: Option<usize> = None;
    let mut i: usize = 0;
    while i < changes.len()
        invariant
            cv == changes.deep_view(),
            i <= cv.len(),
            found is None ==> forall|j: int| 0 <= j < i ==> !change_on(package@, #[trigger] cv[j]),
            found matches Some(f) ==> f < i && change_on(package@, cv[f as int])
                && forall|j: int| 0 <= j < i && j != f ==> !change_on(package@, #[trigger] cv[j]),
        decreases cv.len() - i,
    {
        assert(cv[i as int] == changes@[i as int]@);
        let c = &changes[i];
        let same_name = c.package_name == package.name;
        let same_source = match (&c.source, &package.source) {
            (Some(a), Some(b)) => *a == *b,
            (None, None) => true,
            _ => false,
        };
        if same_name && same_source {
            match found {
                Some(f) => {
                    proof {
                        assert forall|k: int| !#[trigger] only_change_at(package@, cv, k) by {
                            if only_change_at(package@, cv, k) {
                                if k != f {
                                    assert(change_on(package@, cv[f as int]));
                                } else {
                                    assert(change_on(package@, cv[i as int]));
                                }
                            }
                        }
                    }
                    return None;
                },
                None => {
                    found = Some(i);
                },
            }
        }
        i = i + 1;
    }
    match found {
        Some(f) => {
            proof {
                assert(only_change_at(package@, cv, f as int));
                let k = choose|k: int| #[trigger] only_change_at(package@, cv, k);
                if k != f {
                    assert(change_on(package@, cv[k]));
                }
            }
            changes[f].after.clone()
        },
        None => {
            proof {
                assert forall|k: int| !#[trigger] only_change_at(package@, cv, k) by {}
            }
            None
        },
    }
}

/// The new version of the only change on the package, if exactly one is.
pub open spec fn version_from_changes(p: ResolvedPackageView, cs: Seq<CandidateVersionChangeView>) -> Option<Seq<char>> {
    if exists|k: int| #[trigger] only_change_at(p, cs, k) {
        cs[choose|k: int| #[trigger] only_change_at(p, cs, k)].after
    } else {
        None
    }
}

/// Change `k` is the only one on the package.
pub open spec fn only_change_at(p: ResolvedPackageView, cs: Seq<CandidateVersionChangeView>, k: int) -> bool {
    &&& 0 <= k < cs.len()
    &&& change_on(p, cs[k])
    &&& forall|j: int| 0 <= j < cs.len() && j != k ==> !change_on(p, #[trigger] cs[j])
}

/// Some selected member reaches the package.
pub open spec fn in_selected_graph(ws: crate::model::WorkspaceDataView, sel: crate::model::SelectionView, id: Seq<char>) -> bool {
    exists|i: int| 0 <= i < sel.members.len() && #[trigger] reachable(ws.graph, crate::compat::member_root(sel, i), id)
}

/// The ids of the packages that the selected members reach, sorted.
pub fn selected_graph_package_ids(workspace: &crate::model::WorkspaceData, selection: &crate::model::Selection) -> (r: Vec<String>)
    ensures
        crate::resolution::sorted_keys(r.deep_view()),
        forall|id: Seq<char>| #[trigger] r.deep_view().contains(id) <==> in_selected_graph(workspace@, selection@, id),
{
    let ghost ws = workspace@;
    let ghost sel = selection@;
    let mut ids: Vec<String> = Vec::new();
    let mut i: usize = 0;
    while i < selection.members.len()
        invariant
            ws == workspace@,
            sel == selection@,
            i <= sel.members.len(),
            ids.deep_view().no_duplicates(),
            forall|id: Seq<char>| #[trigger] ids.deep_view().contains(id) <==> exists|m: int| 0 <= m < i
                && #[trigger] reachable(ws.graph, crate::compat::member_root(sel, m), id),
        decreases sel.members.len() - i,
    {
        let root = &selection.members[i].package_id;
        assert(crate::compat::member_root(sel, i as int) == root@);
        let walks = dependency_walks(&workspace.graph, root);
        let ghost before = ids.deep_view();
        let mut j: usize = 0;
        while j < walks.len()
            invariant
                ws == workspace@,
                ws.graph == workspace.graph.deep_view(),
                ids.deep_view().no_duplicates(),
                j <= walks@.len(),
                forall|k: int| 0 <= k < walks@.len() ==> walk_from_to(ws.graph, (#[trigger] walks@[k]).walk.deep_view(), root@, walks@[k].id@),
                forall|id: Seq<char>| #[trigger] ids.deep_view().contains(id) <==> (before.contains(id)
                    || exists|k: int| 0 <= k < j && (#[trigger] walks@[k]).id@ == id),
            decreases walks@.len() - j,
        {
            insert_text(&mut ids, &walks[j].id);
            proof {
                assert forall|id: Seq<char>| #[trigger] ids.deep_view().contains(id) <==> (before.contains(id)
                    || exists|k: int| 0 <= k < j + 1 && (#[trigger] walks@[k]).id@ == id) by {
                    if id == walks@[j as int].id@ {
                        assert(walks@[j as int].id@ == id);
                    }
                }
            }
            j = j + 1;
        }
        proof {
            assert forall|id: Seq<char>| #[trigger] ids.deep_view().contains(id) <==> exists|m: int| 0 <= m < i + 1
                && #[trigger] reachable(ws.graph, crate::compat::member_root(sel, m), id) by {
                if exists|k: int| 0 <= k < walks@.len() && (#[trigger] walks@[k]).id@ == id {
                    let k = choose|k: int| 0 <= k < walks@.len() && (#[trigger] walks@[k]).id@ == id;
                    assert(walk_from_to(ws.graph, walks@[k].walk.deep_view(), root@, id));
                    assert(reachable(ws.graph, crate::compat::member_root(sel, i as int), id));
                }
                if reachable(ws.graph, crate::compat::member_root(sel, i as int), id) {
                    assert(walk_ids(walks@).contains(id));
                    let k = choose|k: int| 0 <= k < walk_ids(walks@).len() && walk_ids(walks@)[k] == id;
                    assert(walks@[k].id@ == id);
                }
            }
        }
        i = i + 1;
    }
    crate::sort::sort_texts(ids)
}

/// A query names a resolved package: by id, by name, or as
/// `name@version`.
pub open spec fn query_names_resolved(p: ResolvedPackageView, query: Seq<char>) -> bool {
    p.id == query || p.name == query || crate::identity::name_at_version(p) == query
}

/// The query names the package and the selected graph holds it.
pub open spec fn query_hit(selected: Seq<Seq<char>>, query: Seq<char>) -> spec_fn(ResolvedPackageView) -> bool {
    |p: ResolvedPackageView| selected.contains(p.id) && query_names_resolved(p, query)
}

/// The ids of the packages that the query names in the selected graph, in
/// package order.
pub open spec fn query_hits(packages: Seq<ResolvedPackageView>, selected: Seq<Seq<char>>, query: Seq<char>) -> Seq<Seq<char>> {
    packages.filter(query_hit(selected, query)).map_values(|p: ResolvedPackageView| p.id)
}

/// Resolves an explain query among the packages of the selected graph: the
/// one package it names; an error where it names none or several.
pub fn resolve_package_query(workspace: &crate::model::WorkspaceData, selected: &Vec<String>, query: &str) -> (r: Result<String, Error>)
    ensures
        ({
            let hits = query_hits(workspace@.packages_by_id, selected.deep_view(), query@);
            &&& hits.len() == 1 ==> (r matches Ok(id) && id@ == hits[0])
            &&& hits.len() == 0 ==> (r matches Err(Error::UnmatchedQuery(q)) && q@ == query@)
            &&& hits.len() > 1 ==> (r matches Err(Error::AmbiguousQuery(q, ids)) && q@ == query@ && ids.deep_view() == hits)
        }),
{
    let ghost pv = workspace@.packages_by_id;
    let ghost sv = selected.deep_view();
    let ghost pred = query_hit(sv, query@);
    let mut hits: Vec<String> = Vec::new();
    let mut i: usize = 0;
    assert(pv.take(0) =~= Seq::<ResolvedPackageView>::empty());
    while i < workspace.packages_by_id.len()
        invariant
            pv == workspace@.packages_by_id,
            sv == selected.deep_view(),
            pred == query_hit(sv, query@),
            i <= pv.len(),
            hits.deep_view() == query_hits(pv.take(i as int), sv, query@),
        decreases pv.len() - i,
    {
        let p = &workspace.packages_by_id[i];
        assert(pv[i as int] == p@);
        assert(pv.take(i + 1) =~= pv.take(i as int).push(p@));
        proof {
            Seq::lemma_filter_push(pv.take(i as int), p@, pred);
        }
        let version = p.version.text();
        let label = crate::text::concat3(p.name.as_str(), "@", version.as_str());
        proof {
            reveal_strlit("@");
        }
        let in_graph = crate::index::contains_text(selected, &p.id);
        let named = crate::text::text_eq(p.id.as_str(), query) || crate::text::text_eq(p.name.as_str(), query)
            || crate::text::text_eq(label.as_str(), query);
        if in_graph && named {
            let ghost before = hits.deep_view();
            hits.push(p.id.clone());
            proof {
                assert(pv.take(i as int).filter(pred).push(p@).map_values(|q: ResolvedPackageView| q.id)
                    =~= pv.take(i as int).filter(pred).map_values(|q: ResolvedPackageView| q.id).push(p@.id));
                assert(hits.deep_view() =~= before.push(p.id@));
            }
        }
        i = i + 1;
    }
    assert(pv.take(pv.len() as int) =~= pv);
    if hits.len() == 0 {
        return Err(Error::UnmatchedQuery(String::from_str(query)));
    }
    if hits.len() == 1 {
        return Ok(hits[0].clone());
    }
    Err(Error::AmbiguousQuery(String::from_str(query), hits))
}

/// What an explanation starts from: the package the query names and the
/// analysis of the current graph.
#[derive(Debug)]
pub struct ExplainStart {
    pub package_id: String,
    pub package: ResolvedPackage,
    pub current: ScanReport,
}

impl ExplainStart {
    /// A candidate resolution is needed: the current analysis has an issue
    /// on the package.
    pub open spec fn wants_resolution(&self) -> bool {
        issue_of(self.current@, self.package_id@) is Some
    }

    /// Whether a candidate resolution is needed.
    pub fn needs_resolution(&self) -> (r: bool)
        ensures
            r == self.wants_resolution(),
    {
        find_issue(&self.current, self.package_id.as_str()).is_some()
    }
}

/// The start of an explanation: the query names exactly one package of the
/// selected graph, the package map holds it, and the current analysis fits.
pub open spec fn start_fits(ws: crate::model::WorkspaceDataView, sel: crate::model::SelectionView, query: Seq<char>, st: ExplainStart) -> bool {
    exists|selected: Seq<Seq<char>>| #[trigger] crate::resolution::sorted_keys(selected)
        && (forall|id: Seq<char>| #[trigger] selected.contains(id) <==> in_selected_graph(ws, sel, id))
        && query_hits(ws.packages_by_id, selected, query) == seq![st.package_id@]
        && crate::graph::package_of(ws.packages_by_id, st.package_id@) == Some(st.package@)
        && crate::compat::scan_fits(ws, sel, st.current@)
}

/// The query names the package and the selected graph reaches it.
pub open spec fn graph_hit(ws: crate::model::WorkspaceDataView, sel: crate::model::SelectionView, query: Seq<char>) -> spec_fn(ResolvedPackageView) -> bool {
    |p: ResolvedPackageView| in_selected_graph(ws, sel, p.id) && query_names_resolved(p, query)
}

/// The ids of the packages of the selected graph that the query names, in
/// package order.
pub open spec fn graph_hits(ws: crate::model::WorkspaceDataView, sel: crate::model::SelectionView, query: Seq<char>) -> Seq<Seq<char>> {
    ws.packages_by_id.filter(graph_hit(ws, sel, query)).map_values(|p: ResolvedPackageView| p.id)
}

/// The first step of an explanation: resolves the query in the selected
/// graph and analyzes the current graph. A query that names no package of
/// the selected graph, or several, is refused with that error. Where it
/// names one: `None` where a declared Rust version that the analysis reads
/// does not parse, the analysis error where a member reaches a package that
/// the package map lacks, else the start.
pub fn explain_current(workspace: &crate::model::WorkspaceData, selection: &crate::model::Selection, query: &str) -> (r: Option<Result<ExplainStart, Error>>)
    ensures
        ({
            let hits = graph_hits(workspace@, selection@, query@);
            let known = crate::compat::all_reach_known(workspace@, selection@);
            let parses = crate::compat::analysis_parses(workspace@, selection@);
            &&& hits.len() == 0 ==> (r matches Some(Err(Error::UnmatchedQuery(q))) && q@ == query@)
            &&& hits.len() > 1 ==> (r matches Some(Err(Error::AmbiguousQuery(q, ids))) && q@ == query@ && ids.deep_view() == hits)
            &&& hits.len() == 1 ==> {
                &&& (r is None <==> known && !parses)
                &&& (r matches Some(Err(e)) <==> !known)
                &&& (r matches Some(Err(e)) ==> crate::compat::missing_reached(workspace@, selection@, e))
                &&& (r matches Some(Ok(st)) ==> st.package_id@ == hits[0] && start_fits(workspace@, selection@, query@, st))
            }
        }),
{
    let selected = selected_graph_package_ids(workspace, selection);
    proof {
        assert(query_hit(selected.deep_view(), query@) =~= graph_hit(workspace@, selection@, query@));
        assert(query_hits(workspace@.packages_by_id, selected.deep_view(), query@) == graph_hits(workspace@, selection@, query@));
    }
    let package_id = match resolve_package_query(workspace, &selected, query) {
        Ok(id) => id,
        Err(e) => return Some(Err(e)),
    };
    let ghost hits = query_hits(workspace@.packages_by_id, selected.deep_view(), query@);
    assert(hits.len() == 1) by {
        if hits.len() == 0 {
        }
    }
    let current = match crate::compat::checked_analyze_current_workspace(workspace, selection) {
        None => return None,
        Some(Err(e)) => return Some(Err(e)),
        Some(Ok(c)) => c,
    };
    proof {
        let pred = query_hit(selected.deep_view(), query@);
        let f = workspace@.packages_by_id.filter(pred);
        assert(f.len() == 1);
        assert(f[0].id == package_id@);
        broadcast use Seq::lemma_filter_contains_rev;
        assert(f.contains(f[0]));
        assert(workspace@.packages_by_id.contains(f[0]));
        let k = choose|k: int| 0 <= k < workspace@.packages_by_id.len() && workspace@.packages_by_id[k] == f[0];
        crate::graph::lemma_package_index(workspace@.packages_by_id, package_id@);
        assert(workspace@.packages_by_id[k].id == package_id@);
    }
    let package = match crate::graph::find_package(&workspace.packages_by_id, &package_id) {
        Some(p) => p.clone(),
        None => {
            assert(false);
            return None;
        },
    };
    assert(hits =~= seq![package_id@]);
    Some(Ok(ExplainStart { package_id, package, current }))
}

/// What an explanation says, given where it started and, when the package
/// has a current issue, the candidate resolution.
pub open spec fn explain_fits(
    ws: crate::model::WorkspaceDataView,
    sel: crate::model::SelectionView,
    query: Seq<char>,
    st: ExplainStart,
    resolution: Option<crate::model::ResolveReportView>,
    r: crate::model::ExplainReportView,
) -> bool {
    let cur = issue_of(st.current@, st.package_id@);
    let cand = match resolution {
        Some(res) => issue_of(res.candidate, st.package_id@),
        None => None,
    };
    &&& r.query == query
    &&& r.target == sel.target
    &&& r.package == Some(st.package@)
    &&& r.current_status == match cur { Some(x) => Some(x.status), None => None }
    &&& r.current_reason == match cur { Some(x) => Some(x.reason), None => None }
    &&& r.current_paths == match cur { Some(x) => x.paths, None => Seq::empty() }
    &&& r.current_rust_version == match cur { Some(x) => x.package.rust_version, None => None }
    &&& r.candidate_version == match resolution {
        Some(res) => match cand {
            Some(x) => Some(crate::version::version_display(x.package.version)),
            None => version_from_changes(st.package@, res.version_changes),
        },
        None => None,
    }
    &&& r.candidate_status == match cand { Some(x) => Some(x.status), None => None }
    &&& r.notes == match resolution { Some(res) => res.notes, None => ws.recommendations }
    &&& r.blocker == blocker_for(Some(st.package@), cur, cand, sel.target.mode)
    &&& r.workspace_root == ws.workspace_root
}

/// Completes an explanation: the current verdict, reason, paths and Rust
/// version of the package, what the candidate resolution makes of it, and
/// why it blocks.
pub fn finish_explain_report(
    workspace: &crate::model::WorkspaceData,
    selection: &crate::model::Selection,
    query: &str,
    start: ExplainStart,
    resolution: Option<crate::model::ResolveReport>,
) -> (r: crate::model::ExplainReport)
    requires
        start.wants_resolution() == resolution is Some,
    ensures
        explain_fits(workspace@, selection@, query@, start, resolution.deep_view(), r@),
{
    let current_issue = find_issue(&start.current, start.package_id.as_str());
    let current_status = match current_issue {
        Some(x) => Some(x.status),
        None => None,
    };
    let current_reason = match current_issue {
        Some(x) => Some(x.reason.clone()),
        None => None,
    };
    let current_paths = match current_issue {
        Some(x) => {
            let p = x.paths.clone();
            assert(p.deep_view() =~= x.paths.deep_view());
            p
        },
        None => {
            let p: Vec<crate::model::DependencyPath> = Vec::new();
            assert(p.deep_view() =~= Seq::<crate::model::DependencyPathView>::empty());
            p
        },
    };
    let current_rust_version = match current_issue {
        Some(x) => x.package.rust_version.clone(),
        None => None,
    };
    let mut candidate_version: Option<String> = None;
    let mut candidate_status: Option<CompatibilityStatus> = None;
    let blocker;
    let notes;
    match &resolution {
        Some(res) => {
            let candidate_issue = find_issue(&res.candidate, start.package_id.as_str());
            candidate_version = match candidate_issue {
                Some(x) => Some(x.package.version.text()),
                None => candidate_version_from_changes(&start.package, &res.version_changes),
            };
            candidate_status = match candidate_issue {
                Some(x) => Some(x.status),
                None => None,
            };
            let n = res.notes.clone();
            assert(n.deep_view() =~= res.notes.deep_view());
            notes = n;
            blocker = classify_blocker(Some(&start.package), current_issue, candidate_issue, selection);
        },
        None => {
            let n = workspace.recommendations.clone();
            assert(n.deep_view() =~= workspace.recommendations.deep_view());
            notes = n;
            blocker = classify_blocker(Some(&start.package), current_issue, None, selection);
        },
    }
    let package = start.package.clone();
    crate::model::ExplainReport {
        query: String::from_str(query),
        target: selection.target.clone(),
        package: Some(package),
        current_status,
        current_reason,
        current_paths,
        current_rust_version,
        candidate_version,
        candidate_status,
        blocker,
        notes,
        workspace_root: workspace.workspace_root.clone(),
    }
}

} // verus!
