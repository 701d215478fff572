//! Conservative suggestions for direct dependency requirements of the
//! selected members.
use crate::error::Error;
use crate::index::{insert_sorted_text, insert_text};
use crate::metadata::{lemma_metadata_index, metadata_index};
use crate::model::{
    DependencyConstraint, DependencyConstraintView, DependencyKind, ManifestSuggestion, ManifestSuggestionView,
    Metadata, MetadataDependency, MetadataDependencyView, MetadataPackageView, RegistryCandidate,
    RegistryCandidateView,
};
use crate::explain::report_issues;
use crate::model::{ResolveReport, ResolveReportView, SelectionView, MetadataView};
use crate::text::{has_prefix, text_order};
use crate::sort::{is_permutation_of, lemma_permutation_onto, picked, SortKey};
use crate::version::{display_rust_version, rust_version_display, semver_req_matches, semver_req_parses, version_display, VersionParts};
use vstd::prelude::*;

verus! {

/// The source that crates.io dependencies carry.
pub open spec fn crates_io_source() -> Seq<char> {
    "registry+https://github.com/rust-lang/crates.io-index"@
}

/// The section of a dependency kind in a manifest.
pub open spec fn section_label(kind: DependencyKind) -> Seq<char> {
    match kind {
        DependencyKind::Development => "dev-dependencies"@,
        DependencyKind::Build => "build-dependencies"@,
        _ => "dependencies"@,
    }
}

/// The manifest section of a dependency kind.
pub fn dependency_section_label(kind: DependencyKind) -> (r: String)
    ensures
        r@ == section_label(kind),
{
    proof {
        reveal_strlit("dev-dependencies");
        reveal_strlit("build-dependencies");
        reveal_strlit("dependencies");
    }
    match kind {
        DependencyKind::Development => String::from_str("dev-dependencies"),
        DependencyKind::Build => String::from_str("build-dependencies"),
        _ => String::from_str("dependencies"),
    }
}

/// Where a dependency comes from: none for a path dependency; else its
/// source, its named registry, or crates.io.
pub open spec fn source_of(d: MetadataDependencyView) -> Option<Seq<char>> {
    if d.path is Some {
        None
    } else {
        match d.source {
            Some(s) => Some(s),
            None => match d.registry {
                Some(r) => Some("registry+"@ + r),
                None => Some(crates_io_source()),
            },
        }
    }
}

/// The source of a dependency declaration.
pub fn dependency_source(dependency: &MetadataDependency) -> (r: Option<String>)
    ensures
        r.deep_view() == source_of(dependency@),
{
    proof {
        reveal_strlit("registry+");
        reveal_strlit("registry+https://github.com/rust-lang/crates.io-index");
    }
    if dependency.path.is_some() {
        return None;
    }
    match &dependency.source {
        Some(s) => Some(s.clone()),
        None => match &dependency.registry {
            Some(r) => Some(crate::text::concat2("registry+", r.as_str())),
            None => Some(String::from_str("registry+https://github.com/rust-lang/crates.io-index")),
        },
    }
}

/// A package identity for matching: the name and the source.
pub fn package_identity(name: &str, source: Option<&str>) -> (r: (String, Option<String>))
    ensures
        r.0@ == name@,
        r.1.deep_view() == source.deep_view(),
{
    (String::from_str(name), match source {
        Some(s) => Some(String::from_str(s)),
        None => None,
    })
}

/// The constraint that a normal dependency declares.
pub open spec fn constraint_fits(
    d: MetadataDependencyView,
    manifest_path: Seq<char>,
    target: Option<VersionParts>,
    c: DependencyConstraintView,
) -> bool {
    &&& c.package_name == d.name
    &&& c.dependency_key == match d.rename { Some(r) => r, None => d.name }
    &&& c.manifest_path == manifest_path
    &&& c.requirement == d.req
    &&& c.source == source_of(d)
    &&& c.features.no_duplicates()
    &&& (forall|t: int| 0 <= t < c.features.len() - 1 ==> text_order(#[trigger] c.features[t], c.features[t + 1]) <= 0)
    &&& (forall|f: Seq<char>| #[trigger] c.features.contains(f) <==> d.features.contains(f))
    &&& c.uses_default_features == d.uses_default_features
    &&& c.optional == d.optional
    &&& c.section == section_label(d.kind)
    &&& c.target_rust_version == target
}

/// The normal dependencies of a package.
pub open spec fn normal_dependencies(p: MetadataPackageView) -> Seq<MetadataDependencyView> {
    p.dependencies.filter(|d: MetadataDependencyView| d.kind == DependencyKind::Normal)
}

/// The constraint of a dependency declaration.
fn constraint_of(
    dependency: &MetadataDependency,
    manifest_path: &String,
    target: &Option<crate::version::Version>,
) -> (c: DependencyConstraint)
    ensures
        constraint_fits(dependency@, manifest_path@, target.deep_view(), c@),
{
    let mut features: Vec<String> = Vec::new();
    let mut i: usize = 0;
    while i < dependency.features.len()
        invariant
            i <= dependency.features@.len(),
            features.deep_view().no_duplicates(),
            forall|t: int| 0 <= t < features.deep_view().len() - 1 ==> text_order(#[trigger] features.deep_view()[t], features.deep_view()[t + 1]) <= 0,
            forall|f: Seq<char>| #[trigger] features.deep_view().contains(f) <==> dependency.features.deep_view().take(i as int).contains(f),
        decreases dependency.features@.len() - i,
    {
        let ghost before = features.deep_view();
        insert_sorted_text(&mut features, &dependency.features[i]);
        proof {
            let fv = dependency.features.deep_view();
            let post = fv.take(i + 1);
            let pre = fv.take(i as int);
            assert(post =~= pre.push(fv[i as int]));
            assert(fv[i as int] == dependency.features@[i as int]@);
            assert forall|f: Seq<char>| #[trigger] features.deep_view().contains(f) <==> post.contains(f) by {
                if post.contains(f) && f != fv[i as int] {
                    let u = choose|u: int| 0 <= u < post.len() && post[u] == f;
                    assert(pre[u] == f);
                }
                if pre.contains(f) {
                    let u = choose|u: int| 0 <= u < pre.len() && pre[u] == f;
                    assert(post[u] == f);
                }
                if f == fv[i as int] {
                    assert(post[i as int] == f);
                }
            }
        }
        i = i + 1;
    }
    assert(dependency.features.deep_view().take(dependency.features@.len() as int) =~= dependency.features.deep_view());
    let dependency_key = match &dependency.rename {
        Some(r) => r.clone(),
        None => dependency.name.clone(),
    };
    DependencyConstraint {
        package_name: dependency.name.clone(),
        dependency_key,
        manifest_path: manifest_path.clone(),
        requirement: dependency.req.clone(),
        source: dependency_source(dependency),
        features,
        uses_default_features: dependency.uses_default_features,
        optional: dependency.optional,
        section: dependency_section_label(dependency.kind),
        target_rust_version: target.clone(),
    }
}

/// The constraints of a member's normal dependencies, in declaration order;
/// fails where the metadata lacks the member.
pub fn direct_dependency_constraints(metadata: &Metadata, package_id: &String, manifest_path: &String) -> (r: Result<Vec<DependencyConstraint>, Error>)
    ensures
        r is Err <==> metadata_index(metadata@.packages, package_id@) is None,
        r matches Err(e) ==> (e matches Error::MemberMissing(t) && t@ == package_id@),
        r matches Ok(cs) ==> ({
            let p = metadata@.packages[metadata_index(metadata@.packages, package_id@).unwrap()];
            let ds = normal_dependencies(p);
            &&& cs@.len() == ds.len()
            &&& forall|k: int| 0 <= k < ds.len() ==> constraint_fits(ds[k], manifest_path@, p.rust_version, (#[trigger] cs@[k])@)
        }),
{
    let ghost md = metadata@;
    let mut found: Option<usize> = None;
    let mut i: usize = 0;
    proof {
        lemma_metadata_index(md.packages, package_id@);
    }
    while i < metadata.packages.len()
        invariant
            md == metadata@,
            i <= md.packages.len(),
            found is None ==> forall|j: int| 0 <= j < i ==> (#[trigger] md.packages[j]).id != package_id@,
            found matches Some(f) ==> f < md.packages.len() && metadata_index(md.packages, package_id@) == Some(f as int),
            metadata_index(md.packages, package_id@) matches Some(k) ==> 0 <= k < md.packages.len() && md.packages[k].id == package_id@
                && forall|j: int| 0 <= j < k ==> (#[trigger] md.packages[j]).id != package_id@,
            metadata_index(md.packages, package_id@) is None ==> forall|j: int| 0 <= j < md.packages.len() ==> (#[trigger] md.packages[j]).id != package_id@,
        decreases md.packages.len() - i,
    {
        assert(md.packages[i as int] == metadata.packages@[i as int]@);
        if found.is_none() && metadata.packages[i].id == *package_id {
            proof {
                if let Some(k) = metadata_index(md.packages, package_id@) {
                    if k > i {
                        assert(md.packages[i as int].id != package_id@);
                    }
                }
            }
            found = Some(i);
        }
        i = i + 1;
    }
    let f = match found {
        Some(f) => f,
        None => {
            return Err(Error::MemberMissing(package_id.clone()));
        },
    };
    let package = &metadata.packages[f];
    assert(md.packages[f as int] == package@);
    let ghost deps = package@.dependencies;
    let ghost pred = |d: MetadataDependencyView| d.kind == DependencyKind::Normal;
    let mut out: Vec<DependencyConstraint> = Vec::new();
    let mut k: usize = 0;
    assert(deps.take(0) =~= Seq::<MetadataDependencyView>::empty());
    while k < package.dependencies.len()
        invariant
            deps == package@.dependencies,
            pred == (|d: MetadataDependencyView| d.kind == DependencyKind::Normal),
            k <= deps.len(),
            out@.len() == deps.take(k as int).filter(pred).len(),
            forall|u: int| 0 <= u < out@.len() ==> constraint_fits(deps.take(k as int).filter(pred)[u], manifest_path@,
                package@.rust_version, (#[trigger] out@[u])@),
        decreases deps.len() - k,
    {
        let d = &package.dependencies[k];
        assert(deps[k as int] == d@);
        assert(deps.take(k + 1) =~= deps.take(k as int).push(d@));
        proof {
            Seq::lemma_filter_push(deps.take(k as int), d@, pred);
        }
        if d.kind == DependencyKind::Normal {
            let c = constraint_of(d, manifest_path, &package.rust_version);
            let ghost before = out@;
            out.push(c);
            assert forall|u: int| 0 <= u < out@.len() implies constraint_fits(deps.take(k + 1).filter(pred)[u], manifest_path@,
                package@.rust_version, (#[trigger] out@[u])@) by {
                if u < before.len() {
                    assert(out@[u] == before[u]);
                }
            }
        }
        k = k + 1;
    }
    assert(deps.take(deps.len() as int) =~= deps);
    Ok(out)
}

/// Some issue of the candidate analysis is on a package with this name
/// and source.
pub open spec fn problem_identity(res: ResolveReportView, name: Seq<char>, source: Option<Seq<char>>) -> bool {
    exists|k: int| 0 <= k < report_issues(res.candidate).len()
        && (#[trigger] report_issues(res.candidate)[k]).package.name == name
        && report_issues(res.candidate)[k].package.source == source
}

/// No incompatible issue of the candidate analysis is on a package with
/// this name and source.
pub open spec fn no_incompatible_issue(res: ResolveReportView, name: Seq<char>, source: Option<Seq<char>>) -> bool {
    forall|k: int| 0 <= k < res.candidate.incompatible_packages.len()
        ==> !((#[trigger] res.candidate.incompatible_packages[k]).package.name == name
            && res.candidate.incompatible_packages[k].package.source == source)
}

/// A dependency is worth a registry lookup: a candidate problem has its
/// identity, and it comes from a registry (path and git dependencies never
/// get a registry suggestion).
pub open spec fn wanted_dependency(res: ResolveReportView, d: MetadataDependencyView) -> bool {
    &&& problem_identity(res, d.name, source_of(d))
    &&& (source_of(d) matches Some(s) && has_prefix(s, "registry+"@))
}

/// A registry lookup that a suggestion may come from: the member, the
/// position of the dependency among the member's normal dependencies, and
/// its constraint.
#[derive(Debug)]
pub struct SuggestionRequest {
    pub member: usize,
    pub dependency: usize,
    pub constraint: DependencyConstraint,
}

/// The package of member `i`.
pub open spec fn member_package(md: MetadataView, sel: SelectionView, i: int) -> MetadataPackageView {
    md.packages[metadata_index(md.packages, sel.members[i].package_id).unwrap()]
}

/// Member `i` has a target and the metadata holds its package.
pub open spec fn member_with_target(md: MetadataView, sel: SelectionView, i: int) -> bool {
    &&& 0 <= i < sel.members.len()
    &&& sel.members[i].rust_version is Some
    &&& metadata_index(md.packages, sel.members[i].package_id) is Some
}

/// A request is for a wanted normal dependency of a member with a target.
pub open spec fn request_fits(md: MetadataView, sel: SelectionView, res: ResolveReportView, r: SuggestionRequest) -> bool {
    let i = r.member as int;
    let p = member_package(md, sel, i);
    &&& member_with_target(md, sel, i)
    &&& r.dependency < normal_dependencies(p).len()
    &&& wanted_dependency(res, normal_dependencies(p)[r.dependency as int])
    &&& constraint_fits(normal_dependencies(p)[r.dependency as int], sel.members[i].manifest_path, p.rust_version, r.constraint@)
}

/// Requests come member by member, dependency by dependency.
pub open spec fn request_before(a: SuggestionRequest, b: SuggestionRequest) -> bool {
    a.member < b.member || (a.member == b.member && a.dependency < b.dependency)
}

/// A request is made for the dependency.
pub open spec fn requested(rs: Seq<SuggestionRequest>, i: int, k: int) -> bool {
    exists|u: int| 0 <= u < rs.len() && (#[trigger] rs[u]).member == i && rs[u].dependency == k
}

/// The requests: one for each wanted normal dependency of each member with
/// a target, in order.
pub open spec fn requests_fit(md: MetadataView, sel: SelectionView, res: ResolveReportView, rs: Seq<SuggestionRequest>) -> bool {
    &&& forall|u: int| 0 <= u < rs.len() ==> request_fits(md, sel, res, #[trigger] rs[u])
    &&& forall|u: int, w: int| 0 <= u < w < rs.len() ==> request_before(#[trigger] rs[u], #[trigger] rs[w])
    &&& forall|i: int, k: int| member_with_target(md, sel, i) && 0 <= k < normal_dependencies(member_package(md, sel, i)).len()
        && wanted_dependency(res, normal_dependencies(member_package(md, sel, i))[k])
        ==> #[trigger] requested(rs, i, k)
}

/// The first member with a target whose package the metadata lacks.
pub open spec fn first_member_missing(md: MetadataView, sel: SelectionView, i: int) -> bool {
    &&& 0 <= i < sel.members.len()
    &&& sel.members[i].rust_version is Some
    &&& metadata_index(md.packages, sel.members[i].package_id) is None
    &&& forall|j: int| 0 <= j < i && (#[trigger] sel.members[j]).rust_version is Some
        ==> metadata_index(md.packages, sel.members[j].package_id) is Some
}

/// The candidate analysis has problems.
pub open spec fn has_problems(res: ResolveReportView) -> bool {
    report_issues(res.candidate).len() > 0
}

/// Whether a candidate problem has this name and source.
fn is_problem_identity(resolution: &ResolveReport, name: &String, source: &Option<String>) -> (r: bool)
    ensures
        r == problem_identity(resolution@, name@, source.deep_view()),
{
    let ghost all = report_issues(resolution@.candidate);
    let ghost n = resolution@.candidate.incompatible_packages.len();
    let mut i: usize = 0;
    while i < resolution.candidate.incompatible_packages.len()
        invariant
            all == report_issues(resolution@.candidate),
            n == resolution@.candidate.incompatible_packages.len(),
            i <= n,
            forall|k: int| 0 <= k < i ==> !((#[trigger] all[k]).package.name == name@ && all[k].package.source == source.deep_view()),
        decreases n - i,
    {
        let p = &resolution.candidate.incompatible_packages[i].package;
        assert(all[i as int] == resolution.candidate.incompatible_packages@[i as int]@);
        if p.name == *name && same_source(&p.source, source) {
            return true;
        }
        i = i + 1;
    }
    let mut j: usize = 0;
    while j < resolution.candidate.unknown_packages.len()
        invariant
            all == report_issues(resolution@.candidate),
            n == resolution@.candidate.incompatible_packages.len(),
            j <= resolution@.candidate.unknown_packages.len(),
            forall|k: int| 0 <= k < n + j ==> !((#[trigger] all[k]).package.name == name@ && all[k].package.source == source.deep_view()),
        decreases resolution@.candidate.unknown_packages.len() - j,
    {
        let p = &resolution.candidate.unknown_packages[j].package;
        assert(all[n + j] == resolution.candidate.unknown_packages@[j as int]@);
        if p.name == *name && same_source(&p.source, source) {
            return true;
        }
        j = j + 1;
    }
    false
}

/// Whether no incompatible candidate problem has this name and source.
fn no_incompatible_with(resolution: &ResolveReport, name: &String, source: &Option<String>) -> (r: bool)
    ensures
        r == no_incompatible_issue(resolution@, name@, source.deep_view()),
{
    let ghost inc = resolution@.candidate.incompatible_packages;
    let mut i: usize = 0;
    while i < resolution.candidate.incompatible_packages.len()
        invariant
            inc == resolution@.candidate.incompatible_packages,
            i <= inc.len(),
            forall|k: int| 0 <= k < i ==> !((#[trigger] inc[k]).package.name == name@ && inc[k].package.source == source.deep_view()),
        decreases inc.len() - i,
    {
        let p = &resolution.candidate.incompatible_packages[i].package;
        assert(inc[i as int] == resolution.candidate.incompatible_packages@[i as int]@);
        if p.name == *name && same_source(&p.source, source) {
            return false;
        }
        i = i + 1;
    }
    true
}

/// Equal optional sources.
fn same_source(a: &Option<String>, b: &Option<String>) -> (r: bool)
    ensures
        r == (a.deep_view() == b.deep_view()),
{
    match (a, b) {
        (Some(x), Some(y)) => *x == *y,
        (None, None) => true,
        _ => false,
    }
}

/// Whether a dependency constraint is worth a registry lookup.
fn wanted_constraint(resolution: &ResolveReport, c: &DependencyConstraint) -> (r: bool)
    ensures
        r == (problem_identity(resolution@, c@.package_name, c@.source)
            && (c@.source matches Some(s) && has_prefix(s, "registry+"@))),
{
    if !is_problem_identity(resolution, &c.package_name, &c.source) {
        return false;
    }
    proof {
        reveal_strlit("registry+");
    }
    match &c.source {
        Some(s) => {
            let chars = crate::text::chars_of(s.as_str());
            let prefix = crate::text::chars_of("registry+");
            crate::text::starts_with(&chars, &prefix)
        },
        None => false,
    }
}

/// A constraint is worth a registry lookup.
pub open spec fn wanted_request(res: ResolveReportView, c: DependencyConstraintView) -> bool {
    problem_identity(res, c.package_name, c.source) && (c.source matches Some(s) && has_prefix(s, "registry+"@))
}

/// Appends the requests of member `i`: one per wanted constraint, in order.
fn add_member_requests(resolution: &ResolveReport, i: usize, constraints: &Vec<DependencyConstraint>, out: &mut Vec<SuggestionRequest>)
    ensures
        final(out)@.len() >= old(out)@.len(),
        forall|w: int| 0 <= w < old(out)@.len() ==> final(out)@[w] == old(out)@[w],
        forall|w: int| old(out)@.len() <= w < final(out)@.len() ==> (#[trigger] final(out)@[w]).member == i
            && final(out)@[w].dependency < constraints@.len()
            && final(out)@[w].constraint@ == constraints@[final(out)@[w].dependency as int]@
            && wanted_request(resolution@, final(out)@[w].constraint@),
        forall|a: int, b: int| old(out)@.len() <= a < b < final(out)@.len() ==> (#[trigger] final(out)@[a]).dependency < (#[trigger] final(out)@[b]).dependency,
        forall|k: int| 0 <= k < constraints@.len() && wanted_request(resolution@, (#[trigger] constraints@[k])@)
            ==> exists|w: int| old(out)@.len() <= w < final(out)@.len() && (#[trigger] final(out)@[w]).dependency == k,
{
    let ghost start = out@;
    let mut u: usize = 0;
    while u < constraints.len()
        invariant
            u <= constraints@.len(),
            out@.len() >= start.len(),
            forall|w: int| 0 <= w < start.len() ==> out@[w] == start[w],
            forall|w: int| start.len() <= w < out@.len() ==> (#[trigger] out@[w]).member == i
                && out@[w].dependency < u
                && out@[w].constraint@ == constraints@[out@[w].dependency as int]@
                && wanted_request(resolution@, out@[w].constraint@),
            forall|a: int, b: int| start.len() <= a < b < out@.len() ==> (#[trigger] out@[a]).dependency < (#[trigger] out@[b]).dependency,
            forall|k: int| 0 <= k < u && wanted_request(resolution@, (#[trigger] constraints@[k])@)
                ==> exists|w: int| start.len() <= w < out@.len() && (#[trigger] out@[w]).dependency == k,
        decreases constraints@.len() - u,
    {
        let c = &constraints[u];
        if wanted_constraint(resolution, c) {
            let ghost mid = out@;
            out.push(SuggestionRequest { member: i, dependency: u, constraint: c.clone() });
            proof {
                assert forall|k: int| 0 <= k < u + 1 && wanted_request(resolution@, (#[trigger] constraints@[k])@)
                    implies exists|w: int| start.len() <= w < out@.len() && (#[trigger] out@[w]).dependency == k by {
                    if k < u {
                        let w = choose|w: int| start.len() <= w < mid.len() && (#[trigger] mid[w]).dependency == k;
                        assert(out@[w] == mid[w]);
                    } else {
                        assert(out@[mid.len() as int].dependency == k);
                    }
                }
                assert forall|w: int| start.len() <= w < out@.len() implies (#[trigger] out@[w]).member == i
                    && out@[w].dependency < u + 1
                    && out@[w].constraint@ == constraints@[out@[w].dependency as int]@
                    && wanted_request(resolution@, out@[w].constraint@) by {
                    if w < mid.len() {
                        assert(out@[w] == mid[w]);
                    }
                }
                assert forall|a: int, b: int| start.len() <= a < b < out@.len() implies (#[trigger] out@[a]).dependency < (#[trigger] out@[b]).dependency by {
                    if b < mid.len() {
                        assert(out@[a] == mid[a] && out@[b] == mid[b]);
                    } else {
                        assert(out@[a] == mid[a]);
                    }
                }
            }
        }
        u = u + 1;
    }
}

/// The registry lookups that suggestions may come from: for each member
/// with a target, its normal dependencies that a candidate problem names
/// and that come from a registry. None where the candidate has no problem;
/// fails where the metadata lacks a member's package.
pub fn suggestion_requests(
    workspace: &crate::model::WorkspaceData,
    selection: &crate::model::Selection,
    resolution: &ResolveReport,
) -> (r: Result<Vec<SuggestionRequest>, Error>)
    ensures
        !has_problems(resolution@) ==> (r matches Ok(rs) && rs@.len() == 0),
        has_problems(resolution@) ==> (r is Err <==> exists|i: int| #[trigger] first_member_missing(workspace@.metadata, selection@, i)),
        has_problems(resolution@) ==> (r matches Err(e) ==> (e matches Error::MemberMissing(t)
            && exists|i: int| #[trigger] first_member_missing(workspace@.metadata, selection@, i) && t@ == selection@.members[i].package_id)),
        has_problems(resolution@) ==> (r matches Ok(rs) ==> requests_fit(workspace@.metadata, selection@, resolution@, rs@)),
{
    let ghost md = workspace@.metadata;
    let ghost sel = selection@;
    let ghost res = resolution@;
    let mut out: Vec<SuggestionRequest> = Vec::new();
    if resolution.candidate.incompatible_packages.len() == 0 && resolution.candidate.unknown_packages.len() == 0 {
        return Ok(out);
    }
    assert(has_problems(res));
    let mut i: usize = 0;
    while i < selection.members.len()
        invariant
            has_problems(res),
            md == workspace@.metadata,
            sel == selection@,
            res == resolution@,
            i <= sel.members.len(),
            forall|j: int| 0 <= j < i && (#[trigger] sel.members[j]).rust_version is Some
                ==> metadata_index(md.packages, sel.members[j].package_id) is Some,
            forall|u: int| 0 <= u < out@.len() ==> request_fits(md, sel, res, #[trigger] out@[u]) && out@[u].member < i,
            forall|u: int, w: int| 0 <= u < w < out@.len() ==> request_before(#[trigger] out@[u], #[trigger] out@[w]),
            forall|m: int, k: int| member_with_target(md, sel, m) && m < i && 0 <= k < normal_dependencies(member_package(md, sel, m)).len()
                && wanted_dependency(res, normal_dependencies(member_package(md, sel, m))[k])
                ==> #[trigger] requested(out@, m, k),
        decreases sel.members.len() - i,
    {
        let member = &selection.members[i];
        assert(sel.members[i as int] == member@);
        if member.rust_version.is_some() {
            let constraints = match direct_dependency_constraints(&workspace.metadata, &member.package_id, &member.manifest_path) {
                Ok(cs) => cs,
                Err(e) => {
                    proof {
                        assert(first_member_missing(md, sel, i as int));
                    }
                    return Err(e);
                },
            };
            let ghost p = member_package(md, sel, i as int);
            let ghost ds = normal_dependencies(p);
            let ghost before = out@;
            add_member_requests(resolution, i, &constraints, &mut out);
            proof {
                assert forall|w: int| 0 <= w < out@.len() implies request_fits(md, sel, res, #[trigger] out@[w]) && out@[w].member < i + 1 by {
                    if w < before.len() {
                        assert(out@[w] == before[w]);
                    } else {
                        let u = out@[w].dependency as int;
                        assert(out@[w].constraint@ == constraints@[u]@);
                        assert(constraint_fits(ds[u], sel.members[i as int].manifest_path, p.rust_version, constraints@[u]@));
                    }
                }
                assert forall|a: int, b: int| 0 <= a < b < out@.len() implies request_before(#[trigger] out@[a], #[trigger] out@[b]) by {
                    if b < before.len() {
                        assert(out@[a] == before[a] && out@[b] == before[b]);
                    } else if a < before.len() {
                        assert(out@[a] == before[a]);
                    }
                }
                assert forall|k: int| 0 <= k < ds.len() && wanted_dependency(res, ds[k]) implies #[trigger] requested(out@, i as int, k) by {
                    assert(constraint_fits(ds[k], sel.members[i as int].manifest_path, p.rust_version, constraints@[k]@));
                    assert(wanted_request(res, constraints@[k]@));
                    let w = choose|w: int| before.len() <= w < out@.len() && (#[trigger] out@[w]).dependency == k;
                }
            }
            proof {
                assert forall|m: int, k: int| member_with_target(md, sel, m) && m < i + 1 && 0 <= k < normal_dependencies(member_package(md, sel, m)).len()
                    && wanted_dependency(res, normal_dependencies(member_package(md, sel, m))[k])
                    implies #[trigger] requested(out@, m, k) by {
                    if m < i {
                        assert(requested(before, m, k));
                        let w = choose|w: int| 0 <= w < before.len() && (#[trigger] before[w]).member == m && before[w].dependency == k;
                        assert(out@[w] == before[w]);
                    }
                }
            }
        } else {
            proof {
                assert forall|m: int, k: int| member_with_target(md, sel, m) && m < i + 1 && 0 <= k < normal_dependencies(member_package(md, sel, m)).len()
                    && wanted_dependency(res, normal_dependencies(member_package(md, sel, m))[k])
                    implies #[trigger] requested(out@, m, k) by {
                    assert(m != i);
                }
            }
        }
        i = i + 1;
    }
    proof {
        assert forall|j: int| !#[trigger] first_member_missing(md, sel, j) by {}
    }
    Ok(out)
}

/// The reason of a suggestion for a target.
pub open spec fn suggestion_reason(target: VersionParts) -> Seq<char> {
    "highest compatible non-yanked release with requested features for target "@ + rust_version_display(target)
}

/// The suggestion that a request and the release it found make.
pub open spec fn suggestion_of(sel: SelectionView, r: SuggestionRequest, cand: RegistryCandidateView) -> ManifestSuggestionView {
    let target = sel.members[r.member as int].rust_version.unwrap();
    ManifestSuggestionView {
        package_name: sel.members[r.member as int].package_name,
        dependency_key: r.constraint@.dependency_key,
        dependency_name: r.constraint@.package_name,
        manifest_path: r.constraint@.manifest_path,
        current_requirement: r.constraint@.requirement,
        suggested_requirement: version_display(cand.version),
        reason: suggestion_reason(target),
        target_rust_version: rust_version_display(target),
        section: r.constraint@.section,
    }
}

/// A found release is suggested unless the current requirement already
/// admits it and no incompatible candidate problem has the dependency's
/// identity.
pub open spec fn suggests(res: ResolveReportView, r: SuggestionRequest, cand: RegistryCandidateView) -> bool {
    !(semver_req_matches(r.constraint@.requirement, cand.version)
        && no_incompatible_issue(res, r.constraint@.package_name, r.constraint@.source))
}

/// The suggestions of the first `n` requests, in request order.
pub open spec fn raw_suggestions(
    sel: SelectionView,
    res: ResolveReportView,
    rs: Seq<SuggestionRequest>,
    found: Seq<Option<RegistryCandidateView>>,
    n: int,
) -> Seq<ManifestSuggestionView>
    decreases n,
{
    if n <= 0 {
        Seq::empty()
    } else {
        let prev = raw_suggestions(sel, res, rs, found, n - 1);
        match found[n - 1] {
            Some(c) => if suggests(res, rs[n - 1], c) { prev.push(suggestion_of(sel, rs[n - 1], c)) } else { prev },
            None => prev,
        }
    }
}

/// Some incompatible issue of the candidate analysis is on a package with
/// this name and source.
pub open spec fn incompatible_in_candidate(res: ResolveReportView, name: Seq<char>, source: Option<Seq<char>>) -> bool {
    exists|k: int| 0 <= k < res.candidate.incompatible_packages.len()
        && (#[trigger] res.candidate.incompatible_packages[k]).package.name == name
        && res.candidate.incompatible_packages[k].package.source == source
}

/// A request adds a suggestion to those before it exactly when it found a
/// release and either the current requirement does not admit that release
/// or an incompatible issue of the candidate analysis still carries the
/// dependency's identity (its name and source); a release the requirement
/// admits, on a dependency no incompatible issue names, adds nothing, and so
/// does a request that found nothing.
pub proof fn law_found_releases_are_suggested(
    sel: SelectionView,
    res: ResolveReportView,
    rs: Seq<SuggestionRequest>,
    found: Seq<Option<RegistryCandidateView>>,
    n: int,
)
    requires
        0 <= n < rs.len(),
        n < found.len(),
    ensures
        found[n] is Some && incompatible_in_candidate(res, rs[n].constraint@.package_name, rs[n].constraint@.source)
            ==> raw_suggestions(sel, res, rs, found, n + 1) == raw_suggestions(sel, res, rs, found, n).push(suggestion_of(sel, rs[n], found[n]->0)),
        found[n] is Some && !semver_req_matches(rs[n].constraint@.requirement, found[n]->0.version)
            ==> raw_suggestions(sel, res, rs, found, n + 1) == raw_suggestions(sel, res, rs, found, n).push(suggestion_of(sel, rs[n], found[n]->0)),
        found[n] is Some && semver_req_matches(rs[n].constraint@.requirement, found[n]->0.version)
            && !incompatible_in_candidate(res, rs[n].constraint@.package_name, rs[n].constraint@.source)
            ==> raw_suggestions(sel, res, rs, found, n + 1) == raw_suggestions(sel, res, rs, found, n),
        found[n] is None ==> raw_suggestions(sel, res, rs, found, n + 1) == raw_suggestions(sel, res, rs, found, n),
        // What a suggestion of a found release says.
        found[n] is Some ==> ({
            let s = suggestion_of(sel, rs[n], found[n]->0);
            &&& s.suggested_requirement == version_display(found[n]->0.version)
            &&& s.current_requirement == rs[n].constraint@.requirement
            &&& s.dependency_key == rs[n].constraint@.dependency_key
            &&& s.dependency_name == rs[n].constraint@.package_name
            &&& s.manifest_path == rs[n].constraint@.manifest_path
            &&& s.section == rs[n].constraint@.section
            &&& s.package_name == sel.members[rs[n].member as int].package_name
        }),
{
    if let Some(c) = found[n] {
        let name = rs[n].constraint@.package_name;
        let source = rs[n].constraint@.source;
        if incompatible_in_candidate(res, name, source) {
            let k = choose|k: int| 0 <= k < res.candidate.incompatible_packages.len()
                && (#[trigger] res.candidate.incompatible_packages[k]).package.name == name
                && res.candidate.incompatible_packages[k].package.source == source;
            assert(!no_incompatible_issue(res, name, source));
        } else {
            assert(no_incompatible_issue(res, name, source));
        }
    }
}

/// Request `k` is the first with a found release whose current requirement
/// does not parse.
pub open spec fn first_bad_requirement(rs: Seq<SuggestionRequest>, found: Seq<Option<RegistryCandidateView>>, k: int) -> bool {
    &&& 0 <= k < rs.len()
    &&& found[k] is Some
    &&& !semver_req_parses(rs[k].constraint@.requirement)
    &&& forall|j: int| 0 <= j < k && (#[trigger] found[j]) is Some ==> semver_req_parses(rs[j].constraint@.requirement)
}

/// Suggestions are ordered by member name, then dependency key.
pub open spec fn suggestion_order(a: ManifestSuggestionView, b: ManifestSuggestionView) -> int {
    if text_order(a.package_name, b.package_name) != 0 {
        text_order(a.package_name, b.package_name)
    } else {
        text_order(a.dependency_key, b.dependency_key)
    }
}

impl SortKey for ManifestSuggestion {
    open spec fn key_order(a: Self, b: Self) -> int {
        suggestion_order(a@, b@)
    }

    fn order(&self, other: &Self) -> (r: i8) {
        proof {
            crate::text::lemma_text_order_antisymmetric(self.package_name@, other.package_name@);
            crate::text::lemma_text_order_antisymmetric(self.dependency_key@, other.dependency_key@);
        }
        let by_name = crate::text::compare_text(self.package_name.as_str(), other.package_name.as_str());
        if by_name != 0 {
            return by_name;
        }
        crate::text::compare_text(self.dependency_key.as_str(), other.dependency_key.as_str())
    }
}

/// `sorted` is `v` stably sorted by `suggestion_order`.
pub open spec fn stably_sorted(sorted: Seq<ManifestSuggestionView>, v: Seq<ManifestSuggestionView>) -> bool {
    exists|perm: Seq<int>| #[trigger] is_permutation_of(perm, sorted, v)
        && (forall|t: int| 0 <= t < sorted.len() - 1 ==> suggestion_order(#[trigger] sorted[t], sorted[t + 1]) <= 0)
        && (forall|a: int, b: int| 0 <= a < b < sorted.len() && suggestion_order(#[trigger] sorted[a], #[trigger] sorted[b]) == 0
            ==> perm[a] < perm[b])
}

/// Two suggestions change the same dependency of the same manifest.
pub open spec fn same_change(a: ManifestSuggestionView, b: ManifestSuggestionView) -> bool {
    a.manifest_path == b.manifest_path && a.dependency_key == b.dependency_key
}

/// Drops each suggestion that changes what the one kept before it changes.
pub open spec fn dedup_adjacent(s: Seq<ManifestSuggestionView>) -> Seq<ManifestSuggestionView>
    decreases s.len(),
{
    if s.len() == 0 {
        s
    } else {
        let d = dedup_adjacent(s.drop_last());
        if d.len() > 0 && same_change(d.last(), s.last()) { d } else { d.push(s.last()) }
    }
}

proof fn lemma_dedup_keeps_each_change(s: Seq<ManifestSuggestionView>)
    ensures
        forall|i: int| #![trigger s[i]] 0 <= i < s.len() ==> exists|j: int| 0 <= j < dedup_adjacent(s).len()
            && same_change(#[trigger] dedup_adjacent(s)[j], s[i]),
        forall|j: int| 0 <= j < dedup_adjacent(s).len() ==> s.contains(#[trigger] dedup_adjacent(s)[j]),
    decreases s.len(),
{
    if s.len() > 0 {
        let rest = s.drop_last();
        lemma_dedup_keeps_each_change(rest);
        let d = dedup_adjacent(rest);
        let r = dedup_adjacent(s);
        assert forall|i: int| #![trigger s[i]] 0 <= i < s.len() implies exists|j: int| 0 <= j < r.len() && same_change(#[trigger] r[j], s[i]) by {
            if i < s.len() - 1 {
                assert(rest[i] == s[i]);
                let j = choose|j: int| 0 <= j < d.len() && same_change(#[trigger] d[j], rest[i]);
                assert(r[j] == d[j]);
            } else if d.len() > 0 && same_change(d.last(), s.last()) {
                assert(r[d.len() - 1] == d.last());
            } else {
                assert(r[d.len() as int] == s.last());
            }
        }
        assert forall|j: int| 0 <= j < r.len() implies s.contains(#[trigger] r[j]) by {
            if j < d.len() {
                assert(r[j] == d[j]);
                assert(rest.contains(d[j]));
                let k = choose|k: int| 0 <= k < rest.len() && rest[k] == d[j];
                assert(s[k] == rest[k]);
            } else {
                assert(r[j] == s.last());
                assert(s[s.len() - 1] == s.last());
            }
        }
    }
}

/// The suggestions that come out are the raw ones of the requests, sorted
/// and with repeats dropped: each one that comes out is a raw suggestion,
/// and every raw suggestion is represented by one that changes the same
/// dependency of the same manifest. So a request that adds a raw suggestion
/// (see `law_found_releases_are_suggested`) always leads to a suggestion
/// for its dependency.
pub proof fn law_suggestions_cover_the_raw_ones(
    raw: Seq<ManifestSuggestionView>,
    sorted: Seq<ManifestSuggestionView>,
    out: Seq<ManifestSuggestionView>,
)
    requires
        stably_sorted(sorted, raw),
        out == dedup_adjacent(sorted),
    ensures
        forall|i: int| #![trigger raw[i]] 0 <= i < raw.len() ==> exists|j: int| 0 <= j < out.len() && same_change(#[trigger] out[j], raw[i]),
        forall|j: int| 0 <= j < out.len() ==> raw.contains(#[trigger] out[j]),
{
    let perm = choose|perm: Seq<int>| #[trigger] is_permutation_of(perm, sorted, raw)
        && (forall|t: int| 0 <= t < sorted.len() - 1 ==> suggestion_order(#[trigger] sorted[t], sorted[t + 1]) <= 0)
        && (forall|a: int, b: int| 0 <= a < b < sorted.len() && suggestion_order(#[trigger] sorted[a], #[trigger] sorted[b]) == 0
            ==> perm[a] < perm[b]);
    lemma_permutation_onto(perm, sorted, raw);
    lemma_dedup_keeps_each_change(sorted);
    assert forall|i: int| #![trigger raw[i]] 0 <= i < raw.len() implies exists|j: int| 0 <= j < out.len() && same_change(#[trigger] out[j], raw[i]) by {
        assert(picked(perm, sorted.len() as int, i));
        let a = choose|a: int| 0 <= a < sorted.len() && #[trigger] perm[a] == i;
        assert(sorted[a] == raw[i]);
        let j = choose|j: int| 0 <= j < out.len() && same_change(#[trigger] out[j], sorted[a]);
    }
    assert forall|j: int| 0 <= j < out.len() implies raw.contains(#[trigger] out[j]) by {
        assert(sorted.contains(out[j]));
        let a = choose|a: int| 0 <= a < sorted.len() && sorted[a] == out[j];
        assert(raw[perm[a]] == sorted[a]);
    }
}

/// The suggestions of the requests, in request order, before sorting.
fn raw_suggestion_list(
    selection: &crate::model::Selection,
    resolution: &ResolveReport,
    requests: &Vec<SuggestionRequest>,
    found: &Vec<Option<RegistryCandidate>>,
) -> (r: Result<Vec<ManifestSuggestion>, Error>)
    requires
        found@.len() == requests@.len(),
        forall|k: int| 0 <= k < requests@.len() ==> (#[trigger] requests@[k]).member < selection@.members.len()
            && selection@.members[requests@[k].member as int].rust_version is Some,
    ensures
        r is Err <==> exists|k: int| #[trigger] first_bad_requirement(requests@, found.deep_view(), k),
        r matches Err(e) ==> (e matches Error::InvalidVersionRequirement(t) && exists|k: int|
            #[trigger] first_bad_requirement(requests@, found.deep_view(), k) && t@ == requests@[k].constraint@.requirement),
        r matches Ok(v) ==> v.deep_view() == raw_suggestions(selection@, resolution@, requests@, found.deep_view(), requests@.len() as int),
{
    let ghost sel = selection@;
    let ghost res = resolution@;
    let ghost rs = requests@;
    let ghost fv = found.deep_view();
    let mut raw: Vec<ManifestSuggestion> = Vec::new();
    let mut k: usize = 0;
    while k < requests.len()
        invariant
            sel == selection@,
            res == resolution@,
            rs == requests@,
            fv == found.deep_view(),
            fv.len() == rs.len(),
            forall|j: int| 0 <= j < rs.len() ==> (#[trigger] rs[j]).member < sel.members.len()
                && sel.members[rs[j].member as int].rust_version is Some,
            k <= rs.len(),
            forall|j: int| 0 <= j < k && (#[trigger] fv[j]) is Some ==> semver_req_parses(rs[j].constraint@.requirement),
            raw.deep_view() == raw_suggestions(sel, res, rs, fv, k as int),
        decreases rs.len() - k,
    {
        let request = &requests[k];
        assert(fv[k as int] == found@[k as int].deep_view());
        if let Some(candidate) = &found[k] {
            let c = &request.constraint;
            if !crate::version::requirement_parses(c.requirement.as_str()) {
                proof {
                    assert(first_bad_requirement(rs, fv, k as int));
                }
                return Err(Error::InvalidVersionRequirement(c.requirement.clone()));
            }
            let admitted = crate::version::requirement_matches(c.requirement.as_str(), &candidate.version);
            let keep = !(admitted && no_incompatible_with(resolution, &c.package_name, &c.source));
            if keep {
                let member = &selection.members[request.member];
                assert(sel.members[request.member as int] == member@);
                let target = match &member.rust_version {
                    Some(t) => t,
                    None => {
                        assert(false);
                        return Err(Error::InvalidVersionRequirement(c.requirement.clone()));
                    },
                };
                let shown = display_rust_version(target);
                proof {
                    reveal_strlit("highest compatible non-yanked release with requested features for target ");
                }
                let reason = crate::text::concat2("highest compatible non-yanked release with requested features for target ", shown.as_str());
                let suggestion = ManifestSuggestion {
                    package_name: member.package_name.clone(),
                    dependency_key: c.dependency_key.clone(),
                    dependency_name: c.package_name.clone(),
                    manifest_path: c.manifest_path.clone(),
                    current_requirement: c.requirement.clone(),
                    suggested_requirement: candidate.version.text(),
                    reason,
                    target_rust_version: shown,
                    section: c.section.clone(),
                };
                let ghost before = raw.deep_view();
                raw.push(suggestion);
                proof {
                    assert(suggestion@ == suggestion_of(sel, rs[k as int], candidate@));
                    assert(raw.deep_view() =~= before.push(suggestion@));
                }
            }
        }
        k = k + 1;
    }
    proof {
        assert forall|j: int| !#[trigger] first_bad_requirement(rs, fv, j) by {}
    }
    Ok(raw)
}

/// Sorts suggestions stably by member name, then dependency key.
fn sort_suggestions(raw: Vec<ManifestSuggestion>) -> (r: Vec<ManifestSuggestion>)
    ensures
        stably_sorted(r.deep_view(), raw.deep_view()),
{
    let ghost unsorted = raw@;
    let ghost raw_view = raw.deep_view();
    let sorted = crate::sort::sort_by_key(raw);
    proof {
        let perm = choose|perm: Seq<int>| #[trigger] crate::sort::stable_permutation(perm, sorted@, unsorted);
        let sv = sorted.deep_view();
        assert forall|a: int| 0 <= a < sv.len() implies 0 <= #[trigger] perm[a] < raw_view.len() && sv[a] == raw_view[perm[a]] by {
            assert(sorted@[a] == unsorted[perm[a]]);
        }
        assert(is_permutation_of(perm, sv, raw_view));
        assert forall|t: int| 0 <= t < sv.len() - 1 implies suggestion_order(#[trigger] sv[t], sv[t + 1]) <= 0 by {
            assert(ManifestSuggestion::key_order(sorted@[t], sorted@[t + 1]) <= 0);
        }
        assert forall|a: int, b: int| 0 <= a < b < sv.len() && suggestion_order(#[trigger] sv[a], #[trigger] sv[b]) == 0
            implies perm[a] < perm[b] by {
            assert(ManifestSuggestion::key_order(sorted@[a], sorted@[b]) == 0);
        }
        assert(stably_sorted(sv, raw_view));
    }
    sorted
}

/// Drops each suggestion that changes what the one kept before it changes.
fn dedup_suggestions(sorted: &Vec<ManifestSuggestion>) -> (r: Vec<ManifestSuggestion>)
    ensures
        r.deep_view() == dedup_adjacent(sorted.deep_view()),
{
    let mut out: Vec<ManifestSuggestion> = Vec::new();
    let mut t: usize = 0;
    while t < sorted.len()
        invariant
            t <= sorted@.len(),
            out.deep_view() == dedup_adjacent(sorted.deep_view().take(t as int)),
        decreases sorted@.len() - t,
    {
        let s = &sorted[t];
        let ghost sv = sorted.deep_view();
        assert(sv.take(t + 1).drop_last() =~= sv.take(t as int));
        assert(sv.take(t + 1).last() == s@);
        let n = out.len();
        let duplicate = n > 0 && out[n - 1].manifest_path == s.manifest_path && out[n - 1].dependency_key == s.dependency_key;
        if !duplicate {
            let ghost before = out.deep_view();
            out.push(s.clone());
            assert(out.deep_view() =~= before.push(s@));
        } else {
            assert(out.deep_view().last() == out@[n - 1]@);
        }
        t = t + 1;
    }
    assert(sorted.deep_view().take(sorted@.len() as int) =~= sorted.deep_view());
    out
}

/// The suggestions from the releases that the lookups found: one per found
/// release that the requirement does not already admit (or that an
/// incompatible candidate problem still needs), sorted by member and
/// dependency key, repeats of the same change dropped. Fails where a found
/// release's requirement does not parse.
pub fn suggestions_from_lookups(
    selection: &crate::model::Selection,
    resolution: &ResolveReport,
    requests: &Vec<SuggestionRequest>,
    found: &Vec<Option<RegistryCandidate>>,
) -> (r: Result<Vec<ManifestSuggestion>, Error>)
    requires
        found@.len() == requests@.len(),
        forall|k: int| 0 <= k < requests@.len() ==> (#[trigger] requests@[k]).member < selection@.members.len()
            && selection@.members[requests@[k].member as int].rust_version is Some,
    ensures
        r is Err <==> exists|k: int| #[trigger] first_bad_requirement(requests@, found.deep_view(), k),
        r matches Err(e) ==> (e matches Error::InvalidVersionRequirement(t) && exists|k: int|
            #[trigger] first_bad_requirement(requests@, found.deep_view(), k) && t@ == requests@[k].constraint@.requirement),
        r matches Ok(v) ==> exists|sorted: Seq<ManifestSuggestionView>| #[trigger] stably_sorted(sorted,
            raw_suggestions(selection@, resolution@, requests@, found.deep_view(), requests@.len() as int))
            && v.deep_view() == dedup_adjacent(sorted),
{
    let raw = match raw_suggestion_list(selection, resolution, requests, found) {
        Ok(v) => v,
        Err(e) => return Err(e),
    };
    let sorted = sort_suggestions(raw);
    Ok(dedup_suggestions(&sorted))
}

/// Suggestion `s` changes the dependency that request `r` looks up: a
/// normal dependency of a selected member, one that comes from a registry.
pub open spec fn suggestion_from(md: MetadataView, sel: SelectionView, r: SuggestionRequest, s: ManifestSuggestionView) -> bool {
    let i = r.member as int;
    let d = normal_dependencies(member_package(md, sel, i))[r.dependency as int];
    &&& 0 <= i < sel.members.len()
    &&& s.package_name == sel.members[i].package_name
    &&& s.dependency_name == d.name
    &&& s.dependency_key == match d.rename { Some(k) => k, None => d.name }
    &&& s.manifest_path == sel.members[i].manifest_path
    &&& source_of(d) matches Some(src) && has_prefix(src, "registry+"@)
}

/// Some request looks up the dependency that `s` changes.
pub open spec fn from_some_request(md: MetadataView, sel: SelectionView, rs: Seq<SuggestionRequest>, s: ManifestSuggestionView) -> bool {
    exists|u: int| 0 <= u < rs.len() && #[trigger] suggestion_from(md, sel, rs[u], s)
}

proof fn lemma_raw_suggestions_from(
    md: MetadataView,
    sel: SelectionView,
    res: ResolveReportView,
    rs: Seq<SuggestionRequest>,
    found: Seq<Option<RegistryCandidateView>>,
    n: int,
)
    requires
        requests_fit(md, sel, res, rs),
        0 <= n <= rs.len(),
        found.len() == rs.len(),
    ensures
        forall|t: int| 0 <= t < raw_suggestions(sel, res, rs, found, n).len()
            ==> from_some_request(md, sel, rs, #[trigger] raw_suggestions(sel, res, rs, found, n)[t]),
    decreases n,
{
    if n > 0 {
        lemma_raw_suggestions_from(md, sel, res, rs, found, n - 1);
        let prev = raw_suggestions(sel, res, rs, found, n - 1);
        let cur = raw_suggestions(sel, res, rs, found, n);
        assert(request_fits(md, sel, res, rs[n - 1]));
        assert forall|t: int| 0 <= t < cur.len() implies from_some_request(md, sel, rs, #[trigger] cur[t]) by {
            if t < prev.len() {
                assert(cur[t] == prev[t]);
            } else {
                assert(suggestion_from(md, sel, rs[n - 1], cur[t]));
            }
        }
    }
}

proof fn lemma_dedup_keeps_members(s: Seq<ManifestSuggestionView>)
    ensures
        forall|t: int| 0 <= t < dedup_adjacent(s).len() ==> s.contains(#[trigger] dedup_adjacent(s)[t]),
    decreases s.len(),
{
    if s.len() > 0 {
        lemma_dedup_keeps_members(s.drop_last());
        let d = dedup_adjacent(s.drop_last());
        assert forall|t: int| 0 <= t < dedup_adjacent(s).len() implies s.contains(#[trigger] dedup_adjacent(s)[t]) by {
            if t < d.len() {
                assert(dedup_adjacent(s)[t] == d[t]);
                let k = choose|k: int| 0 <= k < s.drop_last().len() && s.drop_last()[k] == d[t];
                assert(s[k] == d[t]);
            } else {
                assert(dedup_adjacent(s)[t] == s.last());
                assert(s[s.len() - 1] == s.last());
            }
        }
    }
}

/// Suggestions only ever change registry dependencies: each one changes a
/// normal dependency of a selected member that comes from a registry, never
/// a path or git dependency.
pub proof fn law_suggestions_change_only_registry_dependencies(
    md: MetadataView,
    sel: SelectionView,
    res: ResolveReportView,
    rs: Seq<SuggestionRequest>,
    found: Seq<Option<RegistryCandidateView>>,
    sorted: Seq<ManifestSuggestionView>,
)
    requires
        requests_fit(md, sel, res, rs),
        found.len() == rs.len(),
        stably_sorted(sorted, raw_suggestions(sel, res, rs, found, rs.len() as int)),
    ensures
        forall|t: int| 0 <= t < dedup_adjacent(sorted).len()
            ==> from_some_request(md, sel, rs, #[trigger] dedup_adjacent(sorted)[t]),
{
    let raw = raw_suggestions(sel, res, rs, found, rs.len() as int);
    lemma_raw_suggestions_from(md, sel, res, rs, found, rs.len() as int);
    lemma_dedup_keeps_members(sorted);
    let perm = choose|perm: Seq<int>| #[trigger] is_permutation_of(perm, sorted, raw)
        && (forall|t: int| 0 <= t < sorted.len() - 1 ==> suggestion_order(#[trigger] sorted[t], sorted[t + 1]) <= 0)
        && (forall|a: int, b: int| 0 <= a < b < sorted.len() && suggestion_order(#[trigger] sorted[a], #[trigger] sorted[b]) == 0
            ==> perm[a] < perm[b]);
    let out = dedup_adjacent(sorted);
    assert forall|t: int| 0 <= t < out.len() implies from_some_request(md, sel, rs, #[trigger] out[t]) by {
        assert(sorted.contains(out[t]));
        let k = choose|k: int| 0 <= k < sorted.len() && sorted[k] == out[t];
        assert(sorted[k] == raw[perm[k]]);
        assert(0 <= perm[k] < raw.len());
        assert(from_some_request(md, sel, rs, raw[perm[k]]));
    }
}

} // verus!
