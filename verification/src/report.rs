//! Human and Markdown renderings of the reports.
use crate::identity::{source_detail, source_detail_text};
use crate::model::{
    BlockerKind, CandidateVersionChange, CandidateVersionChangeView, CompatibilityStatus, DependencyPath,
    DependencyPathView, PackageIssue, PackageIssueView, ScanReport, ScanReportView,
};
use crate::resolution::{
    base_labels_of, identified_fit, identify_packages, issue_package_list, issue_packages, labeled, labeled_text,
    push_base_labels, IdentifiedView,
};
use crate::text::{concat2, concat3, decimal, join, join_strings, usize_text, views};
use vstd::prelude::*;

verus! {

/// A text in backticks.
pub open spec fn backtick_text(value: Seq<char>) -> Seq<char> {
    "`"@ + value + "`"@
}

/// Puts a text in backticks.
pub fn backtick(value: &str) -> (r: String)
    ensures
        r@ == backtick_text(value@),
{
    proof {
        reveal_strlit("`");
    }
    concat3("`", value, "`")
}

/// `yes` or `no`.
pub open spec fn yes_no_text(value: bool) -> Seq<char> {
    if value { "yes"@ } else { "no"@ }
}

/// Says yes or no.
pub fn yes_no(value: bool) -> (r: &'static str)
    ensures
        r@ == yes_no_text(value),
{
    proof {
        reveal_strlit("yes");
        reveal_strlit("no");
    }
    if value { "yes" } else { "no" }
}

/// The name of a verdict.
pub open spec fn status_text(status: CompatibilityStatus) -> Seq<char> {
    match status {
        CompatibilityStatus::Compatible => "compatible"@,
        CompatibilityStatus::Incompatible => "incompatible"@,
        CompatibilityStatus::Unknown => "unknown"@,
    }
}

/// Names a verdict.
pub fn compatibility_status(status: &CompatibilityStatus) -> (r: &'static str)
    ensures
        r@ == status_text(*status),
{
    proof {
        reveal_strlit("compatible");
        reveal_strlit("incompatible");
        reveal_strlit("unknown");
    }
    match status {
        CompatibilityStatus::Compatible => "compatible",
        CompatibilityStatus::Incompatible => "incompatible",
        CompatibilityStatus::Unknown => "unknown",
    }
}

/// The snake-case name of a blocker kind.
pub open spec fn blocker_text(blocker: BlockerKind) -> Seq<char> {
    match blocker {
        BlockerKind::Compatible => "compatible"@,
        BlockerKind::UnknownRustVersion => "unknown_rust_version"@,
        BlockerKind::LockfileDrift => "lockfile_drift"@,
        BlockerKind::DirectDependencyTooNew => "direct_dependency_too_new"@,
        BlockerKind::FeatureRequirementTooRestrictive => "feature_requirement_too_restrictive"@,
        BlockerKind::MixedWorkspaceRustVersionUnification => "mixed_workspace_rust_version_unification"@,
        BlockerKind::PathOrGitConstraint => "path_or_git_constraint"@,
        BlockerKind::NonRegistryConstraint => "non_registry_constraint"@,
    }
}

/// Names a blocker kind.
pub fn blocker_kind(blocker: &BlockerKind) -> (r: &'static str)
    ensures
        r@ == blocker_text(*blocker),
{
    proof {
        reveal_strlit("compatible");
        reveal_strlit("unknown_rust_version");
        reveal_strlit("lockfile_drift");
        reveal_strlit("direct_dependency_too_new");
        reveal_strlit("feature_requirement_too_restrictive");
        reveal_strlit("mixed_workspace_rust_version_unification");
        reveal_strlit("path_or_git_constraint");
        reveal_strlit("non_registry_constraint");
    }
    match blocker {
        BlockerKind::Compatible => "compatible",
        BlockerKind::UnknownRustVersion => "unknown_rust_version",
        BlockerKind::LockfileDrift => "lockfile_drift",
        BlockerKind::DirectDependencyTooNew => "direct_dependency_too_new",
        BlockerKind::FeatureRequirementTooRestrictive => "feature_requirement_too_restrictive",
        BlockerKind::MixedWorkspaceRustVersionUnification => "mixed_workspace_rust_version_unification",
        BlockerKind::PathOrGitConstraint => "path_or_git_constraint",
        BlockerKind::NonRegistryConstraint => "non_registry_constraint",
    }
}

/// The variant name of a blocker kind, as `Debug` writes it.
pub open spec fn blocker_debug_text(blocker: BlockerKind) -> Seq<char> {
    match blocker {
        BlockerKind::Compatible => "Compatible"@,
        BlockerKind::UnknownRustVersion => "UnknownRustVersion"@,
        BlockerKind::LockfileDrift => "LockfileDrift"@,
        BlockerKind::DirectDependencyTooNew => "DirectDependencyTooNew"@,
        BlockerKind::FeatureRequirementTooRestrictive => "FeatureRequirementTooRestrictive"@,
        BlockerKind::MixedWorkspaceRustVersionUnification => "MixedWorkspaceRustVersionUnification"@,
        BlockerKind::PathOrGitConstraint => "PathOrGitConstraint"@,
        BlockerKind::NonRegistryConstraint => "NonRegistryConstraint"@,
    }
}

/// Writes a blocker kind's variant name.
pub fn blocker_debug(blocker: &BlockerKind) -> (r: &'static str)
    ensures
        r@ == blocker_debug_text(*blocker),
{
    proof {
        reveal_strlit("Compatible");
        reveal_strlit("UnknownRustVersion");
        reveal_strlit("LockfileDrift");
        reveal_strlit("DirectDependencyTooNew");
        reveal_strlit("FeatureRequirementTooRestrictive");
        reveal_strlit("MixedWorkspaceRustVersionUnification");
        reveal_strlit("PathOrGitConstraint");
        reveal_strlit("NonRegistryConstraint");
    }
    match blocker {
        BlockerKind::Compatible => "Compatible",
        BlockerKind::UnknownRustVersion => "UnknownRustVersion",
        BlockerKind::LockfileDrift => "LockfileDrift",
        BlockerKind::DirectDependencyTooNew => "DirectDependencyTooNew",
        BlockerKind::FeatureRequirementTooRestrictive => "FeatureRequirementTooRestrictive",
        BlockerKind::MixedWorkspaceRustVersionUnification => "MixedWorkspaceRustVersionUnification",
        BlockerKind::PathOrGitConstraint => "PathOrGitConstraint",
        BlockerKind::NonRegistryConstraint => "NonRegistryConstraint",
    }
}

/// How a version change names its package: its label, else its name with
/// the source detail in brackets.
pub open spec fn change_identity_text(c: CandidateVersionChangeView) -> Seq<char> {
    match c.package_label {
        Some(l) => l,
        None => match source_detail_text(c.source) {
            Some(d) => c.package_name + " ["@ + d + "]"@,
            None => c.package_name,
        },
    }
}

/// Names the package of a version change.
pub fn format_version_change_identity(change: &CandidateVersionChange) -> (r: String)
    ensures
        r@ == change_identity_text(change@),
{
    if let Some(label) = &change.package_label {
        return label.clone();
    }
    let mut label = change.package_name.clone();
    let source = match &change.source {
        Some(s) => Some(s.as_str()),
        None => None,
    };
    if let Some(detail) = source_detail(source) {
        proof {
            reveal_strlit(" [");
            reveal_strlit("]");
        }
        label.append(" [");
        label.append(detail.as_str());
        label.append("]");
    }
    label
}

/// The labels of a report's problem packages, incompatible ones first:
/// base labels, with the package id where they collide.
pub open spec fn issue_labels(ids: Seq<IdentifiedView>) -> Seq<Seq<char>> {
    ids.map_values(|x: IdentifiedView| labeled(x, base_labels_of(ids)))
}

/// Labels the problem packages of a scan report.
fn report_issue_labels(report: &ScanReport) -> (r: Vec<String>)
    ensures
        exists|ids: Seq<IdentifiedView>| #[trigger] identified_fit(issue_packages(report@), report@.workspace.workspace_root, ids)
            && r.deep_view() == issue_labels(ids),
{
    let packages = issue_package_list(report);
    let ids = identify_packages(&packages, report.workspace.workspace_root.as_str());
    let ghost iv = ids.deep_view();
    let mut bases: Vec<String> = Vec::new();
    assert(bases.deep_view() =~= Seq::<Seq<char>>::empty());
    push_base_labels(&ids, &mut bases);
    assert(bases.deep_view() =~= base_labels_of(iv));
    let collisions = crate::identity::repeated_labels(&bases);
    let mut labels: Vec<String> = Vec::new();
    let mut i: usize = 0;
    while i < ids.len()
        invariant
            iv == ids.deep_view(),
            i <= iv.len(),
            forall|t: Seq<char>| collisions.deep_view().contains(t) <==> crate::identity::occurrences(base_labels_of(iv), t) > 1,
            labels.deep_view() == issue_labels(iv).take(i as int),
        decreases iv.len() - i,
    {
        let label = labeled_text(&ids[i], &collisions, Ghost(base_labels_of(iv)));
        let ghost before = labels.deep_view();
        labels.push(label);
        proof {
            assert(iv[i as int] == ids@[i as int]@);
            assert(labels.deep_view() =~= before.push(label@));
            assert(issue_labels(iv).take(i + 1) =~= issue_labels(iv).take(i as int).push(issue_labels(iv)[i as int]));
        }
        i = i + 1;
    }
    assert(issue_labels(iv).take(iv.len() as int) =~= issue_labels(iv));
    assert(report.workspace.workspace_root@ == report@.workspace.workspace_root);
    assert(identified_fit(issue_packages(report@), report@.workspace.workspace_root, iv));
    labels
}

/// Appends a line.
fn push_line(lines: &mut Vec<String>, line: String)
    ensures
        final(lines).deep_view() == old(lines).deep_view().push(line@),
{
    let ghost before = lines.deep_view();
    lines.push(line);
    assert(lines.deep_view() =~= before.push(line@));
}

/// Appends a line given as a literal.
fn push_str(lines: &mut Vec<String>, line: &str)
    ensures
        final(lines).deep_view() == old(lines).deep_view().push(line@),
{
    push_line(lines, String::from_str(line));
}

/// Joins lines with newlines.
fn join_lines(lines: &Vec<String>) -> (r: String)
    ensures
        r@ == join(lines.deep_view(), "\n"@),
{
    proof {
        reveal_strlit("\n");
    }
    let r = join_strings(lines, "\n");
    assert(views(lines@) =~= lines.deep_view());
    r
}

/// The target as shown: the Rust version, or that there is no single one.
pub open spec fn target_text(t: Option<Seq<char>>) -> Seq<char> {
    match t {
        Some(v) => v,
        None => "mixed-or-missing"@,
    }
}

/// Shows the target.
fn target_string(t: &Option<String>) -> (r: String)
    ensures
        r@ == target_text(t.deep_view()),
{
    proof {
        reveal_strlit("mixed-or-missing");
    }
    match t {
        Some(v) => v.clone(),
        None => String::from_str("mixed-or-missing"),
    }
}

/// A dependency path's packages joined by arrows.
pub open spec fn chain_text(p: DependencyPathView) -> Seq<char> {
    join(p.packages, " -> "@)
}

/// Joins a path's packages by arrows.
fn chain_string(p: &DependencyPath) -> (r: String)
    ensures
        r@ == chain_text(p@),
{
    proof {
        reveal_strlit(" -> ");
    }
    let r = join_strings(&p.packages, " -> ");
    assert(views(p.packages@) =~= p.packages.deep_view());
    r
}

/// The `via` lines of an issue's paths.
pub open spec fn via_lines(paths: Seq<DependencyPathView>) -> Seq<Seq<char>> {
    paths.map_values(|p: DependencyPathView| "    via "@ + p.member + ": "@ + chain_text(p))
}

/// The human lines of the first `n` issues, each labeled.
pub open spec fn human_issue_block(issues: Seq<PackageIssueView>, labels: Seq<Seq<char>>, n: int) -> Seq<Seq<char>>
    decreases n,
{
    if n <= 0 {
        Seq::empty()
    } else {
        human_issue_block(issues, labels, n - 1) + seq!["  "@ + labels[n - 1] + " ("@ + issues[n - 1].reason + ")"@]
            + via_lines(issues[n - 1].paths)
    }
}

/// The human lines of a list of issues, or that there is none.
pub open spec fn human_issue_section(issues: Seq<PackageIssueView>, labels: Seq<Seq<char>>) -> Seq<Seq<char>> {
    if issues.len() == 0 { seq!["  none"@] } else { human_issue_block(issues, labels, issues.len() as int) }
}

/// Appends the human lines of a list of issues; issue `k` takes label
/// `from + k`.
fn push_human_issues(lines: &mut Vec<String>, issues: &Vec<PackageIssue>, labels: &Vec<String>, from: usize)
    requires
        from + issues@.len() <= labels@.len(),
    ensures
        final(lines).deep_view() == old(lines).deep_view() + human_issue_section(issues.deep_view(),
            labels.deep_view().subrange(from as int, from + issues@.len())),
{
    proof {
        reveal_strlit("  none");
        reveal_strlit("  ");
        reveal_strlit(" (");
        reveal_strlit(")");
        reveal_strlit("    via ");
        reveal_strlit(": ");
    }
    let ghost start = lines.deep_view();
    let ghost iv = issues.deep_view();
    let ghost lv = labels.deep_view().subrange(from as int, from + issues@.len());
    if issues.len() == 0 {
        push_str(lines, "  none");
        return;
    }
    let _ = labels.len();
    let mut k: usize = 0;
    while k < issues.len()
        invariant
            iv == issues.deep_view(),
            lv == labels.deep_view().subrange(from as int, from + issues@.len()),
            from + issues@.len() <= labels@.len(),
            labels@.len() <= usize::MAX,
            k <= iv.len(),
            lines.deep_view() == start + human_issue_block(iv, lv, k as int),
        decreases iv.len() - k,
    {
        let issue = &issues[k];
        assert(iv[k as int] == issue@);
        assert(lv[k as int] == labels@[from + k]@);
        let mut head = concat3("  ", labels[from + k].as_str(), " (");
        head.append(issue.reason.as_str());
        head.append(")");
        push_line(lines, head);
        let ghost mid = lines.deep_view();
        let mut p: usize = 0;
        while p < issue.paths.len()
            invariant
                lines.deep_view() == mid + via_lines(issue@.paths).take(p as int),
                p <= issue@.paths.len(),
            decreases issue@.paths.len() - p,
        {
            let path = &issue.paths[p];
            let mut line = concat3("    via ", path.member.as_str(), ": ");
            let chain = chain_string(path);
            line.append(chain.as_str());
            push_line(lines, line);
            proof {
                assert(issue@.paths[p as int] == path@);
                assert(via_lines(issue@.paths).take(p + 1) =~= via_lines(issue@.paths).take(p as int).push(via_lines(issue@.paths)[p as int]));
            }
            p = p + 1;
        }
        proof {
            assert(via_lines(issue@.paths).take(issue@.paths.len() as int) =~= via_lines(issue@.paths));
            assert(human_issue_block(iv, lv, k + 1) =~= human_issue_block(iv, lv, k as int)
                + seq!["  "@ + lv[k as int] + " ("@ + iv[k as int].reason + ")"@] + via_lines(iv[k as int].paths));
            assert(lines.deep_view() =~= start + human_issue_block(iv, lv, k + 1));
        }
        k = k + 1;
    }
}

/// The line of a member's counts.
pub open spec fn summary_line(name: Seq<char>, incompatible: usize, unknown: usize) -> Seq<char> {
    "  "@ + name + ": "@ + decimal(incompatible as nat) + " incompatible, "@ + decimal(unknown as nat) + " unknown"@
}

/// The recommendation lines, if any.
pub open spec fn recommendation_lines(recs: Seq<Seq<char>>) -> Seq<Seq<char>> {
    if recs.len() == 0 {
        Seq::empty()
    } else {
        seq!["  recommendations:"@] + recs.map_values(|r: Seq<char>| "    - "@ + r)
    }
}

/// The human rendering of a scan report, line by line.
pub open spec fn scan_human_lines(report: ScanReportView, labels: Seq<Seq<char>>) -> Seq<Seq<char>> {
    let n = report.incompatible_packages.len() as int;
    seq![
        "Current State"@,
        "  target selection: "@ + target_text(report.target.target_rust_version),
        "  selected members: "@ + join(report.workspace.selected_members, ", "@),
    ] + recommendation_lines(report.workspace.recommendations) + seq![""@, "Package Summaries"@]
        + report.package_summaries.map_values(|x: crate::model::PackageSummaryView| summary_line(x.package_name, x.incompatible, x.unknown))
        + seq![""@, "Incompatible Packages"@] + human_issue_section(report.incompatible_packages, labels.take(n))
        + seq![""@, "Unknown Packages"@] + human_issue_section(report.unknown_packages, labels.skip(n))
}

/// Renders a scan report for a terminal.
pub fn render_scan_human(report: &ScanReport) -> (r: String)
    ensures
        exists|ids: Seq<IdentifiedView>| #[trigger] identified_fit(issue_packages(report@), report@.workspace.workspace_root, ids)
            && r@ == join(scan_human_lines(report@, issue_labels(ids)), "\n"@),
{
    proof {
        reveal_strlit("Current State");
        reveal_strlit("  target selection: ");
        reveal_strlit("  selected members: ");
        reveal_strlit(", ");
        reveal_strlit("  recommendations:");
        reveal_strlit("    - ");
        reveal_strlit("");
        reveal_strlit("Package Summaries");
        reveal_strlit("  ");
        reveal_strlit(": ");
        reveal_strlit(" incompatible, ");
        reveal_strlit(" unknown");
        reveal_strlit("Incompatible Packages");
        reveal_strlit("Unknown Packages");
    }
    let labels = report_issue_labels(report);
    let ghost lv = labels.deep_view();
    let ghost rv = report@;
    let mut lines: Vec<String> = Vec::new();
    let ghost l0 = lines.deep_view();
    push_str(&mut lines, "Current State");
    let target = target_string(&report.target.target_rust_version);
    push_line(&mut lines, concat2("  target selection: ", target.as_str()));
    let members = join_strings(&report.workspace.selected_members, ", ");
    assert(views(report.workspace.selected_members@) =~= rv.workspace.selected_members);
    push_line(&mut lines, concat2("  selected members: ", members.as_str()));
    let ghost l1 = lines.deep_view();
    assert(l1 =~= seq![
        "Current State"@,
        "  target selection: "@ + target_text(rv.target.target_rust_version),
        "  selected members: "@ + join(rv.workspace.selected_members, ", "@),
    ]);
    if report.workspace.recommendations.len() > 0 {
        push_str(&mut lines, "  recommendations:");
        let ghost m = lines.deep_view();
        let mut i: usize = 0;
        while i < report.workspace.recommendations.len()
            invariant
                rv == report@,
                i <= rv.workspace.recommendations.len(),
                lines.deep_view() == m + rv.workspace.recommendations.map_values(|r: Seq<char>| "    - "@ + r).take(i as int),
            decreases rv.workspace.recommendations.len() - i,
        {
            push_line(&mut lines, concat2("    - ", report.workspace.recommendations[i].as_str()));
            proof {
                let mv = rv.workspace.recommendations.map_values(|r: Seq<char>| "    - "@ + r);
                assert(mv.take(i + 1) =~= mv.take(i as int).push(mv[i as int]));
            }
            i = i + 1;
        }
        proof {
            let mv = rv.workspace.recommendations.map_values(|r: Seq<char>| "    - "@ + r);
            assert(mv.take(mv.len() as int) =~= mv);
        }
    }
    let ghost l2 = lines.deep_view();
    assert(l2 =~= l1 + recommendation_lines(rv.workspace.recommendations));
    push_str(&mut lines, "");
    push_str(&mut lines, "Package Summaries");
    let ghost m2 = lines.deep_view();
    let ghost sl = rv.package_summaries.map_values(|x: crate::model::PackageSummaryView| summary_line(x.package_name, x.incompatible, x.unknown));
    let mut i: usize = 0;
    while i < report.package_summaries.len()
        invariant
            rv == report@,
            sl == rv.package_summaries.map_values(|x: crate::model::PackageSummaryView| summary_line(x.package_name, x.incompatible, x.unknown)),
            i <= rv.package_summaries.len(),
            lines.deep_view() == m2 + sl.take(i as int),
        decreases rv.package_summaries.len() - i,
    {
        let x = &report.package_summaries[i];
        let mut line = concat3("  ", x.package_name.as_str(), ": ");
        let a = usize_text(x.incompatible);
        line.append(a.as_str());
        line.append(" incompatible, ");
        let b = usize_text(x.unknown);
        line.append(b.as_str());
        line.append(" unknown");
        push_line(&mut lines, line);
        proof {
            assert(rv.package_summaries[i as int] == x@);
            assert(sl.take(i + 1) =~= sl.take(i as int).push(sl[i as int]));
        }
        i = i + 1;
    }
    assert(sl.take(sl.len() as int) =~= sl);
    push_str(&mut lines, "");
    push_str(&mut lines, "Incompatible Packages");
    let n = report.incompatible_packages.len();
    proof {
        let ids = choose|ids: Seq<IdentifiedView>| #[trigger] identified_fit(issue_packages(rv), rv.workspace.workspace_root, ids) && lv == issue_labels(ids);
        assert(lv.len() == issue_packages(rv).len());
        assert(labels@.len() == rv.incompatible_packages.len() + rv.unknown_packages.len());
    }
    push_human_issues(&mut lines, &report.incompatible_packages, &labels, 0);
    push_str(&mut lines, "");
    push_str(&mut lines, "Unknown Packages");
    push_human_issues(&mut lines, &report.unknown_packages, &labels, n);
    proof {
        let ids = choose|ids: Seq<IdentifiedView>| #[trigger] identified_fit(issue_packages(rv), rv.workspace.workspace_root, ids) && lv == issue_labels(ids);
        assert(lv.len() == issue_packages(rv).len());
        assert(lv.subrange(0, n as int) =~= lv.take(n as int));
        assert(lv.subrange(n as int, n + rv.unknown_packages.len()) =~= lv.skip(n as int));
        assert(lines.deep_view() =~= scan_human_lines(rv, lv));
    }
    join_lines(&lines)
}

/// The Markdown lines of a list of issues, or that there is none.
pub open spec fn markdown_issue_section(issues: Seq<PackageIssueView>, labels: Seq<Seq<char>>) -> Seq<Seq<char>> {
    if issues.len() == 0 {
        seq!["- None"@]
    } else {
        Seq::new(issues.len(), |k: int| "- "@ + backtick_text(labels[k]) + ": "@ + issues[k].reason)
    }
}

/// Appends the Markdown lines of a list of issues; issue `k` takes label
/// `from + k`.
fn push_markdown_issues(lines: &mut Vec<String>, issues: &Vec<PackageIssue>, labels: &Vec<String>, from: usize)
    requires
        from + issues@.len() <= labels@.len(),
    ensures
        final(lines).deep_view() == old(lines).deep_view() + markdown_issue_section(issues.deep_view(),
            labels.deep_view().subrange(from as int, from + issues@.len())),
{
    proof {
        reveal_strlit("- None");
        reveal_strlit("- ");
        reveal_strlit(": ");
    }
    let ghost start = lines.deep_view();
    let ghost iv = issues.deep_view();
    let ghost lv = labels.deep_view().subrange(from as int, from + issues@.len());
    if issues.len() == 0 {
        push_str(lines, "- None");
        return;
    }
    let ghost want = markdown_issue_section(iv, lv);
    let _ = labels.len();
    let mut k: usize = 0;
    while k < issues.len()
        invariant
            iv == issues.deep_view(),
            lv == labels.deep_view().subrange(from as int, from + issues@.len()),
            want == markdown_issue_section(iv, lv),
            iv.len() > 0,
            from + issues@.len() <= labels@.len(),
            labels@.len() <= usize::MAX,
            k <= iv.len(),
            lines.deep_view() == start + want.take(k as int),
        decreases iv.len() - k,
    {
        let issue = &issues[k];
        let label = backtick(labels[from + k].as_str());
        let mut line = concat3("- ", label.as_str(), ": ");
        line.append(issue.reason.as_str());
        push_line(lines, line);
        proof {
            assert(iv[k as int] == issue@);
            assert(lv[k as int] == labels@[from + k]@);
            assert(want.take(k + 1) =~= want.take(k as int).push(want[k as int]));
        }
        k = k + 1;
    }
    assert(want.take(iv.len() as int) =~= want);
}

/// The Markdown rendering of a scan report, line by line.
pub open spec fn scan_markdown_lines(report: ScanReportView, labels: Seq<Seq<char>>) -> Seq<Seq<char>> {
    let n = report.incompatible_packages.len() as int;
    seq![
        "# Current State"@,
        "- Target selection: "@ + target_text(report.target.target_rust_version),
        "- Selected members: "@ + join(report.workspace.selected_members, ", "@),
        ""@,
        "## Incompatible Packages"@,
    ] + markdown_issue_section(report.incompatible_packages, labels.take(n)) + seq![""@, "## Unknown Packages"@]
        + markdown_issue_section(report.unknown_packages, labels.skip(n))
}

/// Renders a scan report as Markdown.
pub fn render_scan_markdown(report: &ScanReport) -> (r: String)
    ensures
        exists|ids: Seq<IdentifiedView>| #[trigger] identified_fit(issue_packages(report@), report@.workspace.workspace_root, ids)
            && r@ == join(scan_markdown_lines(report@, issue_labels(ids)), "\n"@),
{
    proof {
        reveal_strlit("# Current State");
        reveal_strlit("- Target selection: ");
        reveal_strlit("- Selected members: ");
        reveal_strlit(", ");
        reveal_strlit("");
        reveal_strlit("## Incompatible Packages");
        reveal_strlit("## Unknown Packages");
    }
    let labels = report_issue_labels(report);
    let ghost lv = labels.deep_view();
    let ghost rv = report@;
    let mut lines: Vec<String> = Vec::new();
    push_str(&mut lines, "# Current State");
    let target = target_string(&report.target.target_rust_version);
    push_line(&mut lines, concat2("- Target selection: ", target.as_str()));
    let members = join_strings(&report.workspace.selected_members, ", ");
    assert(views(report.workspace.selected_members@) =~= rv.workspace.selected_members);
    push_line(&mut lines, concat2("- Selected members: ", members.as_str()));
    push_str(&mut lines, "");
    push_str(&mut lines, "## Incompatible Packages");
    let n = report.incompatible_packages.len();
    proof {
        let ids = choose|ids: Seq<IdentifiedView>| #[trigger] identified_fit(issue_packages(rv), rv.workspace.workspace_root, ids) && lv == issue_labels(ids);
        assert(lv.len() == issue_packages(rv).len());
        assert(labels@.len() == rv.incompatible_packages.len() + rv.unknown_packages.len());
    }
    push_markdown_issues(&mut lines, &report.incompatible_packages, &labels, 0);
    push_str(&mut lines, "");
    push_str(&mut lines, "## Unknown Packages");
    push_markdown_issues(&mut lines, &report.unknown_packages, &labels, n);
    proof {
        assert(lv.subrange(0, n as int) =~= lv.take(n as int));
        assert(lv.subrange(n as int, n + rv.unknown_packages.len()) =~= lv.skip(n as int));
        assert(lines.deep_view() =~= scan_markdown_lines(rv, lv));
    }
    join_lines(&lines)
}

/// Each item after a prefix, one per line.
pub open spec fn prefixed(items: Seq<Seq<char>>, prefix: Seq<char>) -> Seq<Seq<char>> {
    items.map_values(|x: Seq<char>| prefix + x)
}

/// Each item in backticks after a prefix, one per line.
pub open spec fn prefixed_backticked(items: Seq<Seq<char>>, prefix: Seq<char>) -> Seq<Seq<char>> {
    items.map_values(|x: Seq<char>| prefix + backtick_text(x))
}

/// Appends each item after a prefix (in backticks when asked).
fn push_prefixed(lines: &mut Vec<String>, items: &Vec<String>, prefix: &str, quoted: bool)
    ensures
        final(lines).deep_view() == old(lines).deep_view() + if quoted {
            prefixed_backticked(items.deep_view(), prefix@)
        } else {
            prefixed(items.deep_view(), prefix@)
        },
{
    let ghost start = lines.deep_view();
    let ghost want = if quoted { prefixed_backticked(items.deep_view(), prefix@) } else { prefixed(items.deep_view(), prefix@) };
    let mut i: usize = 0;
    while i < items.len()
        invariant
            want == if quoted { prefixed_backticked(items.deep_view(), prefix@) } else { prefixed(items.deep_view(), prefix@) },
            i <= items@.len(),
            lines.deep_view() == start + want.take(i as int),
        decreases items@.len() - i,
    {
        let line = if quoted {
            let q = backtick(items[i].as_str());
            concat2(prefix, q.as_str())
        } else {
            concat2(prefix, items[i].as_str())
        };
        push_line(lines, line);
        proof {
            assert(items.deep_view()[i as int] == items@[i as int]@);
            assert(want.take(i + 1) =~= want.take(i as int).push(want[i as int]));
        }
        i = i + 1;
    }
    assert(want.take(items@.len() as int) =~= want);
}

/// A version as shown, or `<none>`.
pub open spec fn or_none(v: Option<Seq<char>>) -> Seq<char> {
    match v {
        Some(x) => x,
        None => "<none>"@,
    }
}

/// Shows a version or `<none>`.
fn or_none_string(v: &Option<String>) -> (r: String)
    ensures
        r@ == or_none(v.deep_view()),
{
    proof {
        reveal_strlit("<none>");
    }
    match v {
        Some(x) => x.clone(),
        None => String::from_str("<none>"),
    }
}

/// A version change for a terminal.
pub open spec fn change_human_line(c: CandidateVersionChangeView) -> Seq<char> {
    "  "@ + change_identity_text(c) + ": "@ + or_none(c.before) + " -> "@ + or_none(c.after)
}

/// A version change in Markdown.
pub open spec fn change_markdown_line(c: CandidateVersionChangeView) -> Seq<char> {
    "- "@ + backtick_text(change_identity_text(c)) + ": `"@ + or_none(c.before) + "` -> `"@ + or_none(c.after) + "`"@
}

/// Appends a line per version change.
fn push_changes(lines: &mut Vec<String>, changes: &Vec<CandidateVersionChange>, markdown: bool)
    ensures
        final(lines).deep_view() == old(lines).deep_view() + if markdown {
            changes.deep_view().map_values(|c: CandidateVersionChangeView| change_markdown_line(c))
        } else {
            changes.deep_view().map_values(|c: CandidateVersionChangeView| change_human_line(c))
        },
{
    proof {
        reveal_strlit("  ");
        reveal_strlit(": ");
        reveal_strlit(" -> ");
        reveal_strlit("- ");
        reveal_strlit(": `");
        reveal_strlit("` -> `");
        reveal_strlit("`");
    }
    let ghost start = lines.deep_view();
    let ghost want = if markdown {
        changes.deep_view().map_values(|c: CandidateVersionChangeView| change_markdown_line(c))
    } else {
        changes.deep_view().map_values(|c: CandidateVersionChangeView| change_human_line(c))
    };
    let mut i: usize = 0;
    while i < changes.len()
        invariant
            want == if markdown {
                changes.deep_view().map_values(|c: CandidateVersionChangeView| change_markdown_line(c))
            } else {
                changes.deep_view().map_values(|c: CandidateVersionChangeView| change_human_line(c))
            },
            i <= changes@.len(),
            lines.deep_view() == start + want.take(i as int),
        decreases changes@.len() - i,
    {
        let c = &changes[i];
        let identity = format_version_change_identity(c);
        let before = or_none_string(&c.before);
        let after = or_none_string(&c.after);
        let line = if markdown {
            let q = backtick(identity.as_str());
            let mut l = concat3("- ", q.as_str(), ": `");
            l.append(before.as_str());
            l.append("` -> `");
            l.append(after.as_str());
            l.append("`");
            l
        } else {
            let mut l = concat3("  ", identity.as_str(), ": ");
            l.append(before.as_str());
            l.append(" -> ");
            l.append(after.as_str());
            l
        };
        push_line(lines, line);
        proof {
            assert(changes.deep_view()[i as int] == c@);
            assert(want.take(i + 1) =~= want.take(i as int).push(want[i as int]));
        }
        i = i + 1;
    }
    assert(want.take(changes@.len() as int) =~= want);
}

/// The human rendering of a resolve report, line by line.
pub open spec fn resolve_human_lines(r: crate::model::ResolveReportView) -> Seq<Seq<char>> {
    seq![
        "Current State"@,
        "  incompatible: "@ + decimal(r.current.incompatible_packages.len()) + ", unknown: "@ + decimal(r.current.unknown_packages.len()),
        ""@,
        "Candidate Lockfile Improvements"@,
    ] + (if r.version_changes.len() == 0 {
        seq!["  no version changes"@]
    } else {
        r.version_changes.map_values(|c: CandidateVersionChangeView| change_human_line(c))
    }) + seq![""@, "Remaining Blockers"@] + (if r.remaining_blockers.len() == 0 {
        seq!["  none"@]
    } else {
        prefixed(r.remaining_blockers, "  "@)
    })
}

/// Renders a resolve report for a terminal.
pub fn render_resolve_human(report: &crate::model::ResolveReport) -> (r: String)
    ensures
        r@ == join(resolve_human_lines(report@), "\n"@),
{
    proof {
        reveal_strlit("Current State");
        reveal_strlit("  incompatible: ");
        reveal_strlit(", unknown: ");
        reveal_strlit("");
        reveal_strlit("Candidate Lockfile Improvements");
        reveal_strlit("  no version changes");
        reveal_strlit("Remaining Blockers");
        reveal_strlit("  none");
        reveal_strlit("  ");
    }
    let ghost rv = report@;
    let mut lines: Vec<String> = Vec::new();
    push_str(&mut lines, "Current State");
    let a = usize_text(report.current.incompatible_packages.len());
    let b = usize_text(report.current.unknown_packages.len());
    let mut line = concat3("  incompatible: ", a.as_str(), ", unknown: ");
    line.append(b.as_str());
    push_line(&mut lines, line);
    push_str(&mut lines, "");
    push_str(&mut lines, "Candidate Lockfile Improvements");
    if report.version_changes.len() == 0 {
        push_str(&mut lines, "  no version changes");
    } else {
        push_changes(&mut lines, &report.version_changes, false);
    }
    push_str(&mut lines, "");
    push_str(&mut lines, "Remaining Blockers");
    if report.remaining_blockers.len() == 0 {
        push_str(&mut lines, "  none");
    } else {
        push_prefixed(&mut lines, &report.remaining_blockers, "  ", false);
    }
    assert(lines.deep_view() =~= resolve_human_lines(rv));
    join_lines(&lines)
}

/// A list in Markdown, or that there is none.
pub open spec fn markdown_list(items: Seq<Seq<char>>) -> Seq<Seq<char>> {
    if items.len() == 0 { seq!["- None"@] } else { prefixed_backticked(items, "- "@) }
}

/// The notes section in Markdown, if there are notes.
pub open spec fn markdown_notes(notes: Seq<Seq<char>>) -> Seq<Seq<char>> {
    if notes.len() == 0 { Seq::empty() } else { seq![""@, "## Notes"@] + prefixed(notes, "- "@) }
}

/// The Markdown rendering of a resolve report, line by line.
pub open spec fn resolve_markdown_lines(r: crate::model::ResolveReportView) -> Seq<Seq<char>> {
    seq![
        "# Candidate Resolution"@,
        "- Current blockers: "@ + decimal(r.current.incompatible_packages.len()) + " incompatible, "@
            + decimal(r.current.unknown_packages.len()) + " unknown"@,
        "- Candidate blockers: "@ + decimal(r.candidate.incompatible_packages.len()) + " incompatible, "@
            + decimal(r.candidate.unknown_packages.len()) + " unknown"@,
        "- Candidate lockfile captured: "@ + yes_no_text(r.candidate_lockfile is Some),
        ""@,
        "## Version Changes"@,
    ] + (if r.version_changes.len() == 0 {
        seq!["- None"@]
    } else {
        r.version_changes.map_values(|c: CandidateVersionChangeView| change_markdown_line(c))
    }) + seq![""@, "## Improved Packages"@] + markdown_list(r.improved_packages) + seq![""@, "## Remaining Blockers"@]
        + markdown_list(r.remaining_blockers) + markdown_notes(r.notes)
}

/// Appends a Markdown list, or that it is empty.
fn push_markdown_list(lines: &mut Vec<String>, items: &Vec<String>)
    ensures
        final(lines).deep_view() == old(lines).deep_view() + markdown_list(items.deep_view()),
{
    proof {
        reveal_strlit("- None");
        reveal_strlit("- ");
    }
    if items.len() == 0 {
        push_str(lines, "- None");
        assert(markdown_list(items.deep_view()) =~= seq!["- None"@]);
    } else {
        push_prefixed(lines, items, "- ", true);
    }
}

/// Appends the notes section, if there are notes.
fn push_markdown_notes(lines: &mut Vec<String>, notes: &Vec<String>)
    ensures
        final(lines).deep_view() == old(lines).deep_view() + markdown_notes(notes.deep_view()),
{
    proof {
        reveal_strlit("");
        reveal_strlit("## Notes");
        reveal_strlit("- ");
    }
    let ghost start = lines.deep_view();
    if notes.len() > 0 {
        push_str(lines, "");
        push_str(lines, "## Notes");
        push_prefixed(lines, notes, "- ", false);
        assert(lines.deep_view() =~= start + markdown_notes(notes.deep_view()));
    } else {
        assert(lines.deep_view() =~= start + markdown_notes(notes.deep_view()));
    }
}

/// Renders a resolve report as Markdown.
pub fn render_resolve_markdown(report: &crate::model::ResolveReport) -> (r: String)
    ensures
        r@ == join(resolve_markdown_lines(report@), "\n"@),
{
    proof {
        reveal_strlit("# Candidate Resolution");
        reveal_strlit("- Current blockers: ");
        reveal_strlit("- Candidate blockers: ");
        reveal_strlit(" incompatible, ");
        reveal_strlit(" unknown");
        reveal_strlit("- Candidate lockfile captured: ");
        reveal_strlit("");
        reveal_strlit("## Version Changes");
        reveal_strlit("- None");
        reveal_strlit("## Improved Packages");
        reveal_strlit("## Remaining Blockers");
    }
    let ghost rv = report@;
    let mut lines: Vec<String> = Vec::new();
    push_str(&mut lines, "# Candidate Resolution");
    let a = usize_text(report.current.incompatible_packages.len());
    let b = usize_text(report.current.unknown_packages.len());
    let mut line = concat3("- Current blockers: ", a.as_str(), " incompatible, ");
    line.append(b.as_str());
    line.append(" unknown");
    push_line(&mut lines, line);
    let c = usize_text(report.candidate.incompatible_packages.len());
    let d = usize_text(report.candidate.unknown_packages.len());
    let mut line2 = concat3("- Candidate blockers: ", c.as_str(), " incompatible, ");
    line2.append(d.as_str());
    line2.append(" unknown");
    push_line(&mut lines, line2);
    push_line(&mut lines, concat2("- Candidate lockfile captured: ", yes_no(report.candidate_lockfile.is_some())));
    push_str(&mut lines, "");
    push_str(&mut lines, "## Version Changes");
    if report.version_changes.len() == 0 {
        push_str(&mut lines, "- None");
    } else {
        push_changes(&mut lines, &report.version_changes, true);
    }
    push_str(&mut lines, "");
    push_str(&mut lines, "## Improved Packages");
    push_markdown_list(&mut lines, &report.improved_packages);
    push_str(&mut lines, "");
    push_str(&mut lines, "## Remaining Blockers");
    push_markdown_list(&mut lines, &report.remaining_blockers);
    push_markdown_notes(&mut lines, &report.notes);
    assert(lines.deep_view() =~= resolve_markdown_lines(rv));
    join_lines(&lines)
}

/// A manifest suggestion for a terminal.
pub open spec fn suggestion_human_line(x: crate::model::ManifestSuggestionView) -> Seq<char> {
    "  "@ + x.dependency_key + " in "@ + x.package_name + ": "@ + x.current_requirement + " -> "@
        + x.suggested_requirement + " ("@ + x.reason + ")"@
}

/// A manifest suggestion in Markdown.
pub open spec fn suggestion_markdown_line(x: crate::model::ManifestSuggestionView) -> Seq<char> {
    "- `"@ + x.dependency_key + "` in `"@ + x.package_name + "`: `"@ + x.current_requirement + "` -> `"@
        + x.suggested_requirement + "`"@
}

/// Appends a line per suggestion.
fn push_suggestions(lines: &mut Vec<String>, suggestions: &Vec<crate::model::ManifestSuggestion>, markdown: bool)
    ensures
        final(lines).deep_view() == old(lines).deep_view() + if markdown {
            suggestions.deep_view().map_values(|x: crate::model::ManifestSuggestionView| suggestion_markdown_line(x))
        } else {
            suggestions.deep_view().map_values(|x: crate::model::ManifestSuggestionView| suggestion_human_line(x))
        },
{
    proof {
        reveal_strlit("  ");
        reveal_strlit(" in ");
        reveal_strlit(": ");
        reveal_strlit(" -> ");
        reveal_strlit(" (");
        reveal_strlit(")");
        reveal_strlit("- `");
        reveal_strlit("` in `");
        reveal_strlit("`: `");
        reveal_strlit("` -> `");
        reveal_strlit("`");
    }
    let ghost start = lines.deep_view();
    let ghost want = if markdown {
        suggestions.deep_view().map_values(|x: crate::model::ManifestSuggestionView| suggestion_markdown_line(x))
    } else {
        suggestions.deep_view().map_values(|x: crate::model::ManifestSuggestionView| suggestion_human_line(x))
    };
    let mut i: usize = 0;
    while i < suggestions.len()
        invariant
            want == if markdown {
                suggestions.deep_view().map_values(|x: crate::model::ManifestSuggestionView| suggestion_markdown_line(x))
            } else {
                suggestions.deep_view().map_values(|x: crate::model::ManifestSuggestionView| suggestion_human_line(x))
            },
            i <= suggestions@.len(),
            lines.deep_view() == start + want.take(i as int),
        decreases suggestions@.len() - i,
    {
        let x = &suggestions[i];
        let line = if markdown {
            let mut l = concat3("- `", x.dependency_key.as_str(), "` in `");
            l.append(x.package_name.as_str());
            l.append("`: `");
            l.append(x.current_requirement.as_str());
            l.append("` -> `");
            l.append(x.suggested_requirement.as_str());
            l.append("`");
            l
        } else {
            let mut l = concat3("  ", x.dependency_key.as_str(), " in ");
            l.append(x.package_name.as_str());
            l.append(": ");
            l.append(x.current_requirement.as_str());
            l.append(" -> ");
            l.append(x.suggested_requirement.as_str());
            l.append(" (");
            l.append(x.reason.as_str());
            l.append(")");
            l
        };
        push_line(lines, line);
        proof {
            assert(suggestions.deep_view()[i as int] == x@);
            assert(want.take(i + 1) =~= want.take(i as int).push(want[i as int]));
        }
        i = i + 1;
    }
    assert(want.take(suggestions@.len() as int) =~= want);
}

/// The human rendering of manifest suggestions, line by line.
pub open spec fn manifest_human_lines(
    resolution: crate::model::ResolveReportView,
    suggestions: Seq<crate::model::ManifestSuggestionView>,
    wrote_manifests: bool,
) -> Seq<Seq<char>> {
    seq![
        "Candidate Lockfile Improvements"@,
        "  improved packages: "@ + join(resolution.improved_packages, ", "@),
        ""@,
        "Suggested Direct Manifest Changes"@,
    ] + (if suggestions.len() == 0 {
        seq!["  none"@]
    } else {
        suggestions.map_values(|x: crate::model::ManifestSuggestionView| suggestion_human_line(x))
    }) + seq![""@, if wrote_manifests { "Manifest write mode: applied"@ } else { "Manifest write mode: dry-run"@ }]
}

/// Renders manifest suggestions for a terminal.
pub fn render_manifest_human(
    resolution: &crate::model::ResolveReport,
    suggestions: &Vec<crate::model::ManifestSuggestion>,
    wrote_manifests: bool,
) -> (r: String)
    ensures
        r@ == join(manifest_human_lines(resolution@, suggestions.deep_view(), wrote_manifests), "\n"@),
{
    proof {
        reveal_strlit("Candidate Lockfile Improvements");
        reveal_strlit("  improved packages: ");
        reveal_strlit(", ");
        reveal_strlit("");
        reveal_strlit("Suggested Direct Manifest Changes");
        reveal_strlit("  none");
        reveal_strlit("Manifest write mode: applied");
        reveal_strlit("Manifest write mode: dry-run");
    }
    let mut lines: Vec<String> = Vec::new();
    push_str(&mut lines, "Candidate Lockfile Improvements");
    let improved = join_strings(&resolution.improved_packages, ", ");
    assert(views(resolution.improved_packages@) =~= resolution@.improved_packages);
    push_line(&mut lines, concat2("  improved packages: ", improved.as_str()));
    push_str(&mut lines, "");
    push_str(&mut lines, "Suggested Direct Manifest Changes");
    if suggestions.len() == 0 {
        push_str(&mut lines, "  none");
    } else {
        push_suggestions(&mut lines, suggestions, false);
    }
    push_str(&mut lines, "");
    if wrote_manifests {
        push_str(&mut lines, "Manifest write mode: applied");
    } else {
        push_str(&mut lines, "Manifest write mode: dry-run");
    }
    assert(lines.deep_view() =~= manifest_human_lines(resolution@, suggestions.deep_view(), wrote_manifests));
    join_lines(&lines)
}

/// `true` or `false`, as `Display` writes a `bool`.
pub open spec fn bool_text(value: bool) -> Seq<char> {
    if value { "true"@ } else { "false"@ }
}

/// The Markdown rendering of manifest suggestions, line by line.
pub open spec fn manifest_markdown_lines(
    resolution: crate::model::ResolveReportView,
    suggestions: Seq<crate::model::ManifestSuggestionView>,
    wrote_manifests: bool,
) -> Seq<Seq<char>> {
    seq![
        "# Suggested Direct Manifest Changes"@,
        "- Dry run: "@ + bool_text(!wrote_manifests),
        "- Remaining blockers: "@ + join(resolution.remaining_blockers, ", "@),
    ] + suggestions.map_values(|x: crate::model::ManifestSuggestionView| suggestion_markdown_line(x))
}

/// Renders manifest suggestions as Markdown.
pub fn render_manifest_markdown(
    resolution: &crate::model::ResolveReport,
    suggestions: &Vec<crate::model::ManifestSuggestion>,
    wrote_manifests: bool,
) -> (r: String)
    ensures
        r@ == join(manifest_markdown_lines(resolution@, suggestions.deep_view(), wrote_manifests), "\n"@),
{
    proof {
        reveal_strlit("# Suggested Direct Manifest Changes");
        reveal_strlit("- Dry run: ");
        reveal_strlit("true");
        reveal_strlit("false");
        reveal_strlit("- Remaining blockers: ");
        reveal_strlit(", ");
    }
    let mut lines: Vec<String> = Vec::new();
    push_str(&mut lines, "# Suggested Direct Manifest Changes");
    let dry = if wrote_manifests { "false" } else { "true" };
    push_line(&mut lines, concat2("- Dry run: ", dry));
    let remaining = join_strings(&resolution.remaining_blockers, ", ");
    assert(views(resolution.remaining_blockers@) =~= resolution@.remaining_blockers);
    push_line(&mut lines, concat2("- Remaining blockers: ", remaining.as_str()));
    push_suggestions(&mut lines, suggestions, true);
    assert(lines.deep_view() =~= manifest_markdown_lines(resolution@, suggestions.deep_view(), wrote_manifests));
    join_lines(&lines)
}

/// A line with the text after a prefix (in backticks when asked), when
/// there is a text.
pub open spec fn text_line(value: Option<Seq<char>>, prefix: Seq<char>, quoted: bool) -> Seq<Seq<char>> {
    match value {
        Some(v) => seq![prefix + if quoted { backtick_text(v) } else { v }],
        None => Seq::empty(),
    }
}

/// A line with the verdict's name in backticks after a prefix, when there
/// is a verdict.
pub open spec fn status_line(value: Option<CompatibilityStatus>, prefix: Seq<char>) -> Seq<Seq<char>> {
    match value {
        Some(v) => seq![prefix + backtick_text(status_text(v))],
        None => Seq::empty(),
    }
}

/// A line with the blocker kind after a prefix (its variant name, or its
/// snake-case name in backticks), when there is one.
pub open spec fn blocker_line(value: Option<BlockerKind>, prefix: Seq<char>, debug: bool) -> Seq<Seq<char>> {
    match value {
        Some(v) => seq![prefix + if debug { blocker_debug_text(v) } else { backtick_text(blocker_text(v)) }],
        None => Seq::empty(),
    }
}

/// Appends `text_line`.
fn push_text_line(lines: &mut Vec<String>, value: &Option<String>, prefix: &str, quoted: bool)
    ensures
        final(lines).deep_view() == old(lines).deep_view() + text_line(value.deep_view(), prefix@, quoted),
{
    let ghost start = lines.deep_view();
    if let Some(v) = value {
        let shown = if quoted { backtick(v.as_str()) } else { v.clone() };
        push_line(lines, concat2(prefix, shown.as_str()));
    }
    assert(lines.deep_view() =~= start + text_line(value.deep_view(), prefix@, quoted));
}

/// Appends `status_line`.
fn push_status_line(lines: &mut Vec<String>, value: &Option<CompatibilityStatus>, prefix: &str)
    ensures
        final(lines).deep_view() == old(lines).deep_view() + status_line(*value, prefix@),
{
    let ghost start = lines.deep_view();
    if let Some(v) = value {
        let shown = backtick(compatibility_status(v));
        push_line(lines, concat2(prefix, shown.as_str()));
    }
    assert(lines.deep_view() =~= start + status_line(*value, prefix@));
}

/// Appends `blocker_line`.
fn push_blocker_line(lines: &mut Vec<String>, value: &Option<BlockerKind>, prefix: &str, debug: bool)
    ensures
        final(lines).deep_view() == old(lines).deep_view() + blocker_line(*value, prefix@, debug),
{
    let ghost start = lines.deep_view();
    if let Some(v) = value {
        let shown = if debug { String::from_str(blocker_debug(v)) } else { backtick(blocker_kind(v)) };
        push_line(lines, concat2(prefix, shown.as_str()));
    }
    assert(lines.deep_view() =~= start + blocker_line(*value, prefix@, debug));
}

/// The human rendering of an explanation, line by line; `label` is the
/// resolved package's base label.
pub open spec fn explain_human_lines(r: crate::model::ExplainReportView, label: Seq<char>) -> Seq<Seq<char>> {
    seq!["Explanation"@, "  query: "@ + r.query]
        + (if r.package is Some { seq!["  resolved package: "@ + label] } else { Seq::empty() })
        + text_line(r.current_reason, "  current result: "@, false)
        + blocker_line(r.blocker, "  blocker: "@, true)
        + (if r.current_paths.len() == 0 {
            Seq::empty()
        } else {
            seq![""@, "Dependency Paths"@] + r.current_paths.map_values(|p: DependencyPathView| "  "@ + p.member + ": "@ + chain_text(p))
        })
}

/// Appends a line per dependency path.
fn push_paths(lines: &mut Vec<String>, paths: &Vec<DependencyPath>, markdown: bool)
    ensures
        final(lines).deep_view() == old(lines).deep_view() + if markdown {
            paths.deep_view().map_values(|p: DependencyPathView| "- "@ + backtick_text(p.member) + ": "@ + backtick_text(chain_text(p)))
        } else {
            paths.deep_view().map_values(|p: DependencyPathView| "  "@ + p.member + ": "@ + chain_text(p))
        },
{
    proof {
        reveal_strlit("- ");
        reveal_strlit("  ");
        reveal_strlit(": ");
    }
    let ghost start = lines.deep_view();
    let ghost want = if markdown {
        paths.deep_view().map_values(|p: DependencyPathView| "- "@ + backtick_text(p.member) + ": "@ + backtick_text(chain_text(p)))
    } else {
        paths.deep_view().map_values(|p: DependencyPathView| "  "@ + p.member + ": "@ + chain_text(p))
    };
    let mut i: usize = 0;
    while i < paths.len()
        invariant
            want == if markdown {
                paths.deep_view().map_values(|p: DependencyPathView| "- "@ + backtick_text(p.member) + ": "@ + backtick_text(chain_text(p)))
            } else {
                paths.deep_view().map_values(|p: DependencyPathView| "  "@ + p.member + ": "@ + chain_text(p))
            },
            i <= paths@.len(),
            lines.deep_view() == start + want.take(i as int),
        decreases paths@.len() - i,
    {
        let p = &paths[i];
        let chain = chain_string(p);
        let line = if markdown {
            let m = backtick(p.member.as_str());
            let c = backtick(chain.as_str());
            let mut l = concat3("- ", m.as_str(), ": ");
            l.append(c.as_str());
            l
        } else {
            let mut l = concat3("  ", p.member.as_str(), ": ");
            l.append(chain.as_str());
            l
        };
        push_line(lines, line);
        proof {
            assert(paths.deep_view()[i as int] == p@);
            assert(want.take(i + 1) =~= want.take(i as int).push(want[i as int]));
        }
        i = i + 1;
    }
    assert(want.take(paths@.len() as int) =~= want);
}

/// Renders an explanation for a terminal.
pub fn render_explain_human(report: &crate::model::ExplainReport) -> (r: String)
    ensures
        exists|label: Seq<char>| (report@.package matches Some(p) ==> crate::identity::base_label_fits(p, report@.workspace_root, label))
            && r@ == join(explain_human_lines(report@, label), "\n"@),
{
    proof {
        reveal_strlit("Explanation");
        reveal_strlit("  query: ");
        reveal_strlit("  resolved package: ");
        reveal_strlit("  current result: ");
        reveal_strlit("  blocker: ");
        reveal_strlit("");
        reveal_strlit("Dependency Paths");
    }
    let ghost rv = report@;
    let mut lines: Vec<String> = Vec::new();
    push_str(&mut lines, "Explanation");
    push_line(&mut lines, concat2("  query: ", report.query.as_str()));
    let ghost l1 = lines.deep_view();
    let mut label = String::new();
    if let Some(package) = &report.package {
        label = crate::identity::base_package_label(package, report.workspace_root.as_str());
        push_line(&mut lines, concat2("  resolved package: ", label.as_str()));
    }
    let ghost l2 = lines.deep_view();
    push_text_line(&mut lines, &report.current_reason, "  current result: ", false);
    push_blocker_line(&mut lines, &report.blocker, "  blocker: ", true);
    if report.current_paths.len() > 0 {
        push_str(&mut lines, "");
        push_str(&mut lines, "Dependency Paths");
        push_paths(&mut lines, &report.current_paths, false);
    }
    proof {
        assert(l2 =~= l1 + (if rv.package is Some { seq!["  resolved package: "@ + label@] } else { Seq::empty() }));
        assert(lines.deep_view() =~= explain_human_lines(rv, label@));
    }
    join_lines(&lines)
}

/// The Markdown rendering of an explanation, line by line; `label` is the
/// resolved package's base label.
pub open spec fn explain_markdown_lines(r: crate::model::ExplainReportView, label: Seq<char>) -> Seq<Seq<char>> {
    seq![
        "# Explanation"@,
        "- Query: "@ + backtick_text(r.query),
        "- Target selection: "@ + target_text(r.target.target_rust_version),
    ] + (if r.package is Some { seq!["- Resolved package: "@ + backtick_text(label)] } else { Seq::empty() })
        + explain_detail_lines(r)
        + (if r.current_paths.len() == 0 {
            Seq::empty()
        } else {
            seq![""@, "## Dependency Paths"@] + r.current_paths.map_values(|p: DependencyPathView| "- "@ + backtick_text(p.member) + ": "@
                + backtick_text(chain_text(p)))
        }) + markdown_notes(r.notes)
}

/// The optional detail lines of a Markdown explanation.
pub open spec fn explain_detail_lines(r: crate::model::ExplainReportView) -> Seq<Seq<char>> {
    status_line(r.current_status, "- Current status: "@)
        + text_line(r.current_reason, "- Current result: "@, false)
        + text_line(r.current_rust_version, "- Current rust-version: "@, true)
        + text_line(r.candidate_version, "- Candidate version: "@, true)
        + status_line(r.candidate_status, "- Candidate status: "@)
        + blocker_line(r.blocker, "- Blocker: "@, false)
}

/// Appends the optional detail lines of a Markdown explanation.
fn push_explain_details(lines: &mut Vec<String>, report: &crate::model::ExplainReport)
    ensures
        final(lines).deep_view() == old(lines).deep_view() + explain_detail_lines(report@),
{
    let ghost start = lines.deep_view();
    push_status_line(lines, &report.current_status, "- Current status: ");
    push_text_line(lines, &report.current_reason, "- Current result: ", false);
    push_text_line(lines, &report.current_rust_version, "- Current rust-version: ", true);
    push_text_line(lines, &report.candidate_version, "- Candidate version: ", true);
    push_status_line(lines, &report.candidate_status, "- Candidate status: ");
    push_blocker_line(lines, &report.blocker, "- Blocker: ", false);
    assert(lines.deep_view() =~= start + explain_detail_lines(report@));
}

/// Renders an explanation as Markdown.
pub fn render_explain_markdown(report: &crate::model::ExplainReport) -> (r: String)
    ensures
        exists|label: Seq<char>| (report@.package matches Some(p) ==> crate::identity::base_label_fits(p, report@.workspace_root, label))
            && r@ == join(explain_markdown_lines(report@, label), "\n"@),
{
    proof {
        reveal_strlit("# Explanation");
        reveal_strlit("- Query: ");
        reveal_strlit("- Target selection: ");
        reveal_strlit("- Resolved package: ");
        reveal_strlit("- Current status: ");
        reveal_strlit("- Current result: ");
        reveal_strlit("- Current rust-version: ");
        reveal_strlit("- Candidate version: ");
        reveal_strlit("- Candidate status: ");
        reveal_strlit("- Blocker: ");
        reveal_strlit("");
        reveal_strlit("## Dependency Paths");
    }
    let ghost rv = report@;
    let mut lines: Vec<String> = Vec::new();
    push_str(&mut lines, "# Explanation");
    let q = backtick(report.query.as_str());
    push_line(&mut lines, concat2("- Query: ", q.as_str()));
    let target = target_string(&report.target.target_rust_version);
    push_line(&mut lines, concat2("- Target selection: ", target.as_str()));
    let ghost l1 = lines.deep_view();
    let mut label = String::new();
    if let Some(package) = &report.package {
        label = crate::identity::base_package_label(package, report.workspace_root.as_str());
        let b = backtick(label.as_str());
        push_line(&mut lines, concat2("- Resolved package: ", b.as_str()));
    }
    let ghost l2 = lines.deep_view();
    push_explain_details(&mut lines, report);
    let ghost l8 = lines.deep_view();
    if report.current_paths.len() > 0 {
        push_str(&mut lines, "");
        push_str(&mut lines, "## Dependency Paths");
        push_paths(&mut lines, &report.current_paths, true);
    }
    let ghost l9 = lines.deep_view();
    push_markdown_notes(&mut lines, &report.notes);
    proof {
        assert(l2 =~= l1 + (if rv.package is Some { seq!["- Resolved package: "@ + backtick_text(label@)] } else { Seq::empty() }));
        assert(l8 =~= l2 + explain_detail_lines(rv));
        assert(lines.deep_view() =~= explain_markdown_lines(rv, label@));
    }
    join_lines(&lines)
}

} // verus!
