use cargo_compatible::model::{
    BlockerKind, CandidateVersionChange, CompatibilityStatus, DependencyPath, PackageIssue,
    PackageSourceKind, PackageSummary, ResolveReport, ResolvedPackage, ScanReport,
    TargetSelection, TargetSelectionMode, WorkspaceSummary,
};
use cargo_compatible::report::{
    backtick, blocker_kind, compatibility_status, format_version_change_identity,
    render_resolve_human, render_resolve_markdown, render_scan_human, render_scan_markdown,
    yes_no,
};
use cargo_compatible::version::Version;

fn empty_scan_report() -> ScanReport {
    ScanReport {
        target: TargetSelection {
            mode: TargetSelectionMode::SelectedPackage,
            target_rust_version: Some("1.60".to_string()),
            members: Vec::new(),
            notes: Vec::new(),
        },
        workspace: WorkspaceSummary {
            workspace_root: "/workspace".to_string(),
            selected_members: vec!["app".to_string()],
            is_virtual_workspace: false,
            resolver: Some("3".to_string()),
            recommendations: Vec::new(),
        },
        package_summaries: vec![PackageSummary {
            package_name: "app".to_string(),
            incompatible: 0,
            unknown: 0,
        }],
        incompatible_packages: Vec::new(),
        unknown_packages: Vec::new(),
        notes: Vec::new(),
    }
}

fn too_new_issue() -> PackageIssue {
    PackageIssue {
        package: ResolvedPackage {
            id: "path+file:///workspace/too_new#0.1.0".to_string(),
            name: "too_new".to_string(),
            version: Version::new(0, 1, 0),
            source: None,
            source_kind: PackageSourceKind::Path,
            manifest_path: "/workspace/too_new/Cargo.toml".to_string(),
            rust_version: Some("1.70".to_string()),
            workspace_member: false,
        },
        status: CompatibilityStatus::Incompatible,
        target_rust_version: Some("1.60".to_string()),
        reason: "resolved package declares rust-version 1.70, which exceeds target 1.60"
            .to_string(),
        affected_members: vec!["app".to_string()],
        paths: vec![DependencyPath {
            member: "app".to_string(),
            target_rust_version: Some("1.60".to_string()),
            packages: vec!["app@0.1.0".to_string(), "too_new@0.1.0".to_string()],
        }],
    }
}

fn registry_change() -> CandidateVersionChange {
    CandidateVersionChange {
        package_name: "compat-demo".to_string(),
        source: Some("registry+https://github.com/rust-lang/crates.io-index".to_string()),
        package_label: None,
        before: Some("1.2.0".to_string()),
        after: Some("1.1.0".to_string()),
    }
}

fn resolve_report_with(changes: Vec<CandidateVersionChange>) -> ResolveReport {
    ResolveReport {
        current: empty_scan_report(),
        candidate: empty_scan_report(),
        version_changes: changes,
        improved_packages: Vec::new(),
        remaining_blockers: Vec::new(),
        candidate_lockfile: None,
        notes: Vec::new(),
    }
}

#[test]
fn resolve_human_disambiguates_registry_version_changes() {
    let report = resolve_report_with(vec![registry_change()]);

    let rendered = render_resolve_human(&report);

    assert!(rendered.contains("compat-demo [registry: crates.io]: 1.2.0 -> 1.1.0"));
}

#[test]
fn scan_human_labels_path_dependencies_with_relative_location() {
    let mut report = empty_scan_report();
    report.incompatible_packages.push(too_new_issue());

    let rendered = render_scan_human(&report);

    assert!(rendered.contains("too_new@0.1.0 [path: too_new]"));
}

#[test]
fn scan_human_lists_every_section() {
    let mut report = empty_scan_report();
    report.incompatible_packages.push(too_new_issue());
    let rendered = render_scan_human(&report);
    assert_eq!(
        rendered,
        [
            "Current State",
            "  target selection: 1.60",
            "  selected members: app",
            "",
            "Package Summaries",
            "  app: 0 incompatible, 0 unknown",
            "",
            "Incompatible Packages",
            "  too_new@0.1.0 [path: too_new] (resolved package declares rust-version 1.70, which exceeds target 1.60)",
            "    via app: app@0.1.0 -> too_new@0.1.0",
            "",
            "Unknown Packages",
            "  none",
        ]
        .join("\n")
    );
}

#[test]
fn scan_markdown_puts_labels_in_backticks() {
    let mut report = empty_scan_report();
    report.incompatible_packages.push(too_new_issue());
    report.target.target_rust_version = None;
    let rendered = render_scan_markdown(&report);
    assert!(rendered.starts_with("# Current State\n- Target selection: mixed-or-missing\n"));
    assert!(rendered.contains(
        "- `too_new@0.1.0 [path: too_new]`: resolved package declares rust-version 1.70, which exceeds target 1.60"
    ));
    assert!(rendered.ends_with("## Unknown Packages\n- None"));
}

#[test]
fn resolve_human_without_changes() {
    let report = resolve_report_with(Vec::new());
    assert_eq!(
        render_resolve_human(&report),
        "Current State\n  incompatible: 0, unknown: 0\n\nCandidate Lockfile Improvements\n  no version changes\n\nRemaining Blockers\n  none"
    );
}

#[test]
fn resolve_markdown_lists_changes_and_notes() {
    let mut report = resolve_report_with(vec![registry_change()]);
    report.notes.push("a note".to_string());
    report.candidate_lockfile = Some("lock".to_string());
    let rendered = render_resolve_markdown(&report);
    assert!(rendered.starts_with("# Candidate Resolution\n"));
    assert!(rendered.contains("- Candidate lockfile captured: yes"));
    assert!(rendered.contains("- `compat-demo [registry: crates.io]`: `1.2.0` -> `1.1.0`"));
    assert!(rendered.ends_with("## Notes\n- a note"));
}

#[test]
fn version_change_identity_prefers_the_label() {
    let mut change = registry_change();
    assert_eq!(
        format_version_change_identity(&change),
        "compat-demo [registry: crates.io]"
    );
    change.package_label = Some("compat-demo@1.1.0 [registry: crates.io]".to_string());
    assert_eq!(
        format_version_change_identity(&change),
        "compat-demo@1.1.0 [registry: crates.io]"
    );
    change.source = None;
    change.package_label = None;
    assert_eq!(format_version_change_identity(&change), "compat-demo");
}

#[test]
fn small_renderers_give_their_words() {
    assert_eq!(backtick("x"), "`x`");
    assert_eq!(yes_no(true), "yes");
    assert_eq!(yes_no(false), "no");
    assert_eq!(compatibility_status(&CompatibilityStatus::Unknown), "unknown");
    assert_eq!(blocker_kind(&BlockerKind::PathOrGitConstraint), "path_or_git_constraint");
    assert_eq!(
        blocker_kind(&BlockerKind::MixedWorkspaceRustVersionUnification),
        "mixed_workspace_rust_version_unification"
    );
}
