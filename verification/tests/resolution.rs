use cargo_compatible::model::{PackageSourceKind, ResolvedPackage};
use cargo_compatible::resolution::{
    compute_version_changes_from_packages, copied_entry, default_candidate_lockfile_path,
    diff_summary, lockfile_apply_outcome, manifest_in_temp, missing_candidate_message,
    resolution_command_args,
};
use cargo_compatible::version::Version;

fn resolved_package(
    id: &str,
    name: &str,
    version: (u64, u64, u64),
    source: Option<&str>,
    manifest_path: &str,
) -> ResolvedPackage {
    ResolvedPackage {
        id: id.to_string(),
        name: name.to_string(),
        version: Version::new(version.0, version.1, version.2),
        source: source.map(str::to_string),
        source_kind: match source {
            Some(source) if source.starts_with("registry+") => PackageSourceKind::Registry,
            Some(source) if source.starts_with("git+") => PackageSourceKind::Git,
            Some(_) => PackageSourceKind::Unknown,
            None => PackageSourceKind::Path,
        },
        manifest_path: manifest_path.to_string(),
        rust_version: Some("1.70".to_string()),
        workspace_member: false,
    }
}

#[test]
fn version_change_diff_omits_ambiguous_same_name_same_source_versions() {
    let registry = Some("registry+https://github.com/rust-lang/crates.io-index");
    let current = vec![
        resolved_package("pkg-a", "shared", (1, 0, 0), registry, "deps/shared-a/Cargo.toml"),
        resolved_package("pkg-b", "shared", (2, 0, 0), registry, "deps/shared-b/Cargo.toml"),
    ];
    let candidate = vec![resolved_package(
        "pkg-c",
        "shared",
        (1, 0, 0),
        registry,
        "deps/shared-c/Cargo.toml",
    )];

    let (changes, ambiguous) =
        compute_version_changes_from_packages(&current, "/workspace", &candidate, "/workspace");

    assert!(changes.is_empty());
    assert_eq!(ambiguous, vec!["shared [registry: crates.io]".to_string()]);
}

#[test]
fn version_change_diff_keeps_same_name_different_sources_separate() {
    let current = vec![
        resolved_package(
            "pkg-a",
            "shared",
            (1, 0, 0),
            Some("registry+https://github.com/rust-lang/crates.io-index"),
            "deps/registry/Cargo.toml",
        ),
        resolved_package(
            "pkg-b",
            "shared",
            (1, 0, 0),
            Some("git+https://example.invalid/repo#1111111111111111"),
            "deps/git/Cargo.toml",
        ),
    ];
    let candidate = vec![
        resolved_package(
            "pkg-a2",
            "shared",
            (0, 9, 0),
            Some("registry+https://github.com/rust-lang/crates.io-index"),
            "deps/registry/Cargo.toml",
        ),
        resolved_package(
            "pkg-b2",
            "shared",
            (1, 0, 0),
            Some("git+https://example.invalid/repo#1111111111111111"),
            "deps/git/Cargo.toml",
        ),
    ];

    let (changes, ambiguous) =
        compute_version_changes_from_packages(&current, "/workspace", &candidate, "/workspace");

    assert!(ambiguous.is_empty());
    assert_eq!(changes.len(), 1);
    assert_eq!(changes[0].package_name, "shared");
    assert_eq!(
        changes[0].source.as_deref(),
        Some("registry+https://github.com/rust-lang/crates.io-index")
    );
    assert_eq!(changes[0].before.as_deref(), Some("1.0.0"));
    assert_eq!(changes[0].after.as_deref(), Some("0.9.0"));
    assert_eq!(
        changes[0].package_label.as_deref(),
        Some("shared@0.9.0 [registry: crates.io]")
    );
}

#[test]
fn version_change_diff_keeps_same_name_different_path_packages_separate() {
    let current = vec![
        resolved_package(
            "path+file:///workspace/deps/shared-a#shared@0.1.0",
            "shared",
            (1, 0, 0),
            None,
            "/workspace/deps/shared-a/Cargo.toml",
        ),
        resolved_package(
            "path+file:///workspace/deps/shared-b#shared@0.1.0",
            "shared",
            (1, 0, 0),
            None,
            "/workspace/deps/shared-b/Cargo.toml",
        ),
    ];
    let candidate = vec![
        resolved_package(
            "path+file:///tmp/candidate/deps/shared-a#shared@0.1.0",
            "shared",
            (0, 9, 0),
            None,
            "/tmp/candidate/deps/shared-a/Cargo.toml",
        ),
        resolved_package(
            "path+file:///tmp/candidate/deps/shared-b#shared@0.1.0",
            "shared",
            (1, 0, 0),
            None,
            "/tmp/candidate/deps/shared-b/Cargo.toml",
        ),
    ];

    let (changes, ambiguous) =
        compute_version_changes_from_packages(&current, "/workspace", &candidate, "/tmp/candidate");

    assert!(ambiguous.is_empty());
    assert_eq!(changes.len(), 1);
    assert_eq!(changes[0].before.as_deref(), Some("1.0.0"));
    assert_eq!(changes[0].after.as_deref(), Some("0.9.0"));
    assert_eq!(
        changes[0].package_label.as_deref(),
        Some("shared@0.9.0 [path: deps/shared-a]")
    );
}

#[test]
fn version_change_diff_matches_package_versions_on_a_sample() {
    // Each (name, origin) with one version on each side is reported exactly
    // when the versions differ; added and removed packages have one side.
    let registry = Some("registry+https://github.com/rust-lang/crates.io-index");
    let git = Some("git+https://example.invalid/repo");
    let current = vec![
        resolved_package("pkg-0", "crate_0", (1, 0, 0), registry, "deps/crate_0/Cargo.toml"),
        resolved_package("pkg-1", "crate_1", (0, 2, 0), git, "deps/crate_1/Cargo.toml"),
        resolved_package("pkg-2", "crate_2", (3, 1, 4), None, "deps/crate_2/Cargo.toml"),
    ];
    let candidate = vec![
        resolved_package("pkg-0", "crate_0", (1, 0, 0), registry, "deps/crate_0/Cargo.toml"),
        resolved_package("pkg-1", "crate_1", (0, 3, 0), git, "deps/crate_1/Cargo.toml"),
        resolved_package("pkg-3", "crate_3", (0, 0, 1), registry, "deps/crate_3/Cargo.toml"),
    ];

    let (changes, ambiguous) =
        compute_version_changes_from_packages(&current, "/workspace", &candidate, "/workspace");

    assert!(ambiguous.is_empty());
    let mut seen = changes
        .iter()
        .map(|change| {
            (
                change.package_name.clone(),
                change.source.clone(),
                change.before.clone(),
                change.after.clone(),
            )
        })
        .collect::<Vec<_>>();
    seen.sort();
    assert_eq!(
        seen,
        vec![
            (
                "crate_1".to_string(),
                git.map(str::to_string),
                Some("0.2.0".to_string()),
                Some("0.3.0".to_string())
            ),
            ("crate_2".to_string(), None, Some("3.1.4".to_string()), None),
            (
                "crate_3".to_string(),
                registry.map(str::to_string),
                None,
                Some("0.0.1".to_string())
            ),
        ]
    );
}

#[test]
fn unchanged_graph_has_no_changes() {
    let registry = Some("registry+https://github.com/rust-lang/crates.io-index");
    let current = vec![resolved_package("pkg-0", "crate_0", (1, 0, 0), registry, "deps/c/Cargo.toml")];
    let candidate = vec![resolved_package("pkg-0", "crate_0", (1, 0, 0), registry, "deps/c/Cargo.toml")];
    let (changes, ambiguous) =
        compute_version_changes_from_packages(&current, "/workspace", &candidate, "/workspace");
    assert!(changes.is_empty());
    assert!(ambiguous.is_empty());
}

#[test]
fn diff_summary_counts_package_entries() {
    let before = "version = 4\n\n[[package]]\nname = \"a\"\n\n[[package]]\n  name = \"b\"\n";
    let after = "[[package]]\nname = \"a\"\n";
    assert_eq!(diff_summary(before, after), "package entries: 2 -> 1");
    assert_eq!(diff_summary("", ""), "package entries: 0 -> 0");
    assert_eq!(diff_summary("names = 1\n", "x name = 2\n"), "package entries: 0 -> 0");
}

#[test]
fn apply_lock_reports_noop_when_candidate_matches_current() {
    let lock = "version = 4\n\n[[package]]\nname = \"apply-lock-fixture\"\nversion = \"0.1.0\"\n";
    let (write, message) = lockfile_apply_outcome(lock, lock, "/workspace/Cargo.lock");
    assert!(!write);
    assert!(message.contains("nothing to apply"), "expected no-op message, got: {message}");
}

#[test]
fn apply_lock_summarizes_a_change() {
    let (write, message) = lockfile_apply_outcome(
        "",
        "[[package]]\nname = \"member\"\n",
        "/workspace/Cargo.lock",
    );
    assert!(write);
    assert_eq!(
        message,
        "applied candidate lockfile to /workspace/Cargo.lock (package entries: 0 -> 1)"
    );
}

#[test]
fn apply_lock_rejects_missing_candidate_lockfile_message() {
    let message = missing_candidate_message("missing/Cargo.lock");
    assert!(message.contains("candidate lockfile"));
    assert!(message.contains("does not exist"));
    assert_eq!(
        message,
        "candidate lockfile `missing/Cargo.lock` does not exist; run `cargo compatible resolve --write-candidate missing/Cargo.lock` first"
    );
}

#[test]
fn manifest_in_temp_keeps_the_relative_manifest_path() {
    assert_eq!(
        manifest_in_temp("/ws", "/tmp/copy/workspace", "/ws/members/app/Cargo.toml"),
        "/tmp/copy/workspace/members/app/Cargo.toml"
    );
    assert_eq!(
        manifest_in_temp("/ws", "/tmp/copy/workspace", "/elsewhere/Cargo.toml"),
        "/tmp/copy/workspace/Cargo.toml"
    );
}

#[test]
fn default_candidate_lockfile_lives_under_the_tool_directory() {
    assert_eq!(default_candidate_lockfile_path(), ".cargo-compatible/candidate/Cargo.lock");
}

#[test]
fn workspace_copies_leave_out_tool_and_build_directories() {
    assert!(!copied_entry(".git"));
    assert!(!copied_entry("target"));
    assert!(!copied_entry(".cargo-compatible"));
    assert!(copied_entry("src"));
    assert!(copied_entry("Cargo.toml"));
}

#[test]
fn resolution_updates_an_existing_lockfile() {
    assert_eq!(
        resolution_command_args(true, "/tmp/w/Cargo.toml"),
        vec!["update", "--manifest-path", "/tmp/w/Cargo.toml"]
    );
    assert_eq!(
        resolution_command_args(false, "/tmp/w/Cargo.toml"),
        vec!["generate-lockfile", "--manifest-path", "/tmp/w/Cargo.toml"]
    );
}
