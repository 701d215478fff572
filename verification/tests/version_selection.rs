use cargo_compatible::index::select_best_candidate;
use cargo_compatible::model::{DependencyConstraint, RegistryCandidate};
use cargo_compatible::version::{parse_version, Version};

fn version(text: &str) -> Version {
    parse_version(text).unwrap()
}

fn same_version(left: &Version, right: &Version) -> bool {
    left.major == right.major
        && left.minor == right.minor
        && left.patch == right.patch
        && left.pre == right.pre
        && left.build == right.build
}

fn constraint(requirement: &str, target: &str, features: &[&str]) -> DependencyConstraint {
    DependencyConstraint {
        package_name: "demo".to_string(),
        dependency_key: "demo".to_string(),
        manifest_path: "Cargo.toml".to_string(),
        requirement: requirement.to_string(),
        source: Some("registry+https://github.com/rust-lang/crates.io-index".to_string()),
        features: features.iter().map(|feature| feature.to_string()).collect(),
        uses_default_features: true,
        optional: false,
        section: "dependencies".to_string(),
        target_rust_version: Some(version(target)),
    }
}

fn candidate(version_text: &str, rust_version: Option<&str>, features: &[&str]) -> RegistryCandidate {
    RegistryCandidate {
        version: version(version_text),
        rust_version: rust_version.map(version),
        yanked: false,
        features: features.iter().map(|feature| feature.to_string()).collect(),
    }
}

#[test]
fn stays_within_current_major_by_default() {
    let candidates = vec![
        candidate("1.8.0", Some("1.60.0"), &[]),
        candidate("2.0.0", Some("1.60.0"), &[]),
    ];
    let selected = select_best_candidate(&candidates, &constraint("^1.2", "1.60.0", &[]), false)
        .unwrap()
        .unwrap();
    assert!(same_version(&selected.version, &version("1.8.0")));
}

#[test]
fn allows_major_with_flag() {
    let candidates = vec![
        candidate("1.8.0", Some("1.60.0"), &[]),
        candidate("2.0.0", Some("1.60.0"), &[]),
    ];
    let selected = select_best_candidate(&candidates, &constraint("^1.2", "1.60.0", &[]), true)
        .unwrap()
        .unwrap();
    assert!(same_version(&selected.version, &version("2.0.0")));
}

#[test]
fn respects_feature_requirements() {
    let candidates = vec![
        candidate("1.5.0", Some("1.60.0"), &[]),
        candidate("1.4.0", Some("1.60.0"), &["serde"]),
    ];
    let selected = select_best_candidate(
        &candidates,
        &constraint("^1.0", "1.60.0", &["serde"]),
        false,
    )
    .unwrap()
    .unwrap();
    assert!(same_version(&selected.version, &version("1.4.0")));
}

#[test]
fn rejects_candidates_without_rust_version_metadata() {
    let candidates = vec![
        candidate("1.5.0", None, &[]),
        candidate("1.4.0", Some("1.60.0"), &[]),
    ];
    let selected = select_best_candidate(&candidates, &constraint("^1.0", "1.60.0", &[]), false)
        .unwrap()
        .unwrap();
    assert!(same_version(&selected.version, &version("1.4.0")));
}

#[test]
fn skips_yanked_and_too_new_releases() {
    let mut yanked = candidate("1.9.0", Some("1.60.0"), &[]);
    yanked.yanked = true;
    let candidates = vec![
        candidate("1.6.0", Some("1.58.0"), &[]),
        candidate("1.7.0", Some("1.65.0"), &[]),
        yanked,
    ];
    let selected = select_best_candidate(&candidates, &constraint("^1.0", "1.60.0", &[]), false)
        .unwrap()
        .unwrap();
    assert!(same_version(&selected.version, &version("1.6.0")));
}

#[test]
fn no_candidate_fits_gives_none() {
    let candidates = vec![candidate("1.7.0", Some("1.65.0"), &[])];
    let selected = select_best_candidate(&candidates, &constraint("^1.0", "1.60.0", &[]), false).unwrap();
    assert!(selected.is_none());
}

#[test]
fn unparsable_requirement_is_an_error() {
    let candidates = vec![candidate("1.7.0", Some("1.60.0"), &[])];
    let error = select_best_candidate(&candidates, &constraint("not a req", "1.60.0", &[]), false)
        .unwrap_err();
    assert_eq!(error.message(), "invalid dependency requirement `not a req`");
}
