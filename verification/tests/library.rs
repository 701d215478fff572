use cargo_compatible::compat::try_classify_package;
use cargo_compatible::error::Error;
use cargo_compatible::manifest_edit::package_identity;
use cargo_compatible::model::{CompatibilityStatus, MemberTarget};
use cargo_compatible::sort::{sort_by_key, sort_texts};
use cargo_compatible::version::{
    display_rust_version, normalize_rust_version, pad_rust_version, parse_rust_version,
    parse_version, Version,
};

#[test]
fn every_error_has_its_message() {
    let cases = vec![
        (Error::InvalidRustVersion("1.2.3.4".to_string()), "invalid Rust version `1.2.3.4`"),
        (Error::InvalidVersion("x.0.0".to_string()), "invalid version `x.0.0`"),
        (Error::InvalidRequirement("^^1".to_string()), "invalid dependency requirement `^^1`"),
        (Error::InvalidVersionRequirement("^^1".to_string()), "invalid version requirement `^^1`"),
        (
            Error::InvalidCandidateVersion("nope".to_string(), "demo".to_string()),
            "invalid version `nope` for `demo`",
        ),
        (
            Error::InvalidCandidateRustVersion("1.x".to_string(), "demo".to_string()),
            "invalid rust-version `1.x` for `demo`",
        ),
        (Error::InvalidIndexKey("".to_string()), "crate name `` is not a valid registry index key"),
        (
            Error::UnmatchedPackageSpec("helper".to_string()),
            "package spec `helper` did not match any workspace member by exact package name, package ID, or manifest path",
        ),
        (Error::NoRootPackage, "this workspace has no root package; pass --workspace or --package"),
        (Error::SelectedPackageMissing("x".to_string()), "selected package `x` not found in metadata"),
        (Error::MemberMissing("x".to_string()), "selected package `x` missing from metadata"),
        (Error::PackageMissing("x".to_string()), "package `x` missing from package map"),
        (
            Error::UnmatchedQuery("low".to_string()),
            "query `low` did not match any package in the selected dependency graph",
        ),
        (
            Error::AmbiguousQuery("shared".to_string(), vec!["a".to_string(), "b".to_string()]),
            "query `shared` matches several packages; pass one of these package IDs: a, b",
        ),
        (Error::MissingResolveGraph, "cargo metadata returned no resolve graph"),
    ];
    for (error, message) in cases {
        assert_eq!(error.message(), message);
    }
}

#[test]
fn try_classify_refuses_unparsable_versions() {
    let target = Version::new(1, 60, 0);
    assert!(try_classify_package(Some("not-a-version"), &target).is_none());
    let (status, reason) = try_classify_package(Some("1.70"), &target).unwrap();
    assert_eq!(status, CompatibilityStatus::Incompatible);
    assert_eq!(
        reason,
        "resolved package declares rust-version 1.70, which exceeds target 1.60"
    );
    let (status, _) = try_classify_package(None, &target).unwrap();
    assert_eq!(status, CompatibilityStatus::Unknown);
}

#[test]
fn rust_versions_are_padded_and_displayed() {
    assert_eq!(pad_rust_version("1"), "1.0.0");
    assert_eq!(pad_rust_version("1.70"), "1.70.0");
    assert_eq!(pad_rust_version("1.70.1"), "1.70.1");
    assert_eq!(display_rust_version(&Version::new(1, 70, 0)), "1.70");
    assert_eq!(display_rust_version(&Version::new(1, 70, 2)), "1.70.2");
    assert_eq!(parse_rust_version("1.65").unwrap().text(), "1.65.0");
    assert_eq!(normalize_rust_version("1").unwrap().text(), "1.0.0");
    assert!(normalize_rust_version("1.2.3.4").is_err());
    assert_eq!(parse_version("1.2.3-beta.1+build").unwrap().text(), "1.2.3-beta.1+build");
    assert!(parse_version("1.2").is_none());
}

#[test]
fn package_identity_pairs_name_and_source() {
    assert_eq!(
        package_identity("serde", Some("registry+x")),
        ("serde".to_string(), Some("registry+x".to_string()))
    );
    assert_eq!(package_identity("local", None), ("local".to_string(), None));
}

#[test]
fn text_sort_orders_and_keeps_every_text() {
    let sorted = sort_texts(vec!["b".to_string(), "a".to_string(), "c".to_string(), "a".to_string()]);
    assert_eq!(sorted, vec!["a", "a", "b", "c"]);
}

#[test]
fn key_sort_is_stable() {
    let target = |name: &str, id: &str| MemberTarget {
        package_id: id.to_string(),
        package_name: name.to_string(),
        rust_version: None,
    };
    let sorted = sort_by_key(vec![target("b", "1"), target("a", "2"), target("b", "3"), target("a", "4")]);
    let ids = sorted.iter().map(|t| t.package_id.as_str()).collect::<Vec<_>>();
    assert_eq!(ids, vec!["2", "4", "1", "3"]);
}
