use cargo_compatible::identity::{
    base_package_label, colliding_base_labels, package_identity_label, source_detail,
    stable_package_identity, stable_package_origin, unique_package_label,
};
use cargo_compatible::model::{PackageSourceKind, ResolvedPackage};
use cargo_compatible::version::Version;

fn path_package(id: &str, manifest_path: &str) -> ResolvedPackage {
    ResolvedPackage {
        id: id.to_string(),
        name: "shared".to_string(),
        version: Version::new(0, 1, 0),
        source: None,
        source_kind: PackageSourceKind::Path,
        manifest_path: manifest_path.to_string(),
        rust_version: Some("1.70".to_string()),
        workspace_member: false,
    }
}

fn registry_package(id: &str, manifest_path: &str) -> ResolvedPackage {
    ResolvedPackage {
        id: id.to_string(),
        name: "serde".to_string(),
        version: Version::new(1, 0, 200),
        source: Some("registry+https://github.com/rust-lang/crates.io-index".to_string()),
        source_kind: PackageSourceKind::Registry,
        manifest_path: manifest_path.to_string(),
        rust_version: None,
        workspace_member: false,
    }
}

#[test]
fn unique_package_label_falls_back_to_package_id_for_colliding_labels() {
    let workspace_root = "/workspace";
    let left = path_package(
        "path+file:///tmp/one/shared#shared@0.1.0",
        "/tmp/one/shared/Cargo.toml",
    );
    let right = path_package(
        "path+file:///var/two/shared#shared@0.1.0",
        "/var/two/shared/Cargo.toml",
    );
    let collisions = colliding_base_labels(&[(&left, workspace_root), (&right, workspace_root)]);

    assert_eq!(
        base_package_label(&left, workspace_root),
        "shared@0.1.0 [path: shared]"
    );
    assert!(unique_package_label(&left, workspace_root, &collisions)
        .contains("package-id: path+file:///tmp/one/shared#shared@0.1.0"));
}

#[test]
fn stable_package_identity_uses_workspace_relative_path_for_path_packages() {
    let package = path_package(
        "path+file:///tmp/workspace/deps/shared#shared@0.1.0",
        "/tmp/workspace/deps/shared/Cargo.toml",
    );

    assert_eq!(
        stable_package_identity(&package, "/tmp/workspace"),
        "shared@0.1.0|path:deps/shared"
    );
    assert_eq!(
        package_identity_label(&package, "/tmp/workspace"),
        "shared [path: deps/shared]"
    );
}

#[test]
fn source_detail_names_the_registry_and_git_sources() {
    assert_eq!(
        source_detail(Some("registry+https://github.com/rust-lang/crates.io-index")),
        Some("registry: crates.io".to_string())
    );
    assert_eq!(
        source_detail(Some("git+https://example.invalid/repo#1111111111111111abcd")),
        Some("git: https://example.invalid/repo#111111111111".to_string())
    );
    assert_eq!(
        source_detail(Some("git+https://example.invalid/repo")),
        Some("git: https://example.invalid/repo".to_string())
    );
    assert_eq!(
        source_detail(Some("registry+https://example.invalid/index")),
        Some("registry: https://example.invalid/index".to_string())
    );
    assert_eq!(source_detail(Some("other")), Some("other".to_string()));
    assert_eq!(source_detail(None), None);
}

#[test]
fn registry_labels_name_crates_io() {
    let package = registry_package(
        "registry+https://github.com/rust-lang/crates.io-index#serde@1.0.200",
        "/home/cargo/registry/serde-1.0.200/Cargo.toml",
    );
    assert_eq!(
        base_package_label(&package, "/workspace"),
        "serde@1.0.200 [registry: crates.io]"
    );
    assert_eq!(
        package_identity_label(&package, "/workspace"),
        "serde [registry: crates.io]"
    );
}

#[test]
fn labels_without_collisions_stay_plain() {
    let left = path_package(
        "path+file:///workspace/a/shared#shared@0.1.0",
        "/workspace/a/shared/Cargo.toml",
    );
    let right = registry_package(
        "registry+https://github.com/rust-lang/crates.io-index#serde@1.0.200",
        "/home/cargo/registry/serde-1.0.200/Cargo.toml",
    );
    let collisions = colliding_base_labels(&[(&left, "/workspace"), (&right, "/workspace")]);
    assert!(collisions.is_empty());
    assert_eq!(
        unique_package_label(&left, "/workspace", &collisions),
        base_package_label(&left, "/workspace")
    );
}

#[test]
fn stable_origin_is_the_same_in_a_copy_of_the_workspace() {
    let real = path_package("path+file:///workspace/deps/a#shared@0.1.0", "/workspace/deps/a/Cargo.toml");
    let copy = path_package("path+file:///tmp/copy/deps/a#shared@0.1.0", "/tmp/copy/deps/a/Cargo.toml");
    assert_eq!(stable_package_origin(&real, "/workspace"), "path:deps/a");
    assert_eq!(stable_package_origin(&copy, "/tmp/copy"), "path:deps/a");
    assert_eq!(
        stable_package_identity(&real, "/workspace"),
        stable_package_identity(&copy, "/tmp/copy")
    );
}

#[test]
fn unique_labels_differ_and_keep_unshared_base_labels() {
    let root = "/workspace";
    let left = path_package("path+file:///tmp/one/shared#shared@0.1.0", "/tmp/one/shared/Cargo.toml");
    let right = path_package("path+file:///var/two/shared#shared@0.1.0", "/var/two/shared/Cargo.toml");
    let other = registry_package("registry+https://github.com/rust-lang/crates.io-index#serde@1.0.200", "/r/serde/Cargo.toml");
    let collisions = colliding_base_labels(&[(&left, root), (&right, root), (&other, root)]);
    assert_eq!(collisions, vec!["shared@0.1.0 [path: shared]".to_string()]);
    let labels = [&left, &right, &other].map(|p| unique_package_label(p, root, &collisions));
    assert_eq!(labels[0], "shared@0.1.0 [path: shared] [package-id: path+file:///tmp/one/shared#shared@0.1.0]");
    assert_eq!(labels[1], "shared@0.1.0 [path: shared] [package-id: path+file:///var/two/shared#shared@0.1.0]");
    assert_eq!(labels[2], "serde@1.0.200 [registry: crates.io]");
    assert_ne!(labels[0], labels[1]);
}
