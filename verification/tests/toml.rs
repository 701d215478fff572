use cargo_compatible::error::Error;
use cargo_compatible::model::ManifestSuggestion;
use cargo_compatible::toml::{local_registry_from_config, resolver_from_manifest, stage_manifest_edits};

fn suggestion(manifest_path: &str, package_name: &str, key: &str, requirement: &str, section: &str) -> ManifestSuggestion {
    ManifestSuggestion {
        package_name: package_name.to_string(),
        dependency_key: key.to_string(),
        dependency_name: key.to_string(),
        manifest_path: manifest_path.to_string(),
        current_requirement: "1".to_string(),
        suggested_requirement: requirement.to_string(),
        reason: "test".to_string(),
        target_rust_version: "1.60".to_string(),
        section: section.to_string(),
    }
}

#[test]
fn workspace_resolver_wins_over_package_resolver() {
    let text = "[package]\nname = \"a\"\nresolver = \"2\"\n\n[workspace]\nresolver = \"3\"\n";
    assert_eq!(resolver_from_manifest(text).unwrap().as_deref(), Some("3"));
}

#[test]
fn package_resolver_is_read_without_workspace_resolver() {
    let text = "[package]\nname = \"a\"\nresolver = \"2\"\n\n[workspace]\nmembers = [\"a\"]\n";
    assert_eq!(resolver_from_manifest(text).unwrap().as_deref(), Some("2"));
}

#[test]
fn manifest_without_resolver_sets_none() {
    assert_eq!(resolver_from_manifest("[package]\nname = \"a\"\n").unwrap(), None);
    assert_eq!(resolver_from_manifest("[workspace]\nresolver = 3\n").unwrap(), None);
}

#[test]
fn invalid_manifest_is_an_error() {
    let error = resolver_from_manifest("[package\nname = ").unwrap_err();
    assert!(matches!(error, Error::InvalidToml(_)));
    assert!(error.message().contains("TOML parse error"));
}

#[test]
fn local_registry_absolute_path_stands() {
    let text = "[source.crates-io]\nreplace-with = \"local\"\n\n[source.local]\nlocal-registry = \"/srv/registry\"\n";
    assert_eq!(
        local_registry_from_config(text, "/ws/.cargo").unwrap().as_deref(),
        Some("/srv/registry")
    );
}

#[test]
fn local_registry_relative_path_is_joined_to_config_dir() {
    let text = "[source.crates-io]\nreplace-with = \"vendored\"\n\n[source.vendored]\nlocal-registry = \"registry\"\n";
    assert_eq!(
        local_registry_from_config(text, "/ws/.cargo").unwrap().as_deref(),
        Some("/ws/.cargo/registry")
    );
}

#[test]
fn local_registry_needs_both_keys() {
    let no_replace = "[source.local]\nlocal-registry = \"/srv/registry\"\n";
    assert_eq!(local_registry_from_config(no_replace, "/ws/.cargo").unwrap(), None);
    let no_local = "[source.crates-io]\nreplace-with = \"local\"\n\n[source.local]\ndirectory = \"vendor\"\n";
    assert_eq!(local_registry_from_config(no_local, "/ws/.cargo").unwrap(), None);
    assert!(matches!(local_registry_from_config("[source", "/ws/.cargo"), Err(Error::InvalidToml(_))));
}

#[test]
fn staged_edits_replace_strings_and_set_table_versions() {
    let first = "[package]\nname = \"first\"\nversion = \"0.1.0\"\n\n[dependencies]\nserde = \"1\"\n";
    let edited = stage_manifest_edits(first, &vec![suggestion("first/Cargo.toml", "first", "serde", "0.9.0", "dependencies")]).unwrap();
    assert!(edited.contains("serde = \"0.9.0\""));
    let second = "[package]\nname = \"second\"\nversion = \"0.1.0\"\n\n[dependencies]\nregex = { version = \"1\" }\n";
    let edited = stage_manifest_edits(second, &vec![suggestion("second/Cargo.toml", "second", "regex", "1.10.0", "dependencies")]).unwrap();
    assert!(edited.contains("version = \"1.10.0\""));
    let third = "[package]\nname = \"third\"\n\n[dependencies.log]\nversion = \"0.4\"\nfeatures = [\"std\"]\n";
    let edited = stage_manifest_edits(third, &vec![suggestion("third/Cargo.toml", "third", "log", "0.4.20", "dependencies")]).unwrap();
    assert!(edited.contains("version = \"0.4.20\""));
    assert!(edited.contains("features = [\"std\"]"));
}

#[test]
fn staged_edits_find_platform_specific_dependencies() {
    let text = "[package]\nname = \"a\"\n\n[target.'cfg(unix)'.dependencies]\nlibc = \"0.2\"\n";
    let edited = stage_manifest_edits(text, &vec![suggestion("a/Cargo.toml", "a", "libc", "0.2.100", "dependencies")]).unwrap();
    assert!(edited.starts_with("[package]\nname = \"a\"\n\n[target.'cfg(unix)'.dependencies]\n"));
    assert!(edited.contains("libc = \"0.2.100\""));
}

#[test]
fn staged_edits_name_the_dependency_not_found() {
    let text = "[package]\nname = \"second\"\nversion = \"0.1.0\"\n\n[dependencies]\nregex = \"1\"\n";
    let suggestions = vec![
        suggestion("second/Cargo.toml", "second", "regex", "1.10.0", "dependencies"),
        suggestion("second/Cargo.toml", "second", "missing", "1.10.0", "dependencies"),
    ];
    let error = stage_manifest_edits(text, &suggestions).unwrap_err();
    assert_eq!(error.message(), "failed to locate dependency `missing` in `second/Cargo.toml`");
    assert!(matches!(stage_manifest_edits("[dependencies", &suggestions), Err(Error::InvalidToml(_))));
}

#[test]
fn staged_edits_skip_entries_that_take_no_requirement() {
    let text = "[dependencies]\nserde = 1\n\n[target.'cfg(unix)'.dependencies]\nserde = { version = \"1\", features = [\"derive\"] }\n";
    let edited = stage_manifest_edits(text, &vec![suggestion("a/Cargo.toml", "a", "serde", "1.0.100", "dependencies")]).unwrap();
    assert!(edited.starts_with("[dependencies]\nserde = 1\n\n[target.'cfg(unix)'.dependencies]\n"));
    assert!(edited.contains("version = \"1.0.100\""));
    assert!(edited.contains("features = [\"derive\"]"));
}

#[test]
fn local_registry_under_the_root_directory_gets_no_extra_separator() {
    let text = "[source.crates-io]\nreplace-with = \"local\"\n\n[source.local]\nlocal-registry = \"registry\"\n";
    assert_eq!(local_registry_from_config(text, "/").unwrap().as_deref(), Some("/registry"));
}
