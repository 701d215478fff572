use cargo_compatible::index::{
    collect_candidates, index_candidate, local_registry_candidate, local_registry_index_path,
    lowercase, parse_requirement_anchor, IndexDependency, IndexEntry,
};

fn entry(vers: &str, rust_version: Option<&str>, yanked: bool) -> IndexEntry {
    IndexEntry {
        vers: vers.to_string(),
        deps: vec![
            IndexDependency { name: "serde".to_string(), optional: true },
            IndexDependency { name: "log".to_string(), optional: false },
        ],
        features: vec!["std".to_string()],
        yanked,
        rust_version: rust_version.map(str::to_string),
    }
}

fn text_of(v: &cargo_compatible::version::Version) -> String {
    v.text()
}

#[test]
fn requirement_anchor_is_the_first_number() {
    assert_eq!(parse_requirement_anchor("^1.2"), Some(1));
    assert_eq!(parse_requirement_anchor(">=0.9, <2"), Some(0));
    assert_eq!(parse_requirement_anchor("=12.0.1"), Some(12));
    assert_eq!(parse_requirement_anchor("*"), None);
}

#[test]
fn local_registry_candidate_reads_versions_and_features() {
    let candidate = local_registry_candidate(&entry("1.2.3", Some("1.60"), false), "demo").unwrap();
    assert_eq!(text_of(&candidate.version), "1.2.3");
    assert_eq!(candidate.rust_version.as_ref().map(text_of), Some("1.60.0".to_string()));
    assert!(!candidate.yanked);
    assert!(candidate.features.contains(&"std".to_string()));
    assert!(candidate.features.contains(&"serde".to_string()));
    assert!(!candidate.features.contains(&"log".to_string()));
}

#[test]
fn local_registry_candidate_refuses_bad_versions() {
    let error = local_registry_candidate(&entry("nope", None, false), "demo").unwrap_err();
    assert_eq!(error.message(), "invalid version `nope` for `demo`");
    let error = local_registry_candidate(&entry("1.0.0", Some("1.x"), false), "demo").unwrap_err();
    assert_eq!(error.message(), "invalid rust-version `1.x` for `demo`");
}

#[test]
fn index_candidates_are_sorted_and_skip_bad_versions() {
    let entries = vec![
        entry("1.10.0", Some("1.70.0"), false),
        entry("bad", None, false),
        entry("1.2.0", Some("1.60.0"), true),
        entry("1.9.0", Some("not-a-version"), false),
    ];
    let candidates = collect_candidates(&entries);
    let versions = candidates.iter().map(|c| text_of(&c.version)).collect::<Vec<_>>();
    assert_eq!(versions, vec!["1.2.0", "1.9.0", "1.10.0"]);
    assert!(candidates[0].yanked);
    assert!(candidates[1].rust_version.is_none());
    assert!(index_candidate(&entry("bad", None, false)).is_none());
}

#[test]
fn local_registry_paths_follow_the_name_length() {
    let parts = |name: &str| local_registry_index_path(name).unwrap().unwrap();
    assert_eq!(parts("a"), vec!["1", "a"]);
    assert_eq!(parts("AB"), vec!["2", "ab"]);
    assert_eq!(parts("abc"), vec!["3", "a", "abc"]);
    assert_eq!(parts("Serde"), vec!["se", "rd", "serde"]);
    let error = local_registry_index_path("").unwrap().unwrap_err();
    assert_eq!(error.message(), "crate name `` is not a valid registry index key");
    assert_eq!(lowercase("Compat-Demo"), "compat-demo");
}

#[test]
fn a_release_sorts_after_its_pre_releases() {
    let entries = vec![
        entry("1.0.0", Some("1.60.0"), false),
        entry("1.0.0-beta.2", Some("1.60.0"), false),
        entry("0.9.9", Some("1.60.0"), false),
    ];
    let versions = collect_candidates(&entries).iter().map(|c| text_of(&c.version)).collect::<Vec<_>>();
    assert_eq!(versions, vec!["0.9.9", "1.0.0-beta.2", "1.0.0"]);
}
