//! Package identity: labels that tell same-name packages apart, and
//! origins that stay stable across copies of a workspace.
use crate::model::{PackageSourceKind, ResolvedPackage, ResolvedPackageView};
use crate::paths::{
    file_name_text, has_suffix, last_slash, parent_text, path_file_name, path_parent, path_strip_prefix, plain_path,
    relative_base, strip_prefix_text,
};
use crate::text::{
    concat2, concat3, first_index_of, has_prefix, split_once_char, strip_text_prefix, take_chars,
    text_eq,
};
use crate::version::version_display;
use vstd::prelude::*;

verus! {

/// The index URL of crates.io.
pub open spec fn crates_io_git() -> Seq<char> {
    "https://github.com/rust-lang/crates.io-index"@
}

/// The sparse index URL of crates.io.
pub open spec fn crates_io_sparse() -> Seq<char> {
    "sparse+https://index.crates.io/"@
}

/// The first twelve characters of a text (all of a shorter one).
pub open spec fn first_twelve(s: Seq<char>) -> Seq<char> {
    if s.len() <= 12 { s } else { s.take(12) }
}

/// A readable description of a package source: registries by name
/// (crates.io for its two index URLs), git sources by repository and a
/// revision shortened to twelve characters, anything else as it is.
pub open spec fn source_detail_text(source: Option<Seq<char>>) -> Option<Seq<char>> {
    match source {
        None => None,
        Some(s) => if has_prefix(s, "registry+"@) {
            let registry = s.skip("registry+"@.len() as int);
            let name = if registry == crates_io_git() || registry == crates_io_sparse() {
                "crates.io"@
            } else {
                registry
            };
            Some("registry: "@ + name)
        } else if has_prefix(s, "git+"@) {
            let git = s.skip("git+"@.len() as int);
            match first_index_of(git, '#') {
                Some(i) => Some("git: "@ + git.take(i) + "#"@ + first_twelve(git.skip(i + 1))),
                None => Some("git: "@ + git),
            }
        } else {
            Some(s)
        },
    }
}

/// Describes a package source (see `source_detail_text`).
pub fn source_detail(source: Option<&str>) -> (r: Option<String>)
    ensures
        r.deep_view() == source_detail_text(source.deep_view()),
{
    let source = match source {
        Some(s) => s,
        None => return None,
    };
    if let Some(registry) = strip_text_prefix(source, "registry+") {
        let crates_io = text_eq(registry.as_str(), "https://github.com/rust-lang/crates.io-index")
            || text_eq(registry.as_str(), "sparse+https://index.crates.io/");
        if crates_io {
            return Some(concat2("registry: ", "crates.io"));
        }
        return Some(concat2("registry: ", registry.as_str()));
    }
    if let Some(git) = strip_text_prefix(source, "git+") {
        if let Some((repo, rev)) = split_once_char(git.as_str(), '#') {
            let short_rev = take_chars(rev.as_str(), 12);
            let mut r = concat3("git: ", repo.as_str(), "#");
            r.append(short_rev.as_str());
            return Some(r);
        }
        return Some(concat2("git: ", git.as_str()));
    }
    Some(String::from_str(source))
}

/// Chooses the readable location of a path package from the answers of
/// the path questions: the directory relative to the workspace root when
/// that is not empty, else the directory's last component, else the
/// directory.
pub open spec fn location_from_parts(
    directory: Seq<char>,
    relative: Option<Seq<char>>,
    file_name: Option<Seq<char>>,
) -> Seq<char> {
    match relative {
        Some(rel) if rel.len() > 0 => rel,
        _ => match file_name {
            Some(f) => f,
            None => directory,
        },
    }
}

/// Computes `location_from_parts`.
pub fn path_location_from_parts(
    directory: &str,
    relative: Option<&str>,
    file_name: Option<&str>,
) -> (r: String)
    ensures
        r@ == location_from_parts(directory@, relative.deep_view(), file_name.deep_view()),
{
    if let Some(rel) = relative {
        if !rel.is_empty() {
            return String::from_str(rel);
        }
    }
    match file_name {
        Some(f) => String::from_str(f),
        None => String::from_str(directory),
    }
}

/// Chooses the stable location of a path package: the directory relative
/// to the workspace root when that is not empty, else the manifest path
/// marked as a package id.
pub open spec fn stable_location_from_parts(manifest_path: Seq<char>, relative: Option<Seq<char>>) -> Seq<char> {
    match relative {
        Some(rel) if rel.len() > 0 => rel,
        _ => "package-id:"@ + manifest_path,
    }
}

/// Computes `stable_location_from_parts`.
pub fn stable_location_from_parts_text(manifest_path: &str, relative: Option<&str>) -> (r: String)
    ensures
        r@ == stable_location_from_parts(manifest_path@, relative.deep_view()),
{
    if let Some(rel) = relative {
        if !rel.is_empty() {
            return String::from_str(rel);
        }
    }
    concat2("package-id:", manifest_path)
}

/// What `std::path` may give for a manifest path: the directory is the
/// path itself or a leading part of its text, and for a plain directory the
/// relative directory is a trailing part of its text.
pub open spec fn path_pieces(manifest_path: Seq<char>, directory: Seq<char>, relative: Option<Seq<char>>) -> bool {
    &&& (directory == manifest_path || has_prefix(manifest_path, directory))
    &&& (plain_path(directory) ==> (relative matches Some(rel) ==> has_suffix(directory, rel)))
}

/// What `std::path` gives for a plain manifest path: the directory is its
/// parent (the path itself where it has none), and for a plain directory and
/// workspace root the relative directory is read off the text.
pub open spec fn plain_relative(
    manifest_path: Seq<char>,
    root: Seq<char>,
    directory: Seq<char>,
    relative: Option<Seq<char>>,
) -> bool {
    plain_path(manifest_path) ==> {
        &&& directory == match parent_text(manifest_path) {
            Some(d) => d,
            None => manifest_path,
        }
        &&& plain_path(directory) && plain_path(root) ==> relative == strip_prefix_text(directory, root)
        &&& plain_path(directory) && directory[0] == '/' && relative_base(root) ==> relative is None
    }
}

/// `plain_relative`, and the directory's name read off a plain directory.
pub open spec fn plain_pieces(
    manifest_path: Seq<char>,
    root: Seq<char>,
    directory: Seq<char>,
    relative: Option<Seq<char>>,
    file_name: Option<Seq<char>>,
) -> bool {
    &&& plain_relative(manifest_path, root, directory, relative)
    &&& plain_path(manifest_path) && plain_path(directory) ==> file_name == file_name_text(directory)
}

/// The readable location of a path package: its manifest's directory
/// relative to the workspace root, or that directory's name.
fn display_path_detail(manifest_path: &str, workspace_root: &str) -> (r: String)
    ensures
        exists|directory: Seq<char>, relative: Option<Seq<char>>, file_name: Option<Seq<char>>|
            path_pieces(manifest_path@, directory, relative)
            && plain_pieces(manifest_path@, workspace_root@, directory, relative, file_name)
            && r@ == #[trigger] location_from_parts(directory, relative, file_name),
{
    let directory = match path_parent(manifest_path) {
        Some(d) => d,
        None => String::from_str(manifest_path),
    };
    let relative = path_strip_prefix(directory.as_str(), workspace_root);
    let file_name = path_file_name(directory.as_str());
    let rel = match &relative {
        Some(x) => Some(x.as_str()),
        None => None,
    };
    let name = match &file_name {
        Some(x) => Some(x.as_str()),
        None => None,
    };
    let r = path_location_from_parts(directory.as_str(), rel, name);
    assert(path_pieces(manifest_path@, directory@, relative.deep_view()));
    assert(plain_pieces(manifest_path@, workspace_root@, directory@, relative.deep_view(), file_name.deep_view()));
    r
}

/// The stable location of a path package: its manifest's directory
/// relative to the workspace root, or its manifest path.
fn stable_path_detail(manifest_path: &str, workspace_root: &str) -> (r: String)
    ensures
        exists|directory: Seq<char>, relative: Option<Seq<char>>| #[trigger] path_pieces(manifest_path@, directory, relative)
            && plain_relative(manifest_path@, workspace_root@, directory, relative)
            && r@ == stable_location_from_parts(manifest_path@, relative),
{
    let directory = match path_parent(manifest_path) {
        Some(d) => d,
        None => String::from_str(manifest_path),
    };
    let relative = path_strip_prefix(directory.as_str(), workspace_root);
    let rel = match &relative {
        Some(x) => Some(x.as_str()),
        None => None,
    };
    let r = stable_location_from_parts_text(manifest_path, rel);
    assert(path_pieces(manifest_path@, directory@, relative.deep_view()));
    assert(plain_relative(manifest_path@, workspace_root@, directory@, relative.deep_view()));
    r
}

/// What a label's bracketed detail may be for a package read against a
/// workspace root: `workspace` for members, `path: <location>` for path
/// packages, the source description for the others.
pub open spec fn identity_detail_fits(p: ResolvedPackageView, root: Seq<char>, d: Option<Seq<char>>) -> bool {
    match p.source_kind {
        PackageSourceKind::Workspace => d == Some("workspace"@),
        PackageSourceKind::Path => d matches Some(t) && exists|directory: Seq<char>, relative: Option<Seq<char>>, file_name: Option<Seq<char>>|
            path_pieces(p.manifest_path, directory, relative)
            && plain_pieces(p.manifest_path, root, directory, relative, file_name)
            && t == "path: "@ + #[trigger] location_from_parts(directory, relative, file_name),
        _ => d == source_detail_text(p.source),
    }
}

fn package_identity_detail(package: &ResolvedPackage, workspace_root: &str) -> (r: Option<String>)
    ensures
        identity_detail_fits(package@, workspace_root@, r.deep_view()),
{
    match package.source_kind {
        PackageSourceKind::Workspace => Some(String::from_str("workspace")),
        PackageSourceKind::Path => {
            let location = display_path_detail(package.manifest_path.as_str(), workspace_root);
            Some(concat2("path: ", location.as_str()))
        },
        _ => match &package.source {
            Some(s) => source_detail(Some(s.as_str())),
            None => source_detail(None),
        },
    }
}

/// The directory of a manifest: its parent, or the path itself where it
/// has none.
pub open spec fn manifest_dir(manifest_path: Seq<char>) -> Seq<char> {
    match parent_text(manifest_path) {
        Some(d) => d,
        None => manifest_path,
    }
}

/// The package's labels and origin are fixed by its fields and the root:
/// it is no path package, or its manifest path, that path's directory and
/// the workspace root are plain paths.
pub open spec fn plain_identity(p: ResolvedPackageView, root: Seq<char>) -> bool {
    p.source_kind == PackageSourceKind::Path ==> plain_path(p.manifest_path) && plain_path(manifest_dir(p.manifest_path))
        && plain_path(root)
}

/// The identity detail of a package whose identity is plain.
pub open spec fn identity_detail_text(p: ResolvedPackageView, root: Seq<char>) -> Option<Seq<char>> {
    match p.source_kind {
        PackageSourceKind::Workspace => Some("workspace"@),
        PackageSourceKind::Path => {
            let d = manifest_dir(p.manifest_path);
            Some("path: "@ + location_from_parts(d, strip_prefix_text(d, root), file_name_text(d)))
        },
        _ => source_detail_text(p.source),
    }
}

/// The stable origin of a package whose identity is plain.
pub open spec fn origin_text(p: ResolvedPackageView, root: Seq<char>) -> Seq<char> {
    match p.source_kind {
        PackageSourceKind::Workspace => "workspace"@,
        PackageSourceKind::Path => "path:"@ + stable_location_from_parts(
            p.manifest_path,
            strip_prefix_text(manifest_dir(p.manifest_path), root),
        ),
        _ => match p.source {
            Some(s) => s,
            None => "package-id:"@ + p.id,
        },
    }
}

/// A plain identity leaves one detail.
pub proof fn lemma_detail_is_text(p: ResolvedPackageView, root: Seq<char>, d: Option<Seq<char>>)
    requires
        identity_detail_fits(p, root, d),
        plain_identity(p, root),
    ensures
        d == identity_detail_text(p, root),
{
    if p.source_kind == PackageSourceKind::Path {
        let t = d->0;
        let (directory, relative, file_name) = choose|directory: Seq<char>, relative: Option<Seq<char>>, file_name: Option<Seq<char>>|
            path_pieces(p.manifest_path, directory, relative)
            && plain_pieces(p.manifest_path, root, directory, relative, file_name)
            && t == "path: "@ + #[trigger] location_from_parts(directory, relative, file_name);
        assert(directory == manifest_dir(p.manifest_path));
    }
}

/// A plain identity leaves one stable origin.
pub proof fn lemma_origin_is_text(p: ResolvedPackageView, root: Seq<char>, o: Seq<char>)
    requires
        stable_origin_fits(p, root, o),
        plain_identity(p, root),
    ensures
        o == origin_text(p, root),
{
    if p.source_kind == PackageSourceKind::Path {
        let (directory, relative) = choose|directory: Seq<char>, relative: Option<Seq<char>>| #[trigger] path_pieces(p.manifest_path, directory, relative)
            && plain_relative(p.manifest_path, root, directory, relative)
            && o == "path:"@ + stable_location_from_parts(p.manifest_path, relative);
        assert(directory == manifest_dir(p.manifest_path));
    }
}

/// The base label of a package whose identity is plain.
pub open spec fn base_label_text(p: ResolvedPackageView, root: Seq<char>) -> Seq<char> {
    with_detail(name_at_version(p), identity_detail_text(p, root))
}

/// A plain identity leaves one base label.
pub proof fn lemma_base_label_is_text(p: ResolvedPackageView, root: Seq<char>, l: Seq<char>)
    requires
        base_label_fits(p, root, l),
        plain_identity(p, root),
    ensures
        l == base_label_text(p, root),
{
    let d = choose|d: Option<Seq<char>>| identity_detail_fits(p, root, d) && l == with_detail(name_at_version(p), d);
    lemma_detail_is_text(p, root, d);
}

/// A label followed by its detail in brackets, when there is one.
pub open spec fn with_detail(label: Seq<char>, d: Option<Seq<char>>) -> Seq<char> {
    match d {
        Some(t) => label + " ["@ + t + "]"@,
        None => label,
    }
}

fn append_detail(label: &mut String, detail: Option<String>)
    ensures
        final(label)@ == with_detail(old(label)@, detail.deep_view()),
{
    if let Some(d) = detail {
        label.append(" [");
        label.append(d.as_str());
        label.append("]");
    }
}

/// `name@version`.
pub open spec fn name_at_version(p: ResolvedPackageView) -> Seq<char> {
    p.name + "@"@ + version_display(p.version)
}

/// The package's `name@version` with its identity detail in brackets.
pub fn base_package_label(package: &ResolvedPackage, workspace_root: &str) -> (r: String)
    ensures
        exists|d: Option<Seq<char>>| #[trigger] identity_detail_fits(package@, workspace_root@, d) && r@ == with_detail(name_at_version(package@), d),
        plain_identity(package@, workspace_root@) ==> r@ == base_label_text(package@, workspace_root@),
{
    let version = package.version.text();
    let mut label = concat3(package.name.as_str(), "@", version.as_str());
    let detail = package_identity_detail(package, workspace_root);
    let ghost d = detail.deep_view();
    assert(identity_detail_fits(package@, workspace_root@, d));
    proof {
        if plain_identity(package@, workspace_root@) {
            lemma_detail_is_text(package@, workspace_root@, d);
        }
    }
    append_detail(&mut label, detail);
    label
}

/// The package's name with its identity detail in brackets.
pub fn package_identity_label(package: &ResolvedPackage, workspace_root: &str) -> (r: String)
    ensures
        exists|d: Option<Seq<char>>| #[trigger] identity_detail_fits(package@, workspace_root@, d) && r@ == with_detail(package@.name, d),
        plain_identity(package@, workspace_root@) ==> r@ == with_detail(package@.name, identity_detail_text(package@, workspace_root@)),
{
    let mut label = package.name.clone();
    let detail = package_identity_detail(package, workspace_root);
    let ghost d = detail.deep_view();
    assert(identity_detail_fits(package@, workspace_root@, d));
    proof {
        if plain_identity(package@, workspace_root@) {
            lemma_detail_is_text(package@, workspace_root@, d);
        }
    }
    append_detail(&mut label, detail);
    label
}

/// Number of times `x` occurs in `s`.
pub open spec fn occurrences(s: Seq<Seq<char>>, x: Seq<char>) -> nat
    decreases s.len(),
{
    if s.len() == 0 {
        0
    } else {
        occurrences(s.drop_last(), x) + if s.last() == x { 1nat } else { 0nat }
    }
}

proof fn lemma_occurs(s: Seq<Seq<char>>, x: Seq<char>)
    requires
        occurrences(s, x) > 0,
    ensures
        exists|k: int| 0 <= k < s.len() && s[k] == x,
    decreases s.len(),
{
    if s.last() != x {
        lemma_occurs(s.drop_last(), x);
        let k = choose|k: int| 0 <= k < s.drop_last().len() && s.drop_last()[k] == x;
        assert(s[k] == x);
    } else {
        assert(s[s.len() - 1] == x);
    }
}

/// The labels that occur more than once in a list, each once.
pub fn repeated_labels(labels: &Vec<String>) -> (r: Vec<String>)
    ensures
        r.deep_view().no_duplicates(),
        forall|x: Seq<char>| r.deep_view().contains(x) <==> occurrences(labels.deep_view(), x) > 1,
{
    let mut r: Vec<String> = Vec::new();
    let mut i: usize = 0;
    while i < labels.len()
        invariant
            i <= labels@.len(),
            r.deep_view().no_duplicates(),
            forall|x: Seq<char>| r.deep_view().contains(x) <==> (occurrences(labels.deep_view(), x) > 1
                && exists|k: int| 0 <= k < i && labels.deep_view()[k] == x),
        decreases labels@.len() - i,
    {
        let label = &labels[i];
        let mut count: usize = 0;
        let mut j: usize = 0;
        while j < labels.len()
            invariant
                j <= labels@.len(),
                count <= j,
                count == occurrences(labels.deep_view().take(j as int), label@),
            decreases labels@.len() - j,
        {
            assert(labels.deep_view().take(j + 1).drop_last() =~= labels.deep_view().take(j as int));
            assert(labels.deep_view()[j as int] == labels@[j as int]@);
            if labels[j] == *label {
                count = count + 1;
            }
            j = j + 1;
        }
        assert(labels.deep_view().take(labels@.len() as int) =~= labels.deep_view());
        assert(labels.deep_view()[i as int] == label@);
        if count > 1 {
            crate::index::insert_text(&mut r, label);
        }
        i = i + 1;
    }
    assert forall|x: Seq<char>| r.deep_view().contains(x) <==> occurrences(labels.deep_view(), x) > 1 by {
        if occurrences(labels.deep_view(), x) > 1 {
            lemma_occurs(labels.deep_view(), x);
        }
    }
    r
}

/// `l` is a base label of package `p`.
pub open spec fn base_label_fits(p: ResolvedPackageView, root: Seq<char>, l: Seq<char>) -> bool {
    exists|d: Option<Seq<char>>| identity_detail_fits(p, root, d) && l == with_detail(name_at_version(p), d)
}

/// `labels` are base labels of the packages, one each, in order.
pub open spec fn base_labels_fit(packages: Seq<(&ResolvedPackage, &str)>, labels: Seq<Seq<char>>) -> bool {
    labels.len() == packages.len() && forall|i: int| 0 <= i < labels.len() ==> base_label_fits(packages[i].0@, packages[i].1@, #[trigger] labels[i])
}

/// Every package's identity is plain against its root.
pub open spec fn all_plain_identities(packages: Seq<(&ResolvedPackage, &str)>) -> bool {
    forall|k: int| 0 <= k < packages.len() ==> plain_identity((#[trigger] packages[k]).0@, packages[k].1@)
}

/// The base labels of packages whose identities are plain, in order.
pub open spec fn base_label_texts(packages: Seq<(&ResolvedPackage, &str)>) -> Seq<Seq<char>> {
    packages.map_values(|e: (&ResolvedPackage, &str)| base_label_text(e.0@, e.1@))
}

/// `r` holds exactly the texts that occur more than once in `labels`.
pub open spec fn repeated_in(r: Seq<Seq<char>>, labels: Seq<Seq<char>>) -> bool {
    forall|x: Seq<char>| r.contains(x) <==> occurrences(labels, x) > 1
}

/// The `name@version [detail]` labels that more than one of the packages
/// share, each once.
pub fn colliding_base_labels(packages: &[(&ResolvedPackage, &str)]) -> (r: Vec<String>)
    ensures
        r.deep_view().no_duplicates(),
        exists|labels: Seq<Seq<char>>| #[trigger] base_labels_fit(packages@, labels) && repeated_in(r.deep_view(), labels),
        all_plain_identities(packages@) ==> repeated_in(r.deep_view(), base_label_texts(packages@)),
{
    let mut labels: Vec<String> = Vec::new();
    let mut i: usize = 0;
    while i < packages.len()
        invariant
            i <= packages@.len(),
            labels@.len() == i,
            forall|k: int| 0 <= k < i ==> base_label_fits(packages@[k].0@, packages@[k].1@, #[trigger] labels.deep_view()[k]),
        decreases packages@.len() - i,
    {
        let (package, root) = packages[i];
        let label = base_package_label(package, root);
        let ghost before = labels.deep_view();
        labels.push(label);
        assert forall|k: int| 0 <= k < i + 1 implies base_label_fits(packages@[k].0@, packages@[k].1@, #[trigger] labels.deep_view()[k]) by {
            if k < i {
                assert(labels.deep_view()[k] == before[k]);
            }
        }
        i = i + 1;
    }
    let r = repeated_labels(&labels);
    assert(base_labels_fit(packages@, labels.deep_view()));
    proof {
        if all_plain_identities(packages@) {
            assert forall|k: int| 0 <= k < labels@.len() implies labels.deep_view()[k] == #[trigger] base_label_texts(packages@)[k] by {
                lemma_base_label_is_text(packages@[k].0@, packages@[k].1@, labels.deep_view()[k]);
            }
            assert(labels.deep_view() =~= base_label_texts(packages@));
        }
    }
    r
}

/// The text that marks a package id added to a label.
pub open spec fn id_marker() -> Seq<char> {
    " [package-id: "@
}

/// A base label, with the package id added when it is among the
/// collisions.
pub open spec fn unique_text(base: Seq<char>, id: Seq<char>, collisions: Seq<Seq<char>>) -> Seq<char> {
    if collisions.contains(base) {
        base + id_marker() + id + "]"@
    } else {
        base
    }
}

/// `l` is the package's base label, with the package id added when the
/// base label is among the collisions.
pub open spec fn unique_label_fits(p: ResolvedPackageView, root: Seq<char>, collisions: Seq<Seq<char>>, l: Seq<char>) -> bool {
    exists|base: Seq<char>| #[trigger] base_label_fits(p, root, base) && l == unique_text(base, p.id, collisions)
}

/// `t` stands in `s` from position `k` on.
pub open spec fn holds_at(s: Seq<char>, k: int, t: Seq<char>) -> bool {
    0 <= k && k + t.len() <= s.len() && s.subrange(k, k + t.len()) == t
}

/// `s` nowhere holds `[package-id:`.
pub open spec fn free_of_id_marker(s: Seq<char>) -> bool {
    forall|k: int| !#[trigger] holds_at(s, k, "[package-id:"@)
}

proof fn lemma_occurs_once(s: Seq<Seq<char>>, x: Seq<char>, i: int)
    requires
        0 <= i < s.len(),
        s[i] == x,
    ensures
        occurrences(s, x) >= 1,
    decreases s.len(),
{
    if i < s.len() - 1 {
        lemma_occurs_once(s.drop_last(), x, i);
    }
}

proof fn lemma_occurs_twice(s: Seq<Seq<char>>, x: Seq<char>, i: int, j: int)
    requires
        0 <= i < j < s.len(),
        s[i] == x,
        s[j] == x,
    ensures
        occurrences(s, x) > 1,
    decreases s.len(),
{
    if j == s.len() - 1 {
        lemma_occurs_once(s.drop_last(), x, i);
    } else {
        lemma_occurs_twice(s.drop_last(), x, i, j);
    }
}

/// Where `a + M + x + "]"` equals `b + M + y + "]"` (M the id marker) and
/// `a` is the shorter, `x` holds `[package-id:`.
proof fn lemma_marked_labels_align(a: Seq<char>, x: Seq<char>, b: Seq<char>, y: Seq<char>)
    requires
        a.len() < b.len(),
        a + id_marker() + x + "]"@ == b + id_marker() + y + "]"@,
    ensures
        holds_at(x, b.len() + 1 - a.len() - 14, "[package-id:"@),
{
    reveal_strlit(" [package-id: ");
    reveal_strlit("[package-id:");
    reveal_strlit("]");
    let m = id_marker();
    let s = a + m + x + "]"@;
    let t = b + m + y + "]"@;
    let p: int = b.len() as int + 1;
    assert(s.len() == t.len());
    assert(x.len() >= b.len() - a.len());
    assert(t[p] == '[');
    if p < a.len() + 14 {
        let k = p - a.len();
        assert(s[p] == m[k]);
        assert(2 <= k < 14);
        assert(m[k] != '[');
    } else {
        let o = p - a.len() - 14;
        assert forall|u: int| 0 <= u < 12 implies x[o + u] == #[trigger] "[package-id:"@[u] by {
            assert(0 <= o + u < x.len());
            assert(s[p + u] == x[o + u]);
            assert(t[p + u] == m[1 + u]);
        }
        assert(x.subrange(o, o + 12) =~= "[package-id:"@);
    }
}

/// Unique labels tell packages apart: for packages whose base labels and
/// ids hold no `[package-id:`, with the collisions being exactly the base
/// labels that occur more than once, two packages with different ids get
/// different labels, and a package keeps its bare base label exactly when
/// its base label is not a collision.
pub proof fn law_unique_labels_differ(bases: Seq<Seq<char>>, ids: Seq<Seq<char>>, collisions: Seq<Seq<char>>, i: int, j: int)
    requires
        bases.len() == ids.len(),
        repeated_in(collisions, bases),
        0 <= i < bases.len(),
        0 <= j < bases.len(),
        ids[i] != ids[j],
        free_of_id_marker(bases[i]),
        free_of_id_marker(bases[j]),
        free_of_id_marker(ids[i]),
        free_of_id_marker(ids[j]),
    ensures
        unique_text(bases[i], ids[i], collisions) != unique_text(bases[j], ids[j], collisions),
        unique_text(bases[i], ids[i], collisions) == bases[i] <==> !collisions.contains(bases[i]),
{
    reveal_strlit(" [package-id: ");
    reveal_strlit("[package-id:");
    reveal_strlit("]");
    let a = bases[i];
    let b = bases[j];
    let x = ids[i];
    let y = ids[j];
    let m = id_marker();
    if collisions.contains(a) {
        assert((a + m + x + "]"@).len() > a.len());
    }
    if unique_text(a, x, collisions) == unique_text(b, y, collisions) {
        let ca = collisions.contains(a);
        let cb = collisions.contains(b);
        if !ca && !cb {
            assert(a == b);
            if i < j {
                lemma_occurs_twice(bases, a, i, j);
            } else {
                lemma_occurs_twice(bases, a, j, i);
            }
        } else if ca && !cb {
            let s = a + m + x + "]"@;
            assert forall|u: int| 0 <= u < 12 implies b[a.len() + 1 + u] == #[trigger] "[package-id:"@[u] by {
                assert(s[a.len() + 1 + u] == m[1 + u]);
            }
            let k: int = a.len() as int + 1;
            assert(b.subrange(k, k + 12) =~= "[package-id:"@);
            assert(holds_at(b, k, "[package-id:"@));
        } else if !ca && cb {
            let s = b + m + y + "]"@;
            assert forall|u: int| 0 <= u < 12 implies a[b.len() + 1 + u] == #[trigger] "[package-id:"@[u] by {
                assert(s[b.len() + 1 + u] == m[1 + u]);
            }
            let k: int = b.len() as int + 1;
            assert(a.subrange(k, k + 12) =~= "[package-id:"@);
            assert(holds_at(a, k, "[package-id:"@));
        } else {
            if a.len() == b.len() {
                let s = a + m + x + "]"@;
                let t = b + m + y + "]"@;
                assert(x.len() == y.len());
                assert forall|u: int| 0 <= u < x.len() implies x[u] == y[u] by {
                    assert(s[a.len() + 14 + u] == x[u]);
                    assert(t[b.len() + 14 + u] == y[u]);
                }
                assert(x =~= y);
            } else if a.len() < b.len() {
                lemma_marked_labels_align(a, x, b, y);
            } else {
                lemma_marked_labels_align(b, y, a, x);
            }
        }
    }
}

/// The base label, with the package id added when the base label collides.
pub fn unique_package_label(package: &ResolvedPackage, workspace_root: &str, collisions: &Vec<String>) -> (r: String)
    ensures
        unique_label_fits(package@, workspace_root@, collisions.deep_view(), r@),
        plain_identity(package@, workspace_root@) ==> r@ == unique_text(base_label_text(package@, workspace_root@), package@.id, collisions.deep_view()),
{
    let base = base_package_label(package, workspace_root);
    assert(base_label_fits(package@, workspace_root@, base@));
    if crate::index::contains_text(collisions, &base) {
        let mut r = concat3(base.as_str(), " [package-id: ", package.id.as_str());
        r.append("]");
        r
    } else {
        base
    }
}

/// The package ids of packages, in order.
pub open spec fn package_ids(packages: Seq<(&ResolvedPackage, &str)>) -> Seq<Seq<char>> {
    packages.map_values(|e: (&ResolvedPackage, &str)| e.0@.id)
}

/// The unique-label law at the label functions: for packages whose
/// identities are plain and whose base labels and ids hold no
/// `[package-id:`, with the collisions that `colliding_base_labels` gives
/// for them, `unique_package_label` gives two packages with different ids
/// different labels, and gives a package its bare `base_package_label`
/// exactly when that label is not a collision (else that label, then
/// ` [package-id: <id>]`).
pub proof fn law_unique_package_labels_differ(packages: Seq<(&ResolvedPackage, &str)>, collisions: Seq<Seq<char>>, i: int, j: int)
    requires
        all_plain_identities(packages),
        repeated_in(collisions, base_label_texts(packages)),
        0 <= i < packages.len(),
        0 <= j < packages.len(),
        packages[i].0@.id != packages[j].0@.id,
        free_of_id_marker(base_label_text(packages[i].0@, packages[i].1@)),
        free_of_id_marker(base_label_text(packages[j].0@, packages[j].1@)),
        free_of_id_marker(packages[i].0@.id),
        free_of_id_marker(packages[j].0@.id),
    ensures
        unique_text(base_label_text(packages[i].0@, packages[i].1@), packages[i].0@.id, collisions)
            != unique_text(base_label_text(packages[j].0@, packages[j].1@), packages[j].0@.id, collisions),
        unique_text(base_label_text(packages[i].0@, packages[i].1@), packages[i].0@.id, collisions)
            == base_label_text(packages[i].0@, packages[i].1@)
            <==> !collisions.contains(base_label_text(packages[i].0@, packages[i].1@)),
        collisions.contains(base_label_text(packages[i].0@, packages[i].1@)) ==> unique_text(
            base_label_text(packages[i].0@, packages[i].1@),
            packages[i].0@.id,
            collisions,
        ) == base_label_text(packages[i].0@, packages[i].1@) + " [package-id: "@ + packages[i].0@.id + "]"@,
{
    let bases = base_label_texts(packages);
    let ids = package_ids(packages);
    assert(bases[i] == base_label_text(packages[i].0@, packages[i].1@));
    assert(bases[j] == base_label_text(packages[j].0@, packages[j].1@));
    assert(ids[i] == packages[i].0@.id && ids[j] == packages[j].0@.id);
    law_unique_labels_differ(bases, ids, collisions, i, j);
}

/// What a stable origin may be for a package: `workspace` for members,
/// `path:<location>` for path packages, otherwise the source, or the
/// package id marked as such where there is no source.
pub open spec fn stable_origin_fits(p: ResolvedPackageView, root: Seq<char>, o: Seq<char>) -> bool {
    match p.source_kind {
        PackageSourceKind::Workspace => o == "workspace"@,
        PackageSourceKind::Path => exists|directory: Seq<char>, relative: Option<Seq<char>>| #[trigger] path_pieces(p.manifest_path, directory, relative)
            && plain_relative(p.manifest_path, root, directory, relative)
            && o == "path:"@ + stable_location_from_parts(p.manifest_path, relative),
        _ => o == match p.source {
            Some(s) => s,
            None => "package-id:"@ + p.id,
        },
    }
}

fn stable_origin(package: &ResolvedPackage, workspace_root: &str) -> (r: String)
    ensures
        stable_origin_fits(package@, workspace_root@, r@),
{
    match package.source_kind {
        PackageSourceKind::Workspace => String::from_str("workspace"),
        PackageSourceKind::Path => {
            let location = stable_path_detail(package.manifest_path.as_str(), workspace_root);
            let r = concat2("path:", location.as_str());
            let ghost (directory, relative) = choose|directory: Seq<char>, relative: Option<Seq<char>>|
                #[trigger] path_pieces(package.manifest_path@, directory, relative)
                && plain_relative(package.manifest_path@, workspace_root@, directory, relative)
                && location@ == stable_location_from_parts(package.manifest_path@, relative);
            assert(r@ == "path:"@ + stable_location_from_parts(package@.manifest_path, relative));
            assert(path_pieces(package@.manifest_path, directory, relative));
            r
        },
        _ => match &package.source {
            Some(s) => s.clone(),
            None => concat2("package-id:", package.id.as_str()),
        },
    }
}

/// `name@version|origin`, an identity that stays the same across copies of
/// a workspace.
pub fn stable_package_identity(package: &ResolvedPackage, workspace_root: &str) -> (r: String)
    ensures
        exists|o: Seq<char>| stable_origin_fits(package@, workspace_root@, o) && r@ == name_at_version(package@) + "|"@ + o,
        plain_identity(package@, workspace_root@) ==> r@ == name_at_version(package@) + "|"@ + origin_text(package@, workspace_root@),
{
    let version = package.version.text();
    let mut r = concat3(package.name.as_str(), "@", version.as_str());
    r.append("|");
    let origin = stable_origin(package, workspace_root);
    proof {
        if plain_identity(package@, workspace_root@) {
            lemma_origin_is_text(package@, workspace_root@, origin@);
        }
    }
    r.append(origin.as_str());
    r
}

/// The stable origin of a package (see `stable_origin_fits`).
pub fn stable_package_origin(package: &ResolvedPackage, workspace_root: &str) -> (r: String)
    ensures
        stable_origin_fits(package@, workspace_root@, r@),
        plain_identity(package@, workspace_root@) ==> r@ == origin_text(package@, workspace_root@),
{
    let r = stable_origin(package, workspace_root);
    proof {
        if plain_identity(package@, workspace_root@) {
            lemma_origin_is_text(package@, workspace_root@, r@);
        }
    }
    r
}

/// The last `/` of a text followed by a name without `/` is that one.
proof fn lemma_last_slash_before_name(dir: Seq<char>, name: Seq<char>)
    requires
        forall|i: int| 0 <= i < name.len() ==> name[i] != '/',
    ensures
        last_slash(dir + seq!['/'] + name) == dir.len(),
    decreases name.len(),
{
    let s = dir + seq!['/'] + name;
    if name.len() == 0 {
        assert(s[s.len() - 1] == '/');
    } else {
        lemma_last_slash_before_name(dir, name.drop_last());
        assert(s.drop_last() =~= dir + seq!['/'] + name.drop_last());
        assert(s[s.len() - 1] == name[name.len() - 1]);
    }
}

/// The stable origin of a path package follows its manifest's directory
/// relative to the workspace root: packages at the same place in two copies
/// of a workspace have the same origin, whatever the copies' roots.
pub proof fn law_stable_origin_survives_copies(
    p1: ResolvedPackageView,
    root1: Seq<char>,
    o1: Seq<char>,
    p2: ResolvedPackageView,
    root2: Seq<char>,
    o2: Seq<char>,
    relative: Seq<char>,
)
    requires
        p1.source_kind == PackageSourceKind::Path,
        p2.source_kind == PackageSourceKind::Path,
        relative.len() > 0,
        p1.manifest_path == root1 + seq!['/'] + relative + "/Cargo.toml"@,
        p2.manifest_path == root2 + seq!['/'] + relative + "/Cargo.toml"@,
        plain_path(root1),
        plain_path(root2),
        plain_path(p1.manifest_path),
        plain_path(p2.manifest_path),
        plain_path(root1 + seq!['/'] + relative),
        plain_path(root2 + seq!['/'] + relative),
        stable_origin_fits(p1, root1, o1),
        stable_origin_fits(p2, root2, o2),
    ensures
        o1 == o2,
        o1 == "path:"@ + relative,
{
    lemma_origin_of_relative(p1, root1, o1, relative);
    lemma_origin_of_relative(p2, root2, o2, relative);
}

proof fn lemma_origin_of_relative(p: ResolvedPackageView, root: Seq<char>, o: Seq<char>, relative: Seq<char>)
    requires
        p.source_kind == PackageSourceKind::Path,
        relative.len() > 0,
        p.manifest_path == root + seq!['/'] + relative + "/Cargo.toml"@,
        plain_path(root),
        plain_path(p.manifest_path),
        plain_path(root + seq!['/'] + relative),
        stable_origin_fits(p, root, o),
    ensures
        o == "path:"@ + relative,
{
    reveal_strlit("/Cargo.toml");
    reveal_strlit("Cargo.toml");
    let m = p.manifest_path;
    let dir = root + seq!['/'] + relative;
    let name = "Cargo.toml"@;
    assert(m =~= dir + seq!['/'] + name);
    lemma_last_slash_before_name(dir, name);
    assert(last_slash(m) == dir.len());
    assert(m.take(dir.len() as int) =~= dir);
    assert(parent_text(m) == Some(dir));
    assert(dir != root);
    assert(root != seq!['/']) by {
        if root == seq!['/'] {
            assert(dir[0] == '/' && dir[1] == '/');
        }
    }
    assert(has_prefix(dir, root)) by {
        assert(dir.take(root.len() as int) =~= root);
    }
    assert(dir[root.len() as int] == '/');
    assert(dir.skip(root.len() + 1 as int) =~= relative);
    assert(strip_prefix_text(dir, root) == Some(relative));
    let (d, rel) = choose|d: Seq<char>, rel: Option<Seq<char>>| #[trigger] path_pieces(m, d, rel)
        && plain_relative(m, root, d, rel)
        && o == "path:"@ + stable_location_from_parts(m, rel);
    assert(d == dir);
    assert(rel == Some(relative));
}

} // verus!
