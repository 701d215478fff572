//! Reading and editing TOML documents (manifests and Cargo configuration),
//! with `toml_edit` doing the parsing and the format-preserving writes.
use crate::error::Error;
use crate::model::{ManifestSuggestion, ManifestSuggestionView};
use crate::paths::{joined_text, path_is_absolute, path_join, plain_path};
use toml_edit::{value, DocumentMut, Item, Value};
use vstd::prelude::*;

verus! {

/// What a key path of a TOML document leads to.
#[derive(Debug)]
pub enum TomlItem {
    /// Nothing: a key is missing, or a step goes through a non-table.
    Absent,
    /// A string value.
    Text(String),
    /// An inline table (`{ .. }`), with its keys in order.
    InlineTable(Vec<String>),
    /// A `[table]`, with its keys in order.
    Table(Vec<String>),
    /// Any other value: a number, an array, an array of tables, ...
    Other,
}

/// A `TomlItem` as plain values.
pub enum TomlItemView {
    Absent,
    Text(Seq<char>),
    InlineTable(Seq<Seq<char>>),
    Table(Seq<Seq<char>>),
    Other,
}

impl View for TomlItem {
    type V = TomlItemView;

    open spec fn view(&self) -> TomlItemView {
        match self {
            TomlItem::Absent => TomlItemView::Absent,
            TomlItem::Text(s) => TomlItemView::Text(s@),
            TomlItem::InlineTable(keys) => TomlItemView::InlineTable(keys.deep_view()),
            TomlItem::Table(keys) => TomlItemView::Table(keys.deep_view()),
            TomlItem::Other => TomlItemView::Other,
        }
    }
}

/// The message of `toml_edit`'s parse error for this text; none where the
/// text parses as a TOML document.
pub uninterp spec fn toml_parse_error(text: Seq<char>) -> Option<Seq<char>>;

/// What the key path leads to in the document that the text parses to.
pub uninterp spec fn toml_item_at(text: Seq<char>, path: Seq<Seq<char>>) -> TomlItemView;

/// `str::parse::<toml_edit::DocumentMut>`, then `as_table_like().get(key)`
/// for each key of the path in turn, then what the item found is: a
/// string (`as_str`), an inline table or a table with its keys (`iter`), or
/// something else. The contract claims that the text parses exactly when no
/// parse error is named, hands back the error's message, and names the item
/// found as a function of the text and the path alone.
#[verifier::external_body]
fn toml_item(text: &str, path: &Vec<String>) -> (r: Result<TomlItem, String>)
    ensures
        r is Ok <==> toml_parse_error(text@) is None,
        r matches Err(m) ==> toml_parse_error(text@) == Some(m@),
        r matches Ok(item) ==> item@ == toml_item_at(text@, path.deep_view()),
{
    let document = text.parse::<DocumentMut>().map_err(|e| e.to_string())?;
    let item = path.iter().try_fold(document.as_item(), |i, key| i.as_table_like()?.get(key));
    Ok(match item {
        None => TomlItem::Absent,
        Some(Item::Value(Value::String(s))) => TomlItem::Text(s.value().clone()),
        Some(Item::Value(Value::InlineTable(t))) => TomlItem::InlineTable(t.iter().map(|e| e.0.to_owned()).collect()),
        Some(Item::Table(t)) => TomlItem::Table(t.iter().map(|e| e.0.to_owned()).collect()),
        _ => TomlItem::Other,
    })
}

/// The string at the key path, if it leads to one.
pub open spec fn text_at(text: Seq<char>, path: Seq<Seq<char>>) -> Option<Seq<char>> {
    match toml_item_at(text, path) {
        TomlItemView::Text(s) => Some(s),
        _ => None,
    }
}

/// The string at the key path of a text that parses.
fn string_at(text: &str, path: Vec<String>) -> (r: Option<String>)
    requires
        toml_parse_error(text@) is None,
    ensures
        r.deep_view() == text_at(text@, path.deep_view()),
{
    match toml_item(text, &path) {
        Ok(TomlItem::Text(s)) => Some(s),
        _ => None,
    }
}

/// A key path of two keys.
fn path2(a: &str, b: &str) -> (r: Vec<String>)
    ensures
        r.deep_view() == seq![a@, b@],
{
    let mut r = Vec::new();
    r.push(String::from_str(a));
    r.push(String::from_str(b));
    proof {
        assert(r.deep_view() =~= seq![a@, b@]);
    }
    r
}

/// A key path of three keys.
fn path3(a: &str, b: &str, c: &str) -> (r: Vec<String>)
    ensures
        r.deep_view() == seq![a@, b@, c@],
{
    let mut r = Vec::new();
    r.push(String::from_str(a));
    r.push(String::from_str(b));
    r.push(String::from_str(c));
    proof {
        assert(r.deep_view() =~= seq![a@, b@, c@]);
    }
    r
}

/// The resolver that a manifest sets: `workspace.resolver`, else
/// `package.resolver`, else none.
pub open spec fn manifest_resolver(text: Seq<char>) -> Option<Seq<char>> {
    match text_at(text, seq!["workspace"@, "resolver"@]) {
        Some(r) => Some(r),
        None => text_at(text, seq!["package"@, "resolver"@]),
    }
}

/// The resolver that the manifest text sets; an error where the text is
/// not TOML.
pub fn resolver_from_manifest(text: &str) -> (r: Result<Option<String>, Error>)
    ensures
        toml_parse_error(text@) matches Some(m) ==> (r matches Err(Error::InvalidToml(t)) && t@ == m),
        toml_parse_error(text@) is None ==> (r matches Ok(v) && v.deep_view() == manifest_resolver(text@)),
{
    if let Err(message) = toml_item(text, &Vec::new()) {
        return Err(Error::InvalidToml(message));
    }
    let package = string_at(text, path2("package", "resolver"));
    let workspace = string_at(text, path2("workspace", "resolver"));
    match workspace {
        Some(r) => Ok(Some(r)),
        None => Ok(package),
    }
}

/// The local registry that a Cargo configuration puts in place of
/// crates.io: the `local-registry` of the source that
/// `source.crates-io.replace-with` names, where both are set.
pub open spec fn configured_local_registry(text: Seq<char>) -> Option<Seq<char>> {
    match text_at(text, seq!["source"@, "crates-io"@, "replace-with"@]) {
        Some(name) => text_at(text, seq!["source"@, name, "local-registry"@]),
        None => None,
    }
}

/// The directory of the local registry that the configuration text (read
/// from `config_dir`) puts in place of crates.io: the configured path as
/// it stands where the platform reads it as absolute, else joined to
/// `config_dir`. For plain paths that is exactly `joined_text`: a path
/// starting with `/` is kept, a relative one follows `config_dir` and one
/// separator. An error where the text is not TOML.
pub fn local_registry_from_config(text: &str, config_dir: &str) -> (r: Result<Option<String>, Error>)
    ensures
        toml_parse_error(text@) matches Some(m) ==> (r matches Err(Error::InvalidToml(t)) && t@ == m),
        toml_parse_error(text@) is None ==> (r matches Ok(v) && (v is None <==> configured_local_registry(text@) is None)),
        r matches Ok(Some(p)) ==> (configured_local_registry(text@) matches Some(l)
            && (plain_path(l) && plain_path(config_dir@) ==> joined_text(config_dir@, l, p@))),
{
    if let Err(message) = toml_item(text, &Vec::new()) {
        return Err(Error::InvalidToml(message));
    }
    let replace_with = match string_at(text, path3("source", "crates-io", "replace-with")) {
        Some(name) => name,
        None => return Ok(None),
    };
    let local = match string_at(text, path3("source", replace_with.as_str(), "local-registry")) {
        Some(local) => local,
        None => return Ok(None),
    };
    if path_is_absolute(local.as_str()) {
        Ok(Some(local))
    } else {
        Ok(Some(path_join(config_dir, local.as_str())))
    }
}

/// How a dependency entry takes a new requirement.
#[derive(Debug, Clone, Copy, PartialEq, Eq, Structural)]
pub enum EditKind {
    /// `name = "req"`: the string is replaced.
    ReplaceText,
    /// `name = { .. }`: `version` is set in the inline table.
    InlineVersion,
    /// `[dependencies.name]`: `version` is set in the table.
    TableVersion,
}

/// One write into a TOML document: at the item that `path` leads to.
#[derive(Debug)]
pub struct TomlEdit {
    pub path: Vec<String>,
    pub kind: EditKind,
    pub value: String,
}

/// A `TomlEdit` as plain values.
pub struct TomlEditView {
    pub path: Seq<Seq<char>>,
    pub kind: EditKind,
    pub value: Seq<char>,
}

impl View for TomlEdit {
    type V = TomlEditView;

    open spec fn view(&self) -> TomlEditView {
        TomlEditView { path: self.path.deep_view(), kind: self.kind, value: self.value@ }
    }
}

/// The views of edits.
pub open spec fn edit_views(s: Seq<TomlEdit>) -> Seq<TomlEditView> {
    s.map_values(|e: TomlEdit| e@)
}

/// The text that `toml_edit` writes for the document that the text parses
/// to, after the edits in turn.
pub uninterp spec fn toml_with_edits(text: Seq<char>, edits: Seq<TomlEditView>) -> Seq<char>;

/// `toml_edit::DocumentMut`, an editable TOML document; opaque here.
#[verifier::external_type_specification]
#[verifier::external_body]
pub struct ExDocumentMut(DocumentMut);

/// The text a document was parsed from.
pub uninterp spec fn document_source(d: DocumentMut) -> Seq<char>;

/// The writes made to a document since it was parsed, in order.
pub uninterp spec fn document_edits(d: DocumentMut) -> Seq<TomlEditView>;

/// `str::parse::<toml_edit::DocumentMut>`. The contract claims a document
/// exactly where the text parses, made from the text with no writes yet.
#[verifier::external_body]
fn parse_document(text: &str) -> (r: Option<DocumentMut>)
    ensures
        r is Some <==> toml_parse_error(text@) is None,
        r matches Some(d) ==> document_source(d) == text@ && document_edits(d) == Seq::<TomlEditView>::empty(),
{
    text.parse::<DocumentMut>().ok()
}

/// The write of one edit of this kind at this path, recorded on the
/// document.
pub open spec fn recorded(d: DocumentMut, old_d: DocumentMut, path: Seq<Seq<char>>, kind: EditKind, v: Seq<char>) -> bool {
    &&& document_source(d) == document_source(old_d)
    &&& document_edits(d) == document_edits(old_d).push(TomlEditView { path, kind, value: v })
}

/// `as_table_like_mut().get_mut(key)` along the path, then `value(..)` in
/// place of the item found (nothing where the path leads nowhere). The
/// contract records the write on the document; what the document then holds
/// is left to `toml_with_edits`.
#[verifier::external_body]
fn document_replace_text(d: &mut DocumentMut, path: &Vec<String>, text: &str)
    ensures
        recorded(*final(d), *old(d), path.deep_view(), EditKind::ReplaceText, text@),
{
    let mut item = Some(d.as_item_mut());
    for key in path {
        item = item.and_then(|i| i.as_table_like_mut()?.get_mut(key));
    }
    if let Some(i) = item {
        *i = value(text);
    }
}

/// `as_table_like_mut().get_mut(key)` along the path, then
/// `InlineTable::insert` of `version` where the item found is an inline
/// table. The contract records the write on the document.
#[verifier::external_body]
fn document_set_inline_version(d: &mut DocumentMut, path: &Vec<String>, text: &str)
    ensures
        recorded(*final(d), *old(d), path.deep_view(), EditKind::InlineVersion, text@),
{
    let mut item = Some(d.as_item_mut());
    for key in path {
        item = item.and_then(|i| i.as_table_like_mut()?.get_mut(key));
    }
    if let Some(t) = item.and_then(|i| i.as_inline_table_mut()) {
        t.insert("version", text.into());
    }
}

/// `as_table_like_mut().get_mut(key)` along the path, then
/// `TableLike::insert` of `version` where the item found is table-like.
/// The contract records the write on the document.
#[verifier::external_body]
fn document_set_table_version(d: &mut DocumentMut, path: &Vec<String>, text: &str)
    ensures
        recorded(*final(d), *old(d), path.deep_view(), EditKind::TableVersion, text@),
{
    let mut item = Some(d.as_item_mut());
    for key in path {
        item = item.and_then(|i| i.as_table_like_mut()?.get_mut(key));
    }
    if let Some(t) = item.and_then(|i| i.as_table_like_mut()) {
        t.insert("version", value(text));
    }
}

/// `DocumentMut::to_string`: the text that `toml_edit` writes for the
/// document, named by its source text and its writes. Left unsaid: what
/// that text holds (the formatting that `toml_edit` keeps).
#[verifier::external_body]
fn document_text(d: &DocumentMut) -> (r: String)
    ensures
        r@ == toml_with_edits(document_source(*d), document_edits(*d)),
{
    d.to_string()
}

/// How the item takes a requirement, if it is a dependency entry.
pub open spec fn edit_kind_of(item: TomlItemView) -> Option<EditKind> {
    match item {
        TomlItemView::Text(_) => Some(EditKind::ReplaceText),
        TomlItemView::InlineTable(_) => Some(EditKind::InlineVersion),
        TomlItemView::Table(_) => Some(EditKind::TableVersion),
        _ => None,
    }
}

/// The keys of the `target` table (or inline table); none where there is none.
pub open spec fn target_keys(text: Seq<char>) -> Seq<Seq<char>> {
    match toml_item_at(text, seq!["target"@]) {
        TomlItemView::Table(keys) => keys,
        TomlItemView::InlineTable(keys) => keys,
        _ => Seq::empty(),
    }
}

/// The path `target.<cfg>.<section>.<key>` of the first of the platform
/// keys under which the section holds the dependency entry.
pub open spec fn target_place(text: Seq<char>, cfgs: Seq<Seq<char>>, section: Seq<char>, key: Seq<char>) -> Option<Seq<Seq<char>>>
    decreases cfgs.len(),
{
    if cfgs.len() == 0 {
        None
    } else if edit_kind_of(toml_item_at(text, seq!["target"@, cfgs[0], section, key])) is Some {
        Some(seq!["target"@, cfgs[0], section, key])
    } else {
        target_place(text, cfgs.drop_first(), section, key)
    }
}

/// Where the dependency entry `key` of `section` stands: in the section
/// itself, else in that section of the first platform target that has it.
pub open spec fn dependency_place(text: Seq<char>, section: Seq<char>, key: Seq<char>) -> Option<Seq<Seq<char>>> {
    if edit_kind_of(toml_item_at(text, seq![section, key])) is Some {
        Some(seq![section, key])
    } else {
        target_place(text, target_keys(text), section, key)
    }
}

/// Whether the suggestion's dependency entry is found.
pub open spec fn locatable(text: Seq<char>, s: ManifestSuggestionView) -> bool {
    dependency_place(text, s.section, s.dependency_key) is Some
}

/// The write that applies a locatable suggestion.
pub open spec fn planned_edit(text: Seq<char>, s: ManifestSuggestionView) -> TomlEditView {
    let path = match dependency_place(text, s.section, s.dependency_key) {
        Some(p) => p,
        None => Seq::empty(),
    };
    let kind = match edit_kind_of(toml_item_at(text, path)) {
        Some(k) => k,
        None => EditKind::ReplaceText,
    };
    TomlEditView { path, kind, value: s.suggested_requirement }
}

/// Suggestion `i` is the first whose dependency entry is not found.
pub open spec fn first_unlocatable(text: Seq<char>, s: Seq<ManifestSuggestion>, i: int) -> bool {
    &&& 0 <= i < s.len()
    &&& !locatable(text, s[i]@)
    &&& forall|j: int| 0 <= j < i ==> locatable(text, #[trigger] s[j]@)
}

/// How the item at the path of a parsing text takes a requirement.
fn edit_kind_at(text: &str, path: &Vec<String>) -> (r: Option<EditKind>)
    requires
        toml_parse_error(text@) is None,
    ensures
        r == edit_kind_of(toml_item_at(text@, path.deep_view())),
{
    match toml_item(text, path) {
        Ok(TomlItem::Text(_)) => Some(EditKind::ReplaceText),
        Ok(TomlItem::InlineTable(_)) => Some(EditKind::InlineVersion),
        Ok(TomlItem::Table(_)) => Some(EditKind::TableVersion),
        _ => None,
    }
}

/// Finds where the dependency entry stands, and how it takes a requirement.
fn locate_dependency(text: &str, section: &str, key: &str) -> (r: Option<(Vec<String>, EditKind)>)
    requires
        toml_parse_error(text@) is None,
    ensures
        r is Some <==> dependency_place(text@, section@, key@) is Some,
        r matches Some((p, k)) ==> dependency_place(text@, section@, key@) == Some(p.deep_view())
            && edit_kind_of(toml_item_at(text@, p.deep_view())) == Some(k),
{
    let direct = path2(section, key);
    if let Some(kind) = edit_kind_at(text, &direct) {
        return Some((direct, kind));
    }
    let cfgs = match toml_item(text, &path1("target")) {
        Ok(TomlItem::Table(keys)) => keys,
        Ok(TomlItem::InlineTable(keys)) => keys,
        _ => Vec::new(),
    };
    let ghost all = cfgs.deep_view();
    assert(all == target_keys(text@));
    let mut i: usize = 0;
    assert(all.skip(0) =~= all);
    assert(dependency_place(text@, section@, key@) == target_place(text@, all, section@, key@));
    while i < cfgs.len()
        invariant
            toml_parse_error(text@) is None,
            all == cfgs.deep_view(),
            dependency_place(text@, section@, key@) == target_place(text@, all, section@, key@),
            i <= cfgs@.len(),
            target_place(text@, all, section@, key@) == target_place(text@, all.skip(i as int), section@, key@),
        decreases cfgs@.len() - i,
    {
        let path = path4("target", cfgs[i].as_str(), section, key);
        let ghost rest = all.skip(i as int);
        assert(rest[0] == all[i as int]);
        assert(path.deep_view() =~= seq!["target"@, rest[0], section@, key@]);
        if let Some(kind) = edit_kind_at(text, &path) {
            return Some((path, kind));
        }
        assert(rest.drop_first() =~= all.skip(i + 1));
        i = i + 1;
    }
    None
}

/// A key path of four keys.
fn path4(a: &str, b: &str, c: &str, d: &str) -> (r: Vec<String>)
    ensures
        r.deep_view() == seq![a@, b@, c@, d@],
{
    let mut r = Vec::new();
    r.push(String::from_str(a));
    r.push(String::from_str(b));
    r.push(String::from_str(c));
    r.push(String::from_str(d));
    proof {
        assert(r.deep_view() =~= seq![a@, b@, c@, d@]);
    }
    r
}

/// A key path of one key.
fn path1(a: &str) -> (r: Vec<String>)
    ensures
        r.deep_view() == seq![a@],
{
    let mut r = Vec::new();
    r.push(String::from_str(a));
    proof {
        assert(r.deep_view() =~= seq![a@]);
    }
    r
}

/// The manifest text with the suggested requirements written in: each
/// dependency entry found in its section, else in that section under the
/// first `target.<cfg>` that has it; a string is replaced, an inline or
/// full table gets `version`. An error where the text is not TOML, or
/// names the first suggestion whose entry is not found.
pub fn stage_manifest_edits(text: &str, suggestions: &Vec<ManifestSuggestion>) -> (r: Result<String, Error>)
    ensures
        toml_parse_error(text@) matches Some(m) ==> (r matches Err(Error::InvalidToml(t)) && t@ == m),
        toml_parse_error(text@) is None ==> (r is Ok <==> forall|i: int| 0 <= i < suggestions@.len() ==> locatable(text@, #[trigger] suggestions@[i]@)),
        toml_parse_error(text@) is None ==> (r matches Err(e) ==> exists|i: int| #[trigger] first_unlocatable(text@, suggestions@, i)
            && (e matches Error::DependencyNotLocated(k, m) && k@ == suggestions@[i]@.dependency_key && m@ == suggestions@[i]@.manifest_path)),
        r matches Ok(t) ==> t@ == toml_with_edits(text@, suggestions@.map_values(|s: ManifestSuggestion| planned_edit(text@, s@))),
{
    if let Err(message) = toml_item(text, &Vec::new()) {
        return Err(Error::InvalidToml(message));
    }
    let mut edits: Vec<TomlEdit> = Vec::new();
    let mut i: usize = 0;
    while i < suggestions.len()
        invariant
            toml_parse_error(text@) is None,
            i <= suggestions@.len(),
            edits@.len() == i,
            forall|k: int| 0 <= k < i ==> locatable(text@, #[trigger] suggestions@[k]@),
            forall|k: int| 0 <= k < i ==> (#[trigger] edits@[k])@ == planned_edit(text@, suggestions@[k]@),
        decreases suggestions@.len() - i,
    {
        let s = &suggestions[i];
        match locate_dependency(text, s.section.as_str(), s.dependency_key.as_str()) {
            Some((path, kind)) => {
                let ghost before = edits@;
                edits.push(TomlEdit { path, kind, value: s.suggested_requirement.clone() });
                assert forall|k: int| 0 <= k < i + 1 implies (#[trigger] edits@[k])@ == planned_edit(text@, suggestions@[k]@) by {
                    if k < i {
                        assert(edits@[k] == before[k]);
                    }
                }
            },
            None => {
                assert(first_unlocatable(text@, suggestions@, i as int));
                return Err(Error::DependencyNotLocated(s.dependency_key.clone(), s.manifest_path.clone()));
            },
        }
        i = i + 1;
    }
    assert(edit_views(edits@) =~= suggestions@.map_values(|s: ManifestSuggestion| planned_edit(text@, s@)));
    let mut document = match parse_document(text) {
        Some(d) => d,
        None => return Err(Error::InvalidToml(String::new())),
    };
    let mut k: usize = 0;
    while k < edits.len()
        invariant
            k <= edits@.len(),
            document_source(document) == text@,
            document_edits(document) == edit_views(edits@).take(k as int),
        decreases edits@.len() - k,
    {
        let edit = &edits[k];
        let ghost before = document_edits(document);
        match edit.kind {
            EditKind::ReplaceText => document_replace_text(&mut document, &edit.path, edit.value.as_str()),
            EditKind::InlineVersion => document_set_inline_version(&mut document, &edit.path, edit.value.as_str()),
            EditKind::TableVersion => document_set_table_version(&mut document, &edit.path, edit.value.as_str()),
        }
        assert(edit_views(edits@).take(k + 1) =~= before.push(edit@));
        k = k + 1;
    }
    assert(edit_views(edits@).take(edits@.len() as int) =~= edit_views(edits@));
    Ok(document_text(&document))
}

} // verus!
