//! Filesystem path questions, answered by `std::path` on the text of a
//! path. Their answers follow the target platform's path syntax; the
//! contracts state them exactly for plain paths (`/`-separated, no `.` or
//! `..` components), which every platform reads alike, and otherwise only
//! what holds on every platform.
use crate::text::has_prefix;
use vstd::prelude::*;

verus! {

/// `t` ends with `x`.
pub open spec fn has_suffix(t: Seq<char>, x: Seq<char>) -> bool {
    x.len() <= t.len() && t.skip(t.len() - x.len()) =~= x
}

/// A `.` or `..` component starts at `i`.
pub open spec fn dot_component_at(s: Seq<char>, i: int) -> bool {
    &&& s[i] == '.'
    &&& (i + 1 == s.len() || s[i + 1] == '/' || (s[i + 1] == '.' && (i + 2 == s.len() || s[i + 2] == '/')))
}

/// A path text that every platform's `std::path` reads alike: `/` as the
/// only separator, no empty, `.` or `..` component, no trailing separator
/// (but for the root `/` itself), and neither `\` nor `:`, which Windows
/// reads as a separator or a prefix.
pub open spec fn plain_path(s: Seq<char>) -> bool {
    &&& s.len() > 0
    &&& forall|i: int| 0 <= i < s.len() ==> #[trigger] s[i] != '\\' && s[i] != ':'
    &&& forall|i: int| 0 <= i < s.len() - 1 ==> !(#[trigger] s[i] == '/' && s[i + 1] == '/')
    &&& (s.len() > 1 ==> s[s.len() - 1] != '/')
    &&& forall|i: int| 0 <= i < s.len() && (i == 0 || s[i - 1] == '/') ==> !#[trigger] dot_component_at(s, i)
}

/// The position of the last `/`, or -1.
pub open spec fn last_slash(s: Seq<char>) -> int
    decreases s.len(),
{
    if s.len() == 0 {
        -1
    } else if s[s.len() - 1] == '/' {
        s.len() - 1
    } else {
        last_slash(s.drop_last())
    }
}

/// The parent of a plain path: the text before the last `/`, the root for
/// a component right under it, the empty path for a single relative
/// component, none for the root.
pub open spec fn parent_text(s: Seq<char>) -> Option<Seq<char>> {
    let k = last_slash(s);
    if k < 0 {
        Some(Seq::empty())
    } else if k == 0 {
        if s.len() == 1 { None } else { Some(seq!['/']) }
    } else {
        Some(s.take(k))
    }
}

/// The last component of a plain path; none for the root.
pub open spec fn file_name_text(s: Seq<char>) -> Option<Seq<char>> {
    if s == seq!['/'] { None } else { Some(s.skip(last_slash(s) + 1)) }
}

/// A relative base path that no platform reads as a prefix or a root: not
/// empty, not starting with `/`, and without `\\` or `:`.
pub open spec fn relative_base(base: Seq<char>) -> bool {
    &&& base.len() > 0
    &&& base[0] != '/'
    &&& forall|i: int| 0 <= i < base.len() ==> #[trigger] base[i] != '\\' && base[i] != ':'
}

/// A plain path with the components of a plain `base` taken off its front,
/// where `base`'s components lead it.
pub open spec fn strip_prefix_text(p: Seq<char>, base: Seq<char>) -> Option<Seq<char>> {
    if p == base {
        Some(Seq::empty())
    } else if base == seq!['/'] {
        if p[0] == '/' { Some(p.skip(1)) } else { None }
    } else if has_prefix(p, base) && p.len() > base.len() && p[base.len() as int] == '/' {
        Some(p.skip(base.len() + 1 as int))
    } else {
        None
    }
}

/// `Path::parent` of the path with this text, as text: "the path without
/// its final component", `None` for a root. The parent is a leading part of
/// the path's text; for a plain path it is `parent_text`. Left unsaid for
/// other paths: where the last component starts (the platform's separator
/// rule).
#[verifier::external_body]
pub fn path_parent(p: &str) -> (r: Option<String>)
    ensures
        r matches Some(q) ==> has_prefix(p@, q@),
        plain_path(p@) ==> r.deep_view() == parent_text(p@),
{
    std::path::Path::new(p).parent().map(|q| q.to_string_lossy().into_owned())
}

/// `Path::strip_prefix`: the rest of `p` after the leading components of
/// `base`, as text. For a plain `p` it is a trailing part of `p`'s text (for
/// other texts `std` may trim a trailing separator or `.` from it); for
/// plain paths it is `strip_prefix_text`, and a relative base never leads an
/// absolute plain path. Left unsaid for other paths: when `base` counts as
/// leading components (the platform's component rules).
#[verifier::external_body]
pub fn path_strip_prefix(p: &str, base: &str) -> (r: Option<String>)
    ensures
        plain_path(p@) ==> (r matches Some(rest) ==> has_suffix(p@, rest@)),
        plain_path(p@) && plain_path(base@) ==> r.deep_view() == strip_prefix_text(p@, base@),
        plain_path(p@) && p@[0] == '/' && relative_base(base@) ==> r is None,
{
    std::path::Path::new(p).strip_prefix(base).ok().map(|q| q.to_string_lossy().into_owned())
}

/// A separator that some platform's `std::path` writes between components.
pub open spec fn separator_char(c: char) -> bool {
    c == '/' || c == '\\'
}

/// `r` is `rest` joined onto `base` for plain paths: a `rest` that starts
/// with `/` takes the base's place; after the root `/` the rest follows
/// directly; otherwise one separator stands between them.
pub open spec fn joined_text(base: Seq<char>, rest: Seq<char>, r: Seq<char>) -> bool {
    if rest[0] == '/' {
        r == rest
    } else if base == seq!['/'] {
        r == base + rest
    } else {
        &&& r.len() == base.len() + 1 + rest.len()
        &&& r.take(base.len() as int) == base
        &&& separator_char(r[base.len() as int])
        &&& r.skip(base.len() + 1int) == rest
    }
}

/// `Path::join` (`PathBuf::push`): `rest` added to `base`, as text. For
/// plain texts the documented rules of `push` fix the result: a `rest` with
/// a root replaces the base (a plain base has no prefix to keep), and
/// otherwise one main separator is added unless the base already ends with
/// one (only the root `/` does). Left unsaid: which separator that is (`/`
/// or `\`, the platform's), and anything for other texts (a verbatim base
/// drops `.` and `..` from `rest`).
#[verifier::external_body]
pub fn path_join(base: &str, rest: &str) -> (r: String)
    ensures
        plain_path(base@) && plain_path(rest@) ==> has_suffix(r@, rest@),
        plain_path(base@) && plain_path(rest@) ==> joined_text(base@, rest@, r@),
{
    std::path::Path::new(base).join(rest).to_string_lossy().into_owned()
}

/// `Path::is_absolute`: whether the path stands alone, independent of the
/// current directory. A plain relative path (no root, no prefix) is never
/// absolute. Left unsaid: whether a path that starts with `/` is absolute
/// (on Windows it also needs a drive or other prefix).
#[verifier::external_body]
pub fn path_is_absolute(p: &str) -> (r: bool)
    ensures
        plain_path(p@) && p@[0] != '/' ==> !r,
{
    std::path::Path::new(p).is_absolute()
}

/// `Path::file_name` of the path with this text, as text: its final
/// component, `file_name_text` for a plain path. Left unsaid for other
/// paths: which component is last (the platform's rule).
#[verifier::external_body]
pub fn path_file_name(p: &str) -> (r: Option<String>)
    ensures
        plain_path(p@) ==> r.deep_view() == file_name_text(p@),
{
    std::path::Path::new(p).file_name().map(|q| q.to_string_lossy().into_owned())
}

} // verus!
