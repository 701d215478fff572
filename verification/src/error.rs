//! The errors that the library's operations report.
use crate::text::{join, join_strings, views};
use vstd::prelude::*;

verus! {

/// What went wrong, with the text that the message quotes.
#[derive(Debug)]
pub enum Error {
    /// A Rust version with more than three dot-separated parts.
    InvalidRustVersion(String),
    /// A version string that does not parse as a semantic version.
    InvalidVersion(String),
    /// A dependency requirement that does not parse.
    InvalidRequirement(String),
    /// A dependency requirement that does not parse, met while suggesting.
    InvalidVersionRequirement(String),
    /// A registry release whose version does not parse: version, crate.
    InvalidCandidateVersion(String, String),
    /// A registry release whose Rust version does not parse: value, crate.
    InvalidCandidateRustVersion(String, String),
    /// A crate name that cannot key the registry index (the empty name).
    InvalidIndexKey(String),
    /// A package spec that matched no workspace member.
    UnmatchedPackageSpec(String),
    /// The workspace has no root package and no member was named.
    NoRootPackage,
    /// A selected package id that the metadata does not hold.
    SelectedPackageMissing(String),
    /// A selected member whose package the metadata does not hold.
    MemberMissing(String),
    /// A package id that the package map does not hold.
    PackageMissing(String),
    /// An explain query that matched nothing in the selected graph.
    UnmatchedQuery(String),
    /// An explain query that matched several packages; the ids follow.
    AmbiguousQuery(String, Vec<String>),
    /// Metadata without a resolve graph.
    MissingResolveGraph,
    /// A text that does not parse as TOML, with the parser's message.
    InvalidToml(String),
    /// A dependency entry found in no section of its manifest: key, manifest.
    DependencyNotLocated(String, String),
}

/// `prefix`, the value in backticks, then `suffix`.
pub open spec fn quoted(prefix: Seq<char>, value: Seq<char>, suffix: Seq<char>) -> Seq<char> {
    prefix + "`"@ + value + "`"@ + suffix
}

/// The message that reports an error.
pub open spec fn message_text(e: Error) -> Seq<char> {
    match e {
        Error::InvalidRustVersion(t) => quoted("invalid Rust version "@, t@, ""@),
        Error::InvalidVersion(t) => quoted("invalid version "@, t@, ""@),
        Error::InvalidRequirement(t) => quoted("invalid dependency requirement "@, t@, ""@),
        Error::InvalidVersionRequirement(t) => quoted("invalid version requirement "@, t@, ""@),
        Error::InvalidCandidateVersion(v, c) => quoted("invalid version "@, v@, " for "@) + "`"@ + c@ + "`"@,
        Error::InvalidCandidateRustVersion(v, c) => quoted("invalid rust-version "@, v@, " for "@) + "`"@ + c@ + "`"@,
        Error::InvalidIndexKey(t) => quoted("crate name "@, t@, " is not a valid registry index key"@),
        Error::UnmatchedPackageSpec(t) => quoted(
            "package spec "@,
            t@,
            " did not match any workspace member by exact package name, package ID, or manifest path"@,
        ),
        Error::NoRootPackage => "this workspace has no root package; pass --workspace or --package"@,
        Error::SelectedPackageMissing(t) => quoted("selected package "@, t@, " not found in metadata"@),
        Error::MemberMissing(t) => quoted("selected package "@, t@, " missing from metadata"@),
        Error::PackageMissing(t) => quoted("package "@, t@, " missing from package map"@),
        Error::UnmatchedQuery(t) => quoted(
            "query "@,
            t@,
            " did not match any package in the selected dependency graph"@,
        ),
        Error::AmbiguousQuery(t, ids) => quoted(
            "query "@,
            t@,
            " matches several packages; pass one of these package IDs: "@,
        ) + join(views(ids@), ", "@),
        Error::MissingResolveGraph => "cargo metadata returned no resolve graph"@,
        Error::InvalidToml(t) => t@,
        Error::DependencyNotLocated(k, m) => quoted("failed to locate dependency "@, k@, " in "@) + "`"@ + m@ + "`"@,
    }
}

/// Appends `prefix`, the value in backticks, then `suffix`.
fn push_quoted(out: &mut String, prefix: &str, value: &str, suffix: &str)
    ensures
        final(out)@ == old(out)@ + quoted(prefix@, value@, suffix@),
{
    proof {
        reveal_strlit("`");
    }
    out.append(prefix);
    out.append("`");
    out.append(value);
    out.append("`");
    out.append(suffix);
}

impl Error {
    /// The message that reports this error.
    pub fn message(&self) -> (r: String)
        ensures
            r@ == message_text(*self),
    {
        let mut out = String::new();
        match self {
            Error::InvalidRustVersion(t) => push_quoted(&mut out, "invalid Rust version ", t.as_str(), ""),
            Error::InvalidVersion(t) => push_quoted(&mut out, "invalid version ", t.as_str(), ""),
            Error::InvalidRequirement(t) => push_quoted(&mut out, "invalid dependency requirement ", t.as_str(), ""),
            Error::InvalidVersionRequirement(t) => push_quoted(&mut out, "invalid version requirement ", t.as_str(), ""),
            Error::InvalidCandidateVersion(v, c) => {
                push_quoted(&mut out, "invalid version ", v.as_str(), " for ");
                push_quoted(&mut out, "", c.as_str(), "");
            },
            Error::InvalidCandidateRustVersion(v, c) => {
                push_quoted(&mut out, "invalid rust-version ", v.as_str(), " for ");
                push_quoted(&mut out, "", c.as_str(), "");
            },
            Error::InvalidIndexKey(t) => push_quoted(&mut out, "crate name ", t.as_str(), " is not a valid registry index key"),
            Error::UnmatchedPackageSpec(t) => push_quoted(
                &mut out,
                "package spec ",
                t.as_str(),
                " did not match any workspace member by exact package name, package ID, or manifest path",
            ),
            Error::NoRootPackage => out.append("this workspace has no root package; pass --workspace or --package"),
            Error::SelectedPackageMissing(t) => push_quoted(&mut out, "selected package ", t.as_str(), " not found in metadata"),
            Error::MemberMissing(t) => push_quoted(&mut out, "selected package ", t.as_str(), " missing from metadata"),
            Error::PackageMissing(t) => push_quoted(&mut out, "package ", t.as_str(), " missing from package map"),
            Error::UnmatchedQuery(t) => push_quoted(
                &mut out,
                "query ",
                t.as_str(),
                " did not match any package in the selected dependency graph",
            ),
            Error::AmbiguousQuery(t, ids) => {
                push_quoted(&mut out, "query ", t.as_str(), " matches several packages; pass one of these package IDs: ");
                let listed = join_strings(ids, ", ");
                out.append(listed.as_str());
            },
            Error::MissingResolveGraph => out.append("cargo metadata returned no resolve graph"),
            Error::InvalidToml(t) => out.append(t.as_str()),
            Error::DependencyNotLocated(k, m) => {
                push_quoted(&mut out, "failed to locate dependency ", k.as_str(), " in ");
                push_quoted(&mut out, "", m.as_str(), "");
            },
        }
        proof {
            reveal_strlit("");
            assert(out@ =~= message_text(*self));
        }
        out
    }
}

} // verus!
