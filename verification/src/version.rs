//! Semantic versions: parsing, ordering and requirement matching go through
//! the `semver` crate; the library holds the parts as plain values.
use crate::error::Error;
use crate::text::{decimal, push_char, u64_text, chars_of};
use semver::{BuildMetadata, Prerelease};
use vstd::prelude::*;

verus! {

/// The plain parts of a version: major, minor, patch, pre-release and build.
pub type VersionParts = (u64, u64, u64, Seq<char>, Seq<char>);

/// A semantic version held as plain values.
#[derive(Debug)]
pub struct Version {
    pub major: u64,
    pub minor: u64,
    pub patch: u64,
    /// Pre-release identifiers, empty for a release.
    pub pre: String,
    /// Build metadata, usually empty.
    pub build: String,
}

impl View for Version {
    type V = VersionParts;

    open spec fn view(&self) -> VersionParts {
        (self.major, self.minor, self.patch, self.pre@, self.build@)
    }
}

impl DeepView for Version {
    type V = VersionParts;

    open spec fn deep_view(&self) -> VersionParts {
        self@
    }
}

impl Clone for Version {
    fn clone(&self) -> (r: Self)
        ensures
            r == *self,
    {
        Version {
            major: self.major,
            minor: self.minor,
            patch: self.patch,
            pre: self.pre.clone(),
            build: self.build.clone(),
        }
    }
}

/// What `semver::Version::parse` gives for a text, as plain parts.
pub uninterp spec fn semver_parse(text: Seq<char>) -> Option<VersionParts>;

/// The order of `semver::Version` (its `Ord`): -1, 0 or 1.
pub uninterp spec fn semver_order(a: VersionParts, b: VersionParts) -> int;

/// Whether `semver::VersionReq::parse` accepts a text.
pub uninterp spec fn semver_req_parses(text: Seq<char>) -> bool;

/// What `semver::VersionReq::matches` says of a version, for a requirement
/// that parses.
pub uninterp spec fn semver_req_matches(req: Seq<char>, v: VersionParts) -> bool;

/// Numeric order of the release triples.
pub open spec fn triple_order(a: VersionParts, b: VersionParts) -> int {
    if a.0 != b.0 {
        if a.0 < b.0 { -1 } else { 1 }
    } else if a.1 != b.1 {
        if a.1 < b.1 { -1 } else { 1 }
    } else if a.2 != b.2 {
        if a.2 < b.2 { -1 } else { 1 }
    } else {
        0
    }
}

/// `semver::Version::parse`, its parts copied into a `Version`.
#[verifier::external_body]
pub fn parse_version(text: &str) -> (r: Option<Version>)
    ensures
        r matches Some(v) ==> semver_parse(text@) == Some(v@),
        r is None ==> semver_parse(text@) is None,
{
    semver::Version::parse(text).ok().map(|v| Version {
        major: v.major,
        minor: v.minor,
        patch: v.patch,
        pre: v.pre.as_str().to_string(),
        build: v.build.as_str().to_string(),
    })
}

/// The parts of a version that `semver::Version::parse` gives for some text.
pub open spec fn parsed_version(v: VersionParts) -> bool {
    exists|t: Seq<char>| #[trigger] semver_parse(t) == Some(v)
}

/// `Ord::cmp` of `semver::Version` on the two versions rebuilt from their
/// parts. The contract names the result and states what the crate's derived
/// `Ord` and its `Prerelease` order show: the release triple is compared
/// first, numerically; on equal triples a release comes after any
/// pre-release of it (for parts that parse); equal versions compare equal;
/// swapping the arguments reverses the order. Left unsaid: how two
/// pre-release or build texts order (the crate's identifier rules).
#[verifier::external_body]
pub fn compare_versions(a: &Version, b: &Version) -> (r: i8)
    ensures
        r == semver_order(a@, b@),
        r == -semver_order(b@, a@),
        -1 <= r <= 1,
        triple_order(a@, b@) != 0 ==> r == triple_order(a@, b@),
        triple_order(a@, b@) == 0 && parsed_version(a@) && parsed_version(b@) && a@.3.len() == 0 && b@.3.len() > 0 ==> r == 1,
        triple_order(a@, b@) == 0 && parsed_version(a@) && parsed_version(b@) && a@.3.len() > 0 && b@.3.len() == 0 ==> r == -1,
        a@ == b@ ==> r == 0,
{
    let x = semver::Version { major: a.major, minor: a.minor, patch: a.patch,
        pre: Prerelease::new(&a.pre).unwrap_or(Prerelease::EMPTY), build: BuildMetadata::new(&a.build).unwrap_or(BuildMetadata::EMPTY) };
    let y = semver::Version { major: b.major, minor: b.minor, patch: b.patch,
        pre: Prerelease::new(&b.pre).unwrap_or(Prerelease::EMPTY), build: BuildMetadata::new(&b.build).unwrap_or(BuildMetadata::EMPTY) };
    match x.cmp(&y) {
        std::cmp::Ordering::Less => -1,
        std::cmp::Ordering::Equal => 0,
        std::cmp::Ordering::Greater => 1,
    }
}

/// `semver::VersionReq::parse` succeeds on the text.
#[verifier::external_body]
pub fn requirement_parses(text: &str) -> (r: bool)
    ensures
        r == semver_req_parses(text@),
{
    semver::VersionReq::parse(text).is_ok()
}

/// `semver::VersionReq::matches` of the parsed requirement on the version
/// rebuilt from its parts.
#[verifier::external_body]
pub fn requirement_matches(req: &str, v: &Version) -> (r: bool)
    requires
        semver_req_parses(req@),
    ensures
        r == semver_req_matches(req@, v@),
{
    let x = semver::Version { major: v.major, minor: v.minor, patch: v.patch,
        pre: Prerelease::new(&v.pre).unwrap_or(Prerelease::EMPTY), build: BuildMetadata::new(&v.build).unwrap_or(BuildMetadata::EMPTY) };
    semver::VersionReq::parse(req).map(|r| r.matches(&x)).unwrap_or(false)
}

/// `a <= b` in the semver order.
pub open spec fn version_le(a: VersionParts, b: VersionParts) -> bool {
    semver_order(a, b) <= 0
}

/// The text that `Display` writes for a version:
/// `major.minor.patch`, then `-pre` and `+build` when present.
pub open spec fn version_display(v: VersionParts) -> Seq<char> {
    let core = decimal(v.0 as nat) + seq!['.'] + decimal(v.1 as nat) + seq!['.'] + decimal(
        v.2 as nat,
    );
    let with_pre = if v.3.len() == 0 { core } else { core + seq!['-'] + v.3 };
    if v.4.len() == 0 { with_pre } else { with_pre + seq!['+'] + v.4 }
}

/// The short display of a Rust version: `major.minor` when the patch is 0.
pub open spec fn rust_version_display(v: VersionParts) -> Seq<char> {
    if v.2 == 0 {
        decimal(v.0 as nat) + seq!['.'] + decimal(v.1 as nat)
    } else {
        version_display(v)
    }
}

/// Number of occurrences of `c` in `s`.
pub open spec fn count_char(s: Seq<char>, c: char) -> nat
    decreases s.len(),
{
    if s.len() == 0 {
        0
    } else {
        count_char(s.drop_last(), c) + if s.last() == c { 1nat } else { 0nat }
    }
}

/// A Rust version text padded with zero parts: one part gets `.0.0`, two
/// parts get `.0`, more parts are kept.
pub open spec fn padded_rust_version(s: Seq<char>) -> Seq<char> {
    if count_char(s, '.') == 0 {
        s + seq!['.', '0', '.', '0']
    } else if count_char(s, '.') == 1 {
        s + seq!['.', '0']
    } else {
        s
    }
}

impl Version {
    /// A release version with no pre-release or build parts.
    pub fn new(major: u64, minor: u64, patch: u64) -> (v: Version)
        ensures
            v@ == (major, minor, patch, Seq::<char>::empty(), Seq::<char>::empty()),
    {
        Version { major, minor, patch, pre: String::new(), build: String::new() }
    }

    /// The `Display` text of the version.
    pub fn text(&self) -> (s: String)
        ensures
            s@ == version_display(self@),
    {
        let mut s = u64_text(self.major);
        push_char(&mut s, '.');
        let minor = u64_text(self.minor);
        s.append(minor.as_str());
        push_char(&mut s, '.');
        let patch = u64_text(self.patch);
        s.append(patch.as_str());
        proof {
            assert(s@ =~= decimal(self.major as nat) + seq!['.'] + decimal(self.minor as nat)
                + seq!['.'] + decimal(self.patch as nat));
        }
        let ghost core = s@;
        if !self.pre.as_str().is_empty() {
            push_char(&mut s, '-');
            s.append(self.pre.as_str());
            assert(s@ =~= core + seq!['-'] + self.pre@);
        }
        let ghost with_pre = s@;
        if !self.build.as_str().is_empty() {
            push_char(&mut s, '+');
            s.append(self.build.as_str());
            assert(s@ =~= with_pre + seq!['+'] + self.build@);
        }
        s
    }
}

/// Displays a Rust version: `major.minor` when the patch is 0, else the full
/// version text.
pub fn display_rust_version(version: &Version) -> (s: String)
    ensures
        s@ == rust_version_display(version@),
{
    if version.patch == 0 {
        let mut s = u64_text(version.major);
        push_char(&mut s, '.');
        let minor = u64_text(version.minor);
        s.append(minor.as_str());
        assert(s@ =~= decimal(version.major as nat) + seq!['.'] + decimal(version.minor as nat));
        s
    } else {
        version.text()
    }
}

/// Counts the dots of a text.
pub fn count_dots(s: &str) -> (n: usize)
    ensures
        n == count_char(s@, '.'),
{
    let v = chars_of(s);
    let mut n: usize = 0;
    let mut i: usize = 0;
    while i < v.len()
        invariant
            v@ == s@,
            i <= v@.len(),
            n == count_char(v@.take(i as int), '.'),
            n <= i,
        decreases v@.len() - i,
    {
        assert(v@.take(i + 1).drop_last() =~= v@.take(i as int));
        if v[i] == '.' {
            n = n + 1;
        }
        i = i + 1;
    }
    assert(v@.take(v@.len() as int) =~= v@);
    n
}

/// Pads a Rust version text to three parts (see `padded_rust_version`).
pub fn pad_rust_version(value: &str) -> (s: String)
    ensures
        s@ == padded_rust_version(value@),
{
    let dots = count_dots(value);
    let mut s = String::from_str(value);
    if dots == 0 {
        s.append(".0.0");
        proof { reveal_strlit(".0.0"); }
        assert(s@ =~= value@ + seq!['.', '0', '.', '0']);
    } else if dots == 1 {
        s.append(".0");
        proof { reveal_strlit(".0"); }
        assert(s@ =~= value@ + seq!['.', '0']);
    }
    s
}

/// Parses a Rust version as Cargo writes it (`1`, `1.70`, `1.70.1`) after
/// padding it to three parts. `None` where the padded text is no version.
pub fn parse_rust_version(value: &str) -> (r: Option<Version>)
    ensures
        r matches Some(v) ==> semver_parse(padded_rust_version(value@)) == Some(v@),
        r is None ==> semver_parse(padded_rust_version(value@)) is None,
{
    let padded = pad_rust_version(value);
    parse_version(padded.as_str())
}

/// Normalizes a user-given Rust version: one or two parts are padded with
/// zeros, three are kept, more are refused.
pub fn normalize_rust_version(input: &str) -> (r: Result<Version, Error>)
    ensures
        count_char(input@, '.') > 2 ==> (r matches Err(Error::InvalidRustVersion(t)) && t@ == input@),
        count_char(input@, '.') <= 2 ==> match r {
            Ok(v) => semver_parse(padded_rust_version(input@)) == Some(v@),
            Err(Error::InvalidVersion(t)) => t@ == padded_rust_version(input@)
                && semver_parse(padded_rust_version(input@)) is None,
            _ => false,
        },
{
    if count_dots(input) > 2 {
        return Err(Error::InvalidRustVersion(String::from_str(input)));
    }
    let padded = pad_rust_version(input);
    match parse_version(padded.as_str()) {
        Some(v) => Ok(v),
        None => Err(Error::InvalidVersion(padded)),
    }
}

} // verus!
