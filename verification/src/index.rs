//! Registry candidates: building them from index entries and choosing the
//! release to suggest for a dependency.
use crate::error::Error;
use crate::model::{DependencyConstraint, DependencyConstraintView, RegistryCandidate, RegistryCandidateView};
use crate::sort::{adjacent_sorted, sort_by_key, SortKey};
use crate::text::chars_of;
use crate::version::{
    compare_versions, padded_rust_version, parse_rust_version, parse_version, requirement_matches,
    semver_order, semver_parse, VersionParts, requirement_parses, semver_req_matches,
    semver_req_parses, version_le, Version,
};
use vstd::prelude::*;
use vstd::utf8::{encode_utf8, is_char_boundary};

verus! {

/// `c` is an ASCII digit or a dot.
pub open spec fn is_digit_or_dot(c: char) -> bool {
    ('0' <= c && c <= '9') || c == '.'
}

/// The digits and dots of a text, in order.
pub open spec fn digits_and_dots(s: Seq<char>) -> Seq<char>
    decreases s.len(),
{
    if s.len() == 0 {
        Seq::empty()
    } else if is_digit_or_dot(s.last()) {
        digits_and_dots(s.drop_last()).push(s.last())
    } else {
        digits_and_dots(s.drop_last())
    }
}

/// The text before the first dot.
pub open spec fn before_first_dot(s: Seq<char>) -> Seq<char>
    decreases s.len(),
{
    if s.len() == 0 || s[0] == '.' {
        Seq::empty()
    } else {
        seq![s[0]] + before_first_dot(s.drop_first())
    }
}

/// The value of a text of decimal digits.
pub open spec fn digits_value(s: Seq<char>) -> nat
    decreases s.len(),
{
    if s.len() == 0 {
        0
    } else {
        digits_value(s.drop_last()) * 10 + ((s.last() as u32) - ('0' as u32)) as nat
    }
}

/// The major version a requirement is anchored to: the leading number of
/// its digits and dots, when there is one that fits in a `u64`.
pub open spec fn requirement_anchor(req: Seq<char>) -> Option<u64> {
    let head = before_first_dot(digits_and_dots(req));
    if head.len() == 0 || digits_value(head) > u64::MAX {
        None
    } else {
        Some(digits_value(head) as u64)
    }
}

proof fn lemma_before_first_dot_digits(s: Seq<char>)
    requires
        forall|i: int| 0 <= i < s.len() ==> is_digit_or_dot(s[i]),
    ensures
        forall|i: int| 0 <= i < before_first_dot(s).len() ==> '0' <= #[trigger] before_first_dot(s)[i] <= '9',
        before_first_dot(s).len() <= s.len(),
    decreases s.len(),
{
    if s.len() > 0 && s[0] != '.' {
        lemma_before_first_dot_digits(s.drop_first());
        assert forall|i: int| 0 <= i < before_first_dot(s).len() implies '0' <= #[trigger] before_first_dot(s)[i] <= '9' by {
            if i > 0 {
                assert(before_first_dot(s)[i] == before_first_dot(s.drop_first())[i - 1]);
            }
        }
    }
}

proof fn lemma_digits_value_grows(s: Seq<char>, j: int)
    requires
        0 <= j <= s.len(),
    ensures
        digits_value(s.take(j)) <= digits_value(s),
    decreases s.len() - j,
{
    if j < s.len() {
        lemma_digits_value_grows(s, j + 1);
        assert(s.take(j + 1).drop_last() =~= s.take(j));
    } else {
        assert(s.take(j) =~= s);
    }
}

proof fn lemma_digits_and_dots_shape(s: Seq<char>)
    ensures
        forall|i: int| 0 <= i < digits_and_dots(s).len() ==> is_digit_or_dot(#[trigger] digits_and_dots(s)[i]),
    decreases s.len(),
{
    if s.len() > 0 {
        lemma_digits_and_dots_shape(s.drop_last());
        let r = digits_and_dots(s.drop_last());
        if is_digit_or_dot(s.last()) {
            assert forall|i: int| 0 <= i < digits_and_dots(s).len() implies is_digit_or_dot(#[trigger] digits_and_dots(s)[i]) by {
                if i < r.len() {
                    assert(r.push(s.last())[i] == r[i]);
                }
            }
        }
    }
}

/// Reads the anchor major version of a requirement (see `requirement_anchor`).
pub fn parse_requirement_anchor(requirement: &str) -> (r: Option<u64>)
    ensures
        r == requirement_anchor(requirement@),
{
    let chars = chars_of(requirement);
    let mut kept: Vec<char> = Vec::new();
    let mut i: usize = 0;
    while i < chars.len()
        invariant
            chars@ == requirement@,
            i <= chars@.len(),
            kept@ == digits_and_dots(chars@.take(i as int)),
        decreases chars@.len() - i,
    {
        assert(chars@.take(i + 1).drop_last() =~= chars@.take(i as int));
        let c = chars[i];
        if ('0' <= c && c <= '9') || c == '.' {
            kept.push(c);
        }
        i = i + 1;
    }
    assert(chars@.take(chars@.len() as int) =~= chars@);
    let ghost all = kept@;
    proof { lemma_digits_and_dots_shape(requirement@); }
    let mut head: Vec<char> = Vec::new();
    let mut k: usize = 0;
    assert(all.skip(0) =~= all);
    assert(head@ + before_first_dot(all.skip(0)) =~= before_first_dot(all));
    while k < kept.len() && kept[k] != '.'
        invariant
            kept@ == all,
            k <= kept@.len(),
            forall|j: int| 0 <= j < k ==> kept@[j] != '.',
            head@ == kept@.take(k as int),
            before_first_dot(all) == head@ + before_first_dot(all.skip(k as int)),
        decreases kept@.len() - k,
    {
        assert(all.skip(k as int).drop_first() =~= all.skip(k + 1));
        assert(kept@.take(k as int).push(kept@[k as int]) =~= kept@.take(k + 1));
        head.push(kept[k]);
        assert(seq![all[k as int]] + before_first_dot(all.skip(k + 1)) == before_first_dot(all.skip(k as int)));
        assert(head@ + before_first_dot(all.skip(k + 1)) =~= (head@.drop_last()) + (seq![all[k as int]] + before_first_dot(all.skip(k + 1))));
        k = k + 1;
    }
    assert(before_first_dot(all.skip(k as int)) =~= Seq::<char>::empty());
    assert(head@ =~= before_first_dot(all));
    proof { lemma_before_first_dot_digits(all); }
    if head.len() == 0 {
        return None;
    }
    let mut value: u64 = 0;
    let mut j: usize = 0;
    while j < head.len()
        invariant
            j <= head@.len(),
            head@ == before_first_dot(all),
            all == digits_and_dots(requirement@),
            forall|t: int| 0 <= t < head@.len() ==> '0' <= #[trigger] head@[t] <= '9',
            value == digits_value(head@.take(j as int)),
        decreases head@.len() - j,
    {
        assert(head@.take(j + 1).drop_last() =~= head@.take(j as int));
        let d = head[j];
        assert('0' <= head@[j as int] <= '9');
        let digit: u64 = ((d as u32) - ('0' as u32)) as u64;
        assert(head@.take(j + 1).last() == d);
        assert(digits_value(head@.take(j + 1)) == value * 10 + digit);
        if value > (u64::MAX - digit) / 10 {
            proof {
                lemma_digits_value_grows(head@, j + 1);
                assert(value * 10 + digit > u64::MAX) by (nonlinear_arith)
                    requires
                        value > (u64::MAX - digit) / 10,
                        digit < 10,
                ;
            }
            return None;
        }
        assert(value * 10 + digit <= u64::MAX) by (nonlinear_arith)
            requires
                value <= (u64::MAX - digit) / 10,
                digit < 10,
        ;
        value = value * 10 + digit;
        j = j + 1;
    }
    assert(head@.take(head@.len() as int) =~= head@);
    Some(value)
}

/// Views of a sequence of candidates.
pub open spec fn candidate_views(s: Seq<RegistryCandidate>) -> Seq<RegistryCandidateView> {
    s.map_values(|c: RegistryCandidate| c@)
}

/// A candidate fits a dependency: not yanked; declares a Rust version no
/// newer than the dependency's target (any declared one where there is no
/// target); offers every requested feature; and, unless major changes are
/// allowed, keeps the anchor major version.
pub open spec fn candidate_fits(
    c: RegistryCandidateView,
    d: DependencyConstraintView,
    allow_major: bool,
    anchor: Option<u64>,
) -> bool {
    &&& !c.yanked
    &&& match (d.target_rust_version, c.rust_version) {
        (Some(target), Some(declared)) => version_le(declared, target),
        (_, declared) => declared is Some,
    }
    &&& forall|i: int| 0 <= i < d.features.len() ==> c.features.contains(#[trigger] d.features[i])
    &&& (allow_major || match anchor {
        Some(major) => major == c.version.0,
        None => true,
    })
}

/// The last index of `s` whose candidate fits and, when `in_req`, also
/// satisfies the requirement.
pub open spec fn last_fitting(
    s: Seq<RegistryCandidateView>,
    d: DependencyConstraintView,
    allow_major: bool,
    in_req: bool,
) -> Option<int>
    decreases s.len(),
{
    if s.len() == 0 {
        None
    } else if candidate_fits(s.last(), d, allow_major, requirement_anchor(d.requirement)) && (!in_req
        || semver_req_matches(d.requirement, s.last().version)) {
        Some(s.len() - 1)
    } else {
        last_fitting(s.drop_last(), d, allow_major, in_req)
    }
}

/// The index of the candidate to suggest: with major changes allowed, the
/// last fitting one; otherwise the last fitting one that the current
/// requirement accepts, else the last fitting one.
pub open spec fn best_candidate_index(
    s: Seq<RegistryCandidateView>,
    d: DependencyConstraintView,
    allow_major: bool,
) -> Option<int> {
    if allow_major {
        last_fitting(s, d, true, false)
    } else {
        match last_fitting(s, d, false, true) {
            Some(i) => Some(i),
            None => last_fitting(s, d, false, false),
        }
    }
}

proof fn lemma_last_fitting(s: Seq<RegistryCandidateView>, d: DependencyConstraintView, allow_major: bool, in_req: bool)
    ensures
        last_fitting(s, d, allow_major, in_req) matches Some(i) ==> 0 <= i < s.len()
            && candidate_fits(s[i], d, allow_major, requirement_anchor(d.requirement))
            && (!in_req || semver_req_matches(d.requirement, s[i].version))
            && forall|j: int| i < j < s.len() ==> !(candidate_fits(s[j], d, allow_major, requirement_anchor(d.requirement))
                && (!in_req || semver_req_matches(d.requirement, s[j].version))),
        last_fitting(s, d, allow_major, in_req) is None ==> forall|j: int| 0 <= j < s.len() ==> !(candidate_fits(s[j], d, allow_major, requirement_anchor(d.requirement))
                && (!in_req || semver_req_matches(d.requirement, s[j].version))),
    decreases s.len(),
{
    if s.len() > 0 {
        lemma_last_fitting(s.drop_last(), d, allow_major, in_req);
        assert forall|j: int| 0 <= j < s.len() - 1 implies s.drop_last()[j] == s[j] by {}
    }
}

/// The suggestion rule, in terms of the candidates: the chosen index is a
/// fitting candidate. Without major changes, where some fitting candidate
/// is one the current requirement admits, the chosen one is admitted too
/// and no later fitting candidate is admitted; where none is admitted, the
/// chosen one is the last fitting candidate. With major changes allowed it
/// is the last candidate that fits without the major-version anchor. There
/// is a choice exactly when some candidate fits.
pub proof fn law_best_candidate_prefers_the_requirement(
    s: Seq<RegistryCandidateView>,
    d: DependencyConstraintView,
    allow_major: bool,
)
    ensures
        best_candidate_index(s, d, allow_major) matches Some(i) ==> 0 <= i < s.len()
            && candidate_fits(s[i], d, allow_major, requirement_anchor(d.requirement)),
        best_candidate_index(s, d, allow_major) is None <==> forall|j: int| 0 <= j < s.len()
            ==> !candidate_fits(#[trigger] s[j], d, allow_major, requirement_anchor(d.requirement)),
        !allow_major && (exists|j: int| 0 <= j < s.len() && candidate_fits(#[trigger] s[j], d, false, requirement_anchor(d.requirement))
            && semver_req_matches(d.requirement, s[j].version)) ==> (best_candidate_index(s, d, false) matches Some(i)
            && semver_req_matches(d.requirement, s[i].version)
            && forall|j: int| i < j < s.len() && candidate_fits(#[trigger] s[j], d, false, requirement_anchor(d.requirement))
                ==> !semver_req_matches(d.requirement, s[j].version)),
        !allow_major && !(exists|j: int| 0 <= j < s.len() && candidate_fits(#[trigger] s[j], d, false, requirement_anchor(d.requirement))
            && semver_req_matches(d.requirement, s[j].version)) ==> (best_candidate_index(s, d, false) matches Some(i) ==>
            forall|j: int| i < j < s.len() ==> !candidate_fits(#[trigger] s[j], d, false, requirement_anchor(d.requirement))),
        allow_major ==> (best_candidate_index(s, d, true) matches Some(i) ==>
            forall|j: int| i < j < s.len() ==> !candidate_fits(#[trigger] s[j], d, true, requirement_anchor(d.requirement))),
{
    lemma_last_fitting(s, d, true, false);
    lemma_last_fitting(s, d, false, true);
    lemma_last_fitting(s, d, false, false);
}

/// Whether `needle` is among the texts.
pub fn contains_text(haystack: &Vec<String>, needle: &String) -> (r: bool)
    ensures
        r == haystack.deep_view().contains(needle@),
{
    let mut i: usize = 0;
    while i < haystack.len()
        invariant
            i <= haystack@.len(),
            forall|j: int| 0 <= j < i ==> haystack@[j]@ != needle@,
        decreases haystack@.len() - i,
    {
        if haystack[i] == *needle {
            assert(haystack.deep_view()[i as int] == needle@);
            return true;
        }
        i = i + 1;
    }
    assert forall|j: int| 0 <= j < haystack.deep_view().len() implies haystack.deep_view()[j] != needle@ by {
        assert(haystack.deep_view()[j] == haystack@[j]@);
    }
    false
}

/// Decides `candidate_fits` for one candidate.
fn candidate_matches(
    candidate: &RegistryCandidate,
    dependency: &DependencyConstraint,
    allow_major: bool,
    current_major: Option<u64>,
) -> (r: bool)
    ensures
        r == candidate_fits(candidate@, dependency@, allow_major, current_major),
{
    if candidate.yanked {
        return false;
    }
    let rust_ok = match (&dependency.target_rust_version, &candidate.rust_version) {
        (Some(target), Some(declared)) => compare_versions(declared, target) <= 0,
        (_, declared) => declared.is_some(),
    };
    if !rust_ok {
        return false;
    }
    let mut i: usize = 0;
    while i < dependency.features.len()
        invariant
            i <= dependency.features@.len(),
            forall|j: int| 0 <= j < i ==> candidate.features.deep_view().contains(
                #[trigger] dependency.features.deep_view()[j],
            ),
        decreases dependency.features@.len() - i,
    {
        if !contains_text(&candidate.features, &dependency.features[i]) {
            assert(dependency.features.deep_view()[i as int] == dependency.features@[i as int]@);
            assert(!candidate.features.deep_view().contains(dependency@.features[i as int]));
            return false;
        }
        i = i + 1;
    }
    allow_major || match current_major {
        Some(major) => major == candidate.version.major,
        None => true,
    }
}

/// Finds the last candidate that fits (and, when `in_req`, that the
/// requirement accepts).
fn find_last_fitting(
    candidates: &[RegistryCandidate],
    dependency: &DependencyConstraint,
    allow_major: bool,
    in_req: bool,
) -> (r: Option<usize>)
    requires
        semver_req_parses(dependency.requirement@),
    ensures
        r matches Some(i) ==> last_fitting(candidate_views(candidates@), dependency@, allow_major, in_req) == Some(i as int),
        r is None ==> last_fitting(candidate_views(candidates@), dependency@, allow_major, in_req) is None,
{
    let current_major = parse_requirement_anchor(dependency.requirement.as_str());
    let ghost views = candidate_views(candidates@);
    let mut i: usize = candidates.len();
    assert(views.take(candidates@.len() as int) =~= views);
    while i > 0
        invariant
            i <= candidates@.len(),
            views == candidate_views(candidates@),
            current_major == requirement_anchor(dependency.requirement@),
            semver_req_parses(dependency.requirement@),
            last_fitting(views, dependency@, allow_major, in_req) == last_fitting(views.take(i as int), dependency@, allow_major, in_req),
        decreases i,
    {
        let c = &candidates[i - 1];
        assert(views.take(i as int).last() == c@);
        assert(views.take(i as int).drop_last() =~= views.take(i - 1));
        if candidate_matches(c, dependency, allow_major, current_major)
            && (!in_req || requirement_matches(dependency.requirement.as_str(), &c.version))
        {
            return Some(i - 1);
        }
        i = i - 1;
    }
    None
}

/// Chooses the registry release to suggest for a dependency, from
/// candidates in ascending version order: see `best_candidate_index`.
/// A requirement that does not parse is an error.
pub fn select_best_candidate(
    candidates: &[RegistryCandidate],
    dependency: &DependencyConstraint,
    allow_major: bool,
) -> (r: Result<Option<RegistryCandidate>, Error>)
    ensures
        !semver_req_parses(dependency.requirement@) ==> (r matches Err(Error::InvalidRequirement(t))
            && t@ == dependency.requirement@),
        semver_req_parses(dependency.requirement@) ==> (r matches Ok(chosen) && match best_candidate_index(
            candidate_views(candidates@),
            dependency@,
            allow_major,
        ) {
            Some(i) => chosen matches Some(c) && 0 <= i < candidates@.len() && c@ == candidates@[i]@,
            None => chosen is None,
        }),
        // What every suggestion satisfies.
        r matches Ok(Some(c)) ==> !c@.yanked,
        r matches Ok(Some(c)) ==> match dependency@.target_rust_version {
            Some(target) => c@.rust_version matches Some(declared) && version_le(declared, target),
            None => c@.rust_version is Some,
        },
        r matches Ok(Some(c)) ==> forall|i: int| 0 <= i < dependency@.features.len()
            ==> c@.features.contains(#[trigger] dependency@.features[i]),
        r matches Ok(Some(c)) ==> (!allow_major && requirement_anchor(dependency.requirement@) is Some
            ==> requirement_anchor(dependency.requirement@) == Some(c.version.major)),
{
    if !requirement_parses(dependency.requirement.as_str()) {
        return Err(Error::InvalidRequirement(dependency.requirement.clone()));
    }
    let ghost views = candidate_views(candidates@);
    proof {
        lemma_last_fitting(views, dependency@, true, false);
        lemma_last_fitting(views, dependency@, false, true);
        lemma_last_fitting(views, dependency@, false, false);
    }
    let index = if allow_major {
        find_last_fitting(candidates, dependency, true, false)
    } else {
        match find_last_fitting(candidates, dependency, false, true) {
            Some(i) => Some(i),
            None => find_last_fitting(candidates, dependency, false, false),
        }
    };
    match index {
        Some(i) => {
            let c = candidates[i].clone();
            assert(views[i as int] == candidates@[i as int]@);
            Ok(Some(c))
        },
        None => Ok(None),
    }
}

/// A dependency of a release, as a registry index line lists it.
#[derive(Debug)]
pub struct IndexDependency {
    pub name: String,
    pub optional: bool,
}

/// One published release, as a line of a registry index describes it.
#[derive(Debug)]
pub struct IndexEntry {
    pub vers: String,
    pub deps: Vec<IndexDependency>,
    /// The names of the feature table.
    pub features: Vec<String>,
    pub yanked: bool,
    pub rust_version: Option<String>,
}

/// The plain-value view of [`IndexDependency`].
pub struct IndexDependencyView {
    pub name: Seq<char>,
    pub optional: bool,
}

/// The plain-value view of [`IndexEntry`].
pub struct IndexEntryView {
    pub vers: Seq<char>,
    pub deps: Seq<IndexDependencyView>,
    pub features: Seq<Seq<char>>,
    pub yanked: bool,
    pub rust_version: Option<Seq<char>>,
}

impl View for IndexDependency {
    type V = IndexDependencyView;

    open spec fn view(&self) -> IndexDependencyView {
        IndexDependencyView { name: self.name@, optional: self.optional }
    }
}

impl DeepView for IndexDependency {
    type V = IndexDependencyView;

    open spec fn deep_view(&self) -> IndexDependencyView {
        self@
    }
}

impl View for IndexEntry {
    type V = IndexEntryView;

    open spec fn view(&self) -> IndexEntryView {
        IndexEntryView {
            vers: self.vers@,
            deps: self.deps.deep_view(),
            features: self.features.deep_view(),
            yanked: self.yanked,
            rust_version: self.rust_version.deep_view(),
        }
    }
}

/// The features a release offers: its feature table's names and its
/// optional dependencies.
pub open spec fn offers_feature(e: IndexEntryView, f: Seq<char>) -> bool {
    e.features.contains(f) || exists|i: int| 0 <= i < e.deps.len() && (#[trigger] e.deps[i]).optional
        && e.deps[i].name == f
}

/// The candidate's feature list is exactly the entry's offered features,
/// each once.
#[verifier::opaque]
pub open spec fn features_of_entry(c: RegistryCandidateView, e: IndexEntryView) -> bool {
    &&& c.features.no_duplicates()
    &&& forall|f: Seq<char>| c.features.contains(f) <==> offers_feature(e, f)
}

/// Adds `s` to a list of distinct texts unless it is there.
pub fn insert_text(set: &mut Vec<String>, s: &String)
    requires
        old(set).deep_view().no_duplicates(),
    ensures
        final(set).deep_view().no_duplicates(),
        forall|f: Seq<char>| final(set).deep_view().contains(f) <==> (old(set).deep_view().contains(f) || f == s@),
{
    if !contains_text(set, s) {
        let ghost before = set.deep_view();
        set.push(s.clone());
        assert(set.deep_view() =~= before.push(s@));
        assert forall|f: Seq<char>| set.deep_view().contains(f) <==> (before.contains(f) || f == s@) by {
            if before.contains(f) {
                let k = choose|k: int| 0 <= k < before.len() && before[k] == f;
                assert(set.deep_view()[k] == f);
            }
            if f == s@ {
                assert(set.deep_view()[before.len() as int] == f);
            }
        }
    }
}

/// Adds `s` to a sorted list of distinct texts, at its place, unless it is
/// there.
pub fn insert_sorted_text(set: &mut Vec<String>, s: &String)
    requires
        old(set).deep_view().no_duplicates(),
        forall|t: int| 0 <= t < old(set).deep_view().len() - 1 ==> crate::text::text_order(#[trigger] old(set).deep_view()[t], old(set).deep_view()[t + 1]) <= 0,
    ensures
        final(set).deep_view().no_duplicates(),
        forall|t: int| 0 <= t < final(set).deep_view().len() - 1 ==> crate::text::text_order(#[trigger] final(set).deep_view()[t], final(set).deep_view()[t + 1]) <= 0,
        forall|f: Seq<char>| final(set).deep_view().contains(f) <==> (old(set).deep_view().contains(f) || f == s@),
{
    if contains_text(set, s) {
        return;
    }
    let ghost before = set.deep_view();
    let mut p: usize = 0;
    while p < set.len() && crate::text::compare_text(set[p].as_str(), s.as_str()) < 0
        invariant
            p <= set@.len(),
            set.deep_view() == before,
            forall|j: int| 0 <= j < p ==> crate::text::text_order(#[trigger] before[j], s@) < 0,
        decreases set@.len() - p,
    {
        assert(before[p as int] == set@[p as int]@);
        p = p + 1;
    }
    if p < set.len() {
        assert(before[p as int] == set@[p as int]@);
        proof {
            crate::text::lemma_text_order_antisymmetric(before[p as int], s@);
        }
    }
    set.insert(p, s.clone());
    let ghost after = set.deep_view();
    assert(after =~= before.insert(p as int, s@));
    proof {
        assert forall|t: int| 0 <= t < after.len() - 1 implies crate::text::text_order(#[trigger] after[t], after[t + 1]) <= 0 by {
            if t < p - 1 {
                assert(after[t] == before[t] && after[t + 1] == before[t + 1]);
            } else if t == p - 1 {
                assert(after[t] == before[t] && after[t + 1] == s@);
            } else if t == p {
                assert(after[t] == s@ && after[t + 1] == before[t]);
            } else {
                assert(after[t] == before[t - 1] && after[t + 1] == before[t]);
            }
        }
        assert forall|a: int, b: int| 0 <= a < after.len() && 0 <= b < after.len() && a != b implies after[a] != after[b] by {
            if a == p {
                if b < p { assert(after[b] == before[b]); } else { assert(after[b] == before[b - 1]); }
            } else if b == p {
                if a < p { assert(after[a] == before[a]); } else { assert(after[a] == before[a - 1]); }
            } else {
                let a0 = if a < p { a } else { a - 1 };
                let b0 = if b < p { b } else { b - 1 };
                assert(after[a] == before[a0] && after[b] == before[b0]);
            }
        }
        assert forall|f: Seq<char>| after.contains(f) <==> (before.contains(f) || f == s@) by {
            if after.contains(f) {
                let a = choose|a: int| 0 <= a < after.len() && after[a] == f;
                if a < p { assert(before[a] == f); } else if a > p { assert(before[a - 1] == f); }
            }
            if before.contains(f) {
                let a = choose|a: int| 0 <= a < before.len() && before[a] == f;
                if a < p { assert(after[a] == f); } else { assert(after[a + 1] == f); }
            }
            if f == s@ {
                assert(after[p as int] == f);
            }
        }
    }
}

/// The features of an entry: its feature table's names, then its optional
/// dependencies, each once.
fn entry_features(entry: &IndexEntry) -> (r: Vec<String>)
    ensures
        r.deep_view().no_duplicates(),
        forall|f: Seq<char>| r.deep_view().contains(f) <==> offers_feature(entry@, f),
{
    let mut r: Vec<String> = Vec::new();
    let mut i: usize = 0;
    while i < entry.features.len()
        invariant
            i <= entry.features@.len(),
            r.deep_view().no_duplicates(),
            forall|f: Seq<char>| r.deep_view().contains(f) <==> entry.features.deep_view().take(i as int).contains(f),
        decreases entry.features@.len() - i,
    {
        let ghost prev = entry.features.deep_view().take(i as int);
        insert_text(&mut r, &entry.features[i]);
        assert(entry.features.deep_view().take(i + 1) =~= prev.push(entry.features@[i as int]@));
        assert forall|f: Seq<char>| entry.features.deep_view().take(i + 1).contains(f) <==> (prev.contains(f) || f == entry.features@[i as int]@) by {
            let t = entry.features.deep_view().take(i + 1);
            if t.contains(f) {
                let k = choose|k: int| 0 <= k < t.len() && t[k] == f;
                if k < i {
                    assert(prev[k] == f);
                }
            }
            if prev.contains(f) {
                let k = choose|k: int| 0 <= k < prev.len() && prev[k] == f;
                assert(t[k] == f);
            }
            if f == entry.features@[i as int]@ {
                assert(t[i as int] == f);
            }
        }
        i = i + 1;
    }
    assert(entry.features.deep_view().take(entry.features@.len() as int) =~= entry.features.deep_view());
    let mut j: usize = 0;
    while j < entry.deps.len()
        invariant
            j <= entry.deps@.len(),
            r.deep_view().no_duplicates(),
            forall|f: Seq<char>| r.deep_view().contains(f) <==> (entry.features.deep_view().contains(f)
                || exists|k: int| 0 <= k < j && (#[trigger] entry@.deps[k]).optional && entry@.deps[k].name == f),
        decreases entry.deps@.len() - j,
    {
        let d = &entry.deps[j];
        assert(entry@.deps[j as int] == d@);
        if d.optional {
            insert_text(&mut r, &d.name);
        }
        assert forall|f: Seq<char>| r.deep_view().contains(f) <==> (entry.features.deep_view().contains(f)
            || exists|k: int| 0 <= k < j + 1 && (#[trigger] entry@.deps[k]).optional && entry@.deps[k].name == f) by {
            if exists|k: int| 0 <= k < j + 1 && (#[trigger] entry@.deps[k]).optional && entry@.deps[k].name == f {
                let k = choose|k: int| 0 <= k < j + 1 && (#[trigger] entry@.deps[k]).optional && entry@.deps[k].name == f;
                if k < j {
                    assert(exists|k2: int| 0 <= k2 < j && (#[trigger] entry@.deps[k2]).optional && entry@.deps[k2].name == f);
                }
            }
        }
        j = j + 1;
    }
    r
}

/// Builds a candidate from a local registry line of `crate_name`: the
/// version must parse; a declared Rust version is padded to three parts and
/// must parse too.
pub fn local_registry_candidate(entry: &IndexEntry, crate_name: &str) -> (r: Result<RegistryCandidate, Error>)
    ensures
        semver_parse(entry@.vers) is None ==> (r matches Err(Error::InvalidCandidateVersion(v, n))
            && v@ == entry@.vers && n@ == crate_name@),
        semver_parse(entry@.vers) matches Some(version) ==> match entry@.rust_version {
            None => r matches Ok(c) && c@.version == version && c@.rust_version is None
                && c@.yanked == entry@.yanked && features_of_entry(c@, entry@),
            Some(rv) => match semver_parse(padded_rust_version(rv)) {
                None => r matches Err(Error::InvalidCandidateRustVersion(t, n)) && t@ == rv && n@ == crate_name@,
                Some(declared) => r matches Ok(c) && c@.version == version && c@.rust_version == Some(declared)
                    && c@.yanked == entry@.yanked && features_of_entry(c@, entry@),
            },
        },
{
    let features = entry_features(entry);
    proof { reveal(features_of_entry); }
    let version = match parse_version(entry.vers.as_str()) {
        Some(v) => v,
        None => return Err(Error::InvalidCandidateVersion(entry.vers.clone(), String::from_str(crate_name))),
    };
    let rust_version = match &entry.rust_version {
        None => None,
        Some(rv) => match parse_rust_version(rv.as_str()) {
            Some(v) => Some(v),
            None => return Err(Error::InvalidCandidateRustVersion(rv.clone(), String::from_str(crate_name))),
        },
    };
    Ok(RegistryCandidate { version, rust_version, yanked: entry.yanked, features })
}

/// The candidate an index entry gives when its version parses; a Rust
/// version that does not parse counts as undeclared.
#[verifier::opaque]
pub open spec fn index_candidate_fits(c: RegistryCandidateView, e: IndexEntryView) -> bool {
    &&& semver_parse(e.vers) == Some(c.version)
    &&& c.rust_version == match e.rust_version {
        Some(rv) => semver_parse(rv),
        None => None,
    }
    &&& c.yanked == e.yanked
    &&& features_of_entry(c, e)
}

/// Builds the candidate of a cached index entry; `None` where the version
/// does not parse.
pub fn index_candidate(entry: &IndexEntry) -> (r: Option<RegistryCandidate>)
    ensures
        r is None <==> semver_parse(entry@.vers) is None,
        r matches Some(c) ==> index_candidate_fits(c@, entry@),
{
    let version = parse_version(entry.vers.as_str())?;
    let rust_version = match &entry.rust_version {
        Some(rv) => parse_version(rv.as_str()),
        None => None,
    };
    let features = entry_features(entry);
    proof {
        reveal(features_of_entry);
        reveal(index_candidate_fits);
    }
    Some(RegistryCandidate { version, rust_version, yanked: entry.yanked, features })
}

impl SortKey for RegistryCandidate {
    open spec fn key_order(a: Self, b: Self) -> int {
        semver_order(a.version@, b.version@)
    }

    fn order(&self, other: &Self) -> (r: i8) {
        compare_versions(&self.version, &other.version)
    }
}

/// Sorts candidates by version, ascending; equal versions keep their order.
pub fn sort_candidates(candidates: Vec<RegistryCandidate>) -> (r: Vec<RegistryCandidate>)
    ensures
        r@.to_multiset() == candidates@.to_multiset(),
        r@.len() == candidates@.len(),
        forall|i: int| 0 <= i < r@.len() - 1 ==> semver_order((#[trigger] r@[i]).version@, r@[i + 1].version@) <= 0,
{
    let r = sort_by_key(candidates);
    assert(adjacent_sorted(r@));
    r
}

/// `c` is the candidate of one of the entries.
pub open spec fn from_some_entry(c: RegistryCandidateView, entries: Seq<IndexEntry>) -> bool {
    exists|j: int| 0 <= j < entries.len() && index_candidate_fits(c, (#[trigger] entries[j])@)
}

/// One of the candidates is the candidate of entry `e`.
pub open spec fn has_candidate_of(s: Seq<RegistryCandidate>, e: IndexEntryView) -> bool {
    exists|i: int| 0 <= i < s.len() && index_candidate_fits((#[trigger] s[i])@, e)
}

/// How many of the entries have a version that parses.
pub open spec fn parseable_count(entries: Seq<IndexEntry>) -> nat
    decreases entries.len(),
{
    if entries.len() == 0 {
        0
    } else {
        parseable_count(entries.drop_last()) + if semver_parse(entries.last()@.vers) is Some { 1nat } else { 0nat }
    }
}

/// The candidates of a crate's cached index entries: the entries whose
/// version parses, one each, in ascending version order.
pub fn collect_candidates(entries: &Vec<IndexEntry>) -> (r: Vec<RegistryCandidate>)
    ensures
        forall|i: int| 0 <= i < r@.len() - 1 ==> semver_order((#[trigger] r@[i]).version@, r@[i + 1].version@) <= 0,
        forall|i: int| 0 <= i < r@.len() ==> from_some_entry((#[trigger] r@[i])@, entries@),
        forall|j: int| 0 <= j < entries@.len() && semver_parse((#[trigger] entries@[j])@.vers) is Some
            ==> has_candidate_of(r@, entries@[j]@),
        r@.len() == parseable_count(entries@),
{
    let mut built: Vec<RegistryCandidate> = Vec::new();
    let mut j: usize = 0;
    while j < entries.len()
        invariant
            j <= entries@.len(),
            forall|i: int| 0 <= i < built@.len() ==> from_some_entry((#[trigger] built@[i])@, entries@.take(j as int)),
            forall|k: int| 0 <= k < j && semver_parse((#[trigger] entries@[k])@.vers) is Some
                ==> has_candidate_of(built@, entries@[k]@),
            built@.len() == parseable_count(entries@.take(j as int)),
        decreases entries@.len() - j,
    {
        let ghost before = built@;
        let ghost prefix = entries@.take(j as int);
        let ghost next = entries@.take(j + 1);
        assert(next.drop_last() =~= prefix);
        assert(next.last() == entries@[j as int]);
        assert forall|i: int| 0 <= i < before.len() implies from_some_entry((#[trigger] before[i])@, next) by {
            let k = choose|k: int| 0 <= k < prefix.len() && index_candidate_fits(before[i]@, (#[trigger] prefix[k])@);
            assert(next[k] == prefix[k]);
        }
        match index_candidate(&entries[j]) {
            Some(c) => {
                built.push(c);
                assert forall|i: int| 0 <= i < built@.len() implies from_some_entry((#[trigger] built@[i])@, next) by {
                    if i < before.len() {
                        assert(built@[i] == before[i]);
                    } else {
                        assert(next[j as int] == entries@[j as int]);
                    }
                }
                assert forall|k: int| 0 <= k < j + 1 && semver_parse((#[trigger] entries@[k])@.vers) is Some
                    implies has_candidate_of(built@, entries@[k]@) by {
                    if k < j {
                        let i = choose|i: int| 0 <= i < before.len() && index_candidate_fits((#[trigger] before[i])@, entries@[k]@);
                        assert(built@[i] == before[i]);
                    } else {
                        assert(index_candidate_fits(built@[before.len() as int]@, entries@[k]@));
                    }
                }
            },
            None => {},
        }
        j = j + 1;
    }
    assert(entries@.take(entries@.len() as int) =~= entries@);
    let ghost b = built@;
    let r = sort_candidates(built);
    assert forall|i: int| 0 <= i < r@.len() implies from_some_entry((#[trigger] r@[i])@, entries@) by {
        let x = r@[i];
        vstd::seq_lib::to_multiset_contains(r@, x);
        vstd::seq_lib::to_multiset_contains(b, x);
        assert(r@.contains(x));
        assert(b.contains(x));
        let k = choose|k: int| 0 <= k < b.len() && b[k] == x;
        assert(from_some_entry(b[k]@, entries@));
    }
    assert forall|j: int| 0 <= j < entries@.len() && semver_parse((#[trigger] entries@[j])@.vers) is Some
        implies has_candidate_of(r@, entries@[j]@) by {
        let k = choose|k: int| 0 <= k < b.len() && index_candidate_fits((#[trigger] b[k])@, entries@[j]@);
        vstd::seq_lib::to_multiset_contains(b, b[k]);
        vstd::seq_lib::to_multiset_contains(r@, b[k]);
        assert(b.contains(b[k]));
        let i = choose|i: int| 0 <= i < r@.len() && r@[i] == b[k];
        assert(index_candidate_fits(r@[i]@, entries@[j]@));
    }
    r
}

/// What `str::to_lowercase` gives for a text.
pub uninterp spec fn unicode_lowercase(s: Seq<char>) -> Seq<char>;

/// `str::to_lowercase`. The result is named: it depends on the text alone.
#[verifier::external_body]
pub fn lowercase(s: &str) -> (r: String)
    ensures
        r@ == unicode_lowercase(s@),
{
    s.to_lowercase()
}

/// The directory components of a crate's file in a local registry index,
/// by the byte length of its lowercased name `n`: `1/n`, `2/n`, `3/<first
/// byte>/n`, or `<bytes 0..2>/<bytes 2..4>/n`; the empty name is refused.
/// `None` where the byte positions that the layout cuts at are not
/// character boundaries (slicing the name there would panic).
pub fn local_registry_index_path(crate_name: &str) -> (r: Option<Result<Vec<String>, Error>>)
    ensures
        ({
            let n = unicode_lowercase(crate_name@);
            let b = encode_utf8(n);
            &&& b.len() == 0 ==> (r matches Some(Err(Error::InvalidIndexKey(t))) && t@ == crate_name@)
            &&& b.len() == 1 ==> (r matches Some(Ok(p)) && p.deep_view() == seq![seq!['1'], n])
            &&& b.len() == 2 ==> (r matches Some(Ok(p)) && p.deep_view() == seq![seq!['2'], n])
            &&& b.len() == 3 ==> if is_char_boundary(b, 1) {
                r matches Some(Ok(p)) && p@.len() == 3 && p@[0]@ == seq!['3']
                    && encode_utf8(p@[1]@) == b.subrange(0, 1) && p@[2]@ == n
            } else {
                r is None
            }
            &&& b.len() >= 4 ==> if is_char_boundary(b, 2) && is_char_boundary(b.subrange(2, b.len() as int), 2) {
                r matches Some(Ok(p)) && p@.len() == 3 && encode_utf8(p@[0]@) == b.subrange(0, 2)
                    && encode_utf8(p@[1]@) == b.subrange(2, 4) && p@[2]@ == n
            } else {
                r is None
            }
        }),
{
    let name = lowercase(crate_name);
    let len = name.as_str().as_bytes().len();
    proof {
        reveal_strlit("1");
        reveal_strlit("2");
        reveal_strlit("3");
        vstd::utf8::encode_utf8_valid_utf8(name@);
    }
    if len == 0 {
        return Some(Err(Error::InvalidIndexKey(String::from_str(crate_name))));
    }
    let mut p: Vec<String> = Vec::new();
    if len == 1 || len == 2 {
        if len == 1 {
            let one = String::from_str("1");
            assert(one@ =~= seq!['1']);
            p.push(one);
        } else {
            let two = String::from_str("2");
            assert(two@ =~= seq!['2']);
            p.push(two);
        }
        p.push(name);
        assert(p.deep_view() =~= seq![p@[0]@, unicode_lowercase(crate_name@)]);
        return Some(Ok(p));
    }
    if len == 3 {
        if !name.as_str().is_char_boundary(1) {
            return None;
        }
        let (first, _) = name.as_str().split_at(1);
        let first = first.to_owned();
        let three = String::from_str("3");
        assert(three@ =~= seq!['3']);
        p.push(three);
        p.push(first);
        p.push(name);
        return Some(Ok(p));
    }
    if !name.as_str().is_char_boundary(2) {
        return None;
    }
    let (head, rest) = name.as_str().split_at(2);
    proof {
        vstd::utf8::valid_utf8_split(encode_utf8(name@), 2);
    }
    if !rest.is_char_boundary(2) {
        return None;
    }
    let (second, _) = rest.split_at(2);
    let head = head.to_owned();
    let second = second.to_owned();
    assert(encode_utf8(name@).subrange(2, len as int).subrange(0, 2) =~= encode_utf8(name@).subrange(2, 4));
    p.push(head);
    p.push(second);
    p.push(name);
    Some(Ok(p))
}

} // verus!
