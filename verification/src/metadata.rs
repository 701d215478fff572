//! From Cargo metadata to the workspace data and the selection of members
//! with their target Rust version.
use crate::error::Error;
use crate::index::insert_text;
use crate::model::{
    GraphEntry, GraphEntryView, PackageSourceKind, ResolveNode, ResolveNodeView, ResolvedPackage, ResolvedPackageView, Metadata, MetadataPackage, MetadataPackageView, MetadataView, MemberTarget, MemberTargetView, SelectedMember, SelectedMemberView, TargetSelection, TargetSelectionMode,
    TargetSelectionView,
};
use crate::sort::{is_permutation_of, sort_by_key, SortKey};
use crate::text::{compare_text, has_prefix, lemma_text_order_antisymmetric, text_order};
use crate::version::{count_char, display_rust_version, normalize_rust_version, padded_rust_version, rust_version_display, semver_parse};
use vstd::prelude::*;

verus! {

/// The target entry of a member: its id, name and shown Rust version.
pub open spec fn member_target_view(m: SelectedMemberView) -> MemberTargetView {
    MemberTargetView {
        package_id: m.package_id,
        package_name: m.package_name,
        rust_version: match m.rust_version {
            Some(v) => Some(rust_version_display(v)),
            None => None,
        },
    }
}

/// The target entries of members, in member order.
pub open spec fn member_targets(members: Seq<SelectedMemberView>) -> Seq<MemberTargetView> {
    members.map_values(|m: SelectedMemberView| member_target_view(m))
}

/// One target entry per member, ordered by name.
pub open spec fn targets_fit(members: Seq<SelectedMemberView>, targets: Seq<MemberTargetView>) -> bool {
    &&& exists|perm: Seq<int>| #[trigger] is_permutation_of(perm, targets, member_targets(members))
    &&& forall|t: int| 0 <= t < targets.len() - 1 ==> text_order((#[trigger] targets[t]).package_name, targets[t + 1].package_name) <= 0
}

impl SortKey for MemberTarget {
    open spec fn key_order(a: Self, b: Self) -> int {
        text_order(a.package_name@, b.package_name@)
    }

    fn order(&self, other: &Self) -> (r: i8) {
        proof {
            lemma_text_order_antisymmetric(self.package_name@, other.package_name@);
        }
        compare_text(self.package_name.as_str(), other.package_name.as_str())
    }
}

/// The target entries of the members, ordered by name.
pub fn members_to_targets(members: &Vec<SelectedMember>) -> (r: Vec<MemberTarget>)
    ensures
        targets_fit(members.deep_view(), r.deep_view()),
{
    let ghost want = member_targets(members.deep_view());
    let mut targets: Vec<MemberTarget> = Vec::new();
    let mut i: usize = 0;
    while i < members.len()
        invariant
            want == member_targets(members.deep_view()),
            i <= members@.len(),
            targets@.len() == i,
            forall|t: int| 0 <= t < i ==> (#[trigger] targets@[t])@ == want[t],
        decreases members@.len() - i,
    {
        let m = &members[i];
        let rust_version = match &m.rust_version {
            Some(v) => Some(display_rust_version(v)),
            None => None,
        };
        let entry = MemberTarget { package_id: m.package_id.clone(), package_name: m.package_name.clone(), rust_version };
        assert(members.deep_view()[i as int] == m@);
        assert(entry@ == want[i as int]);
        let ghost before = targets@;
        targets.push(entry);
        assert forall|t: int| 0 <= t < i + 1 implies (#[trigger] targets@[t])@ == want[t] by {
            if t < i {
                assert(targets@[t] == before[t]);
            }
        }
        i = i + 1;
    }
    let ghost unsorted = targets@;
    let sorted = sort_by_key(targets);
    proof {
        let perm = choose|perm: Seq<int>| #[trigger] is_permutation_of(perm, sorted@, unsorted);
        let tv = sorted.deep_view();
        assert forall|a: int| 0 <= a < tv.len() implies 0 <= #[trigger] perm[a] < want.len() && tv[a] == want[perm[a]] by {
            assert(sorted@[a] == unsorted[perm[a]]);
        }
        assert(is_permutation_of(perm, tv, want));
        assert forall|t: int| 0 <= t < tv.len() - 1 implies text_order((#[trigger] tv[t]).package_name, tv[t + 1].package_name) <= 0 by {
            assert(MemberTarget::key_order(sorted@[t], sorted@[t + 1]) <= 0);
        }
    }
    sorted
}

/// Some member declares a Rust version.
pub open spec fn some_known(members: Seq<SelectedMemberView>) -> bool {
    exists|i: int| 0 <= i < members.len() && (#[trigger] members[i]).rust_version is Some
}

/// Every member declares a Rust version.
pub open spec fn all_known(members: Seq<SelectedMemberView>) -> bool {
    forall|i: int| 0 <= i < members.len() ==> (#[trigger] members[i]).rust_version is Some
}

/// Two members declare Rust versions that show differently.
pub open spec fn several_shown(members: Seq<SelectedMemberView>) -> bool {
    exists|i: int, j: int| 0 <= i < members.len() && 0 <= j < members.len()
        && (#[trigger] members[i]).rust_version is Some && (#[trigger] members[j]).rust_version is Some
        && rust_version_display(members[i].rust_version.unwrap()) != rust_version_display(members[j].rust_version.unwrap())
}

/// Every member declares a Rust version, and they all show alike.
pub open spec fn uniform(members: Seq<SelectedMemberView>) -> bool {
    members.len() > 0 && all_known(members) && !several_shown(members)
}

/// How the target is chosen without an explicit one.
pub open spec fn inferred_mode(members: Seq<SelectedMemberView>) -> TargetSelectionMode {
    if members.len() == 1 && members[0].rust_version is Some {
        TargetSelectionMode::SelectedPackage
    } else if uniform(members) {
        TargetSelectionMode::WorkspaceUniform
    } else if several_shown(members) {
        TargetSelectionMode::WorkspaceMixed
    } else {
        TargetSelectionMode::Missing
    }
}

/// The inferred target: the shared Rust version of uniform members.
pub open spec fn inferred_target(members: Seq<SelectedMemberView>) -> Option<Seq<char>> {
    if uniform(members) { Some(rust_version_display(members[0].rust_version.unwrap())) } else { None }
}

/// The note for members with different Rust versions.
pub open spec fn mixed_note() -> Seq<char> {
    "selected packages use different `rust-version` values; results are grouped by affected member"@
}

/// The note for a member without a Rust version.
pub open spec fn missing_note() -> Seq<char> {
    "at least one selected package is missing `rust-version`; compatibility cannot be asserted for that member"@
}

/// The notes of an inferred target.
pub open spec fn inferred_notes(mode: TargetSelectionMode) -> Seq<Seq<char>> {
    if mode == TargetSelectionMode::WorkspaceMixed {
        seq![mixed_note()]
    } else if mode == TargetSelectionMode::Missing {
        seq![missing_note()]
    } else {
        Seq::empty()
    }
}

/// Facts about the members' declared Rust versions, gathered in one pass.
fn shown_versions(members: &Vec<SelectedMember>) -> (r: (Option<String>, bool, bool))
    ensures
        r.1 == several_shown(members.deep_view()),
        r.2 == all_known(members.deep_view()),
        members@.len() > 0 && members.deep_view()[0].rust_version is Some
            ==> r.0.deep_view() == Some(rust_version_display(members.deep_view()[0].rust_version.unwrap())),
{
    let ghost ms = members.deep_view();
    let mut first: Option<String> = None;
    let ghost mut first_at: int = 0;
    let mut several = false;
    let mut every = true;
    let mut i: usize = 0;
    while i < members.len()
        invariant
            ms == members.deep_view(),
            i <= ms.len(),
            every == all_known(ms.take(i as int)),
            several == several_shown(ms.take(i as int)),
            first is None ==> !some_known(ms.take(i as int)),
            first is Some ==> 0 <= first_at < i && ms[first_at].rust_version is Some
                && (forall|j: int| 0 <= j < first_at ==> (#[trigger] ms[j]).rust_version is None)
                && first.deep_view() == Some(rust_version_display(ms[first_at].rust_version.unwrap())),
            first is Some && !several ==> forall|j: int| 0 <= j < i && (#[trigger] ms[j]).rust_version is Some
                ==> rust_version_display(ms[j].rust_version.unwrap()) == first.deep_view().unwrap(),
        decreases ms.len() - i,
    {
        let ghost pre = ms.take(i as int);
        let ghost post = ms.take(i + 1);
        assert(ms[i as int] == members@[i as int]@);
        assert forall|j: int| 0 <= j < i implies post[j] == pre[j] && pre[j] == ms[j] by {}
        assert(post[i as int] == ms[i as int]);
        match &members[i].rust_version {
            Some(v) => {
                let shown = display_rust_version(v);
                match &first {
                    Some(f) => {
                        if !crate::text::text_eq(f.as_str(), shown.as_str()) {
                            several = true;
                            proof {
                                assert(post[first_at] == ms[first_at]);
                                assert(several_shown(post));
                            }
                        } else {
                            proof {
                                if several_shown(post) {
                                    let (a, b) = choose|a: int, b: int| 0 <= a < post.len() && 0 <= b < post.len()
                                        && (#[trigger] post[a]).rust_version is Some && (#[trigger] post[b]).rust_version is Some
                                        && rust_version_display(post[a].rust_version.unwrap()) != rust_version_display(post[b].rust_version.unwrap());
                                    if !several {
                                        assert(rust_version_display(ms[a].rust_version.unwrap()) == f@);
                                        assert(rust_version_display(ms[b].rust_version.unwrap()) == f@);
                                    } else {
                                        assert(several_shown(pre));
                                    }
                                }
                                if several_shown(pre) {
                                    let (a, b) = choose|a: int, b: int| 0 <= a < pre.len() && 0 <= b < pre.len()
                                        && (#[trigger] pre[a]).rust_version is Some && (#[trigger] pre[b]).rust_version is Some
                                        && rust_version_display(pre[a].rust_version.unwrap()) != rust_version_display(pre[b].rust_version.unwrap());
                                    assert(post[a] == pre[a] && post[b] == pre[b]);
                                }
                            }
                        }
                    },
                    None => {
                        proof {
                            first_at = i as int;
                            assert forall|j: int| 0 <= j < i implies (#[trigger] ms[j]).rust_version is None by {
                                if ms[j].rust_version is Some {
                                    assert(pre[j] == ms[j]);
                                    assert(some_known(pre));
                                }
                            }
                            assert(!several_shown(post)) by {
                                if several_shown(post) {
                                    let (a, b) = choose|a: int, b: int| 0 <= a < post.len() && 0 <= b < post.len()
                                        && (#[trigger] post[a]).rust_version is Some && (#[trigger] post[b]).rust_version is Some
                                        && rust_version_display(post[a].rust_version.unwrap()) != rust_version_display(post[b].rust_version.unwrap());
                                    assert(a == i && b == i);
                                }
                            }
                            assert(!several_shown(pre)) by {
                                if several_shown(pre) {
                                    let a = choose|a: int, b: int| 0 <= a < pre.len() && 0 <= b < pre.len()
                                        && (#[trigger] pre[a]).rust_version is Some && (#[trigger] pre[b]).rust_version is Some
                                        && rust_version_display(pre[a].rust_version.unwrap()) != rust_version_display(pre[b].rust_version.unwrap());
                                    assert(pre[a.0] == ms[a.0]);
                                    assert(some_known(pre));
                                }
                            }
                        }
                        first = Some(shown);
                    },
                }
            },
            None => {
                every = false;
                proof {
                    assert(!all_known(post)) by {
                        assert(post[i as int].rust_version is None);
                    }
                    if several_shown(post) {
                        let (a, b) = choose|a: int, b: int| 0 <= a < post.len() && 0 <= b < post.len()
                            && (#[trigger] post[a]).rust_version is Some && (#[trigger] post[b]).rust_version is Some
                            && rust_version_display(post[a].rust_version.unwrap()) != rust_version_display(post[b].rust_version.unwrap());
                        assert(pre[a] == post[a] && pre[b] == post[b]);
                        assert(several_shown(pre));
                    }
                    if several_shown(pre) {
                        let (a, b) = choose|a: int, b: int| 0 <= a < pre.len() && 0 <= b < pre.len()
                            && (#[trigger] pre[a]).rust_version is Some && (#[trigger] pre[b]).rust_version is Some
                            && rust_version_display(pre[a].rust_version.unwrap()) != rust_version_display(pre[b].rust_version.unwrap());
                        assert(post[a] == pre[a] && post[b] == pre[b]);
                    }
                    if first is None && some_known(post) {
                        let a = choose|a: int| 0 <= a < post.len() && (#[trigger] post[a]).rust_version is Some;
                        assert(pre[a] == post[a]);
                    }
                }
            },
        }
        proof {
            if every {
                assert forall|j: int| 0 <= j < post.len() implies (#[trigger] post[j]).rust_version is Some by {
                    if j < i {
                        assert(pre[j] == post[j]);
                    }
                }
            } else if all_known(pre) {
                assert(post[i as int].rust_version is None);
            } else {
                let a = choose|a: int| 0 <= a < pre.len() && !((#[trigger] pre[a]).rust_version is Some);
                assert(post[a] == pre[a]);
            }
        }
        i = i + 1;
    }
    assert(ms.take(ms.len() as int) =~= ms);
    proof {
        if ms.len() > 0 && ms[0].rust_version is Some {
            assert(some_known(ms));
            if first_at > 0 {
                assert(ms[0].rust_version is None);
            }
        }
    }
    (first, several, every)
}

/// What the target selection is on valid input: an explicit Rust version,
/// shown short; else the members' shared one, with the mode and notes that
/// say how it was inferred. The member entries are ordered by name.
pub open spec fn target_fits(members: Seq<SelectedMemberView>, explicit: Option<Seq<char>>, t: TargetSelectionView) -> bool {
    &&& targets_fit(members, t.members)
    &&& match explicit {
        Some(v) => {
            &&& t.mode == TargetSelectionMode::Explicit
            &&& t.target_rust_version == Some(rust_version_display(semver_parse(padded_rust_version(v)).unwrap()))
            &&& t.notes == Seq::<Seq<char>>::empty()
        },
        None => {
            &&& t.mode == inferred_mode(members)
            &&& t.target_rust_version == inferred_target(members)
            &&& t.notes == inferred_notes(inferred_mode(members))
        },
    }
}

/// Chooses the target Rust version of the selected members: the explicit
/// one, which must be a version of at most three parts, or else the one that
/// all members declare alike.
pub fn select_target(members: &Vec<SelectedMember>, explicit: Option<&str>) -> (r: Result<TargetSelection, Error>)
    ensures
        match explicit {
            Some(v) => if count_char(v@, '.') > 2 {
                r matches Err(Error::InvalidRustVersion(e)) && e@ == v@
            } else if semver_parse(padded_rust_version(v@)) is None {
                r matches Err(Error::InvalidVersion(e)) && e@ == padded_rust_version(v@)
            } else {
                r is Ok
            },
            None => r is Ok,
        },
        r matches Ok(t) ==> target_fits(members.deep_view(), explicit.deep_view(), t@),
{
    let ghost ms = members.deep_view();
    if let Some(value) = explicit {
        let version = match normalize_rust_version(value) {
            Ok(v) => v,
            Err(e) => return Err(e),
        };
        let notes: Vec<String> = Vec::new();
        assert(notes.deep_view() =~= Seq::<Seq<char>>::empty());
        assert(explicit.deep_view() == Some(value@));
        let t = TargetSelection {
            mode: TargetSelectionMode::Explicit,
            target_rust_version: Some(display_rust_version(&version)),
            members: members_to_targets(members),
            notes,
        };
        assert(target_fits(ms, Some(value@), t@));
        return Ok(t);
    }
    let (first, several, every) = shown_versions(members);
    let n = members.len();
    let mode = if n == 1 && members[0].rust_version.is_some() {
        TargetSelectionMode::SelectedPackage
    } else if n > 0 && every && !several {
        TargetSelectionMode::WorkspaceUniform
    } else if several {
        TargetSelectionMode::WorkspaceMixed
    } else {
        TargetSelectionMode::Missing
    };
    proof {
        if n > 0 {
            assert(ms[0] == members@[0]@);
        }
    }
    let target_rust_version = if n > 0 && every && !several {
        first
    } else {
        None
    };
    let mut notes: Vec<String> = Vec::new();
    proof {
        reveal_strlit("selected packages use different `rust-version` values; results are grouped by affected member");
        reveal_strlit("at least one selected package is missing `rust-version`; compatibility cannot be asserted for that member");
    }
    if mode == TargetSelectionMode::WorkspaceMixed {
        notes.push(String::from_str("selected packages use different `rust-version` values; results are grouped by affected member"));
    }
    if mode == TargetSelectionMode::Missing {
        notes.push(String::from_str("at least one selected package is missing `rust-version`; compatibility cannot be asserted for that member"));
    }
    assert(notes.deep_view() =~= inferred_notes(mode));
    Ok(TargetSelection { mode, target_rust_version, members: members_to_targets(members), notes })
}

/// The package is a workspace member that the package spec names exactly:
/// by name, by id, or by manifest path.
pub open spec fn spec_names(md: MetadataView, p: MetadataPackageView, spec: Seq<char>) -> bool {
    md.workspace_members.contains(p.id) && (p.name == spec || p.id == spec || p.manifest_path == spec)
}

/// Some package is named by the spec.
pub open spec fn spec_matched(md: MetadataView, spec: Seq<char>) -> bool {
    exists|k: int| 0 <= k < md.packages.len() && spec_names(md, #[trigger] md.packages[k], spec)
}

/// Some spec names a package with this id.
pub open spec fn matched_id(md: MetadataView, specs: Seq<Seq<char>>, id: Seq<char>) -> bool {
    exists|k: int, s: int| 0 <= k < md.packages.len() && 0 <= s < specs.len() && (#[trigger] md.packages[k]).id == id
        && spec_names(md, md.packages[k], #[trigger] specs[s])
}

/// Spec `i` is the first that names no package.
pub open spec fn first_unmatched(md: MetadataView, specs: Seq<Seq<char>>, i: int) -> bool {
    &&& 0 <= i < specs.len()
    &&& !spec_matched(md, specs[i])
    &&& forall|j: int| 0 <= j < i ==> spec_matched(md, #[trigger] specs[j])
}

/// Whether the package is named by the spec.
fn names_package(metadata: &Metadata, p: &MetadataPackage, spec: &String) -> (r: bool)
    ensures
        r == spec_names(metadata@, p@, spec@),
{
    let member = crate::index::contains_text(&metadata.workspace_members, &p.id);
    member && (p.name == *spec || p.id == *spec || p.manifest_path == *spec)
}

/// Adds the ids of the packages that the spec names; says whether there
/// was one.
fn add_named_ids(metadata: &Metadata, spec: &String, ids: &mut Vec<String>) -> (found: bool)
    requires
        old(ids).deep_view().no_duplicates(),
    ensures
        final(ids).deep_view().no_duplicates(),
        found == spec_matched(metadata@, spec@),
        forall|id: Seq<char>| #[trigger] final(ids).deep_view().contains(id) <==> (old(ids).deep_view().contains(id)
            || exists|u: int| 0 <= u < metadata@.packages.len() && (#[trigger] metadata@.packages[u]).id == id
                && spec_names(metadata@, metadata@.packages[u], spec@)),
{
    let ghost md = metadata@;
    let ghost before = ids.deep_view();
    let mut found = false;
    let mut k: usize = 0;
    while k < metadata.packages.len()
        invariant
            md == metadata@,
            k <= md.packages.len(),
            ids.deep_view().no_duplicates(),
            found == exists|u: int| 0 <= u < k && spec_names(md, #[trigger] md.packages[u], spec@),
            forall|id: Seq<char>| #[trigger] ids.deep_view().contains(id) <==> (before.contains(id)
                || exists|u: int| 0 <= u < k && (#[trigger] md.packages[u]).id == id && spec_names(md, md.packages[u], spec@)),
        decreases md.packages.len() - k,
    {
        let p = &metadata.packages[k];
        assert(md.packages[k as int] == p@);
        if names_package(metadata, p, spec) {
            found = true;
            insert_text(ids, &p.id);
            proof {
                assert forall|id: Seq<char>| #[trigger] ids.deep_view().contains(id) <==> (before.contains(id)
                    || exists|u: int| 0 <= u < k + 1 && (#[trigger] md.packages[u]).id == id && spec_names(md, md.packages[u], spec@)) by {
                    if id == p.id@ {
                        assert(md.packages[k as int].id == id);
                    }
                }
            }
        } else {
            proof {
                assert forall|id: Seq<char>| #[trigger] ids.deep_view().contains(id) <==> (before.contains(id)
                    || exists|u: int| 0 <= u < k + 1 && (#[trigger] md.packages[u]).id == id && spec_names(md, md.packages[u], spec@)) by {
                    if exists|u: int| 0 <= u < k + 1 && (#[trigger] md.packages[u]).id == id && spec_names(md, md.packages[u], spec@) {
                        let u = choose|u: int| 0 <= u < k + 1 && (#[trigger] md.packages[u]).id == id && spec_names(md, md.packages[u], spec@);
                        assert(u != k);
                    }
                }
            }
        }
        k = k + 1;
    }
    found
}

/// The ids of the workspace members that the package specs name, sorted and
/// without repeats; fails on the first spec that names none.
pub fn match_selected_packages(metadata: &Metadata, specs: &Vec<String>) -> (r: Result<Vec<String>, Error>)
    ensures
        r is Ok <==> forall|s: int| 0 <= s < specs@.len() ==> spec_matched(metadata@, #[trigger] specs.deep_view()[s]),
        r matches Err(e) ==> (e matches Error::UnmatchedPackageSpec(t)
            && exists|i: int| #[trigger] first_unmatched(metadata@, specs.deep_view(), i) && t@ == specs.deep_view()[i]),
        r matches Ok(ids) ==> crate::resolution::sorted_keys(ids.deep_view())
            && forall|id: Seq<char>| #[trigger] ids.deep_view().contains(id) <==> matched_id(metadata@, specs.deep_view(), id),
{
    let ghost md = metadata@;
    let ghost sv = specs.deep_view();
    let mut ids: Vec<String> = Vec::new();
    let mut s: usize = 0;
    while s < specs.len()
        invariant
            md == metadata@,
            sv == specs.deep_view(),
            s <= sv.len(),
            ids.deep_view().no_duplicates(),
            forall|j: int| 0 <= j < s ==> spec_matched(md, #[trigger] sv[j]),
            forall|id: Seq<char>| #[trigger] ids.deep_view().contains(id) <==> matched_id(md, sv.take(s as int), id),
        decreases sv.len() - s,
    {
        let spec = &specs[s];
        assert(sv[s as int] == spec@);
        let ghost before = ids.deep_view();
        let found = add_named_ids(metadata, spec, &mut ids);
        if !found {
            proof {
                assert(!spec_matched(md, sv[s as int]));
                assert(first_unmatched(md, sv, s as int));
            }
            return Err(Error::UnmatchedPackageSpec(spec.clone()));
        }
        proof {
            assert(sv.take(s + 1) =~= sv.take(s as int).push(spec@));
            assert forall|id: Seq<char>| #[trigger] ids.deep_view().contains(id) <==> matched_id(md, sv.take(s + 1), id) by {
                let pre = sv.take(s as int);
                let post = sv.take(s + 1);
                if matched_id(md, post, id) {
                    let (u, t) = choose|u: int, t: int| 0 <= u < md.packages.len() && 0 <= t < post.len() && (#[trigger] md.packages[u]).id == id
                        && spec_names(md, md.packages[u], #[trigger] post[t]);
                    if t < s {
                        assert(pre[t] == post[t]);
                        assert(matched_id(md, pre, id));
                    }
                }
                if matched_id(md, pre, id) {
                    let (u, t) = choose|u: int, t: int| 0 <= u < md.packages.len() && 0 <= t < pre.len() && (#[trigger] md.packages[u]).id == id
                        && spec_names(md, md.packages[u], #[trigger] pre[t]);
                    assert(post[t] == pre[t]);
                }
                if exists|u: int| 0 <= u < md.packages.len() && (#[trigger] md.packages[u]).id == id && spec_names(md, md.packages[u], spec@) {
                    let u = choose|u: int| 0 <= u < md.packages.len() && (#[trigger] md.packages[u]).id == id && spec_names(md, md.packages[u], spec@);
                    assert(post[s as int] == spec@);
                }
            }
        }
        s = s + 1;
    }
    assert(sv.take(sv.len() as int) =~= sv);
    let sorted = crate::sort::sort_texts(ids);
    Ok(sorted)
}

/// The first package of the metadata with this id.
pub open spec fn metadata_index(ps: Seq<MetadataPackageView>, id: Seq<char>) -> Option<int>
    decreases ps.len(),
{
    if ps.len() == 0 {
        None
    } else {
        match metadata_index(ps.drop_last(), id) {
            Some(i) => Some(i),
            None => if ps.last().id == id { Some(ps.len() - 1) } else { None },
        }
    }
}

/// What `metadata_index` finds.
pub proof fn lemma_metadata_index(ps: Seq<MetadataPackageView>, id: Seq<char>)
    ensures
        metadata_index(ps, id) matches Some(i) ==> 0 <= i < ps.len() && ps[i].id == id
            && forall|j: int| 0 <= j < i ==> (#[trigger] ps[j]).id != id,
        metadata_index(ps, id) is None ==> forall|j: int| 0 <= j < ps.len() ==> (#[trigger] ps[j]).id != id,
    decreases ps.len(),
{
    if ps.len() > 0 {
        lemma_metadata_index(ps.drop_last(), id);
        assert forall|j: int| 0 <= j < ps.len() - 1 implies ps.drop_last()[j] == ps[j] by {}
    }
}

/// Finds the first package with this id.
fn find_metadata_package(packages: &Vec<MetadataPackage>, id: &String) -> (r: Option<usize>)
    ensures
        r matches Some(i) ==> metadata_index(packages.deep_view(), id@) == Some(i as int),
        r is None ==> metadata_index(packages.deep_view(), id@) is None,
{
    let ghost ps = packages.deep_view();
    proof {
        lemma_metadata_index(ps, id@);
    }
    let mut i: usize = 0;
    while i < packages.len()
        invariant
            ps == packages.deep_view(),
            i <= ps.len(),
            forall|j: int| 0 <= j < i ==> (#[trigger] ps[j]).id != id@,
        decreases ps.len() - i,
    {
        assert(ps[i as int] == packages@[i as int]@);
        if packages[i].id == *id {
            proof {
                lemma_metadata_index(ps, id@);
                if let Some(k) = metadata_index(ps, id@) {
                    if k < i {
                        assert(ps[k].id != id@);
                    } else if k > i {
                        assert(ps[i as int].id != id@);
                    }
                } else {
                    assert(ps[i as int].id != id@);
                }
            }
            return Some(i);
        }
        i = i + 1;
    }
    proof {
        lemma_metadata_index(ps, id@);
        if let Some(k) = metadata_index(ps, id@) {
            assert(ps[k].id != id@);
        }
    }
    None
}

/// The selected member that a metadata package makes.
pub open spec fn selected_member_of(p: MetadataPackageView) -> SelectedMemberView {
    SelectedMemberView { package_id: p.id, package_name: p.name, manifest_path: p.manifest_path, rust_version: p.rust_version }
}

/// The members are those of the ids, in order, each from the first package
/// with its id.
pub open spec fn members_fit(md: MetadataView, ids: Seq<Seq<char>>, members: Seq<SelectedMemberView>) -> bool {
    &&& members.len() == ids.len()
    &&& forall|i: int| 0 <= i < ids.len() ==> (metadata_index(md.packages, #[trigger] ids[i]) matches Some(k)
        && members[i] == selected_member_of(md.packages[k]))
}

/// Id `i` is the first that no package has.
pub open spec fn first_missing(md: MetadataView, ids: Seq<Seq<char>>, i: int) -> bool {
    &&& 0 <= i < ids.len()
    &&& metadata_index(md.packages, ids[i]) is None
    &&& forall|j: int| 0 <= j < i ==> metadata_index(md.packages, #[trigger] ids[j]) is Some
}

/// Every id has a package.
pub open spec fn all_found(md: MetadataView, ids: Seq<Seq<char>>) -> bool {
    forall|i: int| 0 <= i < ids.len() ==> metadata_index(md.packages, #[trigger] ids[i]) is Some
}

/// The members of the ids; fails on the first id that no package has.
fn members_of_ids(metadata: &Metadata, ids: &Vec<String>) -> (r: Result<Vec<SelectedMember>, Error>)
    ensures
        r is Ok <==> all_found(metadata@, ids.deep_view()),
        r matches Ok(ms) ==> members_fit(metadata@, ids.deep_view(), ms.deep_view()),
        r matches Err(e) ==> (e matches Error::SelectedPackageMissing(t)
            && exists|i: int| #[trigger] first_missing(metadata@, ids.deep_view(), i) && t@ == ids.deep_view()[i]),
{
    let ghost md = metadata@;
    let ghost iv = ids.deep_view();
    let mut members: Vec<SelectedMember> = Vec::new();
    let mut i: usize = 0;
    while i < ids.len()
        invariant
            md == metadata@,
            iv == ids.deep_view(),
            i <= iv.len(),
            members@.len() == i,
            forall|j: int| 0 <= j < i ==> (metadata_index(md.packages, #[trigger] iv[j]) matches Some(k)
                && members.deep_view()[j] == selected_member_of(md.packages[k])),
        decreases iv.len() - i,
    {
        let id = &ids[i];
        assert(iv[i as int] == id@);
        match find_metadata_package(&metadata.packages, id) {
            Some(k) => {
                proof {
                    lemma_metadata_index(md.packages, id@);
                }
                let p = &metadata.packages[k];
                assert(md.packages[k as int] == p@);
                let m = SelectedMember {
                    package_id: p.id.clone(),
                    package_name: p.name.clone(),
                    manifest_path: p.manifest_path.clone(),
                    rust_version: p.rust_version.clone(),
                };
                let ghost before = members.deep_view();
                members.push(m);
                assert forall|j: int| 0 <= j < i + 1 implies (metadata_index(md.packages, #[trigger] iv[j]) matches Some(k2)
                    && members.deep_view()[j] == selected_member_of(md.packages[k2])) by {
                    if j < i {
                        assert(members.deep_view()[j] == before[j]);
                    }
                }
            },
            None => {
                assert(first_missing(md, iv, i as int));
                return Err(Error::SelectedPackageMissing(id.clone()));
            },
        }
        i = i + 1;
    }
    Ok(members)
}

/// All package specs name some member.
pub open spec fn all_specs_matched(md: MetadataView, specs: Seq<Seq<char>>) -> bool {
    forall|s: int| 0 <= s < specs.len() ==> spec_matched(md, #[trigger] specs[s])
}

/// The ids that a selection chooses: those the package specs name, sorted;
/// else every workspace member, with `--workspace` or in a virtual
/// workspace; else the root package.
pub open spec fn ids_fit(md: MetadataView, is_virtual: bool, args: crate::cli::SelectionArgsView, ids: Seq<Seq<char>>) -> bool {
    if args.package.len() > 0 {
        &&& crate::resolution::sorted_keys(ids)
        &&& forall|id: Seq<char>| #[trigger] ids.contains(id) <==> matched_id(md, args.package, id)
    } else if args.workspace || is_virtual {
        ids == md.workspace_members
    } else {
        md.root_package matches Some(root) && ids == seq![root]
    }
}

/// The explicit Rust version, if any, is one of at most three parts that
/// parses.
pub open spec fn explicit_ok(explicit: Option<Seq<char>>) -> bool {
    explicit matches Some(v) ==> count_char(v, '.') <= 2 && semver_parse(padded_rust_version(v)) is Some
}

/// The error that refuses an explicit Rust version.
pub open spec fn explicit_error(explicit: Option<Seq<char>>, e: Error) -> bool {
    explicit matches Some(v) && if count_char(v, '.') > 2 {
        e matches Error::InvalidRustVersion(t) && t@ == v
    } else {
        e matches Error::InvalidVersion(t) && t@ == padded_rust_version(v)
    }
}

/// A selection can be made: the specs all match, or the chosen members all
/// exist, and the explicit Rust version is valid.
pub open spec fn selection_ok(md: MetadataView, is_virtual: bool, args: crate::cli::SelectionArgsView) -> bool {
    &&& if args.package.len() > 0 {
        all_specs_matched(md, args.package)
    } else if args.workspace || is_virtual {
        all_found(md, md.workspace_members)
    } else {
        md.root_package matches Some(root) && metadata_index(md.packages, root) is Some
    }
    &&& explicit_ok(args.rust_version)
}

/// The error of a selection that cannot be made, in the order the checks
/// come: specs, root package, missing members, Rust version.
pub open spec fn selection_error(md: MetadataView, is_virtual: bool, args: crate::cli::SelectionArgsView, e: Error) -> bool {
    if args.package.len() > 0 && !all_specs_matched(md, args.package) {
        e matches Error::UnmatchedPackageSpec(t) && exists|i: int| #[trigger] first_unmatched(md, args.package, i) && t@ == args.package[i]
    } else if args.package.len() == 0 && !args.workspace && !is_virtual && md.root_package is None {
        e == Error::NoRootPackage
    } else if args.package.len() == 0 && (args.workspace || is_virtual) && !all_found(md, md.workspace_members) {
        e matches Error::SelectedPackageMissing(t) && exists|i: int| #[trigger] first_missing(md, md.workspace_members, i)
            && t@ == md.workspace_members[i]
    } else if args.package.len() == 0 && !args.workspace && !is_virtual
        && metadata_index(md.packages, md.root_package.unwrap()) is None {
        e matches Error::SelectedPackageMissing(t) && t@ == md.root_package.unwrap()
    } else {
        explicit_error(args.rust_version, e)
    }
}

/// Selects the members to analyze and their target Rust version.
pub fn select_packages(workspace: &crate::model::WorkspaceData, args: &crate::cli::SelectionArgs) -> (r: Result<crate::model::Selection, Error>)
    ensures
        r is Ok <==> selection_ok(workspace@.metadata, workspace@.is_virtual_workspace, args@),
        r matches Err(e) ==> selection_error(workspace@.metadata, workspace@.is_virtual_workspace, args@, e),
        r matches Ok(sel) ==> exists|ids: Seq<Seq<char>>| #[trigger] ids_fit(workspace@.metadata, workspace@.is_virtual_workspace, args@, ids)
            && members_fit(workspace@.metadata, ids, sel@.members)
            && target_fits(sel@.members, args@.rust_version, sel@.target),
{
    let ghost md = workspace@.metadata;
    let ghost av = args@;
    let ids: Vec<String> = if args.package.len() > 0 {
        match match_selected_packages(&workspace.metadata, &args.package) {
            Ok(ids) => {
                proof {
                    assert forall|i: int| 0 <= i < ids.deep_view().len() implies metadata_index(md.packages, #[trigger] ids.deep_view()[i]) is Some by {
                        let id = ids.deep_view()[i];
                        assert(ids.deep_view().contains(id));
                        let (k, t) = choose|k: int, t: int| 0 <= k < md.packages.len() && 0 <= t < av.package.len()
                            && (#[trigger] md.packages[k]).id == id && spec_names(md, md.packages[k], #[trigger] av.package[t]);
                        lemma_metadata_index(md.packages, id);
                    }
                }
                ids
            },
            Err(e) => return Err(e),
        }
    } else if args.workspace || workspace.is_virtual_workspace {
        let ids = workspace.metadata.workspace_members.clone();
        assert(ids.deep_view() =~= md.workspace_members);
        ids
    } else {
        match &workspace.metadata.root_package {
            Some(root) => {
                let mut ids: Vec<String> = Vec::new();
                ids.push(root.clone());
                assert(ids.deep_view() =~= seq![root@]);
                ids
            },
            None => return Err(Error::NoRootPackage),
        }
    };
    assert(ids_fit(md, workspace@.is_virtual_workspace, av, ids.deep_view()));
    let members = match members_of_ids(&workspace.metadata, &ids) {
        Ok(ms) => ms,
        Err(e) => {
            proof {
                if av.package.len() == 0 && !av.workspace && !workspace@.is_virtual_workspace {
                    let i = choose|i: int| #[trigger] first_missing(md, ids.deep_view(), i);
                    assert(i == 0);
                }
            }
            return Err(e);
        },
    };
    proof {
        assert(all_found(md, ids.deep_view()));
        if av.package.len() == 0 && !av.workspace && !workspace@.is_virtual_workspace {
            assert(ids.deep_view()[0] == md.root_package.unwrap());
            assert(metadata_index(md.packages, ids.deep_view()[0]) is Some);
        }
        if av.package.len() > 0 {
            assert(all_specs_matched(md, av.package));
        }
    }
    let explicit = match &args.rust_version {
        Some(v) => Some(v.as_str()),
        None => None,
    };
    assert(explicit.deep_view() == av.rust_version);
    let target = match select_target(&members, explicit) {
        Ok(t) => t,
        Err(e) => return Err(e),
    };
    Ok(crate::model::Selection { members, target })
}

/// Where a package comes from, by its source and membership.
pub open spec fn source_kind_of(source: Option<Seq<char>>, member: bool) -> PackageSourceKind {
    match source {
        None => if member { PackageSourceKind::Workspace } else { PackageSourceKind::Path },
        Some(v) => if has_prefix(v, "registry+"@) {
            PackageSourceKind::Registry
        } else if has_prefix(v, "git+"@) {
            PackageSourceKind::Git
        } else {
            PackageSourceKind::Unknown
        },
    }
}

/// The resolved package that a metadata package makes.
pub open spec fn resolved_of(md: MetadataView, p: MetadataPackageView) -> ResolvedPackageView {
    let member = md.workspace_members.contains(p.id);
    ResolvedPackageView {
        id: p.id,
        name: p.name,
        version: p.version,
        source: p.source,
        source_kind: source_kind_of(p.source, member),
        manifest_path: p.manifest_path,
        rust_version: match p.rust_version {
            Some(v) => Some(rust_version_display(v)),
            None => None,
        },
        workspace_member: member,
    }
}

/// The resolved package of a metadata package: its source kind and
/// membership read, its Rust version shown short.
pub fn package_to_resolved(package: &MetadataPackage, metadata: &Metadata) -> (r: ResolvedPackage)
    ensures
        r@ == resolved_of(metadata@, package@),
{
    let member = crate::index::contains_text(&metadata.workspace_members, &package.id);
    proof {
        reveal_strlit("registry+");
        reveal_strlit("git+");
    }
    let source_kind = match &package.source {
        None => if member { PackageSourceKind::Workspace } else { PackageSourceKind::Path },
        Some(v) => {
            let chars = crate::text::chars_of(v.as_str());
            let registry = crate::text::chars_of("registry+");
            let git = crate::text::chars_of("git+");
            if crate::text::starts_with(&chars, &registry) {
                PackageSourceKind::Registry
            } else if crate::text::starts_with(&chars, &git) {
                PackageSourceKind::Git
            } else {
                PackageSourceKind::Unknown
            }
        },
    };
    let rust_version = match &package.rust_version {
        Some(v) => Some(display_rust_version(v)),
        None => None,
    };
    ResolvedPackage {
        id: package.id.clone(),
        name: package.name.clone(),
        version: package.version.clone(),
        source: package.source.clone(),
        source_kind,
        manifest_path: package.manifest_path.clone(),
        rust_version,
        workspace_member: member,
    }
}

/// The last node with the id, as `BTreeMap::insert` leaves it.
pub open spec fn last_node(nodes: Seq<ResolveNodeView>, id: Seq<char>) -> Option<ResolveNodeView>
    decreases nodes.len(),
{
    if nodes.len() == 0 {
        None
    } else if nodes.last().id == id {
        Some(nodes.last())
    } else {
        last_node(nodes.drop_last(), id)
    }
}

/// The last metadata package with the id, as `BTreeMap::insert` leaves it.
pub open spec fn last_package(ps: Seq<MetadataPackageView>, id: Seq<char>) -> Option<MetadataPackageView>
    decreases ps.len(),
{
    if ps.len() == 0 {
        None
    } else if ps.last().id == id {
        Some(ps.last())
    } else {
        last_package(ps.drop_last(), id)
    }
}

/// One graph entry per node id, in id order, each with the sorted
/// dependencies of the last node with the id.
pub open spec fn graph_fits(nodes: Seq<ResolveNodeView>, graph: Seq<GraphEntryView>) -> bool {
    let ids = graph.map_values(|e: GraphEntryView| e.id);
    &&& crate::resolution::sorted_keys(ids)
    &&& forall|id: Seq<char>| #[trigger] ids.contains(id) <==> last_node(nodes, id) is Some
    &&& forall|k: int| 0 <= k < graph.len() ==> ({
        let node = last_node(nodes, (#[trigger] graph[k]).id).unwrap();
        &&& exists|perm: Seq<int>| #[trigger] is_permutation_of(perm, graph[k].deps, node.deps)
        &&& forall|t: int| 0 <= t < graph[k].deps.len() - 1 ==> text_order(#[trigger] graph[k].deps[t], graph[k].deps[t + 1]) <= 0
    })
}

/// A graph entry holds the sorted dependencies of the node.
pub open spec fn entry_of_node(e: GraphEntryView, node: ResolveNodeView) -> bool {
    &&& e.id == node.id
    &&& exists|perm: Seq<int>| #[trigger] is_permutation_of(perm, e.deps, node.deps)
    &&& forall|t: int| 0 <= t < e.deps.len() - 1 ==> text_order(#[trigger] e.deps[t], e.deps[t + 1]) <= 0
}


impl SortKey for GraphEntry {
    open spec fn key_order(a: Self, b: Self) -> int {
        text_order(a.id@, b.id@)
    }

    fn order(&self, other: &Self) -> (r: i8) {
        proof {
            lemma_text_order_antisymmetric(self.id@, other.id@);
        }
        compare_text(self.id.as_str(), other.id.as_str())
    }
}

/// Entries with distinct ids, each for the last node of its id so far.
pub open spec fn entries_fit(nodes: Seq<ResolveNodeView>, entries: Seq<GraphEntry>) -> bool {
    &&& keys_of(entries).no_duplicates()
    &&& forall|id: Seq<char>| #[trigger] keys_of(entries).contains(id) <==> last_node(nodes, id) is Some
    &&& forall|k: int| 0 <= k < entries.len() ==> entry_of_node((#[trigger] entries[k])@,
        last_node(nodes, entries[k].id@).unwrap())
}

/// The entry of a node: its id and its dependencies, sorted.
fn graph_entry_of(node: &ResolveNode) -> (e: GraphEntry)
    ensures
        entry_of_node(e@, node@),
{
    let copied = node.deps.clone();
    assert(copied.deep_view() =~= node.deps.deep_view());
    let deps = crate::sort::sort_texts(copied);
    let ghost dv = deps.deep_view();
    let e = GraphEntry { id: node.id.clone(), deps };
    proof {
        let perm = choose|perm: Seq<int>| #[trigger] is_permutation_of(perm, dv, copied.deep_view());
        assert(e@.deps == dv);
        assert(is_permutation_of(perm, e@.deps, node@.deps));
    }
    e
}

/// A value with an id text.
pub trait IdKeyed: Sized {
    /// The id.
    spec fn key(self) -> Seq<char>;

    /// The id's text.
    fn key_text(&self) -> (r: &String)
        ensures
            r@ == self.key(),
    ;
}

impl IdKeyed for GraphEntry {
    open spec fn key(self) -> Seq<char> {
        self.id@
    }

    fn key_text(&self) -> (r: &String) {
        &self.id
    }
}

impl IdKeyed for ResolvedPackage {
    open spec fn key(self) -> Seq<char> {
        self.id@
    }

    fn key_text(&self) -> (r: &String) {
        &self.id
    }
}

/// The ids of values.
pub open spec fn keys_of<T: IdKeyed>(s: Seq<T>) -> Seq<Seq<char>> {
    s.map_values(|e: T| e.key())
}

/// Puts the value in place of the one with its id, or adds it.
fn upsert<T: IdKeyed>(entries: &mut Vec<T>, entry: T)
    requires
        keys_of(old(entries)@).no_duplicates(),
    ensures
        keys_of(final(entries)@).no_duplicates(),
        forall|id: Seq<char>| #[trigger] keys_of(final(entries)@).contains(id) <==> (keys_of(old(entries)@).contains(id) || id == entry.key()),
        forall|k: int| 0 <= k < final(entries)@.len() ==> (if (#[trigger] final(entries)@[k]).key() == entry.key() {
            final(entries)@[k] == entry
        } else {
            old(entries)@.contains(final(entries)@[k])
        }),
{
    let ghost before = entries@;
    let mut found: Option<usize> = None;
    let mut j: usize = 0;
    while j < entries.len()
        invariant
            before == entries@,
            j <= entries@.len(),
            found matches Some(f) ==> f < entries@.len() && entries@[f as int].key() == entry.key(),
            found is None ==> forall|u: int| 0 <= u < j ==> keys_of(entries@)[u] != entry.key(),
        decreases entries@.len() - j,
    {
        assert(keys_of(entries@)[j as int] == entries@[j as int].key());
        if found.is_none() && crate::text::text_eq(entries[j].key_text().as_str(), entry.key_text().as_str()) {
            found = Some(j);
        }
        j = j + 1;
    }
    let ghost id = entry.key();
    match found {
        Some(f) => {
            entries.set(f, entry);
            proof {
                assert(keys_of(entries@) =~= keys_of(before));
                assert forall|k: int| 0 <= k < entries@.len() implies (if (#[trigger] entries@[k]).key() == id {
                    entries@[k] == entry
                } else {
                    before.contains(entries@[k])
                }) by {
                    if k != f {
                        assert(entries@[k] == before[k]);
                        if entries@[k].key() == id {
                            assert(keys_of(before)[k] == keys_of(before)[f as int]);
                        }
                    }
                }
                assert forall|x: Seq<char>| #[trigger] keys_of(entries@).contains(x) <==> (keys_of(before).contains(x) || x == id) by {
                    if x == id {
                        assert(keys_of(before)[f as int] == x);
                    }
                }
            }
        },
        None => {
            entries.push(entry);
            proof {
                assert(keys_of(entries@) =~= keys_of(before).push(id));
                assert(!keys_of(before).contains(id));
                assert forall|k: int| 0 <= k < entries@.len() implies (if (#[trigger] entries@[k]).key() == id {
                    entries@[k] == entry
                } else {
                    before.contains(entries@[k])
                }) by {
                    if k < before.len() {
                        assert(entries@[k] == before[k]);
                        assert(keys_of(before)[k] == before[k].key());
                    }
                }
                assert forall|x: Seq<char>| #[trigger] keys_of(entries@).contains(x) <==> (keys_of(before).contains(x) || x == id) by {
                    if keys_of(before).contains(x) {
                        let u = choose|u: int| 0 <= u < keys_of(before).len() && keys_of(before)[u] == x;
                        assert(keys_of(entries@)[u] == x);
                    }
                    if x == id {
                        assert(keys_of(entries@)[before.len() as int] == x);
                    }
                    if keys_of(entries@).contains(x) && x != id {
                        let u = choose|u: int| 0 <= u < keys_of(entries@).len() && keys_of(entries@)[u] == x;
                        assert(keys_of(before)[u] == x);
                    }
                }
            }
        },
    }
}

/// The dependency graph of the resolve nodes: per id, the sorted
/// dependency ids of the last node with it, in id order; fails without a
/// resolve graph.
#[verifier::rlimit(40)]
pub fn resolve_graph(metadata: &Metadata) -> (r: Result<Vec<GraphEntry>, Error>)
    ensures
        r is Err <==> metadata@.resolve is None,
        r matches Err(e) ==> e == Error::MissingResolveGraph,
        r matches Ok(g) ==> graph_fits(metadata@.resolve.unwrap(), g.deep_view()),
{
    let nodes = match &metadata.resolve {
        Some(n) => n,
        None => return Err(Error::MissingResolveGraph),
    };
    let ghost nv = nodes.deep_view();
    let mut entries: Vec<GraphEntry> = Vec::new();
    let mut i: usize = 0;
    while i < nodes.len()
        invariant
            nv == nodes.deep_view(),
            i <= nv.len(),
            entries_fit(nv.take(i as int), entries@),
        decreases nv.len() - i,
    {
        let node = &nodes[i];
        let ghost pre = nv.take(i as int);
        let ghost post = nv.take(i + 1);
        let ghost before = entries@;
        proof {
            assert(nv[i as int] == node@);
            assert(post.drop_last() =~= pre);
            assert(post.last() == node@);
        }
        let entry = graph_entry_of(node);
        upsert(&mut entries, entry);
        proof {
            assert forall|k: int| 0 <= k < entries@.len() implies entry_of_node((#[trigger] entries@[k])@,
                last_node(post, entries@[k].id@).unwrap()) by {
                if entries@[k].id@ != node.id@ {
                    let u = choose|u: int| 0 <= u < before.len() && before[u] == entries@[k];
                    assert(keys_of(before)[u] == before[u].id@);
                }
            }
            assert forall|id: Seq<char>| #[trigger] keys_of(entries@).contains(id)
                <==> last_node(post, id) is Some by {
                assert(keys_of(before).contains(id) <==> last_node(pre, id) is Some);
            }
        }
        i = i + 1;
    }
    assert(nv.take(nv.len() as int) =~= nv);
    assert(entries_fit(nv, entries@));
    let ghost unsorted = entries@;
    let sorted = sort_by_key(entries);
    proof {
        let perm = choose|perm: Seq<int>| #[trigger] is_permutation_of(perm, sorted@, unsorted);
        crate::sort::lemma_permutation_onto(perm, sorted@, unsorted);
        let g = sorted.deep_view();
        let ids = g.map_values(|e: GraphEntryView| e.id);
        assert forall|a: int| 0 <= a < g.len() implies #[trigger] g[a] == unsorted[perm[a]]@ by {
            assert(sorted@[a] == unsorted[perm[a]]);
        }
        assert forall|a: int, b: int| 0 <= a < ids.len() && 0 <= b < ids.len() && a != b implies ids[a] != ids[b] by {
            assert(g[a] == unsorted[perm[a]]@ && g[b] == unsorted[perm[b]]@);
            assert(keys_of(unsorted)[perm[a]] != keys_of(unsorted)[perm[b]]);
        }
        assert forall|t: int| 0 <= t < ids.len() - 1 implies text_order(#[trigger] ids[t], ids[t + 1]) <= 0 by {
            assert(GraphEntry::key_order(sorted@[t], sorted@[t + 1]) <= 0);
        }
        assert forall|id: Seq<char>| #[trigger] ids.contains(id) <==> last_node(nv, id) is Some by {
            if ids.contains(id) {
                let a = choose|a: int| 0 <= a < ids.len() && ids[a] == id;
                assert(g[a] == unsorted[perm[a]]@);
                assert(ids[a] == g[a].id);
                assert(keys_of(unsorted)[perm[a]] == id);
                assert(keys_of(unsorted).contains(id));
            }
            if last_node(nv, id) is Some {
                assert(keys_of(unsorted).contains(id));
                let u = choose|u: int| 0 <= u < keys_of(unsorted).len() && keys_of(unsorted)[u] == id;
                assert(crate::sort::picked(perm, g.len() as int, u));
                let a = choose|a: int| 0 <= a < g.len() && #[trigger] perm[a] == u;
                assert(g[a] == unsorted[perm[a]]@);
                assert(ids[a] == g[a].id);
                assert(ids[a] == id);
            }
        }
        assert forall|k: int| 0 <= k < g.len() implies ({
            let node = last_node(nv, (#[trigger] g[k]).id).unwrap();
            &&& exists|perm: Seq<int>| #[trigger] is_permutation_of(perm, g[k].deps, node.deps)
            &&& forall|t: int| 0 <= t < g[k].deps.len() - 1 ==> text_order(#[trigger] g[k].deps[t], g[k].deps[t + 1]) <= 0
        }) by {
            assert(g[k] == unsorted[perm[k]]@);
            assert(entry_of_node(unsorted[perm[k]]@, last_node(nv, unsorted[perm[k]].id@).unwrap()));
        }
    }
    Ok(sorted)
}

impl SortKey for ResolvedPackage {
    open spec fn key_order(a: Self, b: Self) -> int {
        text_order(a.id@, b.id@)
    }

    fn order(&self, other: &Self) -> (r: i8) {
        proof {
            lemma_text_order_antisymmetric(self.id@, other.id@);
        }
        compare_text(self.id.as_str(), other.id.as_str())
    }
}

/// Resolved packages with distinct ids, each from the last metadata package
/// of its id so far.
pub open spec fn resolved_fit(md: MetadataView, ps: Seq<MetadataPackageView>, rs: Seq<ResolvedPackage>) -> bool {
    &&& keys_of(rs).no_duplicates()
    &&& forall|id: Seq<char>| #[trigger] keys_of(rs).contains(id) <==> last_package(ps, id) is Some
    &&& forall|k: int| 0 <= k < rs.len() ==> (#[trigger] rs[k])@ == resolved_of(md, last_package(ps, rs[k].id@).unwrap())
}

/// One resolved package per id, in id order, from the last metadata package
/// with the id.
pub open spec fn packages_fit(md: MetadataView, packages: Seq<ResolvedPackageView>) -> bool {
    let ids = packages.map_values(|p: ResolvedPackageView| p.id);
    &&& crate::resolution::sorted_keys(ids)
    &&& forall|id: Seq<char>| #[trigger] ids.contains(id) <==> last_package(md.packages, id) is Some
    &&& forall|k: int| 0 <= k < packages.len() ==> #[trigger] packages[k] == resolved_of(md, last_package(md.packages, packages[k].id).unwrap())
}

/// The resolved packages of the metadata, by id.
#[verifier::rlimit(40)]
pub fn resolved_packages(metadata: &Metadata) -> (r: Vec<ResolvedPackage>)
    ensures
        packages_fit(metadata@, r.deep_view()),
{
    let ghost md = metadata@;
    let ghost pv = md.packages;
    let mut out: Vec<ResolvedPackage> = Vec::new();
    let mut i: usize = 0;
    while i < metadata.packages.len()
        invariant
            md == metadata@,
            pv == md.packages,
            i <= pv.len(),
            resolved_fit(md, pv.take(i as int), out@),
        decreases pv.len() - i,
    {
        let p = &metadata.packages[i];
        let ghost pre = pv.take(i as int);
        let ghost post = pv.take(i + 1);
        let ghost before = out@;
        proof {
            assert(pv[i as int] == p@);
            assert(post.drop_last() =~= pre);
            assert(post.last() == p@);
        }
        let resolved = package_to_resolved(p, metadata);
        upsert(&mut out, resolved);
        proof {
            assert forall|k: int| 0 <= k < out@.len() implies (#[trigger] out@[k])@ == resolved_of(md, last_package(post, out@[k].id@).unwrap()) by {
                if out@[k].id@ != p.id@ {
                    let u = choose|u: int| 0 <= u < before.len() && before[u] == out@[k];
                    assert(keys_of(before)[u] == before[u].id@);
                }
            }
            assert forall|id: Seq<char>| #[trigger] keys_of(out@).contains(id) <==> last_package(post, id) is Some by {
                assert(keys_of(before).contains(id) <==> last_package(pre, id) is Some);
            }
        }
        i = i + 1;
    }
    assert(pv.take(pv.len() as int) =~= pv);
    assert(resolved_fit(md, pv, out@));
    let ghost unsorted = out@;
    let sorted = sort_by_key(out);
    proof {
        let perm = choose|perm: Seq<int>| #[trigger] is_permutation_of(perm, sorted@, unsorted);
        crate::sort::lemma_permutation_onto(perm, sorted@, unsorted);
        let g = sorted.deep_view();
        let ids = g.map_values(|p: ResolvedPackageView| p.id);
        assert forall|a: int| 0 <= a < g.len() implies #[trigger] g[a] == unsorted[perm[a]]@ by {
            assert(sorted@[a] == unsorted[perm[a]]);
        }
        assert forall|a: int, b: int| 0 <= a < ids.len() && 0 <= b < ids.len() && a != b implies ids[a] != ids[b] by {
            assert(g[a] == unsorted[perm[a]]@ && g[b] == unsorted[perm[b]]@);
            assert(keys_of(unsorted)[perm[a]] != keys_of(unsorted)[perm[b]]);
        }
        assert forall|t: int| 0 <= t < ids.len() - 1 implies text_order(#[trigger] ids[t], ids[t + 1]) <= 0 by {
            assert(ResolvedPackage::key_order(sorted@[t], sorted@[t + 1]) <= 0);
        }
        assert forall|id: Seq<char>| #[trigger] ids.contains(id) <==> last_package(pv, id) is Some by {
            if ids.contains(id) {
                let a = choose|a: int| 0 <= a < ids.len() && ids[a] == id;
                assert(g[a] == unsorted[perm[a]]@);
                assert(ids[a] == g[a].id);
                assert(keys_of(unsorted)[perm[a]] == id);
                assert(keys_of(unsorted).contains(id));
            }
            if last_package(pv, id) is Some {
                assert(keys_of(unsorted).contains(id));
                let u = choose|u: int| 0 <= u < keys_of(unsorted).len() && keys_of(unsorted)[u] == id;
                assert(crate::sort::picked(perm, g.len() as int, u));
                let a = choose|a: int| 0 <= a < g.len() && #[trigger] perm[a] == u;
                assert(g[a] == unsorted[perm[a]]@);
                assert(ids[a] == g[a].id);
                assert(ids[a] == id);
            }
        }
        assert forall|k: int| 0 <= k < g.len() implies #[trigger] g[k] == resolved_of(md, last_package(pv, g[k].id).unwrap()) by {
            assert(g[k] == unsorted[perm[k]]@);
        }
    }
    sorted
}

/// The note for a virtual workspace without resolver 3.
pub open spec fn resolver_note() -> Seq<char> {
    "virtual workspace is missing `workspace.resolver = \"3\"`; Cargo's rust-version-aware fallback is clearer with resolver 3"@
}

/// The recommendations for a workspace.
pub open spec fn recommendations_for(is_virtual: bool, resolver: Option<Seq<char>>) -> Seq<Seq<char>> {
    if is_virtual && resolver != Some("3"@) { seq![resolver_note()] } else { Seq::empty() }
}

/// Builds the workspace data from Cargo metadata, the workspace root and
/// manifest, and the resolver that the manifest sets: a workspace without a
/// root package is virtual; packages and the graph are keyed by id. Fails
/// without a resolve graph.
pub fn workspace_from_metadata(
    metadata: Metadata,
    workspace_root: String,
    workspace_manifest: String,
    resolver: Option<String>,
) -> (r: Result<crate::model::WorkspaceData, Error>)
    ensures
        r is Err <==> metadata@.resolve is None,
        r matches Err(e) ==> e == Error::MissingResolveGraph,
        r matches Ok(ws) ==> ({
            &&& ws@.workspace_root == workspace_root@
            &&& ws@.workspace_manifest == workspace_manifest@
            &&& ws@.is_virtual_workspace == (metadata@.root_package is None)
            &&& ws@.resolver == resolver.deep_view()
            &&& ws@.recommendations == recommendations_for(metadata@.root_package is None, resolver.deep_view())
            &&& ws@.metadata == metadata@
            &&& packages_fit(metadata@, ws@.packages_by_id)
            &&& graph_fits(metadata@.resolve.unwrap(), ws@.graph)
        }),
{
    let is_virtual = metadata.root_package.is_none();
    proof {
        reveal_strlit("3");
        reveal_strlit("virtual workspace is missing `workspace.resolver = \"3\"`; Cargo's rust-version-aware fallback is clearer with resolver 3");
    }
    let three = match &resolver {
        Some(v) => crate::text::text_eq(v.as_str(), "3"),
        None => false,
    };
    let mut recommendations: Vec<String> = Vec::new();
    if is_virtual && !three {
        recommendations.push(String::from_str(
            "virtual workspace is missing `workspace.resolver = \"3\"`; Cargo's rust-version-aware fallback is clearer with resolver 3",
        ));
    }
    assert(recommendations.deep_view() =~= recommendations_for(is_virtual, resolver.deep_view()));
    let packages_by_id = resolved_packages(&metadata);
    let graph = match resolve_graph(&metadata) {
        Ok(g) => g,
        Err(e) => return Err(e),
    };
    Ok(crate::model::WorkspaceData {
        workspace_root,
        workspace_manifest,
        is_virtual_workspace: is_virtual,
        resolver,
        recommendations,
        metadata,
        packages_by_id,
        graph,
    })
}

/// A query names the package: by id, by name, or as `name@version`.
pub open spec fn query_names(p: MetadataPackageView, query: Seq<char>) -> bool {
    p.id == query || p.name == query || p.name + "@"@ + crate::version::version_display(p.version) == query
}

/// The id of the first metadata package that the query names.
pub fn package_id_from_query(workspace: &crate::model::WorkspaceData, query: &str) -> (r: Option<String>)
    ensures
        r matches Some(id) ==> exists|k: int| 0 <= k < workspace@.metadata.packages.len()
            && query_names(#[trigger] workspace@.metadata.packages[k], query@) && id@ == workspace@.metadata.packages[k].id
            && forall|j: int| 0 <= j < k ==> !query_names(#[trigger] workspace@.metadata.packages[j], query@),
        r is None ==> forall|k: int| 0 <= k < workspace@.metadata.packages.len()
            ==> !query_names(#[trigger] workspace@.metadata.packages[k], query@),
{
    let ghost ps = workspace@.metadata.packages;
    let packages = &workspace.metadata.packages;
    let mut i: usize = 0;
    while i < packages.len()
        invariant
            ps == workspace@.metadata.packages,
            packages == &workspace.metadata.packages,
            i <= ps.len(),
            forall|j: int| 0 <= j < i ==> !query_names(#[trigger] ps[j], query@),
        decreases ps.len() - i,
    {
        let p = &packages[i];
        assert(ps[i as int] == p@);
        let version = p.version.text();
        let label = crate::text::concat3(p.name.as_str(), "@", version.as_str());
        proof {
            reveal_strlit("@");
        }
        if crate::text::text_eq(p.id.as_str(), query) || crate::text::text_eq(p.name.as_str(), query)
            || crate::text::text_eq(label.as_str(), query)
        {
            return Some(p.id.clone());
        }
        i = i + 1;
    }
    None
}

} // verus!
