//! The data that the analysis works on and the reports it produces.
use crate::version::{Version, VersionParts};
use vstd::prelude::*;

verus! {

/// How the target Rust version was chosen.
#[derive(Clone, Copy, Debug, PartialEq, Eq, Structural)]
pub enum TargetSelectionMode {
    Explicit,
    SelectedPackage,
    WorkspaceUniform,
    WorkspaceMixed,
    Missing,
}

/// A selected member and the Rust version it declares.
#[derive(Debug)]
pub struct MemberTarget {
    pub package_id: String,
    pub package_name: String,
    pub rust_version: Option<String>,
}

/// The target Rust version of an analysis and how it was chosen.
#[derive(Debug)]
pub struct TargetSelection {
    pub mode: TargetSelectionMode,
    pub target_rust_version: Option<String>,
    pub members: Vec<MemberTarget>,
    pub notes: Vec<String>,
}

/// The verdict on one resolved package.
#[derive(Clone, Copy, Debug, PartialEq, Eq, Structural)]
pub enum CompatibilityStatus {
    Compatible,
    Incompatible,
    Unknown,
}

/// Where a resolved package comes from.
#[derive(Clone, Copy, Debug, PartialEq, Eq, Structural)]
pub enum PackageSourceKind {
    Workspace,
    Registry,
    Git,
    Path,
    Unknown,
}

/// A package of the resolved graph.
#[derive(Debug)]
pub struct ResolvedPackage {
    pub id: String,
    pub name: String,
    pub version: Version,
    pub source: Option<String>,
    pub source_kind: PackageSourceKind,
    pub manifest_path: String,
    pub rust_version: Option<String>,
    pub workspace_member: bool,
}

/// A chain of packages from a selected member to a package.
#[derive(Debug)]
pub struct DependencyPath {
    pub member: String,
    pub target_rust_version: Option<String>,
    pub packages: Vec<String>,
}

/// A package that is not known to be compatible, with the members it
/// affects and how they reach it.
#[derive(Debug)]
pub struct PackageIssue {
    pub package: ResolvedPackage,
    pub status: CompatibilityStatus,
    pub target_rust_version: Option<String>,
    pub reason: String,
    /// Names of the affected members, sorted and without repeats.
    pub affected_members: Vec<String>,
    pub paths: Vec<DependencyPath>,
}

/// Per-member counts of problem packages.
#[derive(Debug)]
pub struct PackageSummary {
    pub package_name: String,
    pub incompatible: usize,
    pub unknown: usize,
}

/// What the report says of the workspace itself.
#[derive(Debug)]
pub struct WorkspaceSummary {
    pub workspace_root: String,
    pub selected_members: Vec<String>,
    pub is_virtual_workspace: bool,
    pub resolver: Option<String>,
    pub recommendations: Vec<String>,
}

/// The result of analyzing one resolved graph.
#[derive(Debug)]
pub struct ScanReport {
    pub target: TargetSelection,
    pub workspace: WorkspaceSummary,
    pub package_summaries: Vec<PackageSummary>,
    pub incompatible_packages: Vec<PackageIssue>,
    pub unknown_packages: Vec<PackageIssue>,
    pub notes: Vec<String>,
}

/// A package whose resolved version differs between two graphs.
#[derive(Debug)]
pub struct CandidateVersionChange {
    pub package_name: String,
    pub source: Option<String>,
    pub package_label: Option<String>,
    pub before: Option<String>,
    pub after: Option<String>,
}

/// The current graph, a candidate graph, and how they differ.
#[derive(Debug)]
pub struct ResolveReport {
    pub current: ScanReport,
    pub candidate: ScanReport,
    pub version_changes: Vec<CandidateVersionChange>,
    pub improved_packages: Vec<String>,
    pub remaining_blockers: Vec<String>,
    pub candidate_lockfile: Option<String>,
    pub notes: Vec<String>,
}

/// Why a package blocks the target Rust version.
#[derive(Clone, Copy, Debug, PartialEq, Eq, Structural)]
pub enum BlockerKind {
    Compatible,
    UnknownRustVersion,
    LockfileDrift,
    DirectDependencyTooNew,
    FeatureRequirementTooRestrictive,
    MixedWorkspaceRustVersionUnification,
    PathOrGitConstraint,
    NonRegistryConstraint,
}

/// The explanation of one package.
#[derive(Debug)]
pub struct ExplainReport {
    pub query: String,
    pub target: TargetSelection,
    pub package: Option<ResolvedPackage>,
    pub current_status: Option<CompatibilityStatus>,
    pub current_reason: Option<String>,
    pub current_paths: Vec<DependencyPath>,
    pub current_rust_version: Option<String>,
    pub candidate_version: Option<String>,
    pub candidate_status: Option<CompatibilityStatus>,
    pub blocker: Option<BlockerKind>,
    pub notes: Vec<String>,
    pub workspace_root: String,
}

/// A suggested change of a direct dependency requirement.
#[derive(Debug)]
pub struct ManifestSuggestion {
    pub package_name: String,
    pub dependency_key: String,
    pub dependency_name: String,
    pub manifest_path: String,
    pub current_requirement: String,
    pub suggested_requirement: String,
    pub reason: String,
    pub target_rust_version: String,
    pub section: String,
}

/// A published release of a crate, as the registry index describes it.
#[derive(Debug)]
pub struct RegistryCandidate {
    pub version: Version,
    pub rust_version: Option<Version>,
    pub yanked: bool,
    /// Feature names, sorted and without repeats.
    pub features: Vec<String>,
}

/// A direct dependency declaration of a selected member.
#[derive(Debug)]
pub struct DependencyConstraint {
    pub package_name: String,
    pub dependency_key: String,
    pub manifest_path: String,
    pub requirement: String,
    pub source: Option<String>,
    /// Requested features, sorted and without repeats.
    pub features: Vec<String>,
    pub uses_default_features: bool,
    pub optional: bool,
    pub section: String,
    pub target_rust_version: Option<Version>,
}

/// A workspace member chosen for analysis.
#[derive(Debug)]
pub struct SelectedMember {
    pub package_id: String,
    pub package_name: String,
    pub manifest_path: String,
    pub rust_version: Option<Version>,
}

/// The chosen members and their target.
#[derive(Debug)]
pub struct Selection {
    pub members: Vec<SelectedMember>,
    pub target: TargetSelection,
}

/// The kind of a dependency declaration.
#[derive(Clone, Copy, Debug, PartialEq, Eq, Structural)]
pub enum DependencyKind {
    Normal,
    Development,
    Build,
    Unknown,
}

/// A dependency declaration as Cargo metadata describes it.
#[derive(Debug)]
pub struct MetadataDependency {
    pub name: String,
    pub rename: Option<String>,
    pub req: String,
    pub kind: DependencyKind,
    pub source: Option<String>,
    pub registry: Option<String>,
    pub path: Option<String>,
    pub features: Vec<String>,
    pub uses_default_features: bool,
    pub optional: bool,
}

/// A package as Cargo metadata describes it.
#[derive(Debug)]
pub struct MetadataPackage {
    pub id: String,
    pub name: String,
    pub version: Version,
    pub source: Option<String>,
    pub manifest_path: String,
    pub rust_version: Option<Version>,
    pub dependencies: Vec<MetadataDependency>,
}

/// A node of the resolve graph: a package id and the ids it depends on.
#[derive(Debug)]
pub struct ResolveNode {
    pub id: String,
    pub deps: Vec<String>,
}

/// What the analysis reads of `cargo metadata`.
#[derive(Debug)]
pub struct Metadata {
    pub packages: Vec<MetadataPackage>,
    pub workspace_members: Vec<String>,
    /// The id of the root package, if the workspace has one.
    pub root_package: Option<String>,
    pub resolve: Option<Vec<ResolveNode>>,
}

/// A dependency edge list: a package id and the ids it depends on, sorted.
#[derive(Debug)]
pub struct GraphEntry {
    pub id: String,
    pub deps: Vec<String>,
}

/// A loaded workspace.
#[derive(Debug)]
pub struct WorkspaceData {
    pub workspace_root: String,
    pub workspace_manifest: String,
    pub is_virtual_workspace: bool,
    pub resolver: Option<String>,
    pub recommendations: Vec<String>,
    pub metadata: Metadata,
    /// Resolved packages in id order, one per id.
    pub packages_by_id: Vec<ResolvedPackage>,
    /// Edges in id order, one entry per id.
    pub graph: Vec<GraphEntry>,
}

/// The plain-value view of [`MemberTarget`].
pub struct MemberTargetView {
    pub package_id: Seq<char>,
    pub package_name: Seq<char>,
    pub rust_version: Option<Seq<char>>,
}

impl View for MemberTarget {
    type V = MemberTargetView;

    open spec fn view(&self) -> MemberTargetView {
        MemberTargetView {
            package_id: self.package_id@,
            package_name: self.package_name@,
            rust_version: self.rust_version.deep_view(),
        }
    }
}

impl DeepView for MemberTarget {
    type V = MemberTargetView;

    open spec fn deep_view(&self) -> MemberTargetView {
        self@
    }
}

/// The plain-value view of [`TargetSelection`].
pub struct TargetSelectionView {
    pub mode: TargetSelectionMode,
    pub target_rust_version: Option<Seq<char>>,
    pub members: Seq<MemberTargetView>,
    pub notes: Seq<Seq<char>>,
}

impl View for TargetSelection {
    type V = TargetSelectionView;

    open spec fn view(&self) -> TargetSelectionView {
        TargetSelectionView {
            mode: self.mode,
            target_rust_version: self.target_rust_version.deep_view(),
            members: self.members.deep_view(),
            notes: self.notes.deep_view(),
        }
    }
}

impl DeepView for TargetSelection {
    type V = TargetSelectionView;

    open spec fn deep_view(&self) -> TargetSelectionView {
        self@
    }
}

/// The plain-value view of [`ResolvedPackage`].
pub struct ResolvedPackageView {
    pub id: Seq<char>,
    pub name: Seq<char>,
    pub version: VersionParts,
    pub source: Option<Seq<char>>,
    pub source_kind: PackageSourceKind,
    pub manifest_path: Seq<char>,
    pub rust_version: Option<Seq<char>>,
    pub workspace_member: bool,
}

impl View for ResolvedPackage {
    type V = ResolvedPackageView;

    open spec fn view(&self) -> ResolvedPackageView {
        ResolvedPackageView {
            id: self.id@,
            name: self.name@,
            version: self.version@,
            source: self.source.deep_view(),
            source_kind: self.source_kind,
            manifest_path: self.manifest_path@,
            rust_version: self.rust_version.deep_view(),
            workspace_member: self.workspace_member,
        }
    }
}

impl DeepView for ResolvedPackage {
    type V = ResolvedPackageView;

    open spec fn deep_view(&self) -> ResolvedPackageView {
        self@
    }
}

/// The plain-value view of [`DependencyPath`].
pub struct DependencyPathView {
    pub member: Seq<char>,
    pub target_rust_version: Option<Seq<char>>,
    pub packages: Seq<Seq<char>>,
}

impl View for DependencyPath {
    type V = DependencyPathView;

    open spec fn view(&self) -> DependencyPathView {
        DependencyPathView {
            member: self.member@,
            target_rust_version: self.target_rust_version.deep_view(),
            packages: self.packages.deep_view(),
        }
    }
}

impl DeepView for DependencyPath {
    type V = DependencyPathView;

    open spec fn deep_view(&self) -> DependencyPathView {
        self@
    }
}

/// The plain-value view of [`PackageIssue`].
pub struct PackageIssueView {
    pub package: ResolvedPackageView,
    pub status: CompatibilityStatus,
    pub target_rust_version: Option<Seq<char>>,
    pub reason: Seq<char>,
    pub affected_members: Seq<Seq<char>>,
    pub paths: Seq<DependencyPathView>,
}

impl View for PackageIssue {
    type V = PackageIssueView;

    open spec fn view(&self) -> PackageIssueView {
        PackageIssueView {
            package: self.package@,
            status: self.status,
            target_rust_version: self.target_rust_version.deep_view(),
            reason: self.reason@,
            affected_members: self.affected_members.deep_view(),
            paths: self.paths.deep_view(),
        }
    }
}

impl DeepView for PackageIssue {
    type V = PackageIssueView;

    open spec fn deep_view(&self) -> PackageIssueView {
        self@
    }
}

/// The plain-value view of [`PackageSummary`].
pub struct PackageSummaryView {
    pub package_name: Seq<char>,
    pub incompatible: usize,
    pub unknown: usize,
}

impl View for PackageSummary {
    type V = PackageSummaryView;

    open spec fn view(&self) -> PackageSummaryView {
        PackageSummaryView {
            package_name: self.package_name@,
            incompatible: self.incompatible,
            unknown: self.unknown,
        }
    }
}

impl DeepView for PackageSummary {
    type V = PackageSummaryView;

    open spec fn deep_view(&self) -> PackageSummaryView {
        self@
    }
}

/// The plain-value view of [`WorkspaceSummary`].
pub struct WorkspaceSummaryView {
    pub workspace_root: Seq<char>,
    pub selected_members: Seq<Seq<char>>,
    pub is_virtual_workspace: bool,
    pub resolver: Option<Seq<char>>,
    pub recommendations: Seq<Seq<char>>,
}

impl View for WorkspaceSummary {
    type V = WorkspaceSummaryView;

    open spec fn view(&self) -> WorkspaceSummaryView {
        WorkspaceSummaryView {
            workspace_root: self.workspace_root@,
            selected_members: self.selected_members.deep_view(),
            is_virtual_workspace: self.is_virtual_workspace,
            resolver: self.resolver.deep_view(),
            recommendations: self.recommendations.deep_view(),
        }
    }
}

impl DeepView for WorkspaceSummary {
    type V = WorkspaceSummaryView;

    open spec fn deep_view(&self) -> WorkspaceSummaryView {
        self@
    }
}

/// The plain-value view of [`ScanReport`].
pub struct ScanReportView {
    pub target: TargetSelectionView,
    pub workspace: WorkspaceSummaryView,
    pub package_summaries: Seq<PackageSummaryView>,
    pub incompatible_packages: Seq<PackageIssueView>,
    pub unknown_packages: Seq<PackageIssueView>,
    pub notes: Seq<Seq<char>>,
}

impl View for ScanReport {
    type V = ScanReportView;

    open spec fn view(&self) -> ScanReportView {
        ScanReportView {
            target: self.target@,
            workspace: self.workspace@,
            package_summaries: self.package_summaries.deep_view(),
            incompatible_packages: self.incompatible_packages.deep_view(),
            unknown_packages: self.unknown_packages.deep_view(),
            notes: self.notes.deep_view(),
        }
    }
}

impl DeepView for ScanReport {
    type V = ScanReportView;

    open spec fn deep_view(&self) -> ScanReportView {
        self@
    }
}

/// The plain-value view of [`CandidateVersionChange`].
pub struct CandidateVersionChangeView {
    pub package_name: Seq<char>,
    pub source: Option<Seq<char>>,
    pub package_label: Option<Seq<char>>,
    pub before: Option<Seq<char>>,
    pub after: Option<Seq<char>>,
}

impl View for CandidateVersionChange {
    type V = CandidateVersionChangeView;

    open spec fn view(&self) -> CandidateVersionChangeView {
        CandidateVersionChangeView {
            package_name: self.package_name@,
            source: self.source.deep_view(),
            package_label: self.package_label.deep_view(),
            before: self.before.deep_view(),
            after: self.after.deep_view(),
        }
    }
}

impl DeepView for CandidateVersionChange {
    type V = CandidateVersionChangeView;

    open spec fn deep_view(&self) -> CandidateVersionChangeView {
        self@
    }
}

/// The plain-value view of [`ResolveReport`].
pub struct ResolveReportView {
    pub current: ScanReportView,
    pub candidate: ScanReportView,
    pub version_changes: Seq<CandidateVersionChangeView>,
    pub improved_packages: Seq<Seq<char>>,
    pub remaining_blockers: Seq<Seq<char>>,
    pub candidate_lockfile: Option<Seq<char>>,
    pub notes: Seq<Seq<char>>,
}

impl View for ResolveReport {
    type V = ResolveReportView;

    open spec fn view(&self) -> ResolveReportView {
        ResolveReportView {
            current: self.current@,
            candidate: self.candidate@,
            version_changes: self.version_changes.deep_view(),
            improved_packages: self.improved_packages.deep_view(),
            remaining_blockers: self.remaining_blockers.deep_view(),
            candidate_lockfile: self.candidate_lockfile.deep_view(),
            notes: self.notes.deep_view(),
        }
    }
}

impl DeepView for ResolveReport {
    type V = ResolveReportView;

    open spec fn deep_view(&self) -> ResolveReportView {
        self@
    }
}

/// The plain-value view of [`ExplainReport`].
pub struct ExplainReportView {
    pub query: Seq<char>,
    pub target: TargetSelectionView,
    pub package: Option<ResolvedPackageView>,
    pub current_status: Option<CompatibilityStatus>,
    pub current_reason: Option<Seq<char>>,
    pub current_paths: Seq<DependencyPathView>,
    pub current_rust_version: Option<Seq<char>>,
    pub candidate_version: Option<Seq<char>>,
    pub candidate_status: Option<CompatibilityStatus>,
    pub blocker: Option<BlockerKind>,
    pub notes: Seq<Seq<char>>,
    pub workspace_root: Seq<char>,
}

impl View for ExplainReport {
    type V = ExplainReportView;

    open spec fn view(&self) -> ExplainReportView {
        ExplainReportView {
            query: self.query@,
            target: self.target@,
            package: self.package.deep_view(),
            current_status: self.current_status,
            current_reason: self.current_reason.deep_view(),
            current_paths: self.current_paths.deep_view(),
            current_rust_version: self.current_rust_version.deep_view(),
            candidate_version: self.candidate_version.deep_view(),
            candidate_status: self.candidate_status,
            blocker: self.blocker,
            notes: self.notes.deep_view(),
            workspace_root: self.workspace_root@,
        }
    }
}

impl DeepView for ExplainReport {
    type V = ExplainReportView;

    open spec fn deep_view(&self) -> ExplainReportView {
        self@
    }
}

/// The plain-value view of [`ManifestSuggestion`].
pub struct ManifestSuggestionView {
    pub package_name: Seq<char>,
    pub dependency_key: Seq<char>,
    pub dependency_name: Seq<char>,
    pub manifest_path: Seq<char>,
    pub current_requirement: Seq<char>,
    pub suggested_requirement: Seq<char>,
    pub reason: Seq<char>,
    pub target_rust_version: Seq<char>,
    pub section: Seq<char>,
}

impl View for ManifestSuggestion {
    type V = ManifestSuggestionView;

    open spec fn view(&self) -> ManifestSuggestionView {
        ManifestSuggestionView {
            package_name: self.package_name@,
            dependency_key: self.dependency_key@,
            dependency_name: self.dependency_name@,
            manifest_path: self.manifest_path@,
            current_requirement: self.current_requirement@,
            suggested_requirement: self.suggested_requirement@,
            reason: self.reason@,
            target_rust_version: self.target_rust_version@,
            section: self.section@,
        }
    }
}

impl DeepView for ManifestSuggestion {
    type V = ManifestSuggestionView;

    open spec fn deep_view(&self) -> ManifestSuggestionView {
        self@
    }
}

/// The plain-value view of [`RegistryCandidate`].
pub struct RegistryCandidateView {
    pub version: VersionParts,
    pub rust_version: Option<VersionParts>,
    pub yanked: bool,
    pub features: Seq<Seq<char>>,
}

impl View for RegistryCandidate {
    type V = RegistryCandidateView;

    open spec fn view(&self) -> RegistryCandidateView {
        RegistryCandidateView {
            version: self.version@,
            rust_version: self.rust_version.deep_view(),
            yanked: self.yanked,
            features: self.features.deep_view(),
        }
    }
}

impl DeepView for RegistryCandidate {
    type V = RegistryCandidateView;

    open spec fn deep_view(&self) -> RegistryCandidateView {
        self@
    }
}

/// The plain-value view of [`DependencyConstraint`].
pub struct DependencyConstraintView {
    pub package_name: Seq<char>,
    pub dependency_key: Seq<char>,
    pub manifest_path: Seq<char>,
    pub requirement: Seq<char>,
    pub source: Option<Seq<char>>,
    pub features: Seq<Seq<char>>,
    pub uses_default_features: bool,
    pub optional: bool,
    pub section: Seq<char>,
    pub target_rust_version: Option<VersionParts>,
}

impl View for DependencyConstraint {
    type V = DependencyConstraintView;

    open spec fn view(&self) -> DependencyConstraintView {
        DependencyConstraintView {
            package_name: self.package_name@,
            dependency_key: self.dependency_key@,
            manifest_path: self.manifest_path@,
            requirement: self.requirement@,
            source: self.source.deep_view(),
            features: self.features.deep_view(),
            uses_default_features: self.uses_default_features,
            optional: self.optional,
            section: self.section@,
            target_rust_version: self.target_rust_version.deep_view(),
        }
    }
}

impl DeepView for DependencyConstraint {
    type V = DependencyConstraintView;

    open spec fn deep_view(&self) -> DependencyConstraintView {
        self@
    }
}

/// The plain-value view of [`SelectedMember`].
pub struct SelectedMemberView {
    pub package_id: Seq<char>,
    pub package_name: Seq<char>,
    pub manifest_path: Seq<char>,
    pub rust_version: Option<VersionParts>,
}

impl View for SelectedMember {
    type V = SelectedMemberView;

    open spec fn view(&self) -> SelectedMemberView {
        SelectedMemberView {
            package_id: self.package_id@,
            package_name: self.package_name@,
            manifest_path: self.manifest_path@,
            rust_version: self.rust_version.deep_view(),
        }
    }
}

impl DeepView for SelectedMember {
    type V = SelectedMemberView;

    open spec fn deep_view(&self) -> SelectedMemberView {
        self@
    }
}

/// The plain-value view of [`Selection`].
pub struct SelectionView {
    pub members: Seq<SelectedMemberView>,
    pub target: TargetSelectionView,
}

impl View for Selection {
    type V = SelectionView;

    open spec fn view(&self) -> SelectionView {
        SelectionView {
            members: self.members.deep_view(),
            target: self.target@,
        }
    }
}

impl DeepView for Selection {
    type V = SelectionView;

    open spec fn deep_view(&self) -> SelectionView {
        self@
    }
}

/// The plain-value view of [`MetadataDependency`].
pub struct MetadataDependencyView {
    pub name: Seq<char>,
    pub rename: Option<Seq<char>>,
    pub req: Seq<char>,
    pub kind: DependencyKind,
    pub source: Option<Seq<char>>,
    pub registry: Option<Seq<char>>,
    pub path: Option<Seq<char>>,
    pub features: Seq<Seq<char>>,
    pub uses_default_features: bool,
    pub optional: bool,
}

impl View for MetadataDependency {
    type V = MetadataDependencyView;

    open spec fn view(&self) -> MetadataDependencyView {
        MetadataDependencyView {
            name: self.name@,
            rename: self.rename.deep_view(),
            req: self.req@,
            kind: self.kind,
            source: self.source.deep_view(),
            registry: self.registry.deep_view(),
            path: self.path.deep_view(),
            features: self.features.deep_view(),
            uses_default_features: self.uses_default_features,
            optional: self.optional,
        }
    }
}

impl DeepView for MetadataDependency {
    type V = MetadataDependencyView;

    open spec fn deep_view(&self) -> MetadataDependencyView {
        self@
    }
}

/// The plain-value view of [`MetadataPackage`].
pub struct MetadataPackageView {
    pub id: Seq<char>,
    pub name: Seq<char>,
    pub version: VersionParts,
    pub source: Option<Seq<char>>,
    pub manifest_path: Seq<char>,
    pub rust_version: Option<VersionParts>,
    pub dependencies: Seq<MetadataDependencyView>,
}

impl View for MetadataPackage {
    type V = MetadataPackageView;

    open spec fn view(&self) -> MetadataPackageView {
        MetadataPackageView {
            id: self.id@,
            name: self.name@,
            version: self.version@,
            source: self.source.deep_view(),
            manifest_path: self.manifest_path@,
            rust_version: self.rust_version.deep_view(),
            dependencies: self.dependencies.deep_view(),
        }
    }
}

impl DeepView for MetadataPackage {
    type V = MetadataPackageView;

    open spec fn deep_view(&self) -> MetadataPackageView {
        self@
    }
}

/// The plain-value view of [`ResolveNode`].
pub struct ResolveNodeView {
    pub id: Seq<char>,
    pub deps: Seq<Seq<char>>,
}

impl View for ResolveNode {
    type V = ResolveNodeView;

    open spec fn view(&self) -> ResolveNodeView {
        ResolveNodeView {
            id: self.id@,
            deps: self.deps.deep_view(),
        }
    }
}

impl DeepView for ResolveNode {
    type V = ResolveNodeView;

    open spec fn deep_view(&self) -> ResolveNodeView {
        self@
    }
}

/// The plain-value view of [`Metadata`].
pub struct MetadataView {
    pub packages: Seq<MetadataPackageView>,
    pub workspace_members: Seq<Seq<char>>,
    pub root_package: Option<Seq<char>>,
    pub resolve: Option<Seq<ResolveNodeView>>,
}

impl View for Metadata {
    type V = MetadataView;

    open spec fn view(&self) -> MetadataView {
        MetadataView {
            packages: self.packages.deep_view(),
            workspace_members: self.workspace_members.deep_view(),
            root_package: self.root_package.deep_view(),
            resolve: self.resolve.deep_view(),
        }
    }
}

impl DeepView for Metadata {
    type V = MetadataView;

    open spec fn deep_view(&self) -> MetadataView {
        self@
    }
}

/// The plain-value view of [`GraphEntry`].
pub struct GraphEntryView {
    pub id: Seq<char>,
    pub deps: Seq<Seq<char>>,
}

impl View for GraphEntry {
    type V = GraphEntryView;

    open spec fn view(&self) -> GraphEntryView {
        GraphEntryView {
            id: self.id@,
            deps: self.deps.deep_view(),
        }
    }
}

impl DeepView for GraphEntry {
    type V = GraphEntryView;

    open spec fn deep_view(&self) -> GraphEntryView {
        self@
    }
}

/// The plain-value view of [`WorkspaceData`].
pub struct WorkspaceDataView {
    pub workspace_root: Seq<char>,
    pub workspace_manifest: Seq<char>,
    pub is_virtual_workspace: bool,
    pub resolver: Option<Seq<char>>,
    pub recommendations: Seq<Seq<char>>,
    pub metadata: MetadataView,
    pub packages_by_id: Seq<ResolvedPackageView>,
    pub graph: Seq<GraphEntryView>,
}

impl View for WorkspaceData {
    type V = WorkspaceDataView;

    open spec fn view(&self) -> WorkspaceDataView {
        WorkspaceDataView {
            workspace_root: self.workspace_root@,
            workspace_manifest: self.workspace_manifest@,
            is_virtual_workspace: self.is_virtual_workspace,
            resolver: self.resolver.deep_view(),
            recommendations: self.recommendations.deep_view(),
            metadata: self.metadata@,
            packages_by_id: self.packages_by_id.deep_view(),
            graph: self.graph.deep_view(),
        }
    }
}

impl DeepView for WorkspaceData {
    type V = WorkspaceDataView;

    open spec fn deep_view(&self) -> WorkspaceDataView {
        self@
    }
}

impl Clone for MemberTarget {
    fn clone(&self) -> (r: Self)
        ensures
            r@ == self@,
    {
        let package_id = self.package_id.clone();
        let package_name = self.package_name.clone();
        let rust_version = self.rust_version.clone();
        MemberTarget {
            package_id,
            package_name,
            rust_version,
        }
    }
}

impl Clone for TargetSelection {
    fn clone(&self) -> (r: Self)
        ensures
            r@ == self@,
    {
        let target_rust_version = self.target_rust_version.clone();
        let members = self.members.clone();
        let notes = self.notes.clone();
        assert(members.deep_view() =~= self.members.deep_view());
        assert(notes.deep_view() =~= self.notes.deep_view());
        TargetSelection {
            mode: self.mode,
            target_rust_version,
            members,
            notes,
        }
    }
}

impl Clone for ResolvedPackage {
    fn clone(&self) -> (r: Self)
        ensures
            r@ == self@,
    {
        let id = self.id.clone();
        let name = self.name.clone();
        let version = self.version.clone();
        let source = self.source.clone();
        let manifest_path = self.manifest_path.clone();
        let rust_version = self.rust_version.clone();
        ResolvedPackage {
            id,
            name,
            version,
            source,
            source_kind: self.source_kind,
            manifest_path,
            rust_version,
            workspace_member: self.workspace_member,
        }
    }
}

impl Clone for DependencyPath {
    fn clone(&self) -> (r: Self)
        ensures
            r@ == self@,
    {
        let member = self.member.clone();
        let target_rust_version = self.target_rust_version.clone();
        let packages = self.packages.clone();
        assert(packages.deep_view() =~= self.packages.deep_view());
        DependencyPath {
            member,
            target_rust_version,
            packages,
        }
    }
}

impl Clone for PackageIssue {
    fn clone(&self) -> (r: Self)
        ensures
            r@ == self@,
    {
        let package = self.package.clone();
        let target_rust_version = self.target_rust_version.clone();
        let reason = self.reason.clone();
        let affected_members = self.affected_members.clone();
        let paths = self.paths.clone();
        assert(affected_members.deep_view() =~= self.affected_members.deep_view());
        assert(paths.deep_view() =~= self.paths.deep_view());
        PackageIssue {
            package,
            status: self.status,
            target_rust_version,
            reason,
            affected_members,
            paths,
        }
    }
}

impl Clone for PackageSummary {
    fn clone(&self) -> (r: Self)
        ensures
            r@ == self@,
    {
        let package_name = self.package_name.clone();
        PackageSummary {
            package_name,
            incompatible: self.incompatible,
            unknown: self.unknown,
        }
    }
}

impl Clone for WorkspaceSummary {
    fn clone(&self) -> (r: Self)
        ensures
            r@ == self@,
    {
        let workspace_root = self.workspace_root.clone();
        let selected_members = self.selected_members.clone();
        let resolver = self.resolver.clone();
        let recommendations = self.recommendations.clone();
        assert(selected_members.deep_view() =~= self.selected_members.deep_view());
        assert(recommendations.deep_view() =~= self.recommendations.deep_view());
        WorkspaceSummary {
            workspace_root,
            selected_members,
            is_virtual_workspace: self.is_virtual_workspace,
            resolver,
            recommendations,
        }
    }
}

impl Clone for ScanReport {
    fn clone(&self) -> (r: Self)
        ensures
            r@ == self@,
    {
        let target = self.target.clone();
        let workspace = self.workspace.clone();
        let package_summaries = self.package_summaries.clone();
        let incompatible_packages = self.incompatible_packages.clone();
        let unknown_packages = self.unknown_packages.clone();
        let notes = self.notes.clone();
        assert(package_summaries.deep_view() =~= self.package_summaries.deep_view());
        assert(incompatible_packages.deep_view() =~= self.incompatible_packages.deep_view());
        assert(unknown_packages.deep_view() =~= self.unknown_packages.deep_view());
        assert(notes.deep_view() =~= self.notes.deep_view());
        ScanReport {
            target,
            workspace,
            package_summaries,
            incompatible_packages,
            unknown_packages,
            notes,
        }
    }
}

impl Clone for CandidateVersionChange {
    fn clone(&self) -> (r: Self)
        ensures
            r@ == self@,
    {
        let package_name = self.package_name.clone();
        let source = self.source.clone();
        let package_label = self.package_label.clone();
        let before = self.before.clone();
        let after = self.after.clone();
        CandidateVersionChange {
            package_name,
            source,
            package_label,
            before,
            after,
        }
    }
}

impl Clone for RegistryCandidate {
    fn clone(&self) -> (r: Self)
        ensures
            r@ == self@,
    {
        let version = self.version.clone();
        let rust_version = self.rust_version.clone();
        let features = self.features.clone();
        assert(features.deep_view() =~= self.features.deep_view());
        RegistryCandidate {
            version,
            rust_version,
            yanked: self.yanked,
            features,
        }
    }
}

impl Clone for SelectedMember {
    fn clone(&self) -> (r: Self)
        ensures
            r@ == self@,
    {
        let package_id = self.package_id.clone();
        let package_name = self.package_name.clone();
        let manifest_path = self.manifest_path.clone();
        let rust_version = self.rust_version.clone();
        SelectedMember {
            package_id,
            package_name,
            manifest_path,
            rust_version,
        }
    }
}

impl Clone for ManifestSuggestion {
    fn clone(&self) -> (r: Self)
        ensures
            r@ == self@,
    {
        let package_name = self.package_name.clone();
        let dependency_key = self.dependency_key.clone();
        let dependency_name = self.dependency_name.clone();
        let manifest_path = self.manifest_path.clone();
        let current_requirement = self.current_requirement.clone();
        let suggested_requirement = self.suggested_requirement.clone();
        let reason = self.reason.clone();
        let target_rust_version = self.target_rust_version.clone();
        let section = self.section.clone();
        ManifestSuggestion {
            package_name,
            dependency_key,
            dependency_name,
            manifest_path,
            current_requirement,
            suggested_requirement,
            reason,
            target_rust_version,
            section,
        }
    }
}

impl Clone for DependencyConstraint {
    fn clone(&self) -> (r: Self)
        ensures
            r@ == self@,
    {
        let package_name = self.package_name.clone();
        let dependency_key = self.dependency_key.clone();
        let manifest_path = self.manifest_path.clone();
        let requirement = self.requirement.clone();
        let source = self.source.clone();
        let features = self.features.clone();
        let section = self.section.clone();
        let target_rust_version = self.target_rust_version.clone();
        assert(features.deep_view() =~= self.features.deep_view());
        DependencyConstraint {
            package_name,
            dependency_key,
            manifest_path,
            requirement,
            source,
            features,
            uses_default_features: self.uses_default_features,
            optional: self.optional,
            section,
            target_rust_version,
        }
    }
}

} // verus!
