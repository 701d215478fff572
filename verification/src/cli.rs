//! The command line's values, as the library reads them.
use vstd::prelude::*;

verus! {

/// How a report is written.
#[derive(Clone, Copy, Debug, PartialEq, Eq, Structural)]
pub enum OutputFormat {
    Human,
    Json,
    Markdown,
}

/// Which workspace and members to analyze, against which Rust version.
#[derive(Debug)]
pub struct SelectionArgs {
    pub manifest_path: Option<String>,
    pub rust_version: Option<String>,
    pub workspace: bool,
    pub package: Vec<String>,
}

/// The plain-value view of [`SelectionArgs`].
pub struct SelectionArgsView {
    pub manifest_path: Option<Seq<char>>,
    pub rust_version: Option<Seq<char>>,
    pub workspace: bool,
    pub package: Seq<Seq<char>>,
}

impl View for SelectionArgs {
    type V = SelectionArgsView;

    open spec fn view(&self) -> SelectionArgsView {
        SelectionArgsView {
            manifest_path: self.manifest_path.deep_view(),
            rust_version: self.rust_version.deep_view(),
            workspace: self.workspace,
            package: self.package.deep_view(),
        }
    }
}

impl Clone for SelectionArgs {
    fn clone(&self) -> (r: Self)
        ensures
            r@ == self@,
    {
        let package = self.package.clone();
        assert(package.deep_view() =~= self.package.deep_view());
        SelectionArgs {
            manifest_path: self.manifest_path.clone(),
            rust_version: self.rust_version.clone(),
            workspace: self.workspace,
            package,
        }
    }
}

/// `scan`: analyze the current resolution.
#[derive(Debug)]
pub struct ScanCommand {
    pub selection: SelectionArgs,
    pub format: OutputFormat,
}

/// `resolve`: build a candidate resolution and compare it.
#[derive(Debug)]
pub struct ResolveCommand {
    pub selection: SelectionArgs,
    pub format: OutputFormat,
    pub write_candidate: Option<String>,
    pub write_report: Option<String>,
}

impl Clone for ResolveCommand {
    fn clone(&self) -> (r: Self)
        ensures
            r.selection@ == self.selection@,
            r.format == self.format,
            r.write_candidate.deep_view() == self.write_candidate.deep_view(),
            r.write_report.deep_view() == self.write_report.deep_view(),
    {
        ResolveCommand {
            selection: self.selection.clone(),
            format: self.format,
            write_candidate: self.write_candidate.clone(),
            write_report: self.write_report.clone(),
        }
    }
}

/// `apply-lock`: apply a candidate lockfile.
#[derive(Debug)]
pub struct ApplyLockCommand {
    pub manifest_path: Option<String>,
    pub candidate_lockfile: Option<String>,
}

/// `suggest-manifest`: suggest requirement changes of direct dependencies.
#[derive(Debug)]
pub struct SuggestManifestCommand {
    pub selection: SelectionArgs,
    pub allow_major: bool,
    pub write_manifests: bool,
    pub format: OutputFormat,
}

/// `explain`: explain one package's verdict.
#[derive(Debug)]
pub struct ExplainCommand {
    pub selection: SelectionArgs,
    pub query: String,
    pub format: OutputFormat,
}

/// The subcommands.
#[derive(Debug)]
pub enum Commands {
    Scan(ScanCommand),
    Resolve(ResolveCommand),
    ApplyLock(ApplyLockCommand),
    SuggestManifest(SuggestManifestCommand),
    Explain(ExplainCommand),
}

/// The whole command line.
#[derive(Debug)]
pub struct Cli {
    pub command: Commands,
}

} // verus!
