//! Code banks: which dependencies get a summary, and where it is written.
//!
//! Summarizing a source tree is the work of an outside collaborator, which
//! the caller runs. The library chooses what is summarized and where the
//! result goes, and gathers what came of it.

use vstd::prelude::*;
use crate::collection::DependencyCollection;
use crate::dependency::dependency_dir;
use crate::dependency::DepView;
use crate::error::DepError;
use crate::error::ErrorKind;
use crate::name_map::put;
use crate::name_map::NameMap;
use crate::path::join_path;
use crate::path::path_join;
use crate::registry::Registry;
use crate::snapshot::PathKind;
use crate::text::joined;
use crate::text::views;

verus! {

/// How much of the sources a summary keeps.
#[derive(Clone, Copy, Debug, PartialEq, Eq, Structural)]
pub enum SummaryStrategy {
    /// Every item with its full body.
    Default,
    /// Every item with its full body, tests left out.
    NoTests,
    /// Public items only, bodies left out.
    Summary,
}

/// What is needed to summarize the sources of one dependency.
#[derive(Debug)]
pub struct BankRequest {
    /// The name of the dependency.
    pub name: String,
    /// The directory of its sources.
    pub source_path: String,
    /// The directory that takes the summary.
    pub output_dir: String,
    /// The file that takes the summary.
    pub output_file: String,
    /// How much of the sources the summary keeps.
    pub strategy: SummaryStrategy,
    /// The subdirectories of the sources that are passed over.
    pub ignore_dirs: Vec<String>,
}

/// One step of a batch: a summary to make, or a dependency without sources.
#[derive(Debug)]
pub enum BankStep {
    Generate(BankRequest),
    Missing { path: String },
}

/// What came of one step of a batch.
#[derive(Debug)]
pub enum BankOutcome {
    /// The summary of `name` was written to `file`.
    Written { name: String, file: String },
    /// Summarizing `name` failed, for the reason `cause`.
    Failed { name: String, cause: String },
    /// No sources lie at `path`.
    Missing { path: String },
}

/// What came of a whole batch.
#[derive(Debug)]
pub struct BankReport {
    /// The summary file of each dependency that was summarized.
    pub files: NameMap<String>,
    /// One warning for each dependency that was not.
    pub warnings: Vec<String>,
}

/// The subdirectories that a summary passes over.
pub open spec fn ignored_dirs() -> Seq<Seq<char>> {
    seq!["examples"@, "tests"@, "benches"@]
}

/// The file that takes the summary of `name`: below `output_dir`, named
/// after the dependency.
pub open spec fn bank_file(output_dir: Seq<char>, name: Seq<char>) -> Seq<char> {
    path_join(output_dir, name + ".md"@)
}

/// The request that summarizes the sources of `name` at `source_path`: a
/// summary of the public items, written below `output_dir`.
pub open spec fn is_request_for(
    request: BankRequest,
    source_path: Seq<char>,
    output_dir: Seq<char>,
    name: Seq<char>,
) -> bool {
    &&& request.name@ == name
    &&& request.source_path@ == source_path
    &&& request.output_dir@ == output_dir
    &&& request.output_file@ == bank_file(output_dir, name)
    &&& request.strategy == SummaryStrategy::Summary
    &&& views(request.ignore_dirs@) == ignored_dirs()
}

/// The step that a dependency takes in a batch: a request where its sources
/// lie in the registry, else a note of where they were looked for.
pub open spec fn is_step_for(
    step: BankStep,
    dep: DepView,
    registry: Registry,
    output_dir: Seq<char>,
) -> bool {
    let source = path_join(registry.base_path@, dependency_dir(dep.name, dep.version));
    match step {
        BankStep::Generate(request) => registry.has(dep.name, dep.version) && is_request_for(
            request,
            source,
            output_dir,
            dep.name,
        ),
        BankStep::Missing { path } => !registry.has(dep.name, dep.version) && path@ == source,
    }
}

/// The warning for one outcome, if it is no success.
pub open spec fn warning_of(outcome: BankOutcome) -> Option<Seq<char>> {
    match outcome {
        BankOutcome::Written { .. } => None,
        BankOutcome::Failed { name, cause } => Some(
            "Failed to generate code bank for "@ + name@ + ": "@ + cause@,
        ),
        BankOutcome::Missing { path } => Some("Dependency not found: "@ + path@),
    }
}

/// The summary files after the first `n` outcomes.
pub open spec fn files_after(outcomes: Seq<BankOutcome>, n: int) -> Seq<(Seq<char>, Seq<char>)>
    decreases n,
{
    if n <= 0 {
        Seq::empty()
    } else {
        let before = files_after(outcomes, n - 1);
        match outcomes[n - 1] {
            BankOutcome::Written { name, file } => put(before, name@, file@),
            _ => before,
        }
    }
}

/// The warnings after the first `n` outcomes.
pub open spec fn warnings_after(outcomes: Seq<BankOutcome>, n: int) -> Seq<Seq<char>>
    decreases n,
{
    if n <= 0 {
        Seq::empty()
    } else {
        let before = warnings_after(outcomes, n - 1);
        match warning_of(outcomes[n - 1]) {
            Some(warning) => before.push(warning),
            None => before,
        }
    }
}

/// The request that summarizes a dependency's sources.
fn bank_request(source_path: &str, output_dir: &str, dependency_name: &str) -> (r: BankRequest)
    ensures
        is_request_for(r, source_path@, output_dir@, dependency_name@),
{
    let mut ignore_dirs: Vec<String> = Vec::new();
    ignore_dirs.push("examples".to_owned());
    ignore_dirs.push("tests".to_owned());
    ignore_dirs.push("benches".to_owned());
    assert(views(ignore_dirs@) == ignored_dirs());
    let file_name = joined(dependency_name, ".md");
    BankRequest {
        name: dependency_name.to_owned(),
        source_path: source_path.to_owned(),
        output_dir: output_dir.to_owned(),
        output_file: join_path(output_dir, file_name.as_str()),
        strategy: SummaryStrategy::Summary,
        ignore_dirs,
    }
}

/// Prepares the summary of the sources at `source_path`, given what the
/// caller found there. The summary goes to the file named after the
/// dependency below `output_dir`.
///
/// Fails with `NotFound` where the sources are missing and with
/// `NotADirectory` where they are no directory.
pub fn generate_code_bank(
    source_path: &str,
    source: PathKind,
    output_dir: &str,
    dependency_name: &str,
) -> (r: Result<BankRequest, DepError>)
    ensures
        match r {
            Ok(request) => source == PathKind::Directory && is_request_for(
                request,
                source_path@,
                output_dir@,
                dependency_name@,
            ),
            Err(e) => e.path@ == source_path@ && match source {
                PathKind::Missing => e.kind == ErrorKind::NotFound,
                PathKind::File => e.kind == ErrorKind::NotADirectory,
                PathKind::Directory => false,
            },
        },
{
    match source {
        PathKind::Missing => Err(DepError::not_found(source_path)),
        PathKind::File => Err(DepError::not_a_directory(source_path)),
        PathKind::Directory => Ok(bank_request(source_path, output_dir, dependency_name)),
    }
}

/// Plans a batch: one step for each of `dependencies`, in their order. A
/// dependency whose sources lie in `registry` gets a request; any other is
/// noted as missing.
pub fn plan_code_banks(
    dependencies: &DependencyCollection,
    registry: &Registry,
    output_dir: &str,
) -> (steps: Vec<BankStep>)
    ensures
        steps@.len() == dependencies@.len(),
        forall|i: int|
            0 <= i < steps@.len() ==> is_step_for(
                #[trigger] steps@[i],
                dependencies@[i],
                *registry,
                output_dir@,
            ),
{
    let deps = dependencies.as_slice();
    let mut steps: Vec<BankStep> = Vec::new();
    let mut i: usize = 0;
    while i < deps.len()
        invariant
            i <= deps.len(),
            views(deps@) == dependencies@,
            steps@.len() == i,
            forall|j: int|
                0 <= j < i ==> is_step_for(
                    #[trigger] steps@[j],
                    dependencies@[j],
                    *registry,
                    output_dir@,
                ),
        decreases deps.len() - i,
    {
        let dep = &deps[i];
        assert(dep@ == dependencies@[i as int]);
        let source = dep.get_registry_path(registry.base_path.as_str());
        if dep.is_available_in_registry(registry) {
            let request = bank_request(source.as_str(), output_dir, dep.name.as_str());
            steps.push(BankStep::Generate(request));
        } else {
            steps.push(BankStep::Missing { path: source });
        }
        i += 1;
    }
    steps
}

/// The warning for `outcome`, if it is no success.
pub fn warning_for(outcome: &BankOutcome) -> (r: Option<String>)
    ensures
        match r {
            Some(warning) => warning_of(*outcome) == Some(warning@),
            None => warning_of(*outcome) is None,
        },
{
    match outcome {
        BankOutcome::Written { .. } => None,
        BankOutcome::Failed { name, cause } => {
            let head = joined("Failed to generate code bank for ", name.as_str());
            let middle = joined(head.as_str(), ": ");
            Some(joined(middle.as_str(), cause.as_str()))
        },
        BankOutcome::Missing { path } => Some(joined("Dependency not found: ", path.as_str())),
    }
}

/// Gathers what came of a batch: the summary file of each dependency that
/// was summarized, and a warning for each that was not. A failure of one
/// step leaves the others standing.
pub fn generate_all_code_banks(outcomes: &Vec<BankOutcome>) -> (report: BankReport)
    ensures
        report.files@ == files_after(outcomes@, outcomes@.len() as int),
        views(report.warnings@) == warnings_after(outcomes@, outcomes@.len() as int),
{
    let mut files: NameMap<String> = NameMap::new();
    let mut warnings: Vec<String> = Vec::new();
    let mut i: usize = 0;
    assert(views(warnings@) == Seq::<Seq<char>>::empty());
    while i < outcomes.len()
        invariant
            i <= outcomes.len(),
            files@ == files_after(outcomes@, i as int),
            views(warnings@) == warnings_after(outcomes@, i as int),
        decreases outcomes.len() - i,
    {
        match &outcomes[i] {
            BankOutcome::Written { name, file } => {
                files.insert(name.as_str(), file.clone());
            },
            _ => {},
        }
        match warning_for(&outcomes[i]) {
            Some(warning) => {
                let ghost before = views(warnings@);
                let ghost text = warning@;
                warnings.push(warning);
                assert(views(warnings@) == before.push(text));
            },
            None => {},
        }
        i += 1;
    }
    BankReport { files, warnings }
}

} // verus!
