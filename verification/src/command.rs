//! The `index` commands: what each of them asks for, where the index lives, and what the status
//! report says.
use crate::text::{signed_decimal, signed_digits};
use vstd::prelude::*;

verus! {

/// An `index` subcommand as given on the command line. `P` is the type of paths.
pub enum IndexAction<P> {
    Build { project: P, output: Option<P>, packages: bool },
    Sync { project: P },
    Status { project: P },
}

/// Work on an index.
#[derive(Debug, PartialEq, Eq)]
pub enum IndexTask<P> {
    /// Index the project from scratch, into `output` or the default place.
    Build { project: P, output: Option<P>, include_packages: bool },
    /// Report on the index of the project.
    Status { project: P },
}

/// The task of an `index` subcommand.
pub open spec fn task_of<P>(action: IndexAction<P>) -> IndexTask<P> {
    match action {
        IndexAction::Build { project, output, packages } => IndexTask::Build {
            project,
            output,
            include_packages: packages,
        },
        IndexAction::Sync { project } => full_build(project),
        IndexAction::Status { project } => IndexTask::Status { project },
    }
}

/// A build into the default place, with packages.
pub open spec fn full_build<P>(project: P) -> IndexTask<P> {
    IndexTask::Build { project, output: None, include_packages: true }
}

/// The task of an `index` subcommand.
pub fn run_index_action<P>(action: IndexAction<P>) -> (r: IndexTask<P>)
    ensures
        r == task_of(action),
{
    match action {
        IndexAction::Build { project, output, packages } => run_build(project, output, packages),
        IndexAction::Sync { project } => run_sync(project),
        IndexAction::Status { project } => IndexTask::Status { project },
    }
}

/// A build on behalf of another component: into the default place, with packages.
pub fn run_build_internal<P>(project_root: P) -> (r: IndexTask<P>)
    ensures
        r == full_build(project_root),
{
    run_build(project_root, None, true)
}

/// A build.
pub fn run_build<P>(project: P, output: Option<P>, include_packages: bool) -> (r: IndexTask<P>)
    ensures
        r == (IndexTask::Build { project, output, include_packages }),
{
    IndexTask::Build { project, output, include_packages }
}

/// A sync is a full rebuild.
pub fn run_sync<P>(project: P) -> (r: IndexTask<P>)
    ensures
        r == full_build(project),
{
    run_build(project, None, true)
}

/// Syncing a project, building it with the default options and packages, and building it on behalf
/// of another component are the same task.
pub proof fn law_sync_is_rebuild<P>(project: P)
    ensures
        task_of(IndexAction::Sync { project }) == full_build(project),
        task_of(IndexAction::Build { project, output: None, packages: true }) == full_build(project),
{
}

/// A file named by a directory and by the path below it.
pub struct DbPath<P> {
    pub root: P,
    pub below: Vec<&'static str>,
}

/// The path of the index below a project.
pub open spec fn default_below() -> Seq<Seq<char>> {
    seq![".unityassetdb"@, "index.db"@]
}

/// The texts of a list.
pub open spec fn str_texts(v: Seq<&'static str>) -> Seq<Seq<char>> {
    v.map_values(|s: &'static str| s@)
}

/// The default place of the index of a project: `.unityassetdb/index.db` below it.
pub fn default_db_path<P>(project: P) -> (r: DbPath<P>)
    ensures
        r.root == project,
        str_texts(r.below@) == default_below(),
{
    let mut below: Vec<&'static str> = Vec::new();
    below.push(".unityassetdb");
    below.push("index.db");
    assert(str_texts(below@) =~= default_below());
    DbPath { root: project, below }
}

/// The place of the index: the requested one, or the default place below the project.
pub fn db_path<P>(project_root: P, output: Option<P>) -> (r: DbPath<P>)
    ensures
        match output {
            Some(path) => r.root == path && r.below@.len() == 0,
            None => r.root == project_root && str_texts(r.below@) == default_below(),
        },
{
    match output {
        Some(path) => DbPath { root: path, below: Vec::new() },
        None => default_db_path(project_root),
    }
}

/// Row counts of an index.
pub struct StatusCounts {
    pub files: i64,
    pub yaml_objects: i64,
    pub yaml_refs: i64,
    pub cs_decls: i64,
    pub assets: i64,
    pub entities: i64,
    pub entity_edges: i64,
    pub vfs_entries: i64,
    pub vfs_edges: i64,
}

/// What the last build recorded about itself.
#[derive(Debug, PartialEq, Eq)]
pub struct RebuildSummary {
    pub mode: String,
    pub discovered: i64,
    pub index_path: String,
}

/// What a full build of `files` files records about itself.
pub fn rebuild_summary(files: usize, index_path: String) -> (r: RebuildSummary)
    ensures
        r.mode@ == "full"@,
        r.discovered == files as i64,
        r.index_path == index_path,
{
    RebuildSummary { mode: "full".to_owned(), discovered: files as i64, index_path }
}

/// The texts of a list of lines.
pub open spec fn texts(v: Seq<String>) -> Seq<Seq<char>> {
    v.map_values(|s: String| s@)
}

/// The report on a project without an index.
pub open spec fn missing_index_spec(project: Seq<char>) -> Seq<Seq<char>> {
    seq![
        "❌ No index found for project: "@ + project,
        "   Run `unityassetdb index build "@ + project + "` to create one."@,
    ]
}

/// The report on a project without an index.
fn missing_index_report(project: &str) -> (r: Vec<String>)
    ensures
        texts(r@) == missing_index_spec(project@),
{
    let mut lines: Vec<String> = Vec::new();
    let mut line = "❌ No index found for project: ".to_owned();
    line.append(project);
    lines.push(line);
    let mut line = "   Run `unityassetdb index build ".to_owned();
    line.append(project);
    line.append("` to create one.");
    lines.push(line);
    assert(texts(lines@) =~= missing_index_spec(project@));
    lines
}

/// The lines on the last build.
pub open spec fn summary_spec(summary: RebuildSummary) -> Seq<Seq<char>> {
    seq![
        "   Mode:     "@ + summary.mode@,
        "   Indexed:  "@ + signed_digits(summary.discovered as int) + " files discovered"@,
        "   DB Path:  "@ + summary.index_path@,
    ]
}

/// The lines on the row counts.
pub open spec fn counts_spec(counts: StatusCounts) -> Seq<Seq<char>> {
    seq![
        Seq::<char>::empty(),
        "   Files:          "@ + signed_digits(counts.files as int),
        "   YAML Objects:   "@ + signed_digits(counts.yaml_objects as int),
        "   YAML Refs:      "@ + signed_digits(counts.yaml_refs as int),
        "   C# Decls:       "@ + signed_digits(counts.cs_decls as int),
        "   Assets:         "@ + signed_digits(counts.assets as int),
        "   Entities:       "@ + signed_digits(counts.entities as int),
        "   Entity Edges:   "@ + signed_digits(counts.entity_edges as int),
        "   VFS Entries:    "@ + signed_digits(counts.vfs_entries as int),
        "   VFS Edges:      "@ + signed_digits(counts.vfs_edges as int),
    ]
}

/// What is known of an index.
pub struct IndexStatus {
    /// The place of the database.
    pub database: String,
    pub summary: Option<RebuildSummary>,
    pub counts: StatusCounts,
}

/// The report on the index of a project.
pub open spec fn status_spec(project: Seq<char>, index: Option<IndexStatus>) -> Seq<Seq<char>> {
    match index {
        None => missing_index_spec(project),
        Some(index) => {
            let head = seq![
                "📊 UnityAssetDB Index Status"@,
                "   Project:  "@ + project,
                "   Database: "@ + index.database@,
            ];
            let middle = match index.summary {
                Some(s) => summary_spec(s),
                None => Seq::empty(),
            };
            head + middle + counts_spec(index.counts)
        },
    }
}

/// A label and a count.
fn count_line(label: &str, count: i64) -> (r: String)
    ensures
        r@ == label@ + signed_digits(count as int),
{
    let mut line = label.to_owned();
    let numeral = signed_decimal(count);
    line.append(numeral.as_str());
    line
}

/// A label and a text.
fn text_line(label: &str, value: &str) -> (r: String)
    ensures
        r@ == label@ + value@,
{
    let mut line = label.to_owned();
    line.append(value);
    line
}

/// The report on the index of a project, or on its absence.
pub fn run_status(project: &str, index: &Option<IndexStatus>) -> (r: Vec<String>)
    ensures
        texts(r@) == status_spec(project@, *index),
{
    match index {
        Some(index) => index_report(project, index),
        None => missing_index_report(project),
    }
}

/// The report on an index.
fn index_report(project: &str, index: &IndexStatus) -> (r: Vec<String>)
    ensures
        texts(r@) == status_spec(project@, Some(*index)),
{
    let mut lines: Vec<String> = Vec::new();
    lines.push("📊 UnityAssetDB Index Status".to_owned());
    lines.push(text_line("   Project:  ", project));
    lines.push(text_line("   Database: ", index.database.as_str()));
    if let Some(s) = &index.summary {
        lines.push(text_line("   Mode:     ", s.mode.as_str()));
        let mut line = count_line("   Indexed:  ", s.discovered);
        line.append(" files discovered");
        lines.push(line);
        lines.push(text_line("   DB Path:  ", s.index_path.as_str()));
    }
    lines.push(String::new());
    let counts = &index.counts;
    lines.push(count_line("   Files:          ", counts.files));
    lines.push(count_line("   YAML Objects:   ", counts.yaml_objects));
    lines.push(count_line("   YAML Refs:      ", counts.yaml_refs));
    lines.push(count_line("   C# Decls:       ", counts.cs_decls));
    lines.push(count_line("   Assets:         ", counts.assets));
    lines.push(count_line("   Entities:       ", counts.entities));
    lines.push(count_line("   Entity Edges:   ", counts.entity_edges));
    lines.push(count_line("   VFS Entries:    ", counts.vfs_entries));
    lines.push(count_line("   VFS Edges:      ", counts.vfs_edges));
    assert(texts(lines@) =~= status_spec(project@, Some(*index)));
    lines
}

/// After a build the report says how many files it has found and where it has put the index.
pub proof fn law_status_reports_the_build(
    project: Seq<char>,
    files: usize,
    index_path: String,
    database: String,
    counts: StatusCounts,
    summary: RebuildSummary,
)
    requires
        files <= i64::MAX,
        summary.mode@ == "full"@,
        summary.discovered == files as i64,
        summary.index_path == index_path,
    ensures
        ({
            let report = status_spec(project, Some(IndexStatus { database, summary: Some(summary), counts }));
            &&& report[3] == "   Mode:     "@ + "full"@
            &&& report[4] == "   Indexed:  "@ + signed_digits(files as int) + " files discovered"@
            &&& report[5] == "   DB Path:  "@ + index_path@
        }),
{
}

} // verus!
