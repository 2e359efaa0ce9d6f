//! What the `index` commands ask for and report, line by line.
use crate::command::{default_below, status_spec, str_texts, task_of, texts, IndexAction, IndexStatus, IndexTask};
use crate::numeral_rules::{is_numeral, law_signed_numeral_reads_back, value};
use crate::text::signed_digits;
use vstd::prelude::*;

verus! {

/// A build takes its project, its place and its choice of packages from the command line, whatever they
/// are. A sync is a build of its project into the default place, with packages; a status request reports
/// on its project.
pub proof fn law_every_command_has_its_task<P>(action: IndexAction<P>)
    ensures
        match action {
            IndexAction::Build { project, output, packages } => match task_of(action) {
                IndexTask::Build { project: p, output: o, include_packages: k } => p == project && o == output && k
                    == packages,
                IndexTask::Status { .. } => false,
            },
            IndexAction::Sync { project } => match task_of(action) {
                IndexTask::Build { project: p, output: o, include_packages: k } => p == project && o is None && k,
                IndexTask::Status { .. } => false,
            },
            IndexAction::Status { project } => match task_of(action) {
                IndexTask::Build { .. } => false,
                IndexTask::Status { project: p } => p == project,
            },
        },
{
}

/// The default place is the file `index.db` in the directory `.unityassetdb` of the project.
pub proof fn law_default_place()
    ensures
        default_below().len() == 2,
        default_below()[0] == ".unityassetdb"@,
        default_below()[1] == "index.db"@,
{
}

/// Lists of texts stand in their order, none left out.
pub proof fn law_texts_stand_in_order(lines: Seq<String>, parts: Seq<&'static str>)
    ensures
        texts(lines).len() == lines.len(),
        forall|i: int| 0 <= i < lines.len() ==> #[trigger] texts(lines)[i] == lines[i]@,
        str_texts(parts).len() == parts.len(),
        forall|i: int| 0 <= i < parts.len() ==> #[trigger] str_texts(parts)[i] == parts[i]@,
{
}

/// Whether a line is a label and a count, in decimal.
pub open spec fn is_count(line: Seq<char>, label: Seq<char>, count: int) -> bool {
    &&& line.len() > label.len()
    &&& line.take(label.len() as int) == label
    &&& count >= 0 ==> is_numeral(line.skip(label.len() as int)) && value(line.skip(label.len() as int)) == count
    &&& count < 0 ==> {
        &&& line[label.len() as int] == '-'
        &&& is_numeral(line.skip(label.len() as int + 1))
        &&& value(line.skip(label.len() as int + 1)) == -count
    }
}

proof fn lemma_count(label: Seq<char>, count: int)
    ensures
        is_count(label + signed_digits(count), label, count),
{
    let line = label + signed_digits(count);
    let n = label.len() as int;
    law_signed_numeral_reads_back(count);
    assert(line.take(n) =~= label);
    assert(line.skip(n) =~= signed_digits(count));
    if count < 0 {
        assert(line.skip(n + 1) =~= signed_digits(count).skip(1));
    }
}

/// The report on an index begins with the project and the place of the database.
pub proof fn law_report_names_project_and_database(project: Seq<char>, index: IndexStatus)
    ensures
        ({
            let report = status_spec(project, Some(index));
            &&& report.len() == if index.summary is Some {
                16int
            } else {
                13int
            }
            &&& report[0] == "📊 UnityAssetDB Index Status"@
            &&& report[1] == "   Project:  "@ + project
            &&& report[2] == "   Database: "@ + index.database@
        }),
{
}

/// Where the last build has recorded something about itself, the report gives its mode, the number of
/// files that it has found, and the place of its index.
pub proof fn law_report_tells_of_the_last_build(project: Seq<char>, index: IndexStatus)
    requires
        index.summary is Some,
    ensures
        ({
            let report = status_spec(project, Some(index));
            let summary = index.summary->0;
            let cut = report[4].len() - " files discovered"@.len();
            &&& report[3] == "   Mode:     "@ + summary.mode@
            &&& cut > 0
            &&& is_count(report[4].take(cut), "   Indexed:  "@, summary.discovered as int)
            &&& report[4].skip(cut) == " files discovered"@
            &&& report[5] == "   DB Path:  "@ + summary.index_path@
        }),
{
    let report = status_spec(project, Some(index));
    let summary = index.summary->0;
    let head = "   Indexed:  "@ + signed_digits(summary.discovered as int);
    lemma_count("   Indexed:  "@, summary.discovered as int);
    assert(report[4] == head + " files discovered"@);
    let cut = report[4].len() - " files discovered"@.len();
    assert(report[4].take(cut) =~= head);
    assert(report[4].skip(cut) =~= " files discovered"@);
}

/// The report ends with an empty line and nine counts, each under its own label.
pub proof fn law_report_ends_with_the_counts(project: Seq<char>, index: IndexStatus)
    ensures
        ({
            let report = status_spec(project, Some(index));
            let n = report.len() - 10;
            let counts = index.counts;
            &&& n >= 3
            &&& report[n].len() == 0
            &&& is_count(report[n + 1], "   Files:          "@, counts.files as int)
            &&& is_count(report[n + 2], "   YAML Objects:   "@, counts.yaml_objects as int)
            &&& is_count(report[n + 3], "   YAML Refs:      "@, counts.yaml_refs as int)
            &&& is_count(report[n + 4], "   C# Decls:       "@, counts.cs_decls as int)
            &&& is_count(report[n + 5], "   Assets:         "@, counts.assets as int)
            &&& is_count(report[n + 6], "   Entities:       "@, counts.entities as int)
            &&& is_count(report[n + 7], "   Entity Edges:   "@, counts.entity_edges as int)
            &&& is_count(report[n + 8], "   VFS Entries:    "@, counts.vfs_entries as int)
            &&& is_count(report[n + 9], "   VFS Edges:      "@, counts.vfs_edges as int)
        }),
{
    let counts = index.counts;
    lemma_count("   Files:          "@, counts.files as int);
    lemma_count("   YAML Objects:   "@, counts.yaml_objects as int);
    lemma_count("   YAML Refs:      "@, counts.yaml_refs as int);
    lemma_count("   C# Decls:       "@, counts.cs_decls as int);
    lemma_count("   Assets:         "@, counts.assets as int);
    lemma_count("   Entities:       "@, counts.entities as int);
    lemma_count("   Entity Edges:   "@, counts.entity_edges as int);
    lemma_count("   VFS Entries:    "@, counts.vfs_entries as int);
    lemma_count("   VFS Edges:      "@, counts.vfs_edges as int);
}

/// The report on a project without an index names the project, and the command that would build one.
pub proof fn law_report_without_an_index(project: Seq<char>)
    ensures
        ({
            let report = status_spec(project, None);
            &&& report.len() == 2
            &&& report[0] == "❌ No index found for project: "@ + project
            &&& report[1] == "   Run `unityassetdb index build "@ + project + "` to create one."@
        }),
{
}

} // verus!
