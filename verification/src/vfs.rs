//! The virtual file system: directories, files and the nodes inside them.
//!
//! [`VfsBuilder`] projects the indexed files and entities onto entries with virtual paths.
use crate::paths::{
    components, find_last_slash, is_clean, joined, last_slash, law_clean_path_rejoins, lemma_last_slash, name_of,
    normalize, normalized, parent_of, part_texts, split_components,
};
use crate::text::{join_texts, optional, same_text, text_of};
use vstd::hash_set::StringHashSet;
use vstd::prelude::*;

verus! {

/// File bodies above this size are not stored in the index.
pub const MAX_INDEXED_CONTENT_BYTES: i64 = 262_144;

/// The kinds of files whose body text is stored.
pub open spec fn indexable(kind: Seq<char>) -> bool {
    ||| kind == "scene"@
    ||| kind == "prefab"@
    ||| kind == "csharp"@
    ||| kind == "material"@
    ||| kind == "asset"@
    ||| kind == "yaml-asset"@
    ||| kind == "shader"@
    ||| kind == "shader-include"@
    ||| kind == "asmdef"@
    ||| kind == "asmref"@
}

/// File kinds whose body text is worth indexing.
pub fn is_indexable_text_kind(kind: &str) -> (r: bool)
    ensures
        r == indexable(kind@),
{
    same_text(kind, "scene") || same_text(kind, "prefab") || same_text(kind, "csharp") || same_text(kind, "material")
        || same_text(kind, "asset") || same_text(kind, "yaml-asset") || same_text(kind, "shader") || same_text(
        kind,
        "shader-include",
    ) || same_text(kind, "asmdef") || same_text(kind, "asmref")
}

/// Whether the body of a file is stored: small text files only.
pub open spec fn stores_content(kind: Seq<char>, size_bytes: i64) -> bool {
    indexable(kind) && size_bytes <= MAX_INDEXED_CONTENT_BYTES
}

/// Whether the body of a file is stored: small text files only.
pub fn wants_content(kind: &str, size_bytes: i64) -> (r: bool)
    ensures
        r == stores_content(kind@, size_bytes),
{
    is_indexable_text_kind(kind) && size_bytes <= MAX_INDEXED_CONTENT_BYTES
}

/// The types of entries.
#[derive(Clone, Copy, PartialEq, Eq, Structural, Debug)]
pub enum EntryType {
    Directory,
    File,
    Node,
}

impl EntryType {
    /// The name of the type in the index.
    pub open spec fn name(self) -> Seq<char> {
        match self {
            EntryType::Directory => "directory"@,
            EntryType::File => "file"@,
            EntryType::Node => "node"@,
        }
    }

    /// The name of the type in the index.
    pub fn as_str(&self) -> (r: &'static str)
        ensures
            r@ == self.name(),
    {
        match self {
            EntryType::Directory => "directory",
            EntryType::File => "file",
            EntryType::Node => "node",
        }
    }
}

/// The entry type with a name.
pub open spec fn entry_type_named(s: Seq<char>) -> Option<EntryType> {
    if s == "directory"@ {
        Some(EntryType::Directory)
    } else if s == "file"@ {
        Some(EntryType::File)
    } else if s == "node"@ {
        Some(EntryType::Node)
    } else {
        None
    }
}

/// Reads the name of an entry type.
pub fn parse_entry_type(s: &str) -> (r: Option<EntryType>)
    ensures
        r == entry_type_named(s@),
{
    if same_text(s, "directory") {
        Some(EntryType::Directory)
    } else if same_text(s, "file") {
        Some(EntryType::File)
    } else if same_text(s, "node") {
        Some(EntryType::Node)
    } else {
        None
    }
}

/// The name of an entry type reads back as that type.
pub proof fn law_entry_type_reads_back(entry_type: EntryType)
    ensures
        entry_type_named(entry_type.name()) == Some(entry_type),
{
    reveal_strlit("directory");
    reveal_strlit("file");
    reveal_strlit("node");
    assert("directory"@.len() == 9);
    assert("file"@.len() == 4);
    assert("file"@[0] == 'f' && "node"@[0] == 'n');
}

/// An entry to be stored.
#[derive(Debug, PartialEq, Eq)]
pub struct VfsEntryRow {
    pub project_id: i64,
    pub entry_type: EntryType,
    pub entry_kind: String,
    pub vfs_path: String,
    pub parent_vfs_path: Option<String>,
    pub source_file_id: Option<i64>,
    pub source_entity_id: Option<i64>,
    pub display_name: String,
    pub content: Option<String>,
}

/// What a [`VfsEntryRow`] holds.
pub struct VfsEntryView {
    pub project_id: i64,
    pub entry_type: EntryType,
    pub entry_kind: Seq<char>,
    pub vfs_path: Seq<char>,
    pub parent_vfs_path: Option<Seq<char>>,
    pub source_file_id: Option<i64>,
    pub source_entity_id: Option<i64>,
    pub display_name: Seq<char>,
    pub content: Option<Seq<char>>,
}

impl View for VfsEntryRow {
    type V = VfsEntryView;

    open spec fn view(&self) -> VfsEntryView {
        VfsEntryView {
            project_id: self.project_id,
            entry_type: self.entry_type,
            entry_kind: self.entry_kind@,
            vfs_path: self.vfs_path@,
            parent_vfs_path: optional(self.parent_vfs_path),
            source_file_id: self.source_file_id,
            source_entity_id: self.source_entity_id,
            display_name: self.display_name@,
            content: optional(self.content),
        }
    }
}

/// What a list of rows holds.
pub open spec fn entries(v: Seq<VfsEntryRow>) -> Seq<VfsEntryView> {
    v.map_values(|e: VfsEntryRow| e@)
}

/// A file of the project.
pub struct FileRecord {
    pub id: i64,
    pub project_rel_path: String,
    pub kind: String,
    pub size_bytes: i64,
    /// The body, where it could be read as text.
    pub content: Option<String>,
}

/// An entity of the project.
pub struct NodeRecord {
    pub id: i64,
    pub entity_kind: String,
    pub local_key: String,
    pub name: Option<String>,
    pub class_name: String,
    /// The path of the asset that holds the entity.
    pub vfs_root_path: String,
}

/// The directories above a path, as parts.
pub open spec fn directory_parts(path: Seq<char>) -> Seq<Seq<char>> {
    match parent_of(normalized(path)) {
        Some(dir) => components(dir),
        None => Seq::empty(),
    }
}

/// The entry of the directory with the given parts.
pub open spec fn directory_entry(project_id: i64, parts: Seq<Seq<char>>) -> VfsEntryView {
    VfsEntryView {
        project_id,
        entry_type: EntryType::Directory,
        entry_kind: "directory"@,
        vfs_path: joined(parts),
        parent_vfs_path: if parts.len() <= 1 {
            None
        } else {
            Some(joined(parts.drop_last()))
        },
        source_file_id: None,
        source_entity_id: None,
        display_name: parts.last(),
        content: None,
    }
}

/// The entries of all directories above a path, outermost first.
pub open spec fn directories_above(project_id: i64, path: Seq<char>) -> Seq<VfsEntryView> {
    let parts = directory_parts(path);
    Seq::new(parts.len(), |k: int| directory_entry(project_id, parts.take(k + 1)))
}

/// Whether some entry has the given path.
pub open spec fn has_path(rows: Seq<VfsEntryView>, path: Seq<char>) -> bool {
    exists|i: int| 0 <= i < rows.len() && (#[trigger] rows[i]).vfs_path == path
}

/// Adds those entries whose path is not there yet.
pub open spec fn with_new(rows: Seq<VfsEntryView>, more: Seq<VfsEntryView>) -> Seq<VfsEntryView>
    decreases more.len(),
{
    if more.len() == 0 {
        rows
    } else {
        let before = with_new(rows, more.drop_last());
        if has_path(before, more.last().vfs_path) {
            before
        } else {
            before.push(more.last())
        }
    }
}

/// The directories above all paths, each once, in the order in which they come up.
pub open spec fn directory_rows(project_id: i64, paths: Seq<Seq<char>>) -> Seq<VfsEntryView>
    decreases paths.len(),
{
    if paths.len() == 0 {
        Seq::empty()
    } else {
        with_new(directory_rows(project_id, paths.drop_last()), directories_above(project_id, paths.last()))
    }
}

/// The entry of a file.
pub open spec fn file_entry(project_id: i64, file: FileRecord) -> VfsEntryView {
    let path = normalized(file.project_rel_path@);
    VfsEntryView {
        project_id,
        entry_type: EntryType::File,
        entry_kind: file.kind@,
        vfs_path: path,
        parent_vfs_path: parent_of(path),
        source_file_id: Some(file.id),
        source_entity_id: None,
        display_name: name_of(path),
        content: if stores_content(file.kind@, file.size_bytes) {
            optional(file.content)
        } else {
            None
        },
    }
}

/// The entries of all files, except those that describe other files.
pub open spec fn file_rows(project_id: i64, files: Seq<FileRecord>) -> Seq<VfsEntryView>
    decreases files.len(),
{
    if files.len() == 0 {
        Seq::empty()
    } else {
        let before = file_rows(project_id, files.drop_last());
        if files.last().kind@ == "meta"@ {
            before
        } else {
            before.push(file_entry(project_id, files.last()))
        }
    }
}

/// The entry of an entity: below the file of its asset, under its kind and its key.
pub open spec fn node_entry(project_id: i64, node: NodeRecord) -> VfsEntryView {
    VfsEntryView {
        project_id,
        entry_type: EntryType::Node,
        entry_kind: node.entity_kind@,
        vfs_path: node.vfs_root_path@ + ":/"@ + node.entity_kind@ + "/"@ + node.local_key@,
        parent_vfs_path: Some(node.vfs_root_path@),
        source_file_id: None,
        source_entity_id: Some(node.id),
        display_name: match node.name {
            Some(name) => name@,
            None => node.class_name@,
        },
        content: None,
    }
}

/// The entries of all entities.
pub open spec fn node_rows(project_id: i64, nodes: Seq<NodeRecord>) -> Seq<VfsEntryView> {
    nodes.map_values(|n: NodeRecord| node_entry(project_id, n))
}

/// The paths of files.
pub open spec fn rel_paths(files: Seq<FileRecord>) -> Seq<Seq<char>> {
    files.map_values(|f: FileRecord| f.project_rel_path@)
}

/// Projects the index of a project onto a virtual file system.
pub struct VfsBuilder {
    pub project_id: i64,
}

impl VfsBuilder {
    /// A builder for a project.
    pub fn new(project_id: i64) -> (r: VfsBuilder)
        ensures
            r.project_id == project_id,
    {
        VfsBuilder { project_id }
    }

    /// All entries of the project: directories, then files, then nodes.
    pub fn build(&self, files: Vec<FileRecord>, nodes: &Vec<NodeRecord>) -> (r: Vec<VfsEntryRow>)
        ensures
            entries(r@) == directory_rows(self.project_id, rel_paths(files@)) + file_rows(self.project_id, files@)
                + node_rows(self.project_id, nodes@),
    {
        let ghost all = files@;
        let mut rows = self.build_directory_tree(&files);
        let ghost d = entries(rows@);
        let mut more = self.build_file_entries(files);
        let ghost f = entries(more@);
        rows.append(&mut more);
        assert(entries(rows@) =~= d + f);
        let mut more = self.build_node_entries(nodes);
        let ghost n = entries(more@);
        rows.append(&mut more);
        assert(entries(rows@) =~= d + f + n);
        rows
    }

    /// The entries of the directories above the files.
    pub fn build_directory_tree(&self, files: &Vec<FileRecord>) -> (r: Vec<VfsEntryRow>)
        ensures
            entries(r@) == directory_rows(self.project_id, rel_paths(files@)),
    {
        let mut rows: Vec<VfsEntryRow> = Vec::new();
        let mut seen = StringHashSet::new();
        let ghost paths = rel_paths(files@);
        let mut i: usize = 0;
        assert(paths.take(0) =~= Seq::<Seq<char>>::empty());
        assert(entries(rows@) =~= directory_rows(self.project_id, paths.take(0)));
        while i < files.len()
            invariant
                i <= files@.len(),
                paths == rel_paths(files@),
                entries(rows@) == directory_rows(self.project_id, paths.take(i as int)),
                forall|p: Seq<char>| seen@.contains(p) <==> has_path(entries(rows@), p),
            decreases files@.len() - i,
        {
            let chars = normalize(files[i].project_rel_path.as_str());
            let parts = match find_last_slash(&chars) {
                Some(cut) => {
                    proof {
                        lemma_last_slash(chars@);
                    }
                    split_components(&chars, cut)
                },
                None => Vec::new(),
            };
            let ghost all = directory_parts(paths[i as int]);
            assert(part_texts(parts@) =~= all);
            let ghost start = entries(rows@);
            let ghost more = directories_above(self.project_id, paths[i as int]);
            let mut current = String::new();
            let mut k: usize = 0;
            assert(more.take(0) =~= Seq::<VfsEntryView>::empty());
            assert(all.take(0) =~= Seq::<Seq<char>>::empty());
            while k < parts.len()
                invariant
                    k <= parts@.len(),
                    part_texts(parts@) == all,
                    more == Seq::new(all.len(), |j: int| directory_entry(self.project_id, all.take(j + 1))),
                    current@ == joined(all.take(k as int)),
                    entries(rows@) == with_new(start, more.take(k as int)),
                    forall|p: Seq<char>| seen@.contains(p) <==> has_path(entries(rows@), p),
                decreases parts@.len() - k,
            {
                let part = &parts[k];
                assert(part@ == all[k as int]);
                assert(all.take(k + 1).drop_last() =~= all.take(k as int));
                let parent = current.clone();
                if k == 0 {
                    current = part.clone();
                } else {
                    current.push('/');
                    current.append(part.as_str());
                }
                assert(current@ == joined(all.take(k + 1)));
                assert(more.take(k + 1).drop_last() =~= more.take(k as int));
                let ghost before = entries(rows@);
                if seen.insert(current.clone()) {
                    let row = VfsEntryRow {
                        project_id: self.project_id,
                        entry_type: EntryType::Directory,
                        entry_kind: "directory".to_owned(),
                        vfs_path: current.clone(),
                        parent_vfs_path: if k == 0 { None } else { Some(parent) },
                        source_file_id: None,
                        source_entity_id: None,
                        display_name: part.clone(),
                        content: None,
                    };
                    assert(row@ == more[k as int]);
                    rows.push(row);
                    assert(entries(rows@) =~= before.push(row@));
                    proof {
                        lemma_has_path_push(before, row@);
                    }
                }
                k = k + 1;
            }
            assert(more.take(k as int) =~= more);
            assert(paths.take(i + 1).drop_last() =~= paths.take(i as int));
            i = i + 1;
        }
        assert(paths.take(i as int) =~= paths);
        rows
    }

    /// The entry of one file.
    fn build_file_entry(&self, file: FileRecord) -> (r: VfsEntryRow)
        ensures
            r@ == file_entry(self.project_id, file),
    {
        let chars = normalize(file.project_rel_path.as_str());
        proof {
            lemma_last_slash(chars@);
        }
        let (parent, name) = match find_last_slash(&chars) {
            Some(cut) => {
                let parent = text_of(&chars, 0, cut);
                let name = text_of(&chars, cut + 1, chars.len());
                assert(parent@ =~= chars@.take(cut as int));
                assert(name@ =~= name_of(chars@));
                (Some(parent), name)
            },
            None => {
                let name = text_of(&chars, 0, chars.len());
                assert(name@ =~= name_of(chars@));
                (None, name)
            },
        };
        let content = if wants_content(file.kind.as_str(), file.size_bytes) {
            file.content
        } else {
            None
        };
        let vfs_path = text_of(&chars, 0, chars.len());
        assert(vfs_path@ =~= chars@);
        VfsEntryRow {
            project_id: self.project_id,
            entry_type: EntryType::File,
            entry_kind: file.kind,
            vfs_path,
            parent_vfs_path: parent,
            source_file_id: Some(file.id),
            source_entity_id: None,
            display_name: name,
            content,
        }
    }

    /// The entries of the files.
    pub fn build_file_entries(&self, files: Vec<FileRecord>) -> (r: Vec<VfsEntryRow>)
        ensures
            entries(r@) == file_rows(self.project_id, files@),
    {
        let ghost all = files@;
        let mut rows: Vec<VfsEntryRow> = Vec::new();
        assert(entries(rows@) =~= file_rows(self.project_id, all.take(0)));
        for file in it: files
            invariant
                it.seq() == all,
                entries(rows@) == file_rows(self.project_id, all.take(it.index() as int)),
        {
            assert(all.take(it.index() + 1).drop_last() =~= all.take(it.index() as int));
            if !same_text(file.kind.as_str(), "meta") {
                let ghost before = entries(rows@);
                let row = self.build_file_entry(file);
                rows.push(row);
                assert(entries(rows@) =~= before.push(row@));
            }
        }
        assert(all.take(all.len() as int) =~= all);
        rows
    }

    /// The entries of the entities.
    pub fn build_node_entries(&self, nodes: &Vec<NodeRecord>) -> (r: Vec<VfsEntryRow>)
        ensures
            entries(r@) == node_rows(self.project_id, nodes@),
    {
        let mut rows: Vec<VfsEntryRow> = Vec::new();
        let mut i: usize = 0;
        while i < nodes.len()
            invariant
                i <= nodes@.len(),
                entries(rows@) == node_rows(self.project_id, nodes@.take(i as int)),
            decreases nodes@.len() - i,
        {
            let node = &nodes[i];
            let mut vfs_path = join_texts(node.vfs_root_path.as_str(), ":/");
            vfs_path.append(node.entity_kind.as_str());
            vfs_path.append("/");
            vfs_path.append(node.local_key.as_str());
            let display_name = match &node.name {
                Some(name) => name.clone(),
                None => node.class_name.clone(),
            };
            let row = VfsEntryRow {
                project_id: self.project_id,
                entry_type: EntryType::Node,
                entry_kind: node.entity_kind.clone(),
                vfs_path,
                parent_vfs_path: Some(node.vfs_root_path.clone()),
                source_file_id: None,
                source_entity_id: Some(node.id),
                display_name,
                content: None,
            };
            let ghost before = entries(rows@);
            rows.push(row);
            assert(entries(rows@) =~= before.push(node_entry(self.project_id, *node)));
            assert(node_rows(self.project_id, nodes@.take(i + 1)) =~= before.push(
                node_entry(self.project_id, *node),
            ));
            i = i + 1;
        }
        assert(nodes@.take(i as int) =~= nodes@);
        rows
    }
}

proof fn lemma_has_path_push(rows: Seq<VfsEntryView>, row: VfsEntryView)
    ensures
        forall|p: Seq<char>| has_path(rows.push(row), p) <==> has_path(rows, p) || p == row.vfs_path,
{
    let more = rows.push(row);
    assert forall|p: Seq<char>| has_path(more, p) <==> has_path(rows, p) || p == row.vfs_path by {
        if has_path(rows, p) {
            let i = choose|i: int| 0 <= i < rows.len() && (#[trigger] rows[i]).vfs_path == p;
            assert(more[i].vfs_path == p);
        }
        if p == row.vfs_path {
            assert(more[rows.len() as int].vfs_path == p);
        }
        if has_path(more, p) && p != row.vfs_path {
            let i = choose|i: int| 0 <= i < more.len() && (#[trigger] more[i]).vfs_path == p;
            assert(rows[i].vfs_path == p);
        }
    }
}

/// Whether no two entries have the same path.
pub open spec fn paths_distinct(rows: Seq<VfsEntryView>) -> bool {
    forall|i: int, j: int|
        0 <= i < j < rows.len() ==> (#[trigger] rows[i]).vfs_path != (#[trigger] rows[j]).vfs_path
}

/// Whether every entry with a parent comes after an entry with that path.
pub open spec fn parents_first(rows: Seq<VfsEntryView>) -> bool {
    forall|i: int|
        0 <= i < rows.len() ==> match (#[trigger] rows[i]).parent_vfs_path {
            Some(p) => has_path(rows.take(i), p),
            None => true,
        }
}

/// Every directory is entered once.
pub proof fn law_directories_distinct(project_id: i64, paths: Seq<Seq<char>>)
    ensures
        paths_distinct(directory_rows(project_id, paths)),
    decreases paths.len(),
{
    if paths.len() > 0 {
        law_directories_distinct(project_id, paths.drop_last());
        lemma_with_new_distinct(
            directory_rows(project_id, paths.drop_last()),
            directories_above(project_id, paths.last()),
        );
    }
}

proof fn lemma_with_new_distinct(rows: Seq<VfsEntryView>, more: Seq<VfsEntryView>)
    requires
        paths_distinct(rows),
    ensures
        paths_distinct(with_new(rows, more)),
    decreases more.len(),
{
    if more.len() > 0 {
        lemma_with_new_distinct(rows, more.drop_last());
    }
}

/// A directory inside another one comes after that one, and nothing else has a parent.
pub proof fn law_parent_directories_come_first(project_id: i64, paths: Seq<Seq<char>>)
    ensures
        parents_first(directory_rows(project_id, paths)),
    decreases paths.len(),
{
    if paths.len() > 0 {
        law_parent_directories_come_first(project_id, paths.drop_last());
        let rows = directory_rows(project_id, paths.drop_last());
        let more = directories_above(project_id, paths.last());
        assert(more.take(more.len() as int) =~= more);
        lemma_with_new_parents(project_id, rows, directory_parts(paths.last()), more, more.len());
    }
}

proof fn lemma_with_new_parents(
    project_id: i64,
    rows: Seq<VfsEntryView>,
    parts: Seq<Seq<char>>,
    more: Seq<VfsEntryView>,
    n: nat,
)
    requires
        parents_first(rows),
        more == Seq::new(parts.len(), |k: int| directory_entry(project_id, parts.take(k + 1))),
        n <= more.len(),
    ensures
        parents_first(with_new(rows, more.take(n as int))),
        forall|k: int| 0 <= k < n ==> has_path(with_new(rows, more.take(n as int)), (#[trigger] more[k]).vfs_path),
    decreases n,
{
    if n > 0 {
        let m = (n - 1) as nat;
        lemma_with_new_parents(project_id, rows, parts, more, m);
        assert(more.take(n as int).drop_last() =~= more.take(m as int));
        let before = with_new(rows, more.take(m as int));
        let after = with_new(rows, more.take(n as int));
        let row = more[m as int];
        assert(more.take(n as int).last() == row);
        assert(parts.take(n as int).drop_last() =~= parts.take(m as int));
        if !has_path(before, row.vfs_path) {
            lemma_has_path_push(before, row);
            assert(after == before.push(row));
            if m > 0 {
                assert(row.parent_vfs_path == Some(joined(parts.take(m as int))));
                assert(more[m - 1].vfs_path == joined(parts.take(m as int)));
                assert(has_path(before, more[m - 1].vfs_path));
            }
            assert forall|i: int| 0 <= i < after.len() implies match (#[trigger] after[i]).parent_vfs_path {
                Some(p) => has_path(after.take(i), p),
                None => true,
            } by {
                assert(after.take(before.len() as int) =~= before);
                if i < before.len() {
                    assert(after[i] == before[i]);
                    assert(after.take(i) =~= before.take(i));
                }
            }
        }
    }
}

proof fn lemma_with_new_keeps(rows: Seq<VfsEntryView>, more: Seq<VfsEntryView>, p: Seq<char>)
    requires
        has_path(rows, p),
    ensures
        has_path(with_new(rows, more), p),
    decreases more.len(),
{
    if more.len() > 0 {
        lemma_with_new_keeps(rows, more.drop_last(), p);
        lemma_has_path_push(with_new(rows, more.drop_last()), more.last());
    }
}

proof fn lemma_with_new_adds(rows: Seq<VfsEntryView>, more: Seq<VfsEntryView>, k: int)
    requires
        0 <= k < more.len(),
    ensures
        has_path(with_new(rows, more), more[k].vfs_path),
    decreases more.len(),
{
    let before = with_new(rows, more.drop_last());
    lemma_has_path_push(before, more.last());
    if k < more.len() - 1 {
        lemma_with_new_adds(rows, more.drop_last(), k);
        assert(more.drop_last()[k] == more[k]);
    }
}

/// The directory that holds a file is among the directories, so that the file is not left hanging:
/// for every path whose directory has only non-empty parts.
pub proof fn law_files_have_their_directory(project_id: i64, paths: Seq<Seq<char>>, i: int)
    requires
        0 <= i < paths.len(),
        parent_of(normalized(paths[i])) is Some,
        is_clean(parent_of(normalized(paths[i]))->0),
    ensures
        has_path(directory_rows(project_id, paths), parent_of(normalized(paths[i]))->0),
    decreases paths.len(),
{
    let dir = parent_of(normalized(paths[i]))->0;
    let rows = directory_rows(project_id, paths.drop_last());
    let more = directories_above(project_id, paths.last());
    if i < paths.len() - 1 {
        assert(paths.drop_last()[i] == paths[i]);
        law_files_have_their_directory(project_id, paths.drop_last(), i);
        lemma_with_new_keeps(rows, more, dir);
    } else {
        let parts = components(dir);
        law_clean_path_rejoins(dir);
        let k = parts.len() - 1;
        assert(parts.take(k + 1) =~= parts);
        lemma_with_new_adds(rows, more, k);
    }
}

/// Every file has an entry, apart from those that describe other files.
pub proof fn law_files_have_entries(project_id: i64, files: Seq<FileRecord>, i: int)
    requires
        0 <= i < files.len(),
        files[i].kind@ != "meta"@,
    ensures
        file_rows(project_id, files).contains(file_entry(project_id, files[i])),
    decreases files.len(),
{
    let rows = file_rows(project_id, files);
    let init = files.drop_last();
    let before = file_rows(project_id, init);
    if i < init.len() {
        assert(init[i] == files[i]);
        law_files_have_entries(project_id, init, i);
        let k = choose|k: int| 0 <= k < before.len() && before[k] == file_entry(project_id, files[i]);
        assert(rows[k] == file_entry(project_id, files[i]));
    } else {
        assert(rows[rows.len() - 1] == file_entry(project_id, files[i]));
    }
}

/// The path of a file consists of the path of its directory, a slash and its name; without a
/// directory it is the name.
pub proof fn law_file_path_splits(project_id: i64, file: FileRecord)
    ensures
        match file_entry(project_id, file).parent_vfs_path {
            Some(dir) => file_entry(project_id, file).vfs_path == dir.push('/') + file_entry(
                project_id,
                file,
            ).display_name,
            None => file_entry(project_id, file).vfs_path == file_entry(project_id, file).display_name,
        },
        !file_entry(project_id, file).display_name.contains('/'),
{
    let path = normalized(file.project_rel_path@);
    lemma_last_slash(path);
    if last_slash(path) >= 0 {
        assert(path =~= path.take(last_slash(path)).push('/') + name_of(path));
    } else {
        assert(path =~= name_of(path));
    }
    assert forall|j: int| 0 <= j < name_of(path).len() implies name_of(path)[j] != '/' by {
        assert(name_of(path)[j] == path[last_slash(path) + 1 + j]);
    }
}

/// The entries of the entities of an asset lie directly below the entry of the asset's file, where its
/// path is written with slashes.
pub proof fn law_nodes_lie_below_their_file(project_id: i64, file: FileRecord, node: NodeRecord)
    requires
        node.vfs_root_path@ == file.project_rel_path@,
        !file.project_rel_path@.contains('\\'),
    ensures
        node_entry(project_id, node).parent_vfs_path == Some(file_entry(project_id, file).vfs_path),
        node_entry(project_id, node).vfs_path == file_entry(project_id, file).vfs_path + ":/"@ + node.entity_kind@
            + "/"@ + node.local_key@,
{
    let path = file.project_rel_path@;
    assert forall|i: int| 0 <= i < path.len() implies #[trigger] path[i] != '\\' by {}
    assert(normalized(path) =~= path);
}

} // verus!
