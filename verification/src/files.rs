//! The files of a project: what discovery says of them, which of them each phase takes, and the ids
//! they are stored under.
use crate::lookup::{first_with, key_texts, last_with, positions, TextIndex};
use crate::paths::{name_of, normalized};
use crate::text::same_text;
use vstd::prelude::*;

verus! {

/// The kinds of assets.
#[derive(Clone, Copy, PartialEq, Eq, Structural, Debug)]
pub enum AssetKind {
    Scene,
    Prefab,
    Material,
    Script,
    ScriptableObject,
    YamlAsset,
}

impl AssetKind {
    /// The name of the kind in the index.
    pub open spec fn name(self) -> Seq<char> {
        match self {
            AssetKind::Scene => "scene"@,
            AssetKind::Prefab => "prefab"@,
            AssetKind::Material => "material"@,
            AssetKind::Script => "script"@,
            AssetKind::ScriptableObject => "scriptable_object"@,
            AssetKind::YamlAsset => "yaml-asset"@,
        }
    }

    /// The name of the kind in the index.
    pub fn as_str(&self) -> (r: &'static str)
        ensures
            r@ == self.name(),
    {
        match self {
            AssetKind::Scene => "scene",
            AssetKind::Prefab => "prefab",
            AssetKind::Material => "material",
            AssetKind::Script => "script",
            AssetKind::ScriptableObject => "scriptable_object",
            AssetKind::YamlAsset => "yaml-asset",
        }
    }
}

/// The asset kind with a name; any other name is that of a plain YAML asset.
pub open spec fn kind_named(s: Seq<char>) -> AssetKind {
    if s == "scene"@ {
        AssetKind::Scene
    } else if s == "prefab"@ {
        AssetKind::Prefab
    } else if s == "material"@ {
        AssetKind::Material
    } else if s == "script"@ {
        AssetKind::Script
    } else if s == "scriptable_object"@ {
        AssetKind::ScriptableObject
    } else {
        AssetKind::YamlAsset
    }
}

/// Reads the name of an asset kind.
pub fn parse_asset_kind(s: &str) -> (r: AssetKind)
    ensures
        r == kind_named(s@),
{
    if same_text(s, "scene") {
        AssetKind::Scene
    } else if same_text(s, "prefab") {
        AssetKind::Prefab
    } else if same_text(s, "material") {
        AssetKind::Material
    } else if same_text(s, "script") {
        AssetKind::Script
    } else if same_text(s, "scriptable_object") {
        AssetKind::ScriptableObject
    } else {
        AssetKind::YamlAsset
    }
}

/// The name of an asset kind reads back as that kind.
pub proof fn law_asset_kind_reads_back(kind: AssetKind)
    ensures
        kind_named(kind.name()) == kind,
{
    reveal_strlit("scene");
    reveal_strlit("prefab");
    reveal_strlit("material");
    reveal_strlit("script");
    reveal_strlit("scriptable_object");
    reveal_strlit("yaml-asset");
    assert("scene"@.len() == 5);
    assert("prefab"@.len() == 6);
    assert("material"@.len() == 8);
    assert("script"@.len() == 6);
    assert("scriptable_object"@.len() == 17);
    assert("yaml-asset"@.len() == 10);
    assert("script"@[0] == 's' && "prefab"@[0] == 'p');
}

/// A file that discovery has found.
pub struct DiscoveredFile {
    pub project_rel_path: String,
    pub abs_path: String,
    /// The name of its kind.
    pub kind: String,
    /// Whether its kind is in Unity's YAML format.
    pub unity_yaml: bool,
    /// The kind of asset that it holds, where its kind says so.
    pub asset_kind: Option<AssetKind>,
    pub guid: Option<String>,
    pub size_bytes: u64,
    pub mtime_ms: i64,
    pub content_hash: Option<String>,
    pub importer_type: Option<String>,
}

/// The groups of files that phases go through.
#[derive(Clone, Copy, PartialEq, Eq, Structural, Debug)]
pub enum Group {
    UnityYaml,
    CSharp,
    /// Files with a GUID, apart from the `.meta` files themselves.
    Assets,
}

/// Whether a file belongs to a group.
pub open spec fn belongs(file: DiscoveredFile, group: Group) -> bool {
    match group {
        Group::UnityYaml => file.unity_yaml,
        Group::CSharp => file.kind@ == "csharp"@,
        Group::Assets => file.guid is Some && file.kind@ != "meta"@,
    }
}

impl DiscoveredFile {
    /// Whether the file belongs to a group.
    pub fn is_in(&self, group: Group) -> (r: bool)
        ensures
            r == belongs(*self, group),
    {
        match group {
            Group::UnityYaml => self.unity_yaml,
            Group::CSharp => same_text(self.kind.as_str(), "csharp"),
            Group::Assets => self.guid.is_some() && !same_text(self.kind.as_str(), "meta"),
        }
    }
}

/// The positions of the files of a group, in the order of discovery.
pub open spec fn members(files: Seq<DiscoveredFile>, group: Group) -> Seq<int>
    decreases files.len(),
{
    if files.len() == 0 {
        Seq::empty()
    } else {
        let before = members(files.drop_last(), group);
        if belongs(files.last(), group) {
            before.push(files.len() - 1)
        } else {
            before
        }
    }
}

/// The positions of the files of a group.
pub fn select(files: &Vec<DiscoveredFile>, group: Group) -> (r: Vec<usize>)
    ensures
        positions(r@) == members(files@, group),
{
    let mut out: Vec<usize> = Vec::new();
    let mut i: usize = 0;
    assert(positions(out@) =~= members(files@.take(0), group));
    while i < files.len()
        invariant
            i <= files@.len(),
            positions(out@) == members(files@.take(i as int), group),
        decreases files@.len() - i,
    {
        assert(files@.take(i + 1).drop_last() =~= files@.take(i as int));
        if files[i].is_in(group) {
            let ghost before = positions(out@);
            out.push(i);
            assert(positions(out@) =~= before.push(i as int));
        }
        i = i + 1;
    }
    assert(files@.take(i as int) =~= files@);
    out
}

/// A group holds exactly the files that belong to it, each once and in the order of discovery.
pub proof fn law_members(files: Seq<DiscoveredFile>, group: Group)
    ensures
        forall|i: int|
            #![trigger members(files, group).contains(i)]
            members(files, group).contains(i) <==> 0 <= i < files.len() && belongs(files[i], group),
        forall|a: int, b: int|
            0 <= a < b < members(files, group).len() ==> #[trigger] members(files, group)[a] < #[trigger] members(
                files,
                group,
            )[b],
    decreases files.len(),
{
    let all = members(files, group);
    if files.len() > 0 {
        let init = files.drop_last();
        let before = members(init, group);
        law_members(init, group);
        assert forall|i: int| all.contains(i) <==> 0 <= i < files.len() && belongs(files[i], group) by {
            assert(before.contains(i) <==> 0 <= i < init.len() && belongs(init[i], group));
            if before.contains(i) {
                let k = choose|k: int| 0 <= k < before.len() && before[k] == i;
                assert(all[k] == i);
            }
            if i == files.len() - 1 && belongs(files[i], group) {
                assert(all[all.len() - 1] == i);
            }
            if all.contains(i) {
                let k = choose|k: int| 0 <= k < all.len() && all[k] == i;
                if k < before.len() {
                    assert(before[k] == i);
                }
            }
        }
        assert forall|a: int, b: int| 0 <= a < b < all.len() implies #[trigger] all[a] < #[trigger] all[b] by {
            if b < before.len() {
                assert(before[a] < before[b]);
            } else {
                assert(before.contains(before[a]));
            }
        }
    }
}

/// A stored file.
pub struct FileIdRow {
    pub id: i64,
    pub project_rel_path: String,
}

/// The paths of stored files.
pub open spec fn stored_paths(rows: Seq<FileIdRow>) -> Seq<Option<Seq<char>>> {
    rows.map_values(|r: FileIdRow| Some(r.project_rel_path@))
}

/// The ids of the stored files by path.
pub struct FileIds {
    ids: Vec<i64>,
    index: TextIndex,
}

impl FileIds {
    #[verifier::type_invariant]
    spec fn inv(self) -> bool {
        self.index@.len() == self.ids@.len()
    }

    /// The ids.
    pub closed spec fn ids(self) -> Seq<i64> {
        self.ids@
    }

    /// The paths, in the order of the ids.
    pub closed spec fn paths(self) -> Seq<Option<Seq<char>>> {
        self.index@
    }

    /// The table of the stored files.
    pub fn new(rows: &Vec<FileIdRow>) -> (r: FileIds)
        ensures
            r.ids() == rows@.map_values(|r: FileIdRow| r.id),
            r.paths() == stored_paths(rows@),
    {
        let mut ids: Vec<i64> = Vec::new();
        let mut paths: Vec<Option<String>> = Vec::new();
        let mut i: usize = 0;
        while i < rows.len()
            invariant
                i <= rows@.len(),
                ids@ == rows@.map_values(|r: FileIdRow| r.id).take(i as int),
                key_texts(paths@) == stored_paths(rows@).take(i as int),
            decreases rows@.len() - i,
        {
            let ghost before = key_texts(paths@);
            ids.push(rows[i].id);
            paths.push(Some(rows[i].project_rel_path.clone()));
            assert(key_texts(paths@) =~= before.push(Some(rows@[i as int].project_rel_path@)));
            i = i + 1;
            assert(ids@ =~= rows@.map_values(|r: FileIdRow| r.id).take(i as int));
            assert(key_texts(paths@) =~= stored_paths(rows@).take(i as int));
        }
        assert(ids@ =~= rows@.map_values(|r: FileIdRow| r.id));
        assert(key_texts(paths@) =~= stored_paths(rows@));
        let index = TextIndex::new(&paths);
        FileIds { ids, index }
    }

    /// The id of the last stored file with the path, or 0 where there is none.
    pub fn id_of(&self, path: &str) -> (r: i64)
        ensures
            r == match last_with(self.paths(), path@) {
                Some(i) => self.ids()[i],
                None => 0,
            },
    {
        proof {
            use_type_invariant(self);
            crate::lookup::lemma_last_with(self.index@, path@);
        }
        match self.index.last(path) {
            Some(i) => self.ids[i],
            None => 0,
        }
    }

    /// The id of the first stored file with the path.
    pub fn stored_id(&self, path: &str) -> (r: Option<i64>)
        ensures
            r == match first_with(self.paths(), path@) {
                Some(i) => Some(self.ids()[i]),
                None => None,
            },
    {
        proof {
            use_type_invariant(self);
            crate::lookup::lemma_first_with(self.index@, path@);
        }
        match self.index.first(path) {
            Some(i) => Some(self.ids[i]),
            None => None,
        }
    }
}

/// Where every path is stored once, both lookups give the same id.
pub proof fn law_unique_path_has_one_id(rows: Seq<FileIdRow>, i: int)
    requires
        0 <= i < rows.len(),
        forall|j: int|
            0 <= j < rows.len() && j != i ==> (#[trigger] rows[j]).project_rel_path@ != rows[i].project_rel_path@,
    ensures
        first_with(stored_paths(rows), rows[i].project_rel_path@) == Some(i),
        last_with(stored_paths(rows), rows[i].project_rel_path@) == Some(i),
{
    let paths = stored_paths(rows);
    let path = rows[i].project_rel_path@;
    crate::lookup::lemma_first_with(paths, path);
    crate::lookup::lemma_last_with(paths, path);
    assert(paths[i] == Some(path));
    if let Some(k) = first_with(paths, path) {
        assert(paths[k] == Some(rows[k].project_rel_path@));
    }
    if let Some(k) = last_with(paths, path) {
        assert(paths[k] == Some(rows[k].project_rel_path@));
    }
}

/// The position of the last dot of a name, or -1.
pub open spec fn last_dot(s: Seq<char>) -> int
    decreases s.len(),
{
    if s.len() == 0 {
        -1
    } else if s.last() == '.' {
        s.len() - 1
    } else {
        last_dot(s.drop_last())
    }
}

/// A file name without its extension. A dot at the start does not begin an extension.
pub open spec fn stem(name: Seq<char>) -> Seq<char> {
    if last_dot(name) > 0 {
        name.take(last_dot(name))
    } else {
        name
    }
}

/// Whether a name is that of a file, not of a place in the directory tree.
pub open spec fn is_ordinary(name: Seq<char>) -> bool {
    name.len() > 0 && name != seq!['.'] && name != seq!['.', '.']
}

/// Whether a path is relative, without a drive, and ends in an ordinary file name, on platforms where
/// backslashes separate components and on those where they do not.
pub open spec fn is_plain(path: Seq<char>) -> bool {
    &&& path.len() > 0 && path[0] != '/' && path[0] != '\\'
    &&& path.len() > 1 ==> path[1] != ':'
    &&& is_ordinary(name_of(path))
    &&& is_ordinary(name_of(normalized(path)))
}

/// Whether `s` is the name of the file at a plain path, without its extension. Where the path holds a
/// backslash it is one of two, by the platform.
pub open spec fn is_stem_of(s: Seq<char>, path: Seq<char>) -> bool {
    s == stem(name_of(path)) || s == stem(name_of(normalized(path)))
}

/// Wraps [`std::path::Path::file_stem`]. For a relative path that ends in an ordinary file name and
/// does not begin with a drive such as `C:` it is the name up to its last dot, or the whole name where it has no dot after its first
/// character. Whether a backslash separates components depends on the platform, so that a path with
/// one has two names, of which it is one. Nothing is claimed of other paths: what they end in depends
/// on the platform.
#[verifier::external_body]
fn file_stem(path: &str) -> (r: Option<String>)
    ensures
        is_plain(path@) ==> r is Some && is_stem_of(r->0@, path@),
{
    match std::path::Path::new(path).file_stem() {
        Some(s) => match s.to_str() {
            Some(s) => Some(s.to_owned()),
            None => None,
        },
        None => None,
    }
}

/// An asset to store.
#[derive(Debug, PartialEq, Eq)]
pub struct AssetRow {
    pub id: i64,
    pub file_id: i64,
    pub asset_kind: AssetKind,
    pub guid: String,
    pub name: String,
    pub vfs_root_path: String,
}

/// What an [`AssetRow`] holds.
pub struct AssetView {
    pub id: i64,
    pub file_id: i64,
    pub asset_kind: AssetKind,
    pub guid: Seq<char>,
    pub name: Seq<char>,
    pub vfs_root_path: Seq<char>,
}

impl View for AssetRow {
    type V = AssetView;

    open spec fn view(&self) -> AssetView {
        AssetView {
            id: self.id,
            file_id: self.file_id,
            asset_kind: self.asset_kind,
            guid: self.guid@,
            name: self.name@,
            vfs_root_path: self.vfs_root_path@,
        }
    }
}

/// The asset of a file, under its name.
pub open spec fn asset_of(id: i64, file_id: i64, file: DiscoveredFile, name: Seq<char>) -> AssetView {
    AssetView {
        id,
        file_id,
        asset_kind: match file.asset_kind {
            Some(kind) => kind,
            None => AssetKind::YamlAsset,
        },
        guid: file.guid->0@,
        name,
        vfs_root_path: file.project_rel_path@,
    }
}

/// The asset of a file whose name without extension is `stem`; where it has none it is called
/// `unknown`. Takes an id from the counter.
pub fn named_asset_row(next_id: &mut i64, file_id: i64, file: &DiscoveredFile, stem: Option<String>) -> (r: AssetRow)
    requires
        file.guid is Some,
        *old(next_id) < i64::MAX,
    ensures
        *final(next_id) == *old(next_id) + 1,
        r@ == asset_of(
            *old(next_id),
            file_id,
            *file,
            match stem {
                Some(s) => s@,
                None => "unknown"@,
            },
        ),
{
    let id = *next_id;
    *next_id = id + 1;
    let name = match stem {
        Some(s) => s,
        None => "unknown".to_owned(),
    };
    let guid = match &file.guid {
        Some(guid) => guid.clone(),
        None => String::new(),
    };
    let asset_kind = match file.asset_kind {
        Some(kind) => kind,
        None => AssetKind::YamlAsset,
    };
    AssetRow { id, file_id, asset_kind, guid, name, vfs_root_path: file.project_rel_path.clone() }
}

/// The asset of a file, called by the file's name without extension. Takes an id from the counter.
pub fn asset_row(next_id: &mut i64, file_id: i64, file: &DiscoveredFile) -> (r: AssetRow)
    requires
        file.guid is Some,
        *old(next_id) < i64::MAX,
    ensures
        *final(next_id) == *old(next_id) + 1,
        r@ == asset_of(*old(next_id), file_id, *file, r.name@),
        is_plain(file.project_rel_path@) ==> is_stem_of(r.name@, file.project_rel_path@),
{
    let stem = file_stem(file.project_rel_path.as_str());
    named_asset_row(next_id, file_id, file, stem)
}

/// A plain path written with slashes has one name on every platform.
pub proof fn law_stem_with_slashes(s: Seq<char>, path: Seq<char>)
    requires
        !path.contains('\\'),
    ensures
        is_stem_of(s, path) <==> s == stem(name_of(path)),
        is_plain(path) <==> {
            &&& path.len() > 0 && path[0] != '/'
            &&& path.len() > 1 ==> path[1] != ':'
            &&& is_ordinary(name_of(path))
        },
{
    assert forall|i: int| 0 <= i < path.len() implies #[trigger] path[i] != '\\' by {}
    assert(normalized(path) =~= path);
}

/// The file of every asset has an entry of its own: files that describe other files are no assets.
pub proof fn law_asset_files_have_entries(file: DiscoveredFile)
    requires
        belongs(file, Group::Assets),
    ensures
        file.kind@ != "meta"@,
{
}

} // verus!
