//! The rows that a build stores, said of what was extracted.
//!
//! Every rule here speaks of the fields of an input and of the row made from it.
use crate::files::{
    asset_of, is_plain, is_stem_of, kind_named, last_dot, law_stem_with_slashes, members, stem, stored_paths,
    AssetKind, DiscoveredFile, FileIdRow, FileIds, Group,
};
use crate::graph::{
    edge_rows_of, ends_of, entity_id, entity_rows_of, leads_out, local_keys, row_keys, Entity, EntityEdge, EntityRow,
};
use crate::ledger::{file_id_of, stored_id_of};
use crate::lookup::{first_with, last_with, lemma_first_with, lemma_last_with};
use crate::paths::{lemma_last_slash_is, name_of};
use crate::rows::{
    by_file, law_by_file, mention_rows_of, numbered, object_id, object_keys, reference_rows_of, simple_names,
    symbols_of, CsDeclaration, CsMention, Row, StoredDeclaration, StoredObject, YamlReference,
};
use vstd::prelude::*;

verus! {

/// The files that are read as Unity YAML are those that are in Unity's YAML format, whatever the name of
/// their kind; they come in the order of discovery, each once.
pub proof fn law_unity_yaml_files(files: Seq<DiscoveredFile>)
    ensures
        ({
            let chosen = members(files, Group::UnityYaml);
            &&& forall|i: int| 0 <= i < files.len() && (#[trigger] files[i]).unity_yaml ==> chosen.contains(i)
            &&& forall|k: int|
                0 <= k < chosen.len() ==> 0 <= #[trigger] chosen[k] < files.len() && files[chosen[k]].unity_yaml
            &&& forall|a: int, b: int| 0 <= a < b < chosen.len() ==> #[trigger] chosen[a] < #[trigger] chosen[b]
        }),
{
    lemma_chosen(files, Group::UnityYaml);
    let chosen = members(files, Group::UnityYaml);
    assert forall|i: int| 0 <= i < files.len() && (#[trigger] files[i]).unity_yaml implies chosen.contains(i) by {
        assert(crate::files::belongs(files[i], Group::UnityYaml));
    }
}

/// The files that are read as C# are those of kind `csharp`, in the order of discovery, each once.
pub proof fn law_csharp_files(files: Seq<DiscoveredFile>)
    ensures
        ({
            let chosen = members(files, Group::CSharp);
            &&& forall|i: int| 0 <= i < files.len() && (#[trigger] files[i]).kind@ == "csharp"@ ==> chosen.contains(i)
            &&& forall|k: int|
                0 <= k < chosen.len() ==> 0 <= #[trigger] chosen[k] < files.len() && files[chosen[k]].kind@
                    == "csharp"@
            &&& forall|a: int, b: int| 0 <= a < b < chosen.len() ==> #[trigger] chosen[a] < #[trigger] chosen[b]
        }),
{
    lemma_chosen(files, Group::CSharp);
    let chosen = members(files, Group::CSharp);
    assert forall|i: int| 0 <= i < files.len() && (#[trigger] files[i]).kind@ == "csharp"@ implies chosen.contains(i) by {
        assert(crate::files::belongs(files[i], Group::CSharp));
    }
}

/// The assets are the files with a GUID, apart from those of kind `meta`, in the order of discovery, each
/// once.
pub proof fn law_asset_files(files: Seq<DiscoveredFile>)
    ensures
        ({
            let chosen = members(files, Group::Assets);
            &&& forall|i: int|
                0 <= i < files.len() && (#[trigger] files[i]).guid is Some && files[i].kind@ != "meta"@
                    ==> chosen.contains(i)
            &&& forall|k: int|
                0 <= k < chosen.len() ==> 0 <= #[trigger] chosen[k] < files.len() && files[chosen[k]].guid is Some
                    && files[chosen[k]].kind@ != "meta"@
            &&& forall|a: int, b: int| 0 <= a < b < chosen.len() ==> #[trigger] chosen[a] < #[trigger] chosen[b]
        }),
{
    lemma_chosen(files, Group::Assets);
    let chosen = members(files, Group::Assets);
    assert forall|i: int|
        0 <= i < files.len() && (#[trigger] files[i]).guid is Some && files[i].kind@
            != "meta"@ implies chosen.contains(i) by {
        assert(crate::files::belongs(files[i], Group::Assets));
    }
}

proof fn lemma_chosen(files: Seq<DiscoveredFile>, group: Group)
    ensures
        ({
            let chosen = members(files, group);
            &&& forall|i: int|
                0 <= i < files.len() && #[trigger] crate::files::belongs(files[i], group) ==> chosen.contains(i)
            &&& forall|k: int|
                0 <= k < chosen.len() ==> 0 <= #[trigger] chosen[k] < files.len() && crate::files::belongs(
                    files[chosen[k]],
                    group,
                )
            &&& forall|a: int, b: int| 0 <= a < b < chosen.len() ==> #[trigger] chosen[a] < #[trigger] chosen[b]
        }),
{
    crate::files::law_members(files, group);
    let chosen = members(files, group);
    assert forall|k: int| 0 <= k < chosen.len() implies 0 <= #[trigger] chosen[k] < files.len()
        && crate::files::belongs(files[chosen[k]], group) by {
        assert(chosen.contains(chosen[k]));
    }
}

/// The kinds of assets by their names.
pub proof fn law_kinds_by_name()
    ensures
        kind_named("scene"@) == AssetKind::Scene,
        kind_named("prefab"@) == AssetKind::Prefab,
        kind_named("material"@) == AssetKind::Material,
        kind_named("script"@) == AssetKind::Script,
        kind_named("scriptable_object"@) == AssetKind::ScriptableObject,
        kind_named("yaml-asset"@) == AssetKind::YamlAsset,
{
    crate::files::law_asset_kind_reads_back(AssetKind::Scene);
    crate::files::law_asset_kind_reads_back(AssetKind::Prefab);
    crate::files::law_asset_kind_reads_back(AssetKind::Material);
    crate::files::law_asset_kind_reads_back(AssetKind::Script);
    crate::files::law_asset_kind_reads_back(AssetKind::ScriptableObject);
    crate::files::law_asset_kind_reads_back(AssetKind::YamlAsset);
}

/// Any other name is that of a plain YAML asset.
pub proof fn law_other_kinds_are_yaml_assets(s: Seq<char>)
    requires
        s != "scene"@,
        s != "prefab"@,
        s != "material"@,
        s != "script"@,
        s != "scriptable_object"@,
    ensures
        kind_named(s) == AssetKind::YamlAsset,
{
}

/// An asset has the GUID and the path of its file, and its kind where that is known: it is a plain YAML
/// asset otherwise.
pub proof fn law_asset_describes_its_file(id: i64, file_id: i64, file: DiscoveredFile, name: Seq<char>)
    requires
        file.guid is Some,
    ensures
        asset_of(id, file_id, file, name).id == id,
        asset_of(id, file_id, file, name).file_id == file_id,
        asset_of(id, file_id, file, name).name == name,
        file.guid == Some(file.guid->0) && asset_of(id, file_id, file, name).guid == file.guid->0@,
        asset_of(id, file_id, file, name).vfs_root_path == file.project_rel_path@,
        file.asset_kind is Some ==> Some(asset_of(id, file_id, file, name).asset_kind) == file.asset_kind,
        file.asset_kind is None ==> asset_of(id, file_id, file, name).asset_kind == AssetKind::YamlAsset,
{
}

/// A file name is its stem, or its stem, a dot and an extension without dots. The stem is never empty, and
/// a dot behind the first character always begins an extension.
pub proof fn law_stem_and_extension(name: Seq<char>)
    requires
        name.len() > 0,
    ensures
        stem(name).len() > 0,
        stem(name) == name || exists|extension: Seq<char>|
            name == stem(name).push('.') + extension && !#[trigger] extension.contains('.'),
        stem(name) == name ==> forall|i: int| 0 < i < name.len() ==> name[i] != '.',
{
    lemma_last_dot(name);
    let d = last_dot(name);
    if d > 0 {
        let extension = name.skip(d + 1);
        assert(name =~= stem(name).push('.') + extension);
        assert forall|i: int| 0 <= i < extension.len() implies #[trigger] extension[i] != '.' by {
            assert(extension[i] == name[d + 1 + i]);
        }
        assert(!extension.contains('.'));
        assert(stem(name).len() != name.len());
    }
}

proof fn lemma_last_dot(s: Seq<char>)
    ensures
        -1 <= last_dot(s) < s.len(),
        last_dot(s) >= 0 ==> s[last_dot(s)] == '.',
        forall|i: int| last_dot(s) < i < s.len() ==> s[i] != '.',
    decreases s.len(),
{
    if s.len() > 0 && s.last() != '.' {
        let init = s.drop_last();
        lemma_last_dot(init);
        assert forall|i: int| last_dot(s) < i < s.len() implies s[i] != '.' by {
            if i < init.len() {
                assert(init[i] == s[i]);
            }
        }
        if last_dot(s) >= 0 {
            assert(init[last_dot(s)] == s[last_dot(s)]);
        }
    }
}

/// An asset is called by the last part of its file's path, up to the last dot behind its first character:
/// for every relative path with slashes that has no drive and does not end in a slash, in `.` or in `..`.
pub proof fn law_asset_is_called_by_its_file(path: Seq<char>, k: int, s: Seq<char>)
    requires
        !path.contains('\\'),
        0 <= k <= path.len(),
        k == 0 || path[k - 1] == '/',
        forall|i: int| k <= i < path.len() ==> path[i] != '/',
    ensures
        is_plain(path) <==> {
            &&& k < path.len()
            &&& path[0] != '/'
            &&& path.len() > 1 ==> path[1] != ':'
            &&& !(path.len() == k + 1 && path[k] == '.')
            &&& !(path.len() == k + 2 && path[k] == '.' && path[k + 1] == '.')
        },
        is_plain(path) && is_stem_of(s, path) ==> {
            &&& s.len() > 0
            &&& s == path.skip(k) || exists|extension: Seq<char>|
                path.skip(k) == s.push('.') + extension && !#[trigger] extension.contains('.')
            &&& s == path.skip(k) ==> forall|i: int| k < i < path.len() ==> path[i] != '.'
        },
{
    let name = path.skip(k);
    law_stem_with_slashes(s, path);
    lemma_last_slash_is(path, k - 1);
    assert(name_of(path) =~= name);
    if name.len() == 1 && name[0] == '.' {
        assert(name =~= seq!['.']);
    }
    if name.len() == 2 && name[0] == '.' && name[1] == '.' {
        assert(name =~= seq!['.', '.']);
    }
    if name.len() > 0 {
        law_stem_and_extension(name);
        if is_stem_of(s, path) && s == name {
            assert forall|i: int| k < i < path.len() implies path[i] != '.' by {
                assert(name[i - k] == path[i]);
            }
        }
    }
}

/// Rows of a file are stored under the id of the last stored file with its path.
pub proof fn law_last_stored_file_counts(files: FileIds, rows: Seq<FileIdRow>, i: int)
    requires
        files.ids() == rows.map_values(|r: FileIdRow| r.id),
        files.paths() == stored_paths(rows),
        0 <= i < rows.len(),
        forall|j: int| i < j < rows.len() ==> (#[trigger] rows[j]).project_rel_path@ != rows[i].project_rel_path@,
    ensures
        file_id_of(files, rows[i].project_rel_path@) == rows[i].id,
{
    let path = rows[i].project_rel_path@;
    let keys = stored_paths(rows);
    lemma_last_with(keys, path);
    assert(keys[i] == Some(path));
    if let Some(k) = last_with(keys, path) {
        assert(keys[k] == Some(rows[k].project_rel_path@));
    }
}

/// The asset of a file is stored under the id of the first stored file with its path.
pub proof fn law_first_stored_file_counts(files: FileIds, rows: Seq<FileIdRow>, i: int)
    requires
        files.ids() == rows.map_values(|r: FileIdRow| r.id),
        files.paths() == stored_paths(rows),
        0 <= i < rows.len(),
        forall|j: int| 0 <= j < i ==> (#[trigger] rows[j]).project_rel_path@ != rows[i].project_rel_path@,
    ensures
        stored_id_of(files, rows[i].project_rel_path@) == Some(rows[i].id),
{
    let path = rows[i].project_rel_path@;
    let keys = stored_paths(rows);
    lemma_first_with(keys, path);
    assert(keys[i] == Some(path));
    if let Some(k) = first_with(keys, path) {
        assert(keys[k] == Some(rows[k].project_rel_path@));
    }
}

/// A path that is not stored has the id 0, and no asset can be stored under it.
pub proof fn law_unstored_path(files: FileIds, rows: Seq<FileIdRow>, path: Seq<char>)
    requires
        files.ids() == rows.map_values(|r: FileIdRow| r.id),
        files.paths() == stored_paths(rows),
        forall|j: int| 0 <= j < rows.len() ==> (#[trigger] rows[j]).project_rel_path@ != path,
    ensures
        file_id_of(files, path) == 0,
        stored_id_of(files, path) is None,
{
    let keys = stored_paths(rows);
    lemma_last_with(keys, path);
    lemma_first_with(keys, path);
    if let Some(k) = last_with(keys, path) {
        assert(keys[k] == Some(rows[k].project_rel_path@));
    }
    if let Some(k) = first_with(keys, path) {
        assert(keys[k] == Some(rows[k].project_rel_path@));
    }
}

/// Every item gets one row, in its order and under the id of its file, and ids go up by one.
pub proof fn law_rows_keep_items<T>(first_id: int, file_id: i64, items: Seq<T>, i: int)
    requires
        i64::MIN <= first_id,
        first_id + items.len() <= i64::MAX,
        0 <= i < items.len(),
    ensures
        numbered(first_id, file_id, items).len() == items.len(),
        numbered(first_id, file_id, items)[i].item == items[i],
        numbered(first_id, file_id, items)[i].file_id == file_id,
        numbered(first_id, file_id, items)[i].id == first_id + i,
{
}

proof fn lemma_object_id(objects: Seq<StoredObject>, key: Seq<char>)
    ensures
        match object_id(objects, Some(key)) {
            Some(id) => exists|k: int|
                0 <= k < objects.len() && (#[trigger] objects[k]).local_identifier@ == key && objects[k].id == id
                    && forall|j: int| 0 <= j < k ==> (#[trigger] objects[j]).local_identifier@ != key,
            None => forall|k: int| 0 <= k < objects.len() ==> (#[trigger] objects[k]).local_identifier@ != key,
        },
{
    let keys = object_keys(objects);
    lemma_first_with(keys, key);
    match first_with(keys, key) {
        Some(k) => {
            assert(keys[k] == Some(objects[k].local_identifier@));
            assert forall|j: int| 0 <= j < k implies (#[trigger] objects[j]).local_identifier@ != key by {
                assert(keys[j] == Some(objects[j].local_identifier@));
            }
        },
        None => {
            assert forall|k: int| 0 <= k < objects.len() implies (#[trigger] objects[k]).local_identifier@ != key by {
                assert(keys[k] == Some(objects[k].local_identifier@));
            }
        },
    }
}

/// Every reference gets one row, in its order and under the id of its file, and ids go up by one.
pub proof fn law_references_are_kept(
    first_id: int,
    file_id: i64,
    objects: Seq<StoredObject>,
    references: Seq<YamlReference>,
    i: int,
)
    requires
        i64::MIN <= first_id,
        first_id + references.len() <= i64::MAX,
        0 <= i < references.len(),
    ensures
        reference_rows_of(first_id, file_id, objects, references).len() == references.len(),
        reference_rows_of(first_id, file_id, objects, references)[i].id == first_id + i,
        reference_rows_of(first_id, file_id, objects, references)[i].file_id == file_id,
        reference_rows_of(first_id, file_id, objects, references)[i].reference == references[i],
{
}

/// A reference stands in the first object of its file with the identifier that it gives, whatever else it
/// says; it stands in none only where it gives no identifier, or one that no object has.
pub proof fn law_reference_stands_in_its_object(
    first_id: int,
    file_id: i64,
    objects: Seq<StoredObject>,
    references: Seq<YamlReference>,
    i: int,
    k: int,
)
    requires
        0 <= i < references.len(),
    ensures
        ({
            let found = reference_rows_of(first_id, file_id, objects, references)[i].source_yaml_object_id;
            match references[i].source_local_identifier {
                Some(key) => {
                    &&& 0 <= k < objects.len() && objects[k].local_identifier@ == key@ && (forall|j: int|
                        0 <= j < k ==> (#[trigger] objects[j]).local_identifier@ != key@) ==> found == Some(
                        objects[k].id,
                    )
                    &&& (forall|j: int| 0 <= j < objects.len() ==> (#[trigger] objects[j]).local_identifier@ != key@)
                        ==> found is None
                },
                None => found is None,
            }
        }),
{
    if let Some(key) = references[i].source_local_identifier {
        lemma_object_id(objects, key@);
    }
}

/// Every mention gets one row, in its order and under the id of its file, and ids go up by one.
pub proof fn law_mentions_are_kept(
    first_id: int,
    file_id: i64,
    declarations: Seq<Row<CsDeclaration>>,
    mentions: Seq<CsMention>,
    i: int,
)
    requires
        i64::MIN <= first_id,
        first_id + mentions.len() <= i64::MAX,
        0 <= i < mentions.len(),
    ensures
        mention_rows_of(first_id, file_id, declarations, mentions).len() == mentions.len(),
        mention_rows_of(first_id, file_id, declarations, mentions)[i].id == first_id + i,
        mention_rows_of(first_id, file_id, declarations, mentions)[i].file_id == file_id,
        mention_rows_of(first_id, file_id, declarations, mentions)[i].mention == mentions[i],
{
}

/// A mention stands in the first declaration of its file with the name that it gives, whatever its kind,
/// its text and its receiver; it stands in none only where it gives no name, or one that no declaration
/// has.
pub proof fn law_mention_stands_in_its_declaration(
    first_id: int,
    file_id: i64,
    declarations: Seq<Row<CsDeclaration>>,
    mentions: Seq<CsMention>,
    i: int,
    k: int,
)
    requires
        0 <= i < mentions.len(),
    ensures
        ({
            let found = mention_rows_of(first_id, file_id, declarations, mentions)[i].containing_declaration_id;
            match mentions[i].containing_declaration {
                Some(name) => {
                    &&& 0 <= k < declarations.len() && declarations[k].item.simple_name@ == name@ && (forall|j: int|
                        0 <= j < k ==> (#[trigger] declarations[j]).item.simple_name@ != name@) ==> found == Some(
                        declarations[k].id,
                    )
                    &&& (forall|j: int|
                        0 <= j < declarations.len() ==> (#[trigger] declarations[j]).item.simple_name@ != name@)
                        ==> found is None
                },
                None => found is None,
            }
        }),
{
    if let Some(name) = mentions[i].containing_declaration {
        let keys = simple_names(declarations);
        lemma_first_with(keys, name@);
        assert forall|j: int| 0 <= j < declarations.len() implies keys[j] == Some(
            (#[trigger] declarations[j]).item.simple_name@,
        ) by {}
        if let Some(d) = first_with(keys, name@) {
            assert(keys[d] == Some(declarations[d].item.simple_name@));
            if 0 <= k < d && k < declarations.len() {
                assert(keys[k] == Some(declarations[k].item.simple_name@));
            }
        } else if 0 <= k < declarations.len() {
            assert(keys[k] == Some(declarations[k].item.simple_name@));
        }
    }
}

/// Every declaration has a symbol, and the symbol repeats it: file, kind, names and lines, with the simple
/// name as the name to show.
pub proof fn law_every_declaration_has_a_symbol(first_id: int, declarations: Seq<StoredDeclaration>, i: int)
    requires
        0 <= i < declarations.len(),
    ensures
        symbols_of(first_id, by_file(declarations)).len() == declarations.len(),
        exists|k: int|
            0 <= k < declarations.len() && {
                let s = #[trigger] symbols_of(first_id, by_file(declarations))[k];
                &&& s.declaration_id == declarations[i].id
                &&& s.file_id == declarations[i].file_id
                &&& s.symbol_kind == declarations[i].decl_kind@
                &&& s.simple_name == declarations[i].simple_name@
                &&& s.qualified_name == declarations[i].qualified_name@
                &&& s.display_name == declarations[i].simple_name@
                &&& s.line_start == declarations[i].line_start
                &&& s.line_end == declarations[i].line_end
            },
{
    broadcast use vstd::seq_lib::group_to_multiset_ensures;

    law_by_file(declarations);
    let ordered = by_file(declarations);
    assert(declarations.contains(declarations[i]));
    assert(declarations.to_multiset().count(declarations[i]) > 0);
    assert(ordered.contains(declarations[i]));
    let k = choose|k: int| 0 <= k < ordered.len() && ordered[k] == declarations[i];
    assert(symbols_of(first_id, ordered)[k].declaration_id == declarations[i].id);
}

/// Every entity gets one row of its asset, in its order, and ids go up by one.
pub proof fn law_entities_are_kept(
    first_id: int,
    asset_id: i64,
    objects: Seq<StoredObject>,
    entities: Seq<Entity>,
    i: int,
)
    requires
        i64::MIN <= first_id,
        first_id + entities.len() <= i64::MAX,
        0 <= i < entities.len(),
    ensures
        entity_rows_of(first_id, asset_id, objects, entities).len() == entities.len(),
        entity_rows_of(first_id, asset_id, objects, entities)[i].id == first_id + i,
        entity_rows_of(first_id, asset_id, objects, entities)[i].asset_id == asset_id,
        entity_rows_of(first_id, asset_id, objects, entities)[i].entity == entities[i],
{
}

/// An entity keeps the object that it is known to come from. An entity of whatever kind without one comes
/// from the first object of the asset's file whose identifier is the entity's key, and from none only
/// where no object has it.
pub proof fn law_entity_comes_from_its_object(
    first_id: int,
    asset_id: i64,
    objects: Seq<StoredObject>,
    entities: Seq<Entity>,
    i: int,
    k: int,
)
    requires
        0 <= i < entities.len(),
    ensures
        ({
            let found = entity_rows_of(first_id, asset_id, objects, entities)[i].yaml_object_id;
            let key = entities[i].local_key@;
            match entities[i].yaml_object_id {
                Some(id) => found == Some(id),
                None => {
                    &&& 0 <= k < objects.len() && objects[k].local_identifier@ == key && (forall|j: int|
                        0 <= j < k ==> (#[trigger] objects[j]).local_identifier@ != key) ==> found == Some(
                        objects[k].id,
                    )
                    &&& (forall|j: int| 0 <= j < objects.len() ==> (#[trigger] objects[j]).local_identifier@ != key)
                        ==> found is None
                },
            }
        }),
{
    lemma_object_id(objects, entities[i].local_key@);
}

/// An entity of whatever kind has as its parent the first of the entities before it whose key is the
/// parent's key that it gives, and no parent only where it gives none or no entity before it has the key.
pub proof fn law_entity_has_its_parent(
    first_id: int,
    asset_id: i64,
    objects: Seq<StoredObject>,
    entities: Seq<Entity>,
    i: int,
    p: int,
)
    requires
        i64::MIN <= first_id,
        first_id + entities.len() <= i64::MAX,
        0 <= i < entities.len(),
    ensures
        ({
            let found = entity_rows_of(first_id, asset_id, objects, entities)[i].parent_entity_id;
            match entities[i].parent_local_key {
                Some(key) => {
                    &&& 0 <= p < i && entities[p].local_key@ == key@ && (forall|j: int|
                        0 <= j < p ==> (#[trigger] entities[j]).local_key@ != key@) ==> (found is Some && found->0
                        == first_id + p)
                    &&& (forall|j: int| 0 <= j < i ==> (#[trigger] entities[j]).local_key@ != key@) ==> found is None
                },
                None => found is None,
            }
        }),
{
    if let Some(key) = entities[i].parent_local_key {
        let keys = local_keys(entities);
        lemma_first_with(keys, key@);
        if 0 <= p < i {
            assert(keys[p] == Some(entities[p].local_key@));
        }
        if let Some(f) = first_with(keys, key@) {
            assert(keys[f] == Some(entities[f].local_key@));
        }
    }
}

/// Whether the entity row at `a` is the first with the key.
pub open spec fn is_first_with_key(rows: Seq<EntityRow>, a: int, key: Seq<char>) -> bool {
    &&& 0 <= a < rows.len()
    &&& rows[a].entity.local_key@ == key
    &&& forall|j: int| 0 <= j < a ==> (#[trigger] rows[j]).entity.local_key@ != key
}

/// Whether no entity row has the key.
pub open spec fn no_row_with_key(rows: Seq<EntityRow>, key: Seq<char>) -> bool {
    forall|j: int| 0 <= j < rows.len() ==> (#[trigger] rows[j]).entity.local_key@ != key
}

/// Whether a key begins with `guid:`.
pub open spec fn begins_with_guid(key: Seq<char>) -> bool {
    key.len() >= 5 && key[0] == 'g' && key[1] == 'u' && key[2] == 'i' && key[3] == 'd' && key[4] == ':'
}

/// A key leads out of its asset if and only if it begins with `guid:`.
pub proof fn law_guid_begins_a_key(key: Seq<char>)
    ensures
        leads_out(key) == begins_with_guid(key),
{
    reveal_strlit("guid:");
    assert("guid:"@ =~= seq!['g', 'u', 'i', 'd', ':']);
    if key.len() >= 5 {
        let head = key.take(5);
        assert(head[0] == key[0] && head[1] == key[1] && head[2] == key[2] && head[3] == key[3] && head[4] == key[4]);
        if begins_with_guid(key) {
            assert(head =~= "guid:"@);
        }
    }
}

proof fn lemma_entity_id(rows: Seq<EntityRow>, key: Seq<char>)
    ensures
        forall|a: int| #[trigger] is_first_with_key(rows, a, key) ==> entity_id(rows, key) == Some(rows[a].id),
        no_row_with_key(rows, key) <==> entity_id(rows, key) is None,
{
    let keys = row_keys(rows);
    lemma_first_with(keys, key);
    assert forall|j: int| 0 <= j < rows.len() implies keys[j] == Some((#[trigger] rows[j]).entity.local_key@) by {}
    assert forall|a: int| #[trigger] is_first_with_key(rows, a, key) implies entity_id(rows, key) == Some(
        rows[a].id,
    ) by {
        assert(keys[a] == Some(rows[a].entity.local_key@));
        if let Some(f) = first_with(keys, key) {
            assert(keys[f] == Some(rows[f].entity.local_key@));
        }
    }
    if let Some(f) = first_with(keys, key) {
        assert(keys[f] == Some(rows[f].entity.local_key@));
    }
}

/// No edges, no rows.
pub proof fn law_no_edges_no_rows(first_id: int, rows: Seq<EntityRow>)
    ensures
        edge_rows_of(first_id, rows, Seq::empty()).len() == 0,
{
}

/// One more edge whose ends are entities of the asset, and whose target does not begin with `guid:`, adds
/// one row behind the others: from the first entity with the one key to the first with the other, of
/// whatever kind the edge is.
pub proof fn law_edge_within_the_asset_adds_a_row(
    first_id: int,
    rows: Seq<EntityRow>,
    edges: Seq<EntityEdge>,
    e: EntityEdge,
    a: int,
    b: int,
)
    requires
        i64::MIN <= first_id,
        first_id + edges.len() + 1 <= i64::MAX,
        is_first_with_key(rows, a, e.from_local_key@),
        is_first_with_key(rows, b, e.to_local_key@),
        !begins_with_guid(e.to_local_key@),
    ensures
        ({
            let before = edge_rows_of(first_id, rows, edges);
            let after = edge_rows_of(first_id, rows, edges.push(e));
            &&& after.len() == before.len() + 1
            &&& after.drop_last() == before
            &&& after.last().id == first_id + before.len()
            &&& after.last().from_entity_id == rows[a].id
            &&& after.last().to_entity_id == rows[b].id
            &&& after.last().edge == e
        }),
{
    assert(edges.push(e).drop_last() =~= edges);
    law_guid_begins_a_key(e.to_local_key@);
    lemma_entity_id(rows, e.from_local_key@);
    lemma_entity_id(rows, e.to_local_key@);
    assert(ends_of(rows, e) == Some((rows[a].id, rows[b].id)));
    lemma_edge_rows_len(first_id, rows, edges);
    let before = edge_rows_of(first_id, rows, edges);
    assert(edge_rows_of(first_id, rows, edges.push(e)).drop_last() =~= before);
}

proof fn lemma_edge_rows_len(first_id: int, rows: Seq<EntityRow>, edges: Seq<EntityEdge>)
    ensures
        edge_rows_of(first_id, rows, edges).len() <= edges.len(),
    decreases edges.len(),
{
    if edges.len() > 0 {
        lemma_edge_rows_len(first_id, rows, edges.drop_last());
    }
}

/// One more edge that leads out of the asset, or whose one end is no entity of it, adds no row.
pub proof fn law_other_edge_adds_no_row(first_id: int, rows: Seq<EntityRow>, edges: Seq<EntityEdge>, e: EntityEdge)
    requires
        begins_with_guid(e.to_local_key@) || no_row_with_key(rows, e.from_local_key@) || no_row_with_key(
            rows,
            e.to_local_key@,
        ),
    ensures
        edge_rows_of(first_id, rows, edges.push(e)) == edge_rows_of(first_id, rows, edges),
{
    assert(edges.push(e).drop_last() =~= edges);
    law_guid_begins_a_key(e.to_local_key@);
    lemma_entity_id(rows, e.from_local_key@);
    lemma_entity_id(rows, e.to_local_key@);
}

} // verus!
