//! What one more input adds to the tables of an index, said of rows.
use crate::edges::{edges, EdgeKind, VfsEdge};
use crate::files::{AssetKind, AssetRow, DiscoveredFile};
use crate::graph::{edge_rows_of, Entity, EntityEdge};
use crate::lookup::{first_with, key_texts, lemma_first_with, positions};
use crate::row_rules::{begins_with_guid, law_guid_begins_a_key};
use crate::rows::{
    by_file, law_by_file, object_id, object_keys, symbols, symbols_of, CsDeclaration, CsMention, Row,
    StoredDeclaration, StoredObject, SymbolRow, YamlObject, YamlReference,
};
use crate::tables::{
    files_distinct, law_sources_of_a_build, law_tables_of_a_build, objects_in, tables_after, Input, Tables,
};
use crate::vfs::{directory_rows, file_rows, node_rows, rel_paths, EntryType, FileRecord, NodeRecord};
use vstd::prelude::*;

verus! {

/// The view of an edge holds each of its fields.
pub proof fn law_edge_view(rows: Seq<VfsEdge>, i: int)
    requires
        0 <= i < rows.len(),
    ensures
        edges(rows).len() == rows.len(),
        edges(rows)[i].from == rows[i].from_entry_id,
        edges(rows)[i].to == rows[i].to_entry_id,
        edges(rows)[i].kind == rows[i].edge_kind,
        match rows[i].edge_subkind {
            Some(subkind) => edges(rows)[i].subkind == Some(subkind@),
            None => edges(rows)[i].subkind is None,
        },
{
}

/// The view of an asset holds each of its fields.
pub proof fn law_asset_view(row: AssetRow)
    ensures
        row@.id == row.id,
        row@.file_id == row.file_id,
        row@.asset_kind == row.asset_kind,
        row@.guid == row.guid@,
        row@.name == row.name@,
        row@.vfs_root_path == row.vfs_root_path@,
{
}

/// The view of a symbol holds each of its fields.
pub proof fn law_symbol_view(rows: Seq<SymbolRow>, i: int)
    requires
        0 <= i < rows.len(),
    ensures
        symbols(rows).len() == rows.len(),
        symbols(rows)[i].id == rows[i].id,
        symbols(rows)[i].file_id == rows[i].file_id,
        symbols(rows)[i].declaration_id == rows[i].declaration_id,
        symbols(rows)[i].symbol_kind == rows[i].symbol_kind@,
        symbols(rows)[i].simple_name == rows[i].simple_name@,
        symbols(rows)[i].qualified_name == rows[i].qualified_name@,
        symbols(rows)[i].display_name == rows[i].display_name@,
        symbols(rows)[i].line_start == rows[i].line_start,
        symbols(rows)[i].line_end == rows[i].line_end,
{
}

/// Positions and keys stand in their order, none left out.
pub proof fn law_lists_stand_in_order(v: Seq<usize>, keys: Seq<Option<String>>, i: int, k: int)
    requires
        0 <= i < v.len(),
        0 <= k < keys.len(),
    ensures
        positions(v).len() == v.len(),
        positions(v)[i] == v[i],
        key_texts(keys).len() == keys.len(),
        match keys[k] {
            Some(key) => key_texts(keys)[k] == Some(key@),
            None => key_texts(keys)[k] is None,
        },
{
}

/// The names of the kinds of edges, of the types of entries and of the kinds of assets.
pub proof fn law_names_in_the_index(edge: EdgeKind, entry: EntryType, asset: AssetKind)
    ensures
        edge.name() == match edge {
            EdgeKind::ChildOf => "child_of"@,
            EdgeKind::DefinedIn => "defined_in"@,
            EdgeKind::DependsOn => "depends_on"@,
            EdgeKind::BindsTo => "binds_to"@,
            EdgeKind::InstanceOf => "instance_of"@,
        },
        entry.name() == match entry {
            EntryType::Directory => "directory"@,
            EntryType::File => "file"@,
            EntryType::Node => "node"@,
        },
        asset.name() == match asset {
            AssetKind::Scene => "scene"@,
            AssetKind::Prefab => "prefab"@,
            AssetKind::Material => "material"@,
            AssetKind::Script => "script"@,
            AssetKind::ScriptableObject => "scriptable_object"@,
            AssetKind::YamlAsset => "yaml-asset"@,
        },
{
}

/// A text names an entry type if and only if it is the name of that type.
pub proof fn law_entry_types_by_name(s: Seq<char>, entry: EntryType)
    ensures
        crate::vfs::entry_type_named(s) == Some(entry) <==> s == entry.name(),
{
    crate::vfs::law_entry_type_reads_back(entry);
}

/// Whether the row at `k` is the first object of a file with an identifier.
pub open spec fn is_first_object(rows: Seq<Row<YamlObject>>, k: int, file_id: i64, key: Seq<char>) -> bool {
    &&& 0 <= k < rows.len()
    &&& rows[k].file_id == file_id
    &&& rows[k].item.local_identifier@ == key
    &&& forall|j: int|
        0 <= j < k ==> (#[trigger] rows[j]).file_id != file_id || rows[j].item.local_identifier@ != key
}

/// Whether no object of a file has an identifier.
pub open spec fn has_no_object(rows: Seq<Row<YamlObject>>, file_id: i64, key: Seq<char>) -> bool {
    forall|j: int|
        0 <= j < rows.len() ==> (#[trigger] rows[j]).file_id != file_id || rows[j].item.local_identifier@ != key
}

proof fn lemma_one_more_object(objects: Seq<StoredObject>, object: StoredObject, key: Seq<char>)
    ensures
        object_id(objects.push(object), Some(key)) == match object_id(objects, Some(key)) {
            Some(id) => Some(id),
            None => if object.local_identifier@ == key {
                Some(object.id)
            } else {
                None
            },
        },
{
    let all = objects.push(object);
    assert(object_keys(all).drop_last() =~= object_keys(objects));
    assert(object_keys(all).last() == Some(object.local_identifier@));
    lemma_first_with(object_keys(objects), key);
    if let Some(k) = first_with(object_keys(objects), key) {
        assert(all[k] == objects[k]);
    }
}

proof fn lemma_first_object(rows: Seq<Row<YamlObject>>, file_id: i64, key: Seq<char>)
    ensures
        forall|k: int| #[trigger]
            is_first_object(rows, k, file_id, key) ==> object_id(objects_in(rows, file_id), Some(key)) == Some(
                rows[k].id,
            ),
        has_no_object(rows, file_id, key) ==> object_id(objects_in(rows, file_id), Some(key)) is None,
    decreases rows.len(),
{
    let found = object_id(objects_in(rows, file_id), Some(key));
    if rows.len() == 0 {
        lemma_first_with(object_keys(objects_in(rows, file_id)), key);
    } else {
        let init = rows.drop_last();
        let last = rows.last();
        lemma_first_object(init, file_id, key);
        lemma_one_more_object(
            objects_in(init, file_id),
            StoredObject { id: last.id, local_identifier: last.item.local_identifier },
            key,
        );
        assert forall|k: int| #[trigger] is_first_object(rows, k, file_id, key) implies found == Some(rows[k].id) by {
            assert forall|j: int| 0 <= j < init.len() implies #[trigger] init[j] == rows[j] by {}
            if k < init.len() {
                assert(is_first_object(init, k, file_id, key));
            } else {
                assert(has_no_object(init, file_id, key));
            }
        }
        if has_no_object(rows, file_id, key) {
            assert forall|j: int| 0 <= j < init.len() implies (#[trigger] init[j]).file_id != file_id
                || init[j].item.local_identifier@ != key by {
                assert(init[j] == rows[j]);
            }
            assert(rows[rows.len() - 1] == last);
        }
    }
}

/// A Unity YAML file adds its objects and references behind the rows that are there, and leaves the other
/// tables alone.
pub proof fn law_yaml_adds_rows(
    t: Tables,
    file_id: i64,
    objects: Seq<YamlObject>,
    references: Seq<YamlReference>,
    i: int,
    k: int,
)
    requires
        t.objects.len() + objects.len() < i64::MAX,
        t.references.len() + references.len() < i64::MAX,
        0 <= i < objects.len(),
        0 <= k < references.len(),
    ensures
        ({
            let after = t.plus(Input::Yaml { file_id, objects, references });
            let object = after.objects[t.objects.len() + i];
            let reference = after.references[t.references.len() + k];
            &&& after.objects.len() == t.objects.len() + objects.len()
            &&& after.objects.take(t.objects.len() as int) == t.objects
            &&& object.id == t.objects.len() + i + 1
            &&& object.file_id == file_id
            &&& object.item == objects[i]
            &&& after.references.len() == t.references.len() + references.len()
            &&& after.references.take(t.references.len() as int) == t.references
            &&& reference.id == t.references.len() + k + 1
            &&& reference.file_id == file_id
            &&& reference.reference == references[k]
            &&& after == (Tables { objects: after.objects, references: after.references, ..t })
        }),
{
    let after = t.plus(Input::Yaml { file_id, objects, references });
    assert(after.objects.take(t.objects.len() as int) =~= t.objects);
    assert(after.references.take(t.references.len() as int) =~= t.references);
}

/// A reference comes from the first object with its identifier among all objects of its file, those of
/// earlier rows included, and from none only where no object of the file has the identifier.
pub proof fn law_yaml_finds_objects(
    t: Tables,
    file_id: i64,
    objects: Seq<YamlObject>,
    references: Seq<YamlReference>,
    k: int,
    o: int,
)
    requires
        0 <= k < references.len(),
    ensures
        ({
            let after = t.plus(Input::Yaml { file_id, objects, references });
            let found = after.references[t.references.len() + k].source_yaml_object_id;
            match references[k].source_local_identifier {
                Some(key) => {
                    &&& is_first_object(after.objects, o, file_id, key@) ==> found == Some(after.objects[o].id)
                    &&& has_no_object(after.objects, file_id, key@) ==> found is None
                },
                None => found is None,
            }
        }),
{
    let after = t.plus(Input::Yaml { file_id, objects, references });
    if let Some(key) = references[k].source_local_identifier {
        lemma_first_object(after.objects, file_id, key@);
    }
}

/// A C# file adds its declarations and mentions behind the rows that are there, and leaves the other
/// tables alone. A mention stands in the first declaration of the file with the name that it gives.
pub proof fn law_csharp_adds_rows(
    t: Tables,
    file_id: i64,
    declarations: Seq<CsDeclaration>,
    mentions: Seq<CsMention>,
    i: int,
    k: int,
    d: int,
)
    requires
        t.declarations.len() + declarations.len() < i64::MAX,
        t.mentions.len() + mentions.len() < i64::MAX,
        0 <= i < declarations.len(),
        0 <= k < mentions.len(),
    ensures
        ({
            let after = t.plus(Input::CSharp { file_id, declarations, mentions });
            let declaration = after.declarations[t.declarations.len() + i];
            let mention = after.mentions[t.mentions.len() + k];
            &&& after.declarations.len() == t.declarations.len() + declarations.len()
            &&& after.declarations.take(t.declarations.len() as int) == t.declarations
            &&& declaration.id == t.declarations.len() + i + 1
            &&& declaration.file_id == file_id
            &&& declaration.item == declarations[i]
            &&& after.mentions.len() == t.mentions.len() + mentions.len()
            &&& after.mentions.take(t.mentions.len() as int) == t.mentions
            &&& mention.id == t.mentions.len() + k + 1
            &&& mention.file_id == file_id
            &&& mention.mention == mentions[k]
            &&& match mentions[k].containing_declaration {
                Some(name) => {
                    &&& 0 <= d < declarations.len() && declarations[d].simple_name@ == name@ && (forall|j: int|
                        0 <= j < d ==> (#[trigger] declarations[j]).simple_name@ != name@) ==> (
                    mention.containing_declaration_id is Some && mention.containing_declaration_id->0
                        == t.declarations.len() + d + 1)
                    &&& (forall|j: int|
                        0 <= j < declarations.len() ==> (#[trigger] declarations[j]).simple_name@ != name@)
                        ==> mention.containing_declaration_id is None
                },
                None => mention.containing_declaration_id is None,
            }
            &&& after == (Tables { declarations: after.declarations, mentions: after.mentions, ..t })
        }),
{
    let after = t.plus(Input::CSharp { file_id, declarations, mentions });
    let rows = t.new_declarations(file_id, declarations);
    assert(after.declarations.take(t.declarations.len() as int) =~= t.declarations);
    assert(after.mentions.take(t.mentions.len() as int) =~= t.mentions);
    crate::row_rules::law_mention_stands_in_its_declaration(
        1 + t.mentions.len() as int,
        file_id,
        rows,
        mentions,
        k,
        d,
    );
    assert forall|j: int| 0 <= j < declarations.len() implies (#[trigger] rows[j]).item == declarations[j] by {}
}

/// The graph of an asset adds its entities behind the rows that are there, then the edges between them,
/// and leaves the other tables alone. An entity without a known object comes from the first object with
/// its key among all objects of the asset's file, and from none only where there is no such object.
pub proof fn law_graph_adds_rows(
    t: Tables,
    asset_id: i64,
    file_id: i64,
    entities: Seq<Entity>,
    first_edge: i64,
    edges: Seq<EntityEdge>,
    i: int,
    o: int,
)
    requires
        t.entities.len() + entities.len() < i64::MAX,
        0 <= i < entities.len(),
    ensures
        ({
            let after = t.plus(Input::Graph { asset_id, file_id, entities, first_edge, edges });
            let n = t.entities.len() as int;
            let row = after.entities[n + i];
            &&& after.entities.len() == n + entities.len()
            &&& after.entities.take(n) == t.entities
            &&& row.id == n + i + 1
            &&& row.asset_id == asset_id
            &&& row.entity == entities[i]
            &&& match entities[i].yaml_object_id {
                Some(id) => row.yaml_object_id == Some(id),
                None => {
                    &&& is_first_object(t.objects, o, file_id, entities[i].local_key@) ==> row.yaml_object_id == Some(
                        t.objects[o].id,
                    )
                    &&& has_no_object(t.objects, file_id, entities[i].local_key@) ==> row.yaml_object_id is None
                },
            }
            &&& after.entity_edges == t.entity_edges + edge_rows_of(first_edge as int, after.entities.skip(n), edges)
            &&& after == (Tables { entities: after.entities, entity_edges: after.entity_edges, ..t })
        }),
{
    let after = t.plus(Input::Graph { asset_id, file_id, entities, first_edge, edges });
    let n = t.entities.len() as int;
    assert(after.entities.take(n) =~= t.entities);
    assert(after.entities.skip(n) =~= t.new_entities(asset_id, file_id, entities));
    lemma_first_object(t.objects, file_id, entities[i].local_key@);
}

/// An asset comes behind the assets that are there, with the GUID, the kind and the path of its file.
pub proof fn law_asset_adds_a_row(t: Tables, file_id: i64, file: DiscoveredFile, name: Seq<char>)
    requires
        t.assets.len() + 1 < i64::MAX,
        file.guid is Some,
    ensures
        ({
            let after = t.plus(Input::Asset { file_id, file, name });
            &&& after.assets.len() == t.assets.len() + 1
            &&& after.assets.drop_last() == t.assets
            &&& after.assets.last().id == t.assets.len() + 1
            &&& after.assets.last().file_id == file_id
            &&& after.assets.last().name == name
            &&& after.assets.last().guid == file.guid->0@
            &&& after.assets.last().vfs_root_path == file.project_rel_path@
            &&& match file.asset_kind {
                Some(kind) => after.assets.last().asset_kind == kind,
                None => after.assets.last().asset_kind == AssetKind::YamlAsset,
            }
            &&& after == (Tables { assets: after.assets, ..t })
        }),
{
    let after = t.plus(Input::Asset { file_id, file, name });
    assert(after.assets.drop_last() =~= t.assets);
}

/// Stored declarations add one symbol each behind the symbols that are there, and leave the other tables
/// alone.
pub proof fn law_symbols_add_rows(t: Tables, stored: Seq<StoredDeclaration>, k: int)
    requires
        t.symbols.len() + stored.len() < i64::MAX,
        0 <= k < stored.len(),
    ensures
        ({
            let after = t.plus(Input::Symbols { stored });
            let n = t.symbols.len() as int;
            &&& after.symbols.len() == n + stored.len()
            &&& after.symbols.take(n) == t.symbols
            &&& after.symbols.skip(n) == symbols_of(n + 1, by_file(stored))
            &&& after.symbols[n + k].id == n + k + 1
            &&& after == (Tables { symbols: after.symbols, ..t })
        }),
{
    law_by_file(stored);
    let after = t.plus(Input::Symbols { stored });
    let n = t.symbols.len() as int;
    assert(after.symbols.take(n) =~= t.symbols);
    assert(after.symbols.skip(n) =~= symbols_of(n + 1, by_file(stored)));
}

/// Symbols come by the file of their declaration, and within a file by the declaration; nothing is left
/// out, and nothing comes twice.
pub proof fn law_symbols_come_by_file(first_id: int, stored: Seq<StoredDeclaration>, i: int, j: int)
    requires
        0 <= i < j < stored.len(),
    ensures
        ({
            let s = symbols_of(first_id, by_file(stored));
            &&& s.len() == stored.len()
            &&& s[i].file_id <= s[j].file_id
            &&& s[i].file_id == s[j].file_id ==> s[i].declaration_id <= s[j].declaration_id
        }),
        by_file(stored).to_multiset() == stored.to_multiset(),
{
    law_by_file(stored);
    assert(crate::rows::no_later(by_file(stored)[i], by_file(stored)[j]));
}

/// Entries and edges come behind those that are there, and leave the other tables alone: first the
/// directories of all files, the files and the entities.
pub proof fn law_entries_add_rows(t: Tables, project_id: i64, files: Seq<FileRecord>, nodes: Seq<NodeRecord>)
    ensures
        ({
            let after = t.plus(Input::Entries { project_id, files, nodes });
            let paths = Seq::new(files.len(), |i: int| files[i].project_rel_path@);
            let d = directory_rows(project_id, paths).len();
            let f = file_rows(project_id, files).len();
            let n = t.entries.len();
            &&& after.entries.len() == n + d + f + nodes.len()
            &&& after.entries.take(n as int) == t.entries
            &&& after.entries.subrange(n as int, (n + d) as int) == directory_rows(project_id, paths)
            &&& after.entries.subrange((n + d) as int, (n + d + f) as int) == file_rows(project_id, files)
            &&& after.entries.skip((n + d + f) as int) == node_rows(project_id, nodes)
            &&& after == (Tables { entries: after.entries, ..t })
        }),
{
    let after = t.plus(Input::Entries { project_id, files, nodes });
    let paths = Seq::new(files.len(), |i: int| files[i].project_rel_path@);
    assert(rel_paths(files) =~= paths);
    let d = directory_rows(project_id, paths).len();
    let f = file_rows(project_id, files).len();
    let n = t.entries.len();
    assert(after.entries.take(n as int) =~= t.entries);
    assert(after.entries.subrange(n as int, (n + d) as int) =~= directory_rows(project_id, paths));
    assert(after.entries.subrange((n + d) as int, (n + d + f) as int) =~= file_rows(project_id, files));
    assert(after.entries.skip((n + d + f) as int) =~= node_rows(project_id, nodes));
}

/// Tables begin without rows.
pub proof fn law_tables_begin_empty()
    ensures
        ({
            let t = Tables::empty();
            &&& t.objects.len() == 0 && t.references.len() == 0
            &&& t.declarations.len() == 0 && t.mentions.len() == 0
            &&& t.entities.len() == 0 && t.entity_edges.len() == 0
            &&& t.assets.len() == 0 && t.symbols.len() == 0
            &&& t.entries.len() == 0 && t.edges.len() == 0
        }),
        tables_after(Seq::empty()) == Tables::empty(),
{
}

/// One more input of a build is added to the tables that the inputs before it have left.
pub proof fn law_inputs_add_up(inputs: Seq<Input>, input: Input)
    ensures
        tables_after(inputs.push(input)) == tables_after(inputs).plus(input),
{
    assert(inputs.push(input).drop_last() =~= inputs);
}

/// There is room for more rows if and only if each numbered table has room for them.
pub proof fn law_room_for_more_rows(t: Tables, n: nat)
    ensures
        t.has_room(n) <==> {
            &&& t.objects.len() + n < i64::MAX && t.references.len() + n < i64::MAX
            &&& t.declarations.len() + n < i64::MAX && t.mentions.len() + n < i64::MAX
            &&& t.entities.len() + n < i64::MAX && t.assets.len() + n < i64::MAX
            &&& t.symbols.len() + n < i64::MAX
        },
{
}

/// Over a whole build the ids of each table are 1, 2, 3 and so on.
pub proof fn law_ids_count_up(inputs: Seq<Input>, k: int)
    requires
        tables_after(inputs).in_range(),
        k >= 0,
    ensures
        ({
            let t = tables_after(inputs);
            &&& k < t.objects.len() ==> t.objects[k].id == k + 1
            &&& k < t.references.len() ==> t.references[k].id == k + 1
            &&& k < t.declarations.len() ==> t.declarations[k].id == k + 1
            &&& k < t.mentions.len() ==> t.mentions[k].id == k + 1
            &&& k < t.entities.len() ==> t.entities[k].id == k + 1
            &&& k < t.assets.len() ==> t.assets[k].id == k + 1
            &&& k < t.symbols.len() ==> t.symbols[k].id == k + 1
        }),
{
    law_tables_of_a_build(inputs);
}

/// Over a whole build, what a row refers to exists: the object of a reference and the declaration of a
/// mention are rows of the same file, with the key that the reference or mention gives; the parent of an
/// entity is an earlier entity of the same asset.
pub proof fn law_rows_refer_to_rows(inputs: Seq<Input>, k: int)
    requires
        tables_after(inputs).in_range(),
        k >= 0,
    ensures
        ({
            let t = tables_after(inputs);
            &&& k < t.references.len() && t.references[k].source_yaml_object_id is Some ==> {
                let o = t.references[k].source_yaml_object_id->0 - 1;
                &&& 0 <= o < t.objects.len()
                &&& t.objects[o].file_id == t.references[k].file_id
                &&& t.references[k].reference.source_local_identifier is Some
                &&& t.references[k].reference.source_local_identifier->0@ == t.objects[o].item.local_identifier@
            }
            &&& k < t.mentions.len() && t.mentions[k].containing_declaration_id is Some ==> {
                let d = t.mentions[k].containing_declaration_id->0 - 1;
                &&& 0 <= d < t.declarations.len()
                &&& t.declarations[d].file_id == t.mentions[k].file_id
                &&& t.mentions[k].mention.containing_declaration is Some
                &&& t.mentions[k].mention.containing_declaration->0@ == t.declarations[d].item.simple_name@
            }
            &&& k < t.entities.len() && t.entities[k].parent_entity_id is Some ==> {
                let p = t.entities[k].parent_entity_id->0 - 1;
                &&& 0 <= p < k
                &&& t.entities[p].asset_id == t.entities[k].asset_id
                &&& t.entities[k].entity.parent_local_key is Some
                &&& t.entities[k].entity.parent_local_key->0@ == t.entities[p].entity.local_key@
            }
        }),
{
    law_tables_of_a_build(inputs);
    let t = tables_after(inputs);
    if k < t.references.len() {
        assert(t.source_exists(t.references[k]));
    }
    if k < t.mentions.len() {
        assert(t.container_exists(t.mentions[k]));
    }
    if k < t.entities.len() {
        assert(t.parent_exists(t.entities[k]));
        assert(t.entities[k].id == k + 1);
    }
}

/// Over a whole build, an edge between entities joins two entities of one asset that have its keys, and
/// does not lead to a GUID.
pub proof fn law_entity_edges_join_entities(inputs: Seq<Input>, k: int)
    requires
        tables_after(inputs).in_range(),
        0 <= k < tables_after(inputs).entity_edges.len(),
    ensures
        ({
            let t = tables_after(inputs);
            let e = t.entity_edges[k];
            let a = e.from_entity_id - 1;
            let b = e.to_entity_id - 1;
            &&& 0 <= a < t.entities.len()
            &&& 0 <= b < t.entities.len()
            &&& t.entities[a].asset_id == t.entities[b].asset_id
            &&& t.entities[a].entity.local_key@ == e.edge.from_local_key@
            &&& t.entities[b].entity.local_key@ == e.edge.to_local_key@
            &&& !begins_with_guid(e.edge.to_local_key@)
        }),
{
    law_tables_of_a_build(inputs);
    let t = tables_after(inputs);
    assert(t.ends_exist(t.entity_edges[k]));
    law_guid_begins_a_key(t.entity_edges[k].edge.to_local_key@);
}

/// In a build that reads no Unity YAML file twice, a reference comes from the first object with its
/// identifier among all objects of its file, and from none only where the file has no such object.
pub proof fn law_references_of_a_build(inputs: Seq<Input>, k: int, o: int)
    requires
        files_distinct(inputs),
        0 <= k < tables_after(inputs).references.len(),
    ensures
        ({
            let t = tables_after(inputs);
            let row = t.references[k];
            match row.reference.source_local_identifier {
                Some(key) => {
                    &&& is_first_object(t.objects, o, row.file_id, key@) ==> row.source_yaml_object_id == Some(
                        t.objects[o].id,
                    )
                    &&& has_no_object(t.objects, row.file_id, key@) ==> row.source_yaml_object_id is None
                },
                None => row.source_yaml_object_id is None,
            }
        }),
{
    law_sources_of_a_build(inputs);
    let t = tables_after(inputs);
    let row = t.references[k];
    if let Some(key) = row.reference.source_local_identifier {
        lemma_first_object(t.objects, row.file_id, key@);
    }
}

} // verus!
