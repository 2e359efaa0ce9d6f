//! The tables of an index over a whole build, and what holds of them.
//!
//! [`Tables`] grows by one [`Input`] at a time: what was extracted from a file, an asset, the entity
//! graph of an asset, and what is made from stored rows at the end.
use crate::course::{Event, Step};
use crate::edges::{vfs_edges, EdgeTables, EdgeView};
use crate::files::{asset_of, AssetView, DiscoveredFile};
use crate::graph::{
    edge_rows_of, entity_rows_of, law_edges_stay_in_asset, law_parent_before_child, leads_out, row_keys,
    Entity, EntityEdge, EntityEdgeRow, EntityRow,
};
use crate::lookup::lemma_first_with;
use crate::rows::{
    by_file, law_by_file, law_mention_in_its_file, mention_rows_of, numbered, object_id, object_keys, reference_rows_of, symbols_of,
    CsDeclaration, CsMention, MentionRow, ReferenceRow, Row, StoredDeclaration, StoredObject, SymbolView, YamlObject,
    YamlReference,
};
use crate::runs::{index_after, is_run, law_index_is_switched_as_a_whole, state_after};
use crate::text::optional;
use crate::vfs::{directory_rows, file_rows, node_rows, rel_paths, FileRecord, NodeRecord, VfsEntryView};
use vstd::prelude::*;

verus! {

/// What a step of a build adds.
pub enum Input {
    /// The objects and references of a Unity YAML file.
    Yaml { file_id: i64, objects: Seq<YamlObject>, references: Seq<YamlReference> },
    /// The declarations and mentions of a C# file.
    CSharp { file_id: i64, declarations: Seq<CsDeclaration>, mentions: Seq<CsMention> },
    /// The entities of an asset and the edges between them, which are numbered from `first_edge` on.
    Graph { asset_id: i64, file_id: i64, entities: Seq<Entity>, first_edge: i64, edges: Seq<EntityEdge> },
    /// The asset of a file, under its name.
    Asset { file_id: i64, file: DiscoveredFile, name: Seq<char> },
    /// The symbols of stored declarations.
    Symbols { stored: Seq<StoredDeclaration> },
    /// The virtual file system of stored files and entities.
    Entries { project_id: i64, files: Seq<FileRecord>, nodes: Seq<NodeRecord> },
    /// The edges between stored entries.
    Edges { project_id: i64, between: EdgeTables },
}

/// The rows of an index.
pub struct Tables {
    pub objects: Seq<Row<YamlObject>>,
    pub references: Seq<ReferenceRow>,
    pub declarations: Seq<Row<CsDeclaration>>,
    pub mentions: Seq<MentionRow>,
    pub entities: Seq<EntityRow>,
    pub entity_edges: Seq<EntityEdgeRow>,
    pub assets: Seq<AssetView>,
    pub symbols: Seq<SymbolView>,
    pub entries: Seq<VfsEntryView>,
    pub edges: Seq<EdgeView>,
}

/// The objects of a file among the rows, in the order of the rows.
pub open spec fn objects_in(rows: Seq<Row<YamlObject>>, file_id: i64) -> Seq<StoredObject>
    decreases rows.len(),
{
    if rows.len() == 0 {
        Seq::empty()
    } else {
        let before = objects_in(rows.drop_last(), file_id);
        if rows.last().file_id == file_id {
            before.push(StoredObject { id: rows.last().id, local_identifier: rows.last().item.local_identifier })
        } else {
            before
        }
    }
}

impl Tables {
    /// Tables without rows.
    pub open spec fn empty() -> Tables {
        Tables {
            objects: Seq::empty(),
            references: Seq::empty(),
            declarations: Seq::empty(),
            mentions: Seq::empty(),
            entities: Seq::empty(),
            entity_edges: Seq::empty(),
            assets: Seq::empty(),
            symbols: Seq::empty(),
            entries: Seq::empty(),
            edges: Seq::empty(),
        }
    }

    /// The rows of the objects of a file.
    pub open spec fn new_objects(self, file_id: i64, objects: Seq<YamlObject>) -> Seq<Row<YamlObject>> {
        numbered(1 + self.objects.len() as int, file_id, objects)
    }

    /// The rows of the references of a file whose objects are stored already.
    pub open spec fn new_references(self, file_id: i64, references: Seq<YamlReference>) -> Seq<ReferenceRow> {
        reference_rows_of(1 + self.references.len() as int, file_id, objects_in(self.objects, file_id), references)
    }

    /// The rows of the declarations of a file.
    pub open spec fn new_declarations(self, file_id: i64, declarations: Seq<CsDeclaration>) -> Seq<Row<CsDeclaration>> {
        numbered(1 + self.declarations.len() as int, file_id, declarations)
    }

    /// The rows of the mentions of a file with the given declarations.
    pub open spec fn new_mentions(
        self,
        file_id: i64,
        declarations: Seq<Row<CsDeclaration>>,
        mentions: Seq<CsMention>,
    ) -> Seq<MentionRow> {
        mention_rows_of(1 + self.mentions.len() as int, file_id, declarations, mentions)
    }

    /// The rows of the entities of an asset.
    pub open spec fn new_entities(self, asset_id: i64, file_id: i64, entities: Seq<Entity>) -> Seq<EntityRow> {
        entity_rows_of(1 + self.entities.len() as int, asset_id, objects_in(self.objects, file_id), entities)
    }

    /// The tables with the objects of a file.
    pub open spec fn with_objects(self, file_id: i64, objects: Seq<YamlObject>) -> Tables {
        Tables { objects: self.objects + self.new_objects(file_id, objects), ..self }
    }

    /// The tables after one more input.
    pub open spec fn plus(self, input: Input) -> Tables {
        match input {
            Input::Yaml { file_id, objects, references } => {
                let stored = self.with_objects(file_id, objects);
                Tables { references: self.references + stored.new_references(file_id, references), ..stored }
            },
            Input::CSharp { file_id, declarations, mentions } => {
                let rows = self.new_declarations(file_id, declarations);
                Tables {
                    declarations: self.declarations + rows,
                    mentions: self.mentions + self.new_mentions(file_id, rows, mentions),
                    ..self
                }
            },
            Input::Graph { asset_id, file_id, entities, first_edge, edges } => {
                let rows = self.new_entities(asset_id, file_id, entities);
                Tables {
                    entities: self.entities + rows,
                    entity_edges: self.entity_edges + edge_rows_of(first_edge as int, rows, edges),
                    ..self
                }
            },
            Input::Asset { file_id, file, name } => Tables {
                assets: self.assets.push(asset_of((1 + self.assets.len()) as i64, file_id, file, name)),
                ..self
            },
            Input::Symbols { stored } => Tables {
                symbols: self.symbols + symbols_of(1 + self.symbols.len() as int, by_file(stored)),
                ..self
            },
            Input::Entries { project_id, files, nodes } => Tables {
                entries: self.entries + directory_rows(project_id, rel_paths(files)) + file_rows(project_id, files)
                    + node_rows(project_id, nodes),
                ..self
            },
            Input::Edges { project_id, between } => Tables {
                edges: self.edges + vfs_edges(between, project_id),
                ..self
            },
        }
    }

    /// Whether all ids fit.
    pub open spec fn in_range(self) -> bool {
        &&& self.objects.len() < i64::MAX
        &&& self.references.len() < i64::MAX
        &&& self.declarations.len() < i64::MAX
        &&& self.mentions.len() < i64::MAX
        &&& self.entities.len() < i64::MAX
        &&& self.assets.len() < i64::MAX
        &&& self.symbols.len() < i64::MAX
    }

    /// Whether every table has room for `n` more rows.
    pub open spec fn has_room(self, n: nat) -> bool {
        &&& self.objects.len() + n < i64::MAX
        &&& self.references.len() + n < i64::MAX
        &&& self.declarations.len() + n < i64::MAX
        &&& self.mentions.len() + n < i64::MAX
        &&& self.entities.len() + n < i64::MAX
        &&& self.assets.len() + n < i64::MAX
        &&& self.symbols.len() + n < i64::MAX
    }

    /// In every table the ids are 1, 2, 3 and so on.
    pub open spec fn numbered_from_one(self) -> bool {
        &&& forall|k: int| 0 <= k < self.objects.len() ==> (#[trigger] self.objects[k]).id == k + 1
        &&& forall|k: int| 0 <= k < self.references.len() ==> (#[trigger] self.references[k]).id == k + 1
        &&& forall|k: int| 0 <= k < self.declarations.len() ==> (#[trigger] self.declarations[k]).id == k + 1
        &&& forall|k: int| 0 <= k < self.mentions.len() ==> (#[trigger] self.mentions[k]).id == k + 1
        &&& forall|k: int| 0 <= k < self.entities.len() ==> (#[trigger] self.entities[k]).id == k + 1
        &&& forall|k: int| 0 <= k < self.assets.len() ==> (#[trigger] self.assets[k]).id == k + 1
        &&& forall|k: int| 0 <= k < self.symbols.len() ==> (#[trigger] self.symbols[k]).id == k + 1
    }

    /// The object of a reference is one of the reference's file, with the identifier that it gives.
    pub open spec fn source_exists(self, r: ReferenceRow) -> bool {
        r.source_yaml_object_id matches Some(id) ==> {
            &&& 1 <= id <= self.objects.len()
            &&& self.objects[id - 1].file_id == r.file_id
            &&& optional(r.reference.source_local_identifier) == Some(self.objects[id - 1].item.local_identifier@)
        }
    }

    /// The declaration of a mention is one of the mention's file, with the name that it gives.
    pub open spec fn container_exists(self, m: MentionRow) -> bool {
        m.containing_declaration_id matches Some(id) ==> {
            &&& 1 <= id <= self.declarations.len()
            &&& self.declarations[id - 1].file_id == m.file_id
            &&& optional(m.mention.containing_declaration) == Some(self.declarations[id - 1].item.simple_name@)
        }
    }

    /// The parent of an entity is an earlier entity of the same asset, with the key that it gives.
    pub open spec fn parent_exists(self, e: EntityRow) -> bool {
        e.parent_entity_id matches Some(p) ==> {
            &&& 1 <= p <= self.entities.len()
            &&& p < e.id
            &&& self.entities[p - 1].asset_id == e.asset_id
            &&& optional(e.entity.parent_local_key) == Some(self.entities[p - 1].entity.local_key@)
        }
    }

    /// Both ends of an edge are entities of one asset, with the keys that it gives.
    pub open spec fn ends_exist(self, e: EntityEdgeRow) -> bool {
        &&& 1 <= e.from_entity_id <= self.entities.len()
        &&& 1 <= e.to_entity_id <= self.entities.len()
        &&& self.entities[e.from_entity_id - 1].asset_id == self.entities[e.to_entity_id - 1].asset_id
        &&& self.entities[e.from_entity_id - 1].entity.local_key@ == e.edge.from_local_key@
        &&& self.entities[e.to_entity_id - 1].entity.local_key@ == e.edge.to_local_key@
        &&& !leads_out(e.edge.to_local_key@)
    }

    /// Ids are consecutive, and whatever a row refers to exists.
    pub open spec fn consistent(self) -> bool {
        &&& self.numbered_from_one()
        &&& forall|k: int| 0 <= k < self.references.len() ==> self.source_exists(#[trigger] self.references[k])
        &&& forall|k: int| 0 <= k < self.mentions.len() ==> self.container_exists(#[trigger] self.mentions[k])
        &&& forall|k: int| 0 <= k < self.entities.len() ==> self.parent_exists(#[trigger] self.entities[k])
        &&& forall|k: int| 0 <= k < self.entity_edges.len() ==> self.ends_exist(#[trigger] self.entity_edges[k])
    }

    /// Every reference has its object: none only where no object of its file has the identifier.
    pub open spec fn sources_complete(self) -> bool {
        forall|k: int|
            0 <= k < self.references.len() ==> (#[trigger] self.references[k]).source_yaml_object_id == object_id(
                objects_in(self.objects, self.references[k].file_id),
                optional(self.references[k].reference.source_local_identifier),
            )
    }
}

/// The tables after all inputs of a build.
pub open spec fn tables_after(inputs: Seq<Input>) -> Tables
    decreases inputs.len(),
{
    if inputs.len() == 0 {
        Tables::empty()
    } else {
        tables_after(inputs.drop_last()).plus(inputs.last())
    }
}

/// Whether the row at `i` is that of the object.
pub open spec fn is_row_of(rows: Seq<Row<YamlObject>>, i: int, file_id: i64, object: StoredObject) -> bool {
    &&& 0 <= i < rows.len()
    &&& rows[i].file_id == file_id
    &&& rows[i].id == object.id
    &&& rows[i].item.local_identifier == object.local_identifier
}

/// The objects of a file are those of its rows.
pub proof fn lemma_objects_in(rows: Seq<Row<YamlObject>>, file_id: i64)
    ensures
        forall|o: StoredObject| #[trigger]
            objects_in(rows, file_id).contains(o) <==> exists|i: int| #[trigger] is_row_of(rows, i, file_id, o),
    decreases rows.len(),
{
    let all = objects_in(rows, file_id);
    if rows.len() > 0 {
        let init = rows.drop_last();
        let before = objects_in(init, file_id);
        lemma_objects_in(init, file_id);
        assert forall|o: StoredObject| #[trigger] all.contains(o) <==> exists|i: int| #[trigger] is_row_of(
            rows,
            i,
            file_id,
            o,
        ) by {
            if all.contains(o) {
                let k = choose|k: int| 0 <= k < all.len() && all[k] == o;
                if k < before.len() {
                    assert(before[k] == o);
                    assert(before.contains(o));
                    let i = choose|i: int| #[trigger] is_row_of(init, i, file_id, o);
                    assert(is_row_of(rows, i, file_id, o));
                } else {
                    assert(is_row_of(rows, rows.len() - 1, file_id, o));
                }
            }
            if exists|i: int| #[trigger] is_row_of(rows, i, file_id, o) {
                let i = choose|i: int| #[trigger] is_row_of(rows, i, file_id, o);
                if i < init.len() {
                    assert(is_row_of(init, i, file_id, o));
                    assert(before.contains(o));
                    let k = choose|k: int| 0 <= k < before.len() && before[k] == o;
                    assert(all[k] == o);
                } else {
                    assert(all[all.len() - 1] == o);
                }
            }
        }
    }
}

/// Rows of other files add no objects to a file.
pub proof fn lemma_objects_in_others(a: Seq<Row<YamlObject>>, b: Seq<Row<YamlObject>>, file_id: i64)
    requires
        forall|i: int| 0 <= i < b.len() ==> (#[trigger] b[i]).file_id != file_id,
    ensures
        objects_in(a + b, file_id) == objects_in(a, file_id),
    decreases b.len(),
{
    if b.len() == 0 {
        assert(a + b =~= a);
    } else {
        assert((a + b).drop_last() =~= a + b.drop_last());
        assert((a + b).last() == b.last());
        assert(b[b.len() - 1] == b.last());
        assert forall|i: int| 0 <= i < b.drop_last().len() implies (#[trigger] b.drop_last()[i]).file_id != file_id by {
            assert(b.drop_last()[i] == b[i]);
        }
        lemma_objects_in_others(a, b.drop_last(), file_id);
    }
}

proof fn lemma_new_sources(t: Tables, file_id: i64, references: Seq<YamlReference>)
    requires
        t.numbered_from_one(),
    ensures
        forall|k: int|
            0 <= k < references.len() ==> t.source_exists(#[trigger] t.new_references(file_id, references)[k]),
{
    let rows = t.new_references(file_id, references);
    let objects = objects_in(t.objects, file_id);
    assert forall|k: int| 0 <= k < references.len() implies t.source_exists(#[trigger] rows[k]) by {
        if let Some(key) = optional(references[k].source_local_identifier) {
            lemma_first_with(object_keys(objects), key);
            lemma_objects_in(t.objects, file_id);
            if let Some(n) = crate::lookup::first_with(object_keys(objects), key) {
                assert(object_keys(objects)[n] == Some(objects[n].local_identifier@));
                assert(objects.contains(objects[n]));
                let i = choose|i: int| #[trigger] is_row_of(t.objects, i, file_id, objects[n]);
                assert(t.objects[i].id == i + 1);
            }
        }
    }
}

proof fn lemma_yaml_keeps_consistent(
    t: Tables,
    file_id: i64,
    objects: Seq<YamlObject>,
    references: Seq<YamlReference>,
)
    requires
        t.consistent(),
        t.plus(Input::Yaml { file_id, objects, references }).in_range(),
    ensures
        t.plus(Input::Yaml { file_id, objects, references }).consistent(),
{
    let stored = t.with_objects(file_id, objects);
    let after = t.plus(Input::Yaml { file_id, objects, references });
    assert(stored.numbered_from_one());
    lemma_new_sources(stored, file_id, references);
    assert forall|k: int| 0 <= k < after.references.len() implies after.source_exists(
        #[trigger] after.references[k],
    ) by {
        if k < t.references.len() {
            assert(t.source_exists(t.references[k]));
        } else {
            assert(stored.source_exists(stored.new_references(file_id, references)[k - t.references.len()]));
        }
    }
    assert forall|k: int| 0 <= k < after.mentions.len() implies after.container_exists(#[trigger] after.mentions[k]) by {
        assert(t.container_exists(t.mentions[k]));
    }
    assert forall|k: int| 0 <= k < after.entities.len() implies after.parent_exists(#[trigger] after.entities[k]) by {
        assert(t.parent_exists(t.entities[k]));
    }
    assert forall|k: int| 0 <= k < after.entity_edges.len() implies after.ends_exist(
        #[trigger] after.entity_edges[k],
    ) by {
        assert(t.ends_exist(t.entity_edges[k]));
    }
}

proof fn lemma_csharp_keeps_consistent(
    t: Tables,
    file_id: i64,
    declarations: Seq<CsDeclaration>,
    mentions: Seq<CsMention>,
)
    requires
        t.consistent(),
        t.plus(Input::CSharp { file_id, declarations, mentions }).in_range(),
    ensures
        t.plus(Input::CSharp { file_id, declarations, mentions }).consistent(),
{
    let n = t.declarations.len();
    let rows = t.new_declarations(file_id, declarations);
    let after = t.plus(Input::CSharp { file_id, declarations, mentions });
    assert forall|k: int| 0 <= k < after.mentions.len() implies after.container_exists(#[trigger] after.mentions[k]) by {
        if k < t.mentions.len() {
            assert(t.container_exists(t.mentions[k]));
        } else {
            let m = k - t.mentions.len();
            law_mention_in_its_file((n + 1) as int, (t.mentions.len() + 1) as int, file_id, declarations, mentions, m);
            assert(after.mentions[k] == t.new_mentions(file_id, rows, mentions)[m]);
            if let Some(id) = after.mentions[k].containing_declaration_id {
                assert(after.declarations[id - 1] == rows[id - 1 - n]);
            }
        }
    }
    assert forall|k: int| 0 <= k < after.references.len() implies after.source_exists(
        #[trigger] after.references[k],
    ) by {
        assert(t.source_exists(t.references[k]));
    }
    assert forall|k: int| 0 <= k < after.entities.len() implies after.parent_exists(#[trigger] after.entities[k]) by {
        assert(t.parent_exists(t.entities[k]));
    }
    assert forall|k: int| 0 <= k < after.entity_edges.len() implies after.ends_exist(
        #[trigger] after.entity_edges[k],
    ) by {
        assert(t.ends_exist(t.entity_edges[k]));
    }
}

proof fn lemma_graph_keeps_consistent(
    t: Tables,
    asset_id: i64,
    file_id: i64,
    entities: Seq<Entity>,
    first_edge: i64,
    edges: Seq<EntityEdge>,
)
    requires
        t.consistent(),
        t.plus(Input::Graph { asset_id, file_id, entities, first_edge, edges }).in_range(),
    ensures
        t.plus(Input::Graph { asset_id, file_id, entities, first_edge, edges }).consistent(),
{
    let n = t.entities.len();
    let rows = t.new_entities(asset_id, file_id, entities);
    let new_edges = edge_rows_of(first_edge as int, rows, edges);
    let after = t.plus(Input::Graph { asset_id, file_id, entities, first_edge, edges });
    assert forall|k: int| 0 <= k < after.entities.len() implies after.parent_exists(#[trigger] after.entities[k]) by {
        if k < n {
            assert(t.parent_exists(t.entities[k]));
        } else {
            law_parent_before_child(
                (n + 1) as int,
                asset_id,
                objects_in(t.objects, file_id),
                entities,
                k - n,
            );
            assert(after.entities[k] == rows[k - n]);
            if let Some(p) = rows[k - n].parent_entity_id {
                assert(after.entities[p - 1] == rows[p - 1 - n]);
            }
        }
    }
    assert forall|k: int| 0 <= k < after.entity_edges.len() implies after.ends_exist(
        #[trigger] after.entity_edges[k],
    ) by {
        if k < t.entity_edges.len() {
            assert(t.ends_exist(t.entity_edges[k]));
        } else {
            let j = k - t.entity_edges.len();
            let e = new_edges[j];
            law_edges_stay_in_asset(first_edge as int, rows, edges, j);
            lemma_first_with(row_keys(rows), e.edge.from_local_key@);
            lemma_first_with(row_keys(rows), e.edge.to_local_key@);
            let a = crate::lookup::first_with(row_keys(rows), e.edge.from_local_key@)->0;
            let b = crate::lookup::first_with(row_keys(rows), e.edge.to_local_key@)->0;
            assert(row_keys(rows)[a] == Some(rows[a].entity.local_key@));
            assert(row_keys(rows)[b] == Some(rows[b].entity.local_key@));
            assert(after.entities[n + a] == rows[a]);
            assert(after.entities[n + b] == rows[b]);
        }
    }
    assert forall|k: int| 0 <= k < after.references.len() implies after.source_exists(
        #[trigger] after.references[k],
    ) by {
        assert(t.source_exists(t.references[k]));
    }
    assert forall|k: int| 0 <= k < after.mentions.len() implies after.container_exists(#[trigger] after.mentions[k]) by {
        assert(t.container_exists(t.mentions[k]));
    }
}

proof fn lemma_others_keep_consistent(t: Tables, input: Input)
    requires
        t.consistent(),
        t.plus(input).in_range(),
        !(input is Yaml) && !(input is CSharp) && !(input is Graph),
    ensures
        t.plus(input).consistent(),
{
    let after = t.plus(input);
    if let Input::Symbols { stored } = input {
        law_by_file(stored);
    }
    assert forall|k: int| 0 <= k < after.references.len() implies after.source_exists(
        #[trigger] after.references[k],
    ) by {
        assert(t.source_exists(t.references[k]));
    }
    assert forall|k: int| 0 <= k < after.mentions.len() implies after.container_exists(#[trigger] after.mentions[k]) by {
        assert(t.container_exists(t.mentions[k]));
    }
    assert forall|k: int| 0 <= k < after.entities.len() implies after.parent_exists(#[trigger] after.entities[k]) by {
        assert(t.parent_exists(t.entities[k]));
    }
    assert forall|k: int| 0 <= k < after.entity_edges.len() implies after.ends_exist(
        #[trigger] after.entity_edges[k],
    ) by {
        assert(t.ends_exist(t.entity_edges[k]));
    }
}

/// Whatever is added, the tables stay consistent.
pub proof fn law_tables_stay_consistent(t: Tables, input: Input)
    requires
        t.consistent(),
        t.plus(input).in_range(),
    ensures
        t.plus(input).consistent(),
{
    match input {
        Input::Yaml { file_id, objects, references } => {
            lemma_yaml_keeps_consistent(t, file_id, objects, references);
        },
        Input::CSharp { file_id, declarations, mentions } => {
            lemma_csharp_keeps_consistent(t, file_id, declarations, mentions);
        },
        Input::Graph { asset_id, file_id, entities, first_edge, edges } => {
            lemma_graph_keeps_consistent(t, asset_id, file_id, entities, first_edge, edges);
        },
        _ => {
            lemma_others_keep_consistent(t, input);
        },
    }
}

/// Over a whole build the ids of every table are 1 to the number of its rows, in the order in which the
/// rows were added; references, mentions, parents and edges lead to rows that exist, within the same
/// file or asset; and a parent comes before its children.
pub proof fn law_tables_of_a_build(inputs: Seq<Input>)
    requires
        tables_after(inputs).in_range(),
    ensures
        tables_after(inputs).consistent(),
    decreases inputs.len(),
{
    if inputs.len() > 0 {
        let before = tables_after(inputs.drop_last());
        law_tables_of_a_build(inputs.drop_last());
        law_tables_stay_consistent(before, inputs.last());
    }
}

/// Whether a file was not read before.
pub open spec fn is_new_file(t: Tables, file_id: i64) -> bool {
    forall|k: int| 0 <= k < t.references.len() ==> (#[trigger] t.references[k]).file_id != file_id
}

/// A reference is without an object only where no object of its file has the identifier, be it earlier or
/// later in the file: as long as no file with references is read twice.
pub proof fn law_sources_stay_complete(t: Tables, input: Input)
    requires
        t.sources_complete(),
        input matches Input::Yaml { file_id, .. } ==> is_new_file(t, file_id),
    ensures
        t.plus(input).sources_complete(),
{
    if let Input::Yaml { file_id, objects, references } = input {
        let after = t.plus(input);
        let stored = t.with_objects(file_id, objects);
        assert forall|k: int| 0 <= k < after.references.len() implies (#[trigger] after.references[k]).source_yaml_object_id
            == object_id(
            objects_in(after.objects, after.references[k].file_id),
            optional(after.references[k].reference.source_local_identifier),
        ) by {
            if k < t.references.len() {
                let f = t.references[k].file_id;
                assert(f != file_id);
                lemma_objects_in_others(t.objects, t.new_objects(file_id, objects), f);
            } else {
                assert(after.references[k] == stored.new_references(file_id, references)[k - t.references.len()]);
            }
        }
    }
}

/// Whether no Unity YAML file is read twice.
pub open spec fn files_distinct(inputs: Seq<Input>) -> bool {
    forall|i: int, j: int|
        0 <= i < j < inputs.len() && inputs[i] is Yaml && inputs[j] is Yaml ==> #[trigger] inputs[i]->Yaml_file_id
            != #[trigger] inputs[j]->Yaml_file_id
}

/// Every reference comes from a Unity YAML file that was read.
proof fn lemma_references_come_from_files(inputs: Seq<Input>, k: int)
    requires
        0 <= k < tables_after(inputs).references.len(),
    ensures
        exists|i: int|
            0 <= i < inputs.len() && inputs[i] is Yaml && #[trigger] inputs[i]->Yaml_file_id == tables_after(
                inputs,
            ).references[k].file_id,
    decreases inputs.len(),
{
    let init = inputs.drop_last();
    let before = tables_after(init);
    if k < before.references.len() {
        lemma_references_come_from_files(init, k);
        let i = choose|i: int|
            0 <= i < init.len() && init[i] is Yaml && #[trigger] init[i]->Yaml_file_id == before.references[k].file_id;
        assert(inputs[i] == init[i]);
        assert(inputs[i]->Yaml_file_id == before.references[k].file_id);
    } else {
        let n = inputs.len() - 1;
        assert(inputs[n] is Yaml);
        assert(inputs[n]->Yaml_file_id == tables_after(inputs).references[k].file_id);
    }
}

/// In a build that reads no file twice, a reference is without an object if and only if its file has no
/// object with the identifier that it gives.
pub proof fn law_sources_of_a_build(inputs: Seq<Input>)
    requires
        files_distinct(inputs),
    ensures
        tables_after(inputs).sources_complete(),
    decreases inputs.len(),
{
    if inputs.len() > 0 {
        let init = inputs.drop_last();
        let before = tables_after(init);
        assert(files_distinct(init)) by {
            assert forall|i: int, j: int|
                0 <= i < j < init.len() && init[i] is Yaml && init[j] is Yaml implies #[trigger] init[i]->Yaml_file_id
                != #[trigger] init[j]->Yaml_file_id by {
                assert(inputs[i]->Yaml_file_id != inputs[j]->Yaml_file_id);
            }
        }
        law_sources_of_a_build(init);
        if let Input::Yaml { file_id, .. } = inputs.last() {
            assert forall|k: int| 0 <= k < before.references.len() implies (#[trigger] before.references[k]).file_id
                != file_id by {
                lemma_references_come_from_files(init, k);
                let i = choose|i: int|
                    0 <= i < init.len() && init[i] is Yaml && #[trigger] init[i]->Yaml_file_id
                        == before.references[k].file_id;
                assert(inputs[i] == init[i]);
                assert(inputs[i]->Yaml_file_id != inputs[inputs.len() - 1]->Yaml_file_id);
            }
        }
        law_sources_stay_complete(before, inputs.last());
    }
}

/// A repeated build leaves the same rows: where two builds finish on equal inputs, the same tables lie in
/// the place of the index, whatever lay there before.
pub proof fn law_repeated_build_leaves_the_same_rows(
    a: Seq<(Event, u64)>,
    b: Seq<(Event, u64)>,
    inputs: Seq<Input>,
    old_a: Tables,
    old_b: Tables,
)
    requires
        is_run(a),
        is_run(b),
        state_after(a).step == Step::Finished,
        state_after(b).step == Step::Finished,
    ensures
        index_after(a, old_a, tables_after(inputs)) == index_after(b, old_b, tables_after(inputs)),
        index_after(a, old_a, tables_after(inputs)) == tables_after(inputs),
{
    law_index_is_switched_as_a_whole(a, old_a, tables_after(inputs));
    law_index_is_switched_as_a_whole(b, old_b, tables_after(inputs));
}

} // verus!
