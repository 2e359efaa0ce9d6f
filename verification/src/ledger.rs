//! The ledger of a build: numbers the rows of all tables and finds what they refer to.
//!
//! Its tables are those that the rows it has handed out make up. A build begins with an empty ledger, as
//! its draft begins with empty tables.
use crate::files::{
    asset_row, belongs, is_plain, is_stem_of, stored_paths, AssetRow, DiscoveredFile, FileIdRow, FileIds, Group,
};
use crate::graph::{edge_rows, entity_rows, Entity, EntityEdge, EntityEdgeRow, EntityRow};
use crate::lookup::{first_with, last_with};
use crate::rows::{
    build_symbols, law_by_file, mention_rows, number_rows, reference_rows, symbols, CsDeclaration, CsMention, MentionRow,
    ReferenceRow, Row, StoredDeclaration, StoredObject, SymbolRow, YamlObject, YamlReference,
};
use crate::tables::{law_tables_stay_consistent, lemma_objects_in_others, objects_in, Input, Tables};
use std::collections::HashMap;
use vstd::prelude::*;

verus! {

broadcast use vstd::std_specs::hash::group_hash_axioms;

/// The ledger of a build.
pub struct Ledger {
    files: FileIds,
    /// The objects of each file.
    objects: HashMap<i64, Vec<StoredObject>>,
    next_object: i64,
    next_reference: i64,
    next_declaration: i64,
    next_mention: i64,
    next_entity: i64,
    next_asset: i64,
    next_symbol: i64,
    tables: Ghost<Tables>,
}

/// The objects under a file.
spec fn listed(objects: Map<i64, Vec<StoredObject>>, file_id: i64) -> Seq<StoredObject> {
    if objects.contains_key(file_id) {
        objects[file_id]@
    } else {
        Seq::empty()
    }
}

/// The id that rows of a file are stored under: that of the last stored file with the path, or 0.
pub open spec fn file_id_of(files: FileIds, path: Seq<char>) -> i64 {
    match last_with(files.paths(), path) {
        Some(i) => files.ids()[i],
        None => 0,
    }
}

/// The id that the asset of a file is stored under: that of the first stored file with the path.
pub open spec fn stored_id_of(files: FileIds, path: Seq<char>) -> Option<i64> {
    match first_with(files.paths(), path) {
        Some(i) => Some(files.ids()[i]),
        None => None,
    }
}

impl Ledger {
    /// The tables made up by the rows handed out.
    pub closed spec fn tables(self) -> Tables {
        self.tables@
    }

    /// The stored files.
    pub closed spec fn files(self) -> FileIds {
        self.files
    }

    /// The tables are consistent; counters and lists agree with them.
    pub closed spec fn wf(self) -> bool {
        let t = self.tables@;
        &&& t.consistent()
        &&& t.in_range()
        &&& self.next_object == t.objects.len() + 1
        &&& self.next_reference == t.references.len() + 1
        &&& self.next_declaration == t.declarations.len() + 1
        &&& self.next_mention == t.mentions.len() + 1
        &&& self.next_entity == t.entities.len() + 1
        &&& self.next_asset == t.assets.len() + 1
        &&& self.next_symbol == t.symbols.len() + 1
        &&& forall|f: i64| #[trigger] listed(self.objects@, f) == objects_in(t.objects, f)
    }

    /// The tables of a ledger are consistent: ids run from 1 on, and what rows refer to exists.
    pub proof fn law_tables_are_consistent(self)
        requires
            self.wf(),
        ensures
            self.tables().consistent(),
            self.tables().in_range(),
    {
    }

    /// An empty ledger.
    pub fn new() -> (r: Ledger)
        ensures
            r.wf(),
            r.tables() == Tables::empty(),
    {
        let none: Vec<FileIdRow> = Vec::new();
        Ledger {
            files: FileIds::new(&none),
            objects: HashMap::new(),
            next_object: 1,
            next_reference: 1,
            next_declaration: 1,
            next_mention: 1,
            next_entity: 1,
            next_asset: 1,
            next_symbol: 1,
            tables: Ghost(Tables::empty()),
        }
    }

    /// Takes note of the stored files.
    pub fn load_files(&mut self, rows: &Vec<FileIdRow>)
        requires
            old(self).wf(),
        ensures
            final(self).wf(),
            final(self).tables() == old(self).tables(),
            final(self).files().ids() == rows@.map_values(|r: FileIdRow| r.id),
            final(self).files().paths() == stored_paths(rows@),
    {
        self.files = FileIds::new(rows);
    }

    /// Whether every table has room for `n` more rows.
    pub fn has_room(&self, n: usize) -> (r: bool)
        requires
            self.wf(),
        ensures
            r == self.tables().has_room(n as nat),
    {
        let n: u128 = n as u128;
        let max: u128 = i64::MAX as u128;
        self.next_object as u128 + n <= max && self.next_reference as u128 + n <= max && self.next_declaration as u128
            + n <= max && self.next_mention as u128 + n <= max && self.next_entity as u128 + n <= max
            && self.next_asset as u128 + n <= max && self.next_symbol as u128 + n <= max
    }

    /// Adds rows to the objects of a file.
    fn list_objects(&mut self, file_id: i64, rows: &Vec<Row<YamlObject>>, Ghost(before): Ghost<Seq<Row<YamlObject>>>)
        requires
            forall|f: i64| #[trigger] listed(old(self).objects@, f) == objects_in(before, f),
            forall|i: int| 0 <= i < rows@.len() ==> (#[trigger] rows@[i]).file_id == file_id,
        ensures
            *final(self) == (Ledger { objects: final(self).objects, ..*old(self) }),
            forall|f: i64| #[trigger] listed(final(self).objects@, f) == objects_in(before + rows@, f),
    {
        let ghost start = self.objects@;
        let mut list: Vec<StoredObject> = match self.objects.remove(&file_id) {
            Some(list) => list,
            None => Vec::new(),
        };
        assert(list@ =~= listed(start, file_id));
        let mut i: usize = 0;
        assert(before + rows@.take(0) =~= before);
        while i < rows.len()
            invariant
                i <= rows@.len(),
                forall|j: int| 0 <= j < rows@.len() ==> (#[trigger] rows@[j]).file_id == file_id,
                list@ == objects_in(before + rows@.take(i as int), file_id),
            decreases rows@.len() - i,
        {
            let ghost all = before + rows@.take(i + 1);
            assert(all.drop_last() =~= before + rows@.take(i as int));
            assert(all.last() == rows@[i as int]);
            list.push(
                StoredObject { id: rows[i].id, local_identifier: rows[i].item.local_identifier.clone() },
            );
            i = i + 1;
        }
        assert(rows@.take(i as int) =~= rows@);
        self.objects.insert(file_id, list);
        assert forall|f: i64| #[trigger] listed(self.objects@, f) == objects_in(before + rows@, f) by {
            if f != file_id {
                lemma_objects_in_others(before, rows@, f);
                assert(listed(start, f) == objects_in(before, f));
            }
        }
    }

    /// The objects of a file.
    fn objects_of(&self, file_id: i64) -> (r: Vec<StoredObject>)
        ensures
            r@ == listed(self.objects@, file_id),
    {
        let mut r: Vec<StoredObject> = Vec::new();
        if let Some(list) = self.objects.get(&file_id) {
            let mut i: usize = 0;
            while i < list.len()
                invariant
                    i <= list@.len(),
                    r@ == list@.take(i as int),
                decreases list@.len() - i,
            {
                r.push(StoredObject { id: list[i].id, local_identifier: list[i].local_identifier.clone() });
                i = i + 1;
                assert(r@ =~= list@.take(i as int));
            }
            assert(list@.take(i as int) =~= list@);
        }
        r
    }

    /// The rows of the objects and references of a Unity YAML file.
    pub fn add_yaml(
        &mut self,
        path: &str,
        objects: Vec<YamlObject>,
        references: Vec<YamlReference>,
    ) -> (r: (Vec<Row<YamlObject>>, Vec<ReferenceRow>))
        requires
            old(self).wf(),
            old(self).tables().has_room(objects@.len()),
            old(self).tables().has_room(references@.len()),
        ensures
            final(self).wf(),
            final(self).files() == old(self).files(),
            final(self).tables() == old(self).tables().plus(
                Input::Yaml {
                    file_id: file_id_of(old(self).files(), path@),
                    objects: objects@,
                    references: references@,
                },
            ),
            final(self).tables().objects == old(self).tables().objects + r.0@,
            final(self).tables().references == old(self).tables().references + r.1@,
    {
        let file_id = self.files.id_of(path);
        let ghost t = self.tables@;
        let ghost input = Input::Yaml { file_id, objects: objects@, references: references@ };
        let rows = number_rows(&mut self.next_object, file_id, objects);
        assert(rows@ == t.new_objects(file_id, objects@));
        self.list_objects(file_id, &rows, Ghost(t.objects));
        let stored = self.objects_of(file_id);
        assert(listed(self.objects@, file_id) == objects_in(t.objects + rows@, file_id));
        let reference_rows = reference_rows(&mut self.next_reference, file_id, &stored, references);
        proof {
            assert(t.plus(input).in_range());
            law_tables_stay_consistent(t, input);
        }
        self.tables = Ghost(t.plus(input));
        (rows, reference_rows)
    }

    /// The rows of the declarations and mentions of a C# file.
    pub fn add_csharp(
        &mut self,
        path: &str,
        declarations: Vec<CsDeclaration>,
        mentions: Vec<CsMention>,
    ) -> (r: (Vec<Row<CsDeclaration>>, Vec<MentionRow>))
        requires
            old(self).wf(),
            old(self).tables().has_room(declarations@.len()),
            old(self).tables().has_room(mentions@.len()),
        ensures
            final(self).wf(),
            final(self).files() == old(self).files(),
            final(self).tables() == old(self).tables().plus(
                Input::CSharp {
                    file_id: file_id_of(old(self).files(), path@),
                    declarations: declarations@,
                    mentions: mentions@,
                },
            ),
            final(self).tables().declarations == old(self).tables().declarations + r.0@,
            final(self).tables().mentions == old(self).tables().mentions + r.1@,
    {
        let file_id = self.files.id_of(path);
        let ghost t = self.tables@;
        let ghost input = Input::CSharp { file_id, declarations: declarations@, mentions: mentions@ };
        let rows = number_rows(&mut self.next_declaration, file_id, declarations);
        assert(rows@ == t.new_declarations(file_id, declarations@));
        let mention_rows = mention_rows(&mut self.next_mention, file_id, &rows, mentions);
        proof {
            assert(t.plus(input).in_range());
            law_tables_stay_consistent(t, input);
        }
        self.tables = Ghost(t.plus(input));
        (rows, mention_rows)
    }

    /// The rows of the entities of an asset and of the edges between them. `file_id` is the asset's file,
    /// and edges are numbered from `first_edge` on.
    pub fn add_graph(
        &mut self,
        asset_id: i64,
        file_id: i64,
        entities: Vec<Entity>,
        first_edge: i64,
        edges: Vec<EntityEdge>,
    ) -> (r: (Vec<EntityRow>, Vec<EntityEdgeRow>))
        requires
            old(self).wf(),
            old(self).tables().has_room(entities@.len()),
            first_edge + edges@.len() <= i64::MAX,
        ensures
            final(self).wf(),
            final(self).files() == old(self).files(),
            final(self).tables() == old(self).tables().plus(
                Input::Graph { asset_id, file_id, entities: entities@, first_edge, edges: edges@ },
            ),
            final(self).tables().entities == old(self).tables().entities + r.0@,
            final(self).tables().entity_edges == old(self).tables().entity_edges + r.1@,
    {
        let ghost t = self.tables@;
        let ghost input = Input::Graph { asset_id, file_id, entities: entities@, first_edge, edges: edges@ };
        let stored = self.objects_of(file_id);
        assert(listed(self.objects@, file_id) == objects_in(t.objects, file_id));
        let rows = entity_rows(&mut self.next_entity, asset_id, &stored, entities);
        assert(rows@ == t.new_entities(asset_id, file_id, entities@));
        let mut next_edge: i64 = first_edge;
        let edge_rows = edge_rows(&mut next_edge, &rows, edges);
        proof {
            assert(t.plus(input).in_range());
            law_tables_stay_consistent(t, input);
        }
        self.tables = Ghost(t.plus(input));
        (rows, edge_rows)
    }

    /// The row of the asset of a file, where the file is stored.
    pub fn add_asset(&mut self, file: &DiscoveredFile) -> (r: Option<AssetRow>)
        requires
            old(self).wf(),
            old(self).tables().has_room(1),
            belongs(*file, Group::Assets),
        ensures
            final(self).wf(),
            final(self).files() == old(self).files(),
            match stored_id_of(old(self).files(), file.project_rel_path@) {
                Some(file_id) => {
                    &&& r is Some
                    &&& final(self).tables() == old(self).tables().plus(
                        Input::Asset { file_id, file: *file, name: r->0.name@ },
                    )
                    &&& final(self).tables().assets == old(self).tables().assets.push(r->0@)
                    &&& is_plain(file.project_rel_path@) ==> is_stem_of(r->0.name@, file.project_rel_path@)
                },
                None => {
                    &&& r is None
                    &&& final(self).tables() == old(self).tables()
                },
            },
    {
        match self.files.stored_id(file.project_rel_path.as_str()) {
            Some(file_id) => {
                let ghost t = self.tables@;
                let row = asset_row(&mut self.next_asset, file_id, file);
                let ghost input = Input::Asset { file_id, file: *file, name: row.name@ };
                proof {
                    assert(t.plus(input).in_range());
                    law_tables_stay_consistent(t, input);
                }
                self.tables = Ghost(t.plus(input));
                Some(row)
            },
            None => None,
        }
    }

    /// The rows of the symbols of the stored declarations.
    pub fn add_symbols(&mut self, declarations: Vec<StoredDeclaration>) -> (r: Vec<SymbolRow>)
        requires
            old(self).wf(),
            old(self).tables().has_room(declarations@.len()),
        ensures
            final(self).wf(),
            final(self).files() == old(self).files(),
            final(self).tables() == old(self).tables().plus(Input::Symbols { stored: declarations@ }),
            final(self).tables().symbols == old(self).tables().symbols + symbols(r@),
    {
        let ghost t = self.tables@;
        let ghost input = Input::Symbols { stored: declarations@ };
        proof {
            law_by_file(declarations@);
        }
        let rows = build_symbols(&mut self.next_symbol, declarations);
        proof {
            assert(t.plus(input).in_range());
            law_tables_stay_consistent(t, input);
        }
        self.tables = Ghost(t.plus(input));
        rows
    }
}

} // verus!
