//! The entity graph of an asset: entities with their objects and parents, and the edges between them.
use crate::lookup::{first_with, key_texts, lemma_first_with, TextIndex};
use crate::rows::{object_id, ObjectIndex, StoredObject};
use crate::text::{chars_of, optional};
use vstd::prelude::*;

verus! {

/// An entity of an asset.
pub struct Entity {
    /// The object that it comes from, where it is known already.
    pub yaml_object_id: Option<i64>,
    pub entity_kind: String,
    /// Its key within the asset.
    pub local_key: String,
    pub name: Option<String>,
    pub class_name: String,
    /// The key of its parent.
    pub parent_local_key: Option<String>,
    pub line_start: Option<i64>,
    pub line_end: Option<i64>,
}

/// An edge between two entities, given by their keys.
pub struct EntityEdge {
    pub from_local_key: String,
    pub to_local_key: String,
    pub edge_kind: String,
    pub edge_subkind: Option<String>,
}

/// An entity to store.
pub struct EntityRow {
    pub id: i64,
    pub asset_id: i64,
    pub yaml_object_id: Option<i64>,
    pub parent_entity_id: Option<i64>,
    pub entity: Entity,
}

/// An edge to store.
pub struct EntityEdgeRow {
    pub id: i64,
    pub from_entity_id: i64,
    pub to_entity_id: i64,
    pub edge: EntityEdge,
}

/// The keys of entities.
pub open spec fn local_keys(entities: Seq<Entity>) -> Seq<Option<Seq<char>>> {
    entities.map_values(|e: Entity| Some(e.local_key@))
}

/// The object of an entity: the known one, or the first object of the file with the entity's key.
pub open spec fn object_of(entity: Entity, objects: Seq<StoredObject>) -> Option<i64> {
    match entity.yaml_object_id {
        Some(id) => Some(id),
        None => object_id(objects, Some(entity.local_key@)),
    }
}

/// The parent of an entity: the first of the entities before it with the parent's key.
pub open spec fn parent_of(first_id: int, entities: Seq<Entity>, i: int) -> Option<i64> {
    match entities[i].parent_local_key {
        Some(key) => match first_with(local_keys(entities), key@) {
            Some(p) if p < i => Some((first_id + p) as i64),
            _ => None,
        },
        None => None,
    }
}

/// The rows of the entities of an asset.
pub open spec fn entity_rows_of(
    first_id: int,
    asset_id: i64,
    objects: Seq<StoredObject>,
    entities: Seq<Entity>,
) -> Seq<EntityRow> {
    Seq::new(
        entities.len(),
        |i: int|
            EntityRow {
                id: (first_id + i) as i64,
                asset_id,
                yaml_object_id: object_of(entities[i], objects),
                parent_entity_id: parent_of(first_id, entities, i),
                entity: entities[i],
            },
    )
}

/// The keys of entities, for a table.
fn collect_keys(entities: &Vec<Entity>) -> (keys: Vec<Option<String>>)
    ensures
        key_texts(keys@) == local_keys(entities@),
{
    let mut keys: Vec<Option<String>> = Vec::new();
    let mut i: usize = 0;
    while i < entities.len()
        invariant
            i <= entities@.len(),
            key_texts(keys@) == local_keys(entities@).take(i as int),
        decreases entities@.len() - i,
    {
        let ghost before = key_texts(keys@);
        keys.push(Some(entities[i].local_key.clone()));
        assert(key_texts(keys@) =~= before.push(Some(entities@[i as int].local_key@)));
        i = i + 1;
        assert(key_texts(keys@) =~= local_keys(entities@).take(i as int));
    }
    assert(key_texts(keys@) =~= local_keys(entities@));
    keys
}

/// Numbers the entities of an asset and finds their objects and parents. `objects` are those of the
/// asset's file.
pub fn entity_rows(
    next_id: &mut i64,
    asset_id: i64,
    objects: &Vec<StoredObject>,
    entities: Vec<Entity>,
) -> (r: Vec<EntityRow>)
    requires
        *old(next_id) + entities@.len() <= i64::MAX,
    ensures
        *final(next_id) == *old(next_id) + entities@.len(),
        r@ == entity_rows_of(*old(next_id) as int, asset_id, objects@, entities@),
{
    let ghost all = entities@;
    let ghost first = *next_id as int;
    let object_index = ObjectIndex::new(objects);
    let keys = collect_keys(&entities);
    let index = TextIndex::new(&keys);
    let mut rows: Vec<EntityRow> = Vec::new();
    let ghost wanted = entity_rows_of(first, asset_id, objects@, all);
    for entity in it: entities
        invariant
            it.seq() == all,
            index@ == local_keys(all),
            object_index.objects() == objects@,
            wanted == entity_rows_of(first, asset_id, objects@, all),
            *next_id == first + it.index(),
            first + all.len() <= i64::MAX,
            rows@ == wanted.take(it.index() as int),
    {
        let yaml_object_id = match entity.yaml_object_id {
            Some(id) => Some(id),
            None => object_index.id_of(&Some(entity.local_key.clone())),
        };
        let parent_entity_id = match &entity.parent_local_key {
            Some(key) => {
                proof {
                    lemma_first_with(index@, key@);
                }
                match index.first(key.as_str()) {
                    Some(p) => if p < rows.len() {
                        Some(rows[p].id)
                    } else {
                        None
                    },
                    None => None,
                }
            },
            None => None,
        };
        rows.push(EntityRow { id: *next_id, asset_id, yaml_object_id, parent_entity_id, entity });
        *next_id = *next_id + 1;
        assert(rows@ =~= wanted.take(it.index() + 1));
    }
    assert(rows@ =~= wanted);
    rows
}

/// A parent comes before its children, within the same asset: following parents always ends.
pub proof fn law_parent_before_child(
    first_id: int,
    asset_id: i64,
    objects: Seq<StoredObject>,
    entities: Seq<Entity>,
    i: int,
)
    requires
        i64::MIN <= first_id,
        first_id + entities.len() <= i64::MAX,
        0 <= i < entities.len(),
    ensures
        ({
            let rows = entity_rows_of(first_id, asset_id, objects, entities);
            rows[i].parent_entity_id matches Some(p) ==> {
                &&& first_id <= p < rows[i].id
                &&& optional(entities[i].parent_local_key) == Some(entities[p - first_id].local_key@)
            }
        }),
{
    let keys = local_keys(entities);
    if let Some(key) = entities[i].parent_local_key {
        lemma_first_with(keys, key@);
        if let Some(p) = first_with(keys, key@) {
            assert(keys[p] == Some(entities[p].local_key@));
        }
    }
}

/// The keys of stored entities.
pub open spec fn row_keys(rows: Seq<EntityRow>) -> Seq<Option<Seq<char>>> {
    rows.map_values(|r: EntityRow| Some(r.entity.local_key@))
}

/// The id of the first stored entity with a key.
pub open spec fn entity_id(rows: Seq<EntityRow>, key: Seq<char>) -> Option<i64> {
    match first_with(row_keys(rows), key) {
        Some(i) => Some(rows[i].id),
        None => None,
    }
}

/// Whether a key leads out of the asset.
pub open spec fn leads_out(key: Seq<char>) -> bool {
    key.len() >= 5 && key.take(5) == "guid:"@
}

/// Whether a key leads out of the asset.
fn is_foreign(key: &str) -> (r: bool)
    ensures
        r == leads_out(key@),
{
    proof {
        reveal_strlit("guid:");
    }
    let chars = chars_of(key);
    let r = chars.len() >= 5 && chars[0] == 'g' && chars[1] == 'u' && chars[2] == 'i' && chars[3] == 'd' && chars[4]
        == ':';
    proof {
        if key@.len() >= 5 {
            let head = key@.take(5);
            assert("guid:"@ =~= seq!['g', 'u', 'i', 'd', ':']);
            assert(head[0] == key@[0] && head[1] == key@[1] && head[2] == key@[2] && head[3] == key@[3] && head[4]
                == key@[4]);
            if r {
                assert(head =~= "guid:"@);
            }
        }
    }
    r
}

/// The ends of an edge, where both are entities of the asset.
pub open spec fn ends_of(rows: Seq<EntityRow>, edge: EntityEdge) -> Option<(i64, i64)> {
    if leads_out(edge.to_local_key@) {
        None
    } else {
        match (entity_id(rows, edge.from_local_key@), entity_id(rows, edge.to_local_key@)) {
            (Some(from), Some(to)) => Some((from, to)),
            _ => None,
        }
    }
}

/// The rows of the edges of an asset: those with both ends in the asset, numbered from `first_id` on.
pub open spec fn edge_rows_of(first_id: int, rows: Seq<EntityRow>, edges: Seq<EntityEdge>) -> Seq<EntityEdgeRow>
    decreases edges.len(),
{
    if edges.len() == 0 {
        Seq::empty()
    } else {
        let before = edge_rows_of(first_id, rows, edges.drop_last());
        match ends_of(rows, edges.last()) {
            Some((from, to)) => before.push(
                EntityEdgeRow {
                    id: (first_id + before.len()) as i64,
                    from_entity_id: from,
                    to_entity_id: to,
                    edge: edges.last(),
                },
            ),
            None => before,
        }
    }
}

/// Numbers the edges of an asset and finds their ends. Edges that lead out of the asset, or to an
/// entity that it does not have, are left out.
pub fn edge_rows(next_id: &mut i64, rows: &Vec<EntityRow>, edges: Vec<EntityEdge>) -> (r: Vec<EntityEdgeRow>)
    requires
        *old(next_id) + edges@.len() <= i64::MAX,
    ensures
        *final(next_id) == *old(next_id) + r@.len(),
        r@ == edge_rows_of(*old(next_id) as int, rows@, edges@),
{
    let ghost all = edges@;
    let ghost first = *next_id as int;
    let mut keys: Vec<Option<String>> = Vec::new();
    let mut i: usize = 0;
    while i < rows.len()
        invariant
            i <= rows@.len(),
            key_texts(keys@) == row_keys(rows@).take(i as int),
        decreases rows@.len() - i,
    {
        let ghost before = key_texts(keys@);
        keys.push(Some(rows[i].entity.local_key.clone()));
        assert(key_texts(keys@) =~= before.push(Some(rows@[i as int].entity.local_key@)));
        i = i + 1;
        assert(key_texts(keys@) =~= row_keys(rows@).take(i as int));
    }
    assert(key_texts(keys@) =~= row_keys(rows@));
    let index = TextIndex::new(&keys);
    let mut out: Vec<EntityEdgeRow> = Vec::new();
    assert(out@ =~= edge_rows_of(first, rows@, all.take(0)));
    for edge in it: edges
        invariant
            it.seq() == all,
            index@ == row_keys(rows@),
            out@.len() <= it.index(),
            *next_id == first + out@.len(),
            first + all.len() <= i64::MAX,
            out@ == edge_rows_of(first, rows@, all.take(it.index() as int)),
    {
        assert(all.take(it.index() + 1).drop_last() =~= all.take(it.index() as int));
        proof {
            lemma_first_with(index@, edge.from_local_key@);
            lemma_first_with(index@, edge.to_local_key@);
        }
        if !is_foreign(edge.to_local_key.as_str()) {
            if let Some(from) = index.first(edge.from_local_key.as_str()) {
                if let Some(to) = index.first(edge.to_local_key.as_str()) {
                    out.push(
                        EntityEdgeRow { id: *next_id, from_entity_id: rows[from].id, to_entity_id: rows[to].id, edge },
                    );
                    *next_id = *next_id + 1;
                }
            }
        }
    }
    assert(all.take(all.len() as int) =~= all);
    out
}

/// Every stored edge joins two entities of its asset, and does not lead out of it.
pub proof fn law_edges_stay_in_asset(first_id: int, rows: Seq<EntityRow>, edges: Seq<EntityEdge>, k: int)
    requires
        0 <= k < edge_rows_of(first_id, rows, edges).len(),
    ensures
        ({
            let e = edge_rows_of(first_id, rows, edges)[k];
            &&& edges.contains(e.edge)
            &&& !leads_out(e.edge.to_local_key@)
            &&& entity_id(rows, e.edge.from_local_key@) == Some(e.from_entity_id)
            &&& entity_id(rows, e.edge.to_local_key@) == Some(e.to_entity_id)
        }),
    decreases edges.len(),
{
    if edges.len() > 0 {
        let init = edges.drop_last();
        let before = edge_rows_of(first_id, rows, init);
        if k < before.len() {
            law_edges_stay_in_asset(first_id, rows, init, k);
            let i = choose|i: int| 0 <= i < init.len() && init[i] == before[k].edge;
            assert(edges[i] == before[k].edge);
        } else {
            assert(edges[edges.len() - 1] == edges.last());
        }
    }
}

/// Every edge with both ends in the asset is stored.
pub proof fn law_edges_in_asset_are_kept(first_id: int, rows: Seq<EntityRow>, edges: Seq<EntityEdge>, i: int)
    requires
        0 <= i < edges.len(),
        ends_of(rows, edges[i]) is Some,
    ensures
        exists|k: int|
            0 <= k < edge_rows_of(first_id, rows, edges).len() && (#[trigger] edge_rows_of(
                first_id,
                rows,
                edges,
            )[k]).edge == edges[i],
    decreases edges.len(),
{
    let all = edge_rows_of(first_id, rows, edges);
    let init = edges.drop_last();
    let before = edge_rows_of(first_id, rows, init);
    if i < init.len() {
        assert(init[i] == edges[i]);
        law_edges_in_asset_are_kept(first_id, rows, init, i);
        let k = choose|k: int| 0 <= k < before.len() && (#[trigger] before[k]).edge == init[i];
        assert(all[k].edge == edges[i]);
    } else {
        assert(all[all.len() - 1].edge == edges[i]);
    }
}

} // verus!
