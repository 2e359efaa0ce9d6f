//! No edge comes twice, where entries, entities and symbols have ids of their own.
use crate::edge_laws::{law_distinct, lemma_edges_by_part};
use crate::edges::{
    all_between, all_reference_edges, binding_edges, binds_to, child_edges, child_of, defined_in, definition_edges,
    distinct, edge_between, entity_keys, file_keys, file_path_keys, path_keys, script_edges, symbol_ids, vfs_edges,
    EdgeKind, EdgeTables, EdgeView, EntryRecord,
};
use crate::lookup::{lemma_rows_with, rows_with};
use vstd::prelude::*;

verus! {

/// Whether no two entries have the same id.
pub open spec fn entries_differ(entries: Seq<EntryRecord>) -> bool {
    forall|i: int, j: int| 0 <= i < j < entries.len() ==> (#[trigger] entries[i]).id != (#[trigger] entries[j]).id
}

/// Whether no two entries, entities or symbols have the same id.
pub open spec fn ids_differ(tables: EdgeTables) -> bool {
    &&& entries_differ(tables.entries@)
    &&& forall|i: int, j: int|
        0 <= i < j < tables.entities@.len() ==> (#[trigger] tables.entities@[i]).id != (
        #[trigger] tables.entities@[j]).id
    &&& forall|i: int, j: int|
        0 <= i < j < tables.symbols@.len() ==> (#[trigger] tables.symbols@[i]).id != (#[trigger] tables.symbols@[j]).id
}

/// Positions with a key stand in ascending order.
pub proof fn law_positions_ascend<T>(keys: Seq<Option<T>>, key: T)
    ensures
        forall|a: int, b: int|
            0 <= a < b < rows_with(keys, key).len() ==> #[trigger] rows_with(keys, key)[a] < #[trigger] rows_with(
                keys,
                key,
            )[b],
    decreases keys.len(),
{
    if keys.len() > 0 {
        let init = keys.drop_last();
        law_positions_ascend(init, key);
        lemma_rows_with(init, key);
        let before = rows_with(init, key);
        let all = rows_with(keys, key);
        assert forall|a: int, b: int| 0 <= a < b < all.len() implies #[trigger] all[a] < #[trigger] all[b] by {
            assert(all[a] == before[a]);
            if b < before.len() {
                assert(all[b] == before[b]);
            }
        }
    }
}

/// Whether positions are those of entries, and no two are the same.
spec fn are_places(rows: Seq<int>, len: nat) -> bool {
    &&& forall|a: int| 0 <= a < rows.len() ==> 0 <= #[trigger] rows[a] < len
    &&& forall|a: int, b: int| 0 <= a < b < rows.len() ==> #[trigger] rows[a] < #[trigger] rows[b]
}

proof fn lemma_places<T>(keys: Seq<Option<T>>, key: T)
    ensures
        are_places(rows_with(keys, key), keys.len()),
{
    law_positions_ascend(keys, key);
    lemma_rows_with(keys, key);
}

proof fn lemma_add_differ(a: Seq<EdgeView>, b: Seq<EdgeView>)
    requires
        a.no_duplicates(),
        b.no_duplicates(),
        forall|i: int, j: int| 0 <= i < a.len() && 0 <= j < b.len() ==> #[trigger] a[i] != #[trigger] b[j],
    ensures
        (a + b).no_duplicates(),
{
    let all = a + b;
    assert forall|i: int, j: int| 0 <= i < all.len() && 0 <= j < all.len() && i != j implies all[i] != all[j] by {
        let n = a.len() as int;
        if i < n && j >= n {
            assert(a[i] != b[j - n]);
        } else if i >= n && j < n {
            assert(a[j] != b[i - n]);
        }
    }
}

proof fn lemma_child_of_differ(entries: Seq<EntryRecord>, project_id: i64, n: nat)
    requires
        entries_differ(entries),
        n <= entries.len(),
    ensures
        child_of(entries, project_id, n).no_duplicates(),
        forall|k: int|
            0 <= k < child_of(entries, project_id, n).len() ==> exists|i: int|
                0 <= i < n && (#[trigger] entries[i]).id == (#[trigger] child_of(entries, project_id, n)[k]).to,
    decreases n,
{
    if n > 0 {
        let before = child_of(entries, project_id, (n - 1) as nat);
        let more = child_edges(entries, project_id, n - 1);
        let all = child_of(entries, project_id, n);
        lemma_child_of_differ(entries, project_id, (n - 1) as nat);
        assert forall|k: int| 0 <= k < more.len() implies (#[trigger] more[k]).to == entries[n - 1].id by {}
        assert(more.no_duplicates()) by {
            if let Some(parent) = entries[n - 1].parent_vfs_path {
                let rows = rows_with(path_keys(entries, project_id), parent@);
                lemma_places(path_keys(entries, project_id), parent@);
                assert forall|i: int, j: int| 0 <= i < more.len() && 0 <= j < more.len() && i != j implies more[i]
                    != more[j] by {
                    assert(rows[i] != rows[j]);
                    assert(entries[rows[i]].id != entries[rows[j]].id);
                }
            }
        }
        assert forall|i: int, j: int| 0 <= i < before.len() && 0 <= j < more.len() implies #[trigger] before[i]
            != #[trigger] more[j] by {
            let p = choose|p: int| 0 <= p < n - 1 && (#[trigger] entries[p]).id == before[i].to;
            assert(entries[p].id != entries[n - 1].id);
        }
        lemma_add_differ(before, more);
        assert forall|k: int| 0 <= k < all.len() implies exists|i: int|
            0 <= i < n && (#[trigger] entries[i]).id == (#[trigger] all[k]).to by {
            if k < before.len() {
                assert(all[k] == before[k]);
                let p = choose|p: int| 0 <= p < n - 1 && (#[trigger] entries[p]).id == before[k].to;
                assert(entries[p].id == all[k].to);
            } else {
                assert(all[k] == more[k - before.len()]);
                assert(entries[n - 1].id == all[k].to);
            }
        }
    }
}

proof fn lemma_defined_in_differ(entries: Seq<EntryRecord>, project_id: i64, n: nat)
    requires
        entries_differ(entries),
        n <= entries.len(),
    ensures
        defined_in(entries, project_id, n).no_duplicates(),
        forall|k: int|
            0 <= k < defined_in(entries, project_id, n).len() ==> exists|i: int|
                0 <= i < n && (#[trigger] entries[i]).id == (#[trigger] defined_in(entries, project_id, n)[k]).from,
    decreases n,
{
    if n > 0 {
        let before = defined_in(entries, project_id, (n - 1) as nat);
        let more = definition_edges(entries, project_id, n - 1);
        let all = defined_in(entries, project_id, n);
        lemma_defined_in_differ(entries, project_id, (n - 1) as nat);
        assert forall|k: int| 0 <= k < more.len() implies (#[trigger] more[k]).from == entries[n - 1].id by {}
        assert(more.no_duplicates()) by {
            if let Some(parent) = entries[n - 1].parent_vfs_path {
                let rows = rows_with(file_path_keys(entries, project_id), parent@);
                lemma_places(file_path_keys(entries, project_id), parent@);
                assert forall|i: int, j: int| 0 <= i < more.len() && 0 <= j < more.len() && i != j implies more[i]
                    != more[j] by {
                    assert(rows[i] != rows[j]);
                    assert(entries[rows[i]].id != entries[rows[j]].id);
                }
            }
        }
        assert forall|i: int, j: int| 0 <= i < before.len() && 0 <= j < more.len() implies #[trigger] before[i]
            != #[trigger] more[j] by {
            let p = choose|p: int| 0 <= p < n - 1 && (#[trigger] entries[p]).id == before[i].from;
            assert(entries[p].id != entries[n - 1].id);
        }
        lemma_add_differ(before, more);
        assert forall|k: int| 0 <= k < all.len() implies exists|i: int|
            0 <= i < n && (#[trigger] entries[i]).id == (#[trigger] all[k]).from by {
            if k < before.len() {
                assert(all[k] == before[k]);
                let p = choose|p: int| 0 <= p < n - 1 && (#[trigger] entries[p]).id == before[k].from;
                assert(entries[p].id == all[k].from);
            } else {
                assert(all[k] == more[k - before.len()]);
                assert(entries[n - 1].id == all[k].from);
            }
        }
    }
}

/// Edges from each of some entries to each of some others are all different.
proof fn lemma_all_between_differ(
    entries: Seq<EntryRecord>,
    from: Seq<int>,
    to: Seq<int>,
    kind: EdgeKind,
    subkind: Option<Seq<char>>,
)
    requires
        entries_differ(entries),
        are_places(from, entries.len()),
        are_places(to, entries.len()),
    ensures
        all_between(entries, from, to, kind, subkind).no_duplicates(),
        forall|k: int|
            0 <= k < all_between(entries, from, to, kind, subkind).len() ==> exists|a: int|
                0 <= a < from.len() && entries[#[trigger] from[a]].id == (#[trigger] all_between(
                    entries,
                    from,
                    to,
                    kind,
                    subkind,
                )[k]).from,
    decreases from.len(),
{
    if from.len() > 0 {
        let init = from.drop_last();
        let n = from.len() - 1;
        assert(are_places(init, entries.len())) by {
            assert forall|a: int| 0 <= a < init.len() implies 0 <= #[trigger] init[a] < entries.len() by {
                assert(init[a] == from[a]);
            }
            assert forall|a: int, b: int| 0 <= a < b < init.len() implies #[trigger] init[a] < #[trigger] init[b] by {
                assert(from[a] < from[b]);
            }
        }
        lemma_all_between_differ(entries, init, to, kind, subkind);
        let before = all_between(entries, init, to, kind, subkind);
        let more = to.map_values(|v: int| edge_between(entries, from.last(), v, kind, subkind));
        let all = all_between(entries, from, to, kind, subkind);
        assert(more.no_duplicates()) by {
            assert forall|i: int, j: int| 0 <= i < more.len() && 0 <= j < more.len() && i != j implies more[i]
                != more[j] by {
                assert(to[i] != to[j]);
                assert(entries[to[i]].id != entries[to[j]].id);
            }
        }
        assert forall|i: int, j: int| 0 <= i < before.len() && 0 <= j < more.len() implies #[trigger] before[i]
            != #[trigger] more[j] by {
            let a = choose|a: int| 0 <= a < init.len() && entries[#[trigger] init[a]].id == before[i].from;
            assert(from[a] < from[n]);
            assert(entries[from[a]].id != entries[from[n]].id);
        }
        lemma_add_differ(before, more);
        assert forall|k: int| 0 <= k < all.len() implies exists|a: int|
            0 <= a < from.len() && entries[#[trigger] from[a]].id == (#[trigger] all[k]).from by {
            if k < before.len() {
                assert(all[k] == before[k]);
                let a = choose|a: int| 0 <= a < init.len() && entries[#[trigger] init[a]].id == before[k].from;
                assert(entries[from[a]].id == all[k].from);
            } else {
                assert(all[k] == more[k - before.len()]);
                assert(entries[from[n]].id == all[k].from);
            }
        }
    }
}

/// Whether an edge comes from an entry of the entity.
spec fn comes_from(tables: EdgeTables, e: EdgeView, entity: i64) -> bool {
    exists|u: int|
        0 <= u < tables.entries@.len() && (#[trigger] tables.entries@[u]).id == e.from
            && tables.entries@[u].source_entity_id == Some(entity)
}

/// Whether an edge comes from an entry of one of the first `n` entities.
spec fn comes_from_first(tables: EdgeTables, e: EdgeView, n: nat) -> bool {
    exists|c: int| 0 <= c < n && comes_from(tables, e, (#[trigger] tables.entities@[c]).id)
}

proof fn lemma_binding_edges_differ(tables: EdgeTables, project_id: i64, c: int)
    requires
        ids_differ(tables),
        0 <= c < tables.entities@.len(),
    ensures
        binding_edges(tables, project_id, c).no_duplicates(),
        forall|k: int|
            0 <= k < binding_edges(tables, project_id, c).len() ==> comes_from(
                tables,
                #[trigger] binding_edges(tables, project_id, c)[k],
                tables.entities@[c].id,
            ),
{
    let e = tables.entities@[c];
    let all = binding_edges(tables, project_id, c);
    if let Some(script) = e.script_symbol_id {
        if e.entity_kind@ == "component"@ {
            let keys = symbol_ids(tables.symbols@);
            let targets = rows_with(keys, script);
            lemma_places(keys, script);
            lemma_rows_with(keys, script);
            if targets.len() > 1 {
                assert(keys[targets[0]] == Some(script) && keys[targets[1]] == Some(script));
                assert(tables.symbols@[targets[0]].id != tables.symbols@[targets[1]].id);
            }
            if targets.len() == 1 {
                let from = rows_with(entity_keys(tables.entries@), e.id);
                let to = rows_with(file_keys(tables.entries@, project_id), tables.symbols@[targets[0]].file_id);
                lemma_places(entity_keys(tables.entries@), e.id);
                lemma_rows_with(entity_keys(tables.entries@), e.id);
                lemma_places(file_keys(tables.entries@, project_id), tables.symbols@[targets[0]].file_id);
                let sub = Some("component_script"@);
                lemma_all_between_differ(tables.entries@, from, to, EdgeKind::BindsTo, sub);
                reveal_with_fuel(script_edges, 2);
                assert(all =~= all_between(tables.entries@, from, to, EdgeKind::BindsTo, sub));
                assert forall|k: int| 0 <= k < all.len() implies comes_from(tables, #[trigger] all[k], e.id) by {
                    let a = choose|a: int|
                        0 <= a < from.len() && tables.entries@[#[trigger] from[a]].id == all[k].from;
                    assert(entity_keys(tables.entries@)[from[a]] == Some(e.id));
                    assert(tables.entries@[from[a]].id == all[k].from);
                }
            }
        }
    }
}

proof fn lemma_binds_to_differ(tables: EdgeTables, project_id: i64, n: nat)
    requires
        ids_differ(tables),
        n <= tables.entities@.len(),
    ensures
        binds_to(tables, project_id, n).no_duplicates(),
        forall|k: int|
            0 <= k < binds_to(tables, project_id, n).len() ==> comes_from_first(
                tables,
                #[trigger] binds_to(tables, project_id, n)[k],
                n,
            ),
    decreases n,
{
    if n > 0 {
        let before = binds_to(tables, project_id, (n - 1) as nat);
        let more = binding_edges(tables, project_id, n - 1);
        let all = binds_to(tables, project_id, n);
        lemma_binds_to_differ(tables, project_id, (n - 1) as nat);
        lemma_binding_edges_differ(tables, project_id, n - 1);
        let last = tables.entities@[n - 1].id;
        assert forall|i: int, j: int| 0 <= i < before.len() && 0 <= j < more.len() implies #[trigger] before[i]
            != #[trigger] more[j] by {
            assert(comes_from_first(tables, before[i], (n - 1) as nat));
            let c = choose|c: int|
                0 <= c < n - 1 && comes_from(tables, before[i], (#[trigger] tables.entities@[c]).id);
            assert(tables.entities@[c].id != last);
            assert(comes_from(tables, more[j], last));
            let u = choose|u: int|
                0 <= u < tables.entries@.len() && (#[trigger] tables.entries@[u]).id == before[i].from
                    && tables.entries@[u].source_entity_id == Some(tables.entities@[c].id);
            let v = choose|v: int|
                0 <= v < tables.entries@.len() && (#[trigger] tables.entries@[v]).id == more[j].from
                    && tables.entries@[v].source_entity_id == Some(last);
            assert(u != v);
            if u < v {
                assert(tables.entries@[u].id != tables.entries@[v].id);
            } else {
                assert(tables.entries@[v].id != tables.entries@[u].id);
            }
        }
        lemma_add_differ(before, more);
        assert forall|k: int| 0 <= k < all.len() implies comes_from_first(tables, #[trigger] all[k], n) by {
            if k < before.len() {
                assert(all[k] == before[k]);
                assert(comes_from_first(tables, before[k], (n - 1) as nat));
                let c = choose|c: int|
                    0 <= c < n - 1 && comes_from(tables, before[k], (#[trigger] tables.entities@[c]).id);
                assert(comes_from(tables, all[k], tables.entities@[c].id));
            } else {
                assert(all[k] == more[k - before.len()]);
                assert(comes_from(tables, all[k], last));
            }
        }
    }
}

/// No edge comes twice, where no two entries, entities or symbols have the same id.
pub proof fn law_no_edge_twice(tables: EdgeTables, project_id: i64)
    requires
        ids_differ(tables),
    ensures
        vfs_edges(tables, project_id).no_duplicates(),
{
    let n = tables.references@.len();
    let s1 = child_of(tables.entries@, project_id, tables.entries@.len());
    let s2 = defined_in(tables.entries@, project_id, tables.entries@.len());
    let r3 = all_reference_edges(tables, project_id, EdgeKind::DependsOn, n);
    let s4 = binds_to(tables, project_id, tables.entities@.len());
    let r5 = all_reference_edges(tables, project_id, EdgeKind::InstanceOf, n);
    let s3 = distinct(r3);
    let s5 = distinct(r5);
    law_distinct(r3);
    law_distinct(r5);
    lemma_child_of_differ(tables.entries@, project_id, tables.entries@.len());
    lemma_defined_in_differ(tables.entries@, project_id, tables.entries@.len());
    lemma_binds_to_differ(tables, project_id, tables.entities@.len());
    lemma_edges_by_part(tables, project_id);
    lemma_add_differ(s1, s2);
    lemma_add_differ(s1 + s2, s3);
    lemma_add_differ(s1 + s2 + s3, s4);
    lemma_add_differ(s1 + s2 + s3 + s4, s5);
}

} // verus!
