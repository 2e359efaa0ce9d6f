//! What the edges of the virtual file system are, kind by kind.
//!
//! The edge lists are made by walking over rows. The laws here say which edges they hold.
use crate::edges::{
    all_between, all_reference_edges, binding_edges, binds_to, child_edges, child_of, defined_in, definition_edges,
    distinct, edge_between, edges_to_files, entity_keys, file_keys, file_path_keys, guid_keys, is_source,
    lower, path_keys, reference_edges, reference_subkind, script_edges, symbol_ids, vfs_edges, EdgeKind, EdgeTables, EdgeView,
    EntryRecord,
};
use crate::lookup::{lemma_rows_with, rows_with};
use crate::text::optional;
use crate::vfs::EntryType;
use vstd::prelude::*;

verus! {

/// Whether the entry at `p` is the parent of the entry at `c`.
pub open spec fn is_parent(entries: Seq<EntryRecord>, project_id: i64, p: int, c: int) -> bool {
    &&& 0 <= p < entries.len()
    &&& 0 <= c < entries.len()
    &&& entries[p].project_id == project_id
    &&& entries[c].project_id == project_id
    &&& optional(entries[c].parent_vfs_path) == Some(entries[p].vfs_path@)
}

/// Whether the node at `n` is defined in the file at `f`.
pub open spec fn is_definition(entries: Seq<EntryRecord>, project_id: i64, n: int, f: int) -> bool {
    &&& is_parent(entries, project_id, f, n)
    &&& entries[n].entry_type == EntryType::Node
    &&& entries[f].entry_type == EntryType::File
}

/// Whether the entry at `i` stands for a file of the project.
pub open spec fn stands_for(entries: Seq<EntryRecord>, project_id: i64, i: int, file_id: i64) -> bool {
    &&& 0 <= i < entries.len()
    &&& entries[i].project_id == project_id
    &&& entries[i].entry_type == EntryType::File
    &&& entries[i].source_file_id == Some(file_id)
}

/// Whether the file at `t` has the GUID, in upper or lower case.
pub open spec fn has_guid(tables: EdgeTables, t: int, guid: Seq<char>) -> bool {
    &&& 0 <= t < tables.files@.len()
    &&& tables.files@[t].guid matches Some(g) && lower(g@) == lower(guid)
}

/// Whether the reference at `r` leads from the file entry at `u` to the file entry at `v`, by way of
/// the file at `t`.
pub open spec fn refers(tables: EdgeTables, project_id: i64, kind: EdgeKind, r: int, t: int, u: int, v: int) -> bool {
    &&& 0 <= r < tables.references@.len()
    &&& tables.references@[r].target_guid matches Some(guid) && has_guid(tables, t, guid@)
    &&& is_source(tables.files@, tables.references@[r].file_id, kind)
    &&& stands_for(tables.entries@, project_id, u, tables.references@[r].file_id)
    &&& stands_for(tables.entries@, project_id, v, tables.files@[t].id)
}

/// Whether the component at `c` is bound to the script class whose symbol is at `s`, where the entry at
/// `u` stands for the component and the one at `v` for the file of the class.
pub open spec fn is_bound(tables: EdgeTables, project_id: i64, c: int, s: int, u: int, v: int) -> bool {
    &&& 0 <= c < tables.entities@.len()
    &&& 0 <= s < tables.symbols@.len()
    &&& 0 <= u < tables.entries@.len()
    &&& tables.entities@[c].entity_kind@ == "component"@
    &&& tables.entities@[c].script_symbol_id == Some(tables.symbols@[s].id)
    &&& tables.entries@[u].source_entity_id == Some(tables.entities@[c].id)
    &&& stands_for(tables.entries@, project_id, v, tables.symbols@[s].file_id)
}

proof fn lemma_concat_contains(a: Seq<EdgeView>, b: Seq<EdgeView>, e: EdgeView)
    ensures
        (a + b).contains(e) <==> a.contains(e) || b.contains(e),
{
    if a.contains(e) {
        let i = choose|i: int| 0 <= i < a.len() && a[i] == e;
        assert((a + b)[i] == e);
    }
    if b.contains(e) {
        let i = choose|i: int| 0 <= i < b.len() && b[i] == e;
        assert((a + b)[a.len() + i] == e);
    }
    if (a + b).contains(e) {
        let i = choose|i: int| 0 <= i < (a + b).len() && (a + b)[i] == e;
        if i < a.len() {
            assert(a[i] == e);
        } else {
            assert(b[i - a.len()] == e);
        }
    }
}

proof fn lemma_child_edges(entries: Seq<EntryRecord>, project_id: i64, c: int, e: EdgeView)
    requires
        0 <= c < entries.len(),
    ensures
        child_edges(entries, project_id, c).contains(e) <==> exists|p: int|
            #[trigger] is_parent(entries, project_id, p, c) && e == edge_between(entries, p, c, EdgeKind::ChildOf, None),
{
    let s = child_edges(entries, project_id, c);
    let keys = path_keys(entries, project_id);
    if let Some(parent) = entries[c].parent_vfs_path {
        let rows = rows_with(keys, parent@);
        lemma_rows_with(keys, parent@);
        if s.contains(e) {
            let k = choose|k: int| 0 <= k < s.len() && s[k] == e;
            let p = rows[k];
            assert(keys[p] == Some(parent@));
            assert(is_parent(entries, project_id, p, c));
        }
        if exists|p: int|
            #[trigger] is_parent(entries, project_id, p, c) && e == edge_between(
                entries,
                p,
                c,
                EdgeKind::ChildOf,
                None,
            ) {
            let p = choose|p: int|
                #[trigger] is_parent(entries, project_id, p, c) && e == edge_between(
                    entries,
                    p,
                    c,
                    EdgeKind::ChildOf,
                    None,
                );
            assert(keys[p] == Some(parent@));
            let k = choose|k: int| 0 <= k < rows.len() && rows[k] == p;
            assert(s[k] == e);
        }
    }
}

proof fn lemma_child_of(entries: Seq<EntryRecord>, project_id: i64, n: nat, e: EdgeView)
    requires
        n <= entries.len(),
    ensures
        child_of(entries, project_id, n).contains(e) <==> exists|p: int, c: int|
            #[trigger] is_parent(entries, project_id, p, c) && c < n && e == edge_between(
                entries,
                p,
                c,
                EdgeKind::ChildOf,
                None,
            ),
    decreases n,
{
    if n > 0 {
        lemma_child_of(entries, project_id, (n - 1) as nat, e);
        lemma_child_edges(entries, project_id, n - 1, e);
        lemma_concat_contains(
            child_of(entries, project_id, (n - 1) as nat),
            child_edges(entries, project_id, n - 1),
            e,
        );
    }
}

proof fn lemma_definition_edges(entries: Seq<EntryRecord>, project_id: i64, n: int, e: EdgeView)
    requires
        0 <= n < entries.len(),
    ensures
        definition_edges(entries, project_id, n).contains(e) <==> exists|f: int|
            #[trigger] is_definition(entries, project_id, n, f) && e == edge_between(
                entries,
                n,
                f,
                EdgeKind::DefinedIn,
                None,
            ),
{
    let s = definition_edges(entries, project_id, n);
    let keys = file_path_keys(entries, project_id);
    if let Some(parent) = entries[n].parent_vfs_path {
        let rows = rows_with(keys, parent@);
        lemma_rows_with(keys, parent@);
        if s.contains(e) {
            let k = choose|k: int| 0 <= k < s.len() && s[k] == e;
            let f = rows[k];
            assert(keys[f] == Some(parent@));
            assert(is_definition(entries, project_id, n, f));
        }
        if exists|f: int|
            #[trigger] is_definition(entries, project_id, n, f) && e == edge_between(
                entries,
                n,
                f,
                EdgeKind::DefinedIn,
                None,
            ) {
            let f = choose|f: int|
                #[trigger] is_definition(entries, project_id, n, f) && e == edge_between(
                    entries,
                    n,
                    f,
                    EdgeKind::DefinedIn,
                    None,
                );
            assert(keys[f] == Some(parent@));
            let k = choose|k: int| 0 <= k < rows.len() && rows[k] == f;
            assert(s[k] == e);
        }
    }
}

proof fn lemma_defined_in(entries: Seq<EntryRecord>, project_id: i64, n: nat, e: EdgeView)
    requires
        n <= entries.len(),
    ensures
        defined_in(entries, project_id, n).contains(e) <==> exists|c: int, f: int|
            #[trigger] is_definition(entries, project_id, c, f) && c < n && e == edge_between(
                entries,
                c,
                f,
                EdgeKind::DefinedIn,
                None,
            ),
    decreases n,
{
    if n > 0 {
        lemma_defined_in(entries, project_id, (n - 1) as nat, e);
        lemma_definition_edges(entries, project_id, n - 1, e);
        lemma_concat_contains(
            defined_in(entries, project_id, (n - 1) as nat),
            definition_edges(entries, project_id, n - 1),
            e,
        );
    }
}

/// Whether `e` is the edge between the entries at `u` and `v`.
spec fn joins(entries: Seq<EntryRecord>, u: int, v: int, kind: EdgeKind, subkind: Option<Seq<char>>, e: EdgeView) -> bool {
    &&& 0 <= u < entries.len()
    &&& 0 <= v < entries.len()
    &&& e == edge_between(entries, u, v, kind, subkind)
}

proof fn lemma_all_between(
    entries: Seq<EntryRecord>,
    from: Seq<int>,
    to: Seq<int>,
    kind: EdgeKind,
    subkind: Option<Seq<char>>,
    e: EdgeView,
)
    requires
        forall|i: int| 0 <= i < from.len() ==> 0 <= #[trigger] from[i] < entries.len(),
        forall|i: int| 0 <= i < to.len() ==> 0 <= #[trigger] to[i] < entries.len(),
    ensures
        all_between(entries, from, to, kind, subkind).contains(e) <==> exists|u: int, v: int|
            from.contains(u) && to.contains(v) && #[trigger] joins(entries, u, v, kind, subkind, e),
    decreases from.len(),
{
    if from.len() > 0 {
        let init = from.drop_last();
        let row = to.map_values(|v: int| edge_between(entries, from.last(), v, kind, subkind));
        assert forall|i: int| 0 <= i < init.len() implies 0 <= #[trigger] init[i] < entries.len() by {
            assert(init[i] == from[i]);
        }
        lemma_all_between(entries, init, to, kind, subkind, e);
        lemma_concat_contains(all_between(entries, init, to, kind, subkind), row, e);
        assert(from[from.len() - 1] == from.last());
        assert(from.contains(from.last()));
        if row.contains(e) {
            let k = choose|k: int| 0 <= k < row.len() && row[k] == e;
            assert(to.contains(to[k]));
            assert(joins(entries, from.last(), to[k], kind, subkind, e));
        }
        if all_between(entries, init, to, kind, subkind).contains(e) {
            let (u, v) = choose|u: int, v: int|
                init.contains(u) && to.contains(v) && #[trigger] joins(entries, u, v, kind, subkind, e);
            let k = choose|k: int| 0 <= k < init.len() && init[k] == u;
            assert(from[k] == u);
        }
        if exists|u: int, v: int|
            from.contains(u) && to.contains(v) && #[trigger] joins(entries, u, v, kind, subkind, e) {
            let (u, v) = choose|u: int, v: int|
                from.contains(u) && to.contains(v) && #[trigger] joins(entries, u, v, kind, subkind, e);
            let k = choose|k: int| 0 <= k < from.len() && from[k] == u;
            if k < init.len() {
                assert(init[k] == u);
                assert(init.contains(u));
            } else {
                let l = choose|l: int| 0 <= l < to.len() && to[l] == v;
                assert(row[l] == e);
            }
        }
    }
}

/// The edges between the entries with one key and those with another.
proof fn lemma_between_keys(
    entries: Seq<EntryRecord>,
    from_keys: Seq<Option<i64>>,
    a: i64,
    to_keys: Seq<Option<i64>>,
    b: i64,
    kind: EdgeKind,
    subkind: Option<Seq<char>>,
    e: EdgeView,
)
    requires
        from_keys.len() == entries.len(),
        to_keys.len() == entries.len(),
    ensures
        all_between(entries, rows_with(from_keys, a), rows_with(to_keys, b), kind, subkind).contains(e) <==> exists|
            u: int,
            v: int,
        |
            from_keys[u] == Some(a) && to_keys[v] == Some(b) && #[trigger] joins(entries, u, v, kind, subkind, e),
{
    let from = rows_with(from_keys, a);
    let to = rows_with(to_keys, b);
    lemma_rows_with(from_keys, a);
    lemma_rows_with(to_keys, b);
    lemma_all_between(entries, from, to, kind, subkind, e);
    if all_between(entries, from, to, kind, subkind).contains(e) {
        let (u, v) = choose|u: int, v: int|
            from.contains(u) && to.contains(v) && #[trigger] joins(entries, u, v, kind, subkind, e);
        let k = choose|k: int| 0 <= k < from.len() && from[k] == u;
        let l = choose|l: int| 0 <= l < to.len() && to[l] == v;
        assert(from_keys[u] == Some(a) && to_keys[v] == Some(b));
    }
}

proof fn lemma_edges_to_files(
    tables: EdgeTables,
    project_id: i64,
    file_id: i64,
    targets: Seq<int>,
    kind: EdgeKind,
    subkind: Option<Seq<char>>,
    m: nat,
    e: EdgeView,
)
    requires
        m <= targets.len(),
    ensures
        edges_to_files(tables, project_id, file_id, targets, kind, subkind, m).contains(e) <==> exists|
            k: int,
            u: int,
            v: int,
        |
            0 <= k < m && stands_for(tables.entries@, project_id, u, file_id) && stands_for(
                tables.entries@,
                project_id,
                v,
                tables.files@[#[trigger] targets[k]].id,
            ) && #[trigger] joins(tables.entries@, u, v, kind, subkind, e),
    decreases m,
{
    if m > 0 {
        let entries = tables.entries@;
        let keys = file_keys(entries, project_id);
        let target = tables.files@[targets[m - 1]].id;
        lemma_edges_to_files(tables, project_id, file_id, targets, kind, subkind, (m - 1) as nat, e);
        let before = edges_to_files(tables, project_id, file_id, targets, kind, subkind, (m - 1) as nat);
        let row = all_between(entries, rows_with(keys, file_id), rows_with(keys, target), kind, subkind);
        lemma_concat_contains(before, row, e);
        lemma_between_keys(entries, keys, file_id, keys, target, kind, subkind, e);
        if row.contains(e) {
            let (u, v) = choose|u: int, v: int|
                keys[u] == Some(file_id) && keys[v] == Some(target) && #[trigger] joins(
                    entries,
                    u,
                    v,
                    kind,
                    subkind,
                    e,
                );
            assert(stands_for(entries, project_id, u, file_id));
            assert(stands_for(entries, project_id, v, tables.files@[targets[m - 1]].id));
        }
        if exists|k: int, u: int, v: int|
            0 <= k < m && stands_for(entries, project_id, u, file_id) && stands_for(
                entries,
                project_id,
                v,
                tables.files@[#[trigger] targets[k]].id,
            ) && #[trigger] joins(entries, u, v, kind, subkind, e) {
            let (k, u, v) = choose|k: int, u: int, v: int|
                0 <= k < m && stands_for(entries, project_id, u, file_id) && stands_for(
                    entries,
                    project_id,
                    v,
                    tables.files@[#[trigger] targets[k]].id,
                ) && #[trigger] joins(entries, u, v, kind, subkind, e);
            if k == m - 1 {
                assert(keys[u] == Some(file_id));
                assert(keys[v] == Some(target));
            }
        }
    }
}

proof fn lemma_reference_edges(tables: EdgeTables, project_id: i64, kind: EdgeKind, r: int, e: EdgeView)
    requires
        0 <= r < tables.references@.len(),
    ensures
        reference_edges(tables, project_id, kind, r).contains(e) <==> exists|t: int, u: int, v: int|
            #[trigger] refers(tables, project_id, kind, r, t, u, v) && e == edge_between(
                tables.entries@,
                u,
                v,
                kind,
                reference_subkind(tables.references@[r], kind),
            ),
{
    let reference = tables.references@[r];
    let entries = tables.entries@;
    let subkind = reference_subkind(reference, kind);
    let s = reference_edges(tables, project_id, kind, r);
    if let Some(guid) = reference.target_guid {
        if is_source(tables.files@, reference.file_id, kind) {
            let keys = guid_keys(tables.files@);
            let targets = rows_with(keys, lower(guid@));
            lemma_rows_with(keys, lower(guid@));
            lemma_edges_to_files(
                tables,
                project_id,
                reference.file_id,
                targets,
                kind,
                subkind,
                targets.len(),
                e,
            );
            if s.contains(e) {
                let (k, u, v) = choose|k: int, u: int, v: int|
                    0 <= k < targets.len() && stands_for(entries, project_id, u, reference.file_id) && stands_for(
                        entries,
                        project_id,
                        v,
                        tables.files@[#[trigger] targets[k]].id,
                    ) && #[trigger] joins(entries, u, v, kind, subkind, e);
                assert(keys[targets[k]] == Some(lower(guid@)));
                assert(has_guid(tables, targets[k], guid@));
                assert(refers(tables, project_id, kind, r, targets[k], u, v));
            }
            if exists|t: int, u: int, v: int|
                #[trigger] refers(tables, project_id, kind, r, t, u, v) && e == edge_between(
                    entries,
                    u,
                    v,
                    kind,
                    subkind,
                ) {
                let (t, u, v) = choose|t: int, u: int, v: int|
                    #[trigger] refers(tables, project_id, kind, r, t, u, v) && e == edge_between(
                        entries,
                        u,
                        v,
                        kind,
                        subkind,
                    );
                assert(keys[t] == Some(lower(guid@)));
                let k = choose|k: int| 0 <= k < targets.len() && targets[k] == t;
                assert(stands_for(entries, project_id, v, tables.files@[targets[k]].id));
                assert(joins(entries, u, v, kind, subkind, e));
            }
        }
    }
}

proof fn lemma_all_reference_edges(tables: EdgeTables, project_id: i64, kind: EdgeKind, n: nat, e: EdgeView)
    requires
        n <= tables.references@.len(),
    ensures
        all_reference_edges(tables, project_id, kind, n).contains(e) <==> exists|r: int, t: int, u: int, v: int|
            #[trigger] refers(tables, project_id, kind, r, t, u, v) && r < n && e == edge_between(
                tables.entries@,
                u,
                v,
                kind,
                reference_subkind(tables.references@[r], kind),
            ),
    decreases n,
{
    if n > 0 {
        lemma_all_reference_edges(tables, project_id, kind, (n - 1) as nat, e);
        lemma_reference_edges(tables, project_id, kind, n - 1, e);
        lemma_concat_contains(
            all_reference_edges(tables, project_id, kind, (n - 1) as nat),
            reference_edges(tables, project_id, kind, n - 1),
            e,
        );
    }
}

proof fn lemma_script_edges(
    tables: EdgeTables,
    project_id: i64,
    component: i64,
    targets: Seq<int>,
    m: nat,
    e: EdgeView,
)
    requires
        m <= targets.len(),
    ensures
        script_edges(tables, project_id, component, targets, m).contains(e) <==> exists|k: int, u: int, v: int|
            0 <= k < m && entity_keys(tables.entries@)[u] == Some(component) && stands_for(
                tables.entries@,
                project_id,
                v,
                tables.symbols@[#[trigger] targets[k]].file_id,
            ) && #[trigger] joins(tables.entries@, u, v, EdgeKind::BindsTo, Some("component_script"@), e),
    decreases m,
{
    if m > 0 {
        let entries = tables.entries@;
        let from_keys = entity_keys(entries);
        let to_keys = file_keys(entries, project_id);
        let sub = Some("component_script"@);
        let target = tables.symbols@[targets[m - 1]].file_id;
        lemma_script_edges(tables, project_id, component, targets, (m - 1) as nat, e);
        lemma_between_keys(entries, from_keys, component, to_keys, target, EdgeKind::BindsTo, sub, e);
        let before = script_edges(tables, project_id, component, targets, (m - 1) as nat);
        let row = all_between(
            entries,
            rows_with(from_keys, component),
            rows_with(to_keys, target),
            EdgeKind::BindsTo,
            sub,
        );
        lemma_concat_contains(before, row, e);
        if row.contains(e) {
            let (u, v) = choose|u: int, v: int|
                from_keys[u] == Some(component) && to_keys[v] == Some(target) && #[trigger] joins(
                    entries,
                    u,
                    v,
                    EdgeKind::BindsTo,
                    sub,
                    e,
                );
            assert(stands_for(entries, project_id, v, tables.symbols@[targets[m - 1]].file_id));
        }
        if exists|k: int, u: int, v: int|
            0 <= k < m && from_keys[u] == Some(component) && stands_for(
                entries,
                project_id,
                v,
                tables.symbols@[#[trigger] targets[k]].file_id,
            ) && #[trigger] joins(entries, u, v, EdgeKind::BindsTo, sub, e) {
            let (k, u, v) = choose|k: int, u: int, v: int|
                0 <= k < m && from_keys[u] == Some(component) && stands_for(
                    entries,
                    project_id,
                    v,
                    tables.symbols@[#[trigger] targets[k]].file_id,
                ) && #[trigger] joins(entries, u, v, EdgeKind::BindsTo, sub, e);
            if k == m - 1 {
                assert(to_keys[v] == Some(target));
            }
        }
    }
}

proof fn lemma_binding_edges(tables: EdgeTables, project_id: i64, c: int, e: EdgeView)
    requires
        0 <= c < tables.entities@.len(),
    ensures
        binding_edges(tables, project_id, c).contains(e) <==> exists|s: int, u: int, v: int|
            #[trigger] is_bound(tables, project_id, c, s, u, v) && e == edge_between(
                tables.entries@,
                u,
                v,
                EdgeKind::BindsTo,
                Some("component_script"@),
            ),
{
    let entity = tables.entities@[c];
    let entries = tables.entries@;
    let sub = Some("component_script"@);
    if let Some(script) = entity.script_symbol_id {
        if entity.entity_kind@ == "component"@ {
            let ids = symbol_ids(tables.symbols@);
            let keys = entity_keys(entries);
            let targets = rows_with(ids, script);
            lemma_rows_with(ids, script);
            lemma_script_edges(tables, project_id, entity.id, targets, targets.len(), e);
            if binding_edges(tables, project_id, c).contains(e) {
                let (k, u, v) = choose|k: int, u: int, v: int|
                    0 <= k < targets.len() && keys[u] == Some(entity.id) && stands_for(
                        entries,
                        project_id,
                        v,
                        tables.symbols@[#[trigger] targets[k]].file_id,
                    ) && #[trigger] joins(entries, u, v, EdgeKind::BindsTo, sub, e);
                assert(ids[targets[k]] == Some(script));
                assert(is_bound(tables, project_id, c, targets[k], u, v));
            }
            if exists|s: int, u: int, v: int|
                #[trigger] is_bound(tables, project_id, c, s, u, v) && e == edge_between(
                    entries,
                    u,
                    v,
                    EdgeKind::BindsTo,
                    sub,
                ) {
                let (s, u, v) = choose|s: int, u: int, v: int|
                    #[trigger] is_bound(tables, project_id, c, s, u, v) && e == edge_between(
                        entries,
                        u,
                        v,
                        EdgeKind::BindsTo,
                        sub,
                    );
                assert(ids[s] == Some(script));
                let k = choose|k: int| 0 <= k < targets.len() && targets[k] == s;
                assert(keys[u] == Some(entity.id));
                assert(stands_for(entries, project_id, v, tables.symbols@[targets[k]].file_id));
                assert(joins(entries, u, v, EdgeKind::BindsTo, sub, e));
            }
        }
    }
}

proof fn lemma_binds_to(tables: EdgeTables, project_id: i64, n: nat, e: EdgeView)
    requires
        n <= tables.entities@.len(),
    ensures
        binds_to(tables, project_id, n).contains(e) <==> exists|c: int, s: int, u: int, v: int|
            #[trigger] is_bound(tables, project_id, c, s, u, v) && c < n && e == edge_between(
                tables.entries@,
                u,
                v,
                EdgeKind::BindsTo,
                Some("component_script"@),
            ),
    decreases n,
{
    if n > 0 {
        lemma_binds_to(tables, project_id, (n - 1) as nat, e);
        lemma_binding_edges(tables, project_id, n - 1, e);
        lemma_concat_contains(
            binds_to(tables, project_id, (n - 1) as nat),
            binding_edges(tables, project_id, n - 1),
            e,
        );
    }
}

/// Taking out repetitions keeps every edge once.
pub proof fn law_distinct(s: Seq<EdgeView>)
    ensures
        distinct(s).no_duplicates(),
        forall|e: EdgeView| #[trigger] distinct(s).contains(e) <==> s.contains(e),
    decreases s.len(),
{
    if s.len() > 0 {
        let init = s.drop_last();
        let before = distinct(init);
        law_distinct(init);
        assert(s =~= init.push(s.last()));
        assert forall|e: EdgeView| #[trigger] distinct(s).contains(e) <==> s.contains(e) by {
            assert(before.contains(e) <==> init.contains(e));
            lemma_concat_contains(init, seq![s.last()], e);
            assert(s =~= init + seq![s.last()]);
            lemma_concat_contains(before, seq![s.last()], e);
            assert(before.push(s.last()) =~= before + seq![s.last()]);
            assert(seq![s.last()][0] == s.last());
            assert(seq![s.last()].contains(e) <==> e == s.last());
        }
    }
}

/// An edge is in the list of all edges if and only if it is in that of its kind.
proof fn lemma_by_kind(tables: EdgeTables, project_id: i64, e: EdgeView)
    ensures
        vfs_edges(tables, project_id).contains(e) <==> match e.kind {
            EdgeKind::ChildOf => child_of(tables.entries@, project_id, tables.entries@.len()).contains(e),
            EdgeKind::DefinedIn => defined_in(tables.entries@, project_id, tables.entries@.len()).contains(e),
            EdgeKind::BindsTo => binds_to(tables, project_id, tables.entities@.len()).contains(e),
            kind => all_reference_edges(tables, project_id, kind, tables.references@.len()).contains(e),
        },
{
    let n = tables.references@.len();
    let s1 = child_of(tables.entries@, project_id, tables.entries@.len());
    let s2 = defined_in(tables.entries@, project_id, tables.entries@.len());
    let r3 = all_reference_edges(tables, project_id, EdgeKind::DependsOn, n);
    let s4 = binds_to(tables, project_id, tables.entities@.len());
    let r5 = all_reference_edges(tables, project_id, EdgeKind::InstanceOf, n);
    law_distinct(r3);
    law_distinct(r5);
    lemma_concat_contains(s1, s2, e);
    lemma_concat_contains(s1 + s2, distinct(r3), e);
    lemma_concat_contains(s1 + s2 + distinct(r3), s4, e);
    lemma_concat_contains(s1 + s2 + distinct(r3) + s4, distinct(r5), e);
    assert(distinct(r3).contains(e) <==> r3.contains(e));
    assert(distinct(r5).contains(e) <==> r5.contains(e));
    lemma_child_of(tables.entries@, project_id, tables.entries@.len(), e);
    lemma_defined_in(tables.entries@, project_id, tables.entries@.len(), e);
    lemma_all_reference_edges(tables, project_id, EdgeKind::DependsOn, n, e);
    lemma_binds_to(tables, project_id, tables.entities@.len(), e);
    lemma_all_reference_edges(tables, project_id, EdgeKind::InstanceOf, n, e);
}

/// A `child_of` edge leads from each parent to each of its children, and there is no other.
pub proof fn law_child_of(tables: EdgeTables, project_id: i64, e: EdgeView)
    requires
        e.kind == EdgeKind::ChildOf,
    ensures
        vfs_edges(tables, project_id).contains(e) <==> exists|p: int, c: int|
            #[trigger] is_parent(tables.entries@, project_id, p, c) && e == edge_between(
                tables.entries@,
                p,
                c,
                EdgeKind::ChildOf,
                None,
            ),
{
    lemma_by_kind(tables, project_id, e);
    lemma_child_of(tables.entries@, project_id, tables.entries@.len(), e);
}

/// A `defined_in` edge leads from each node to the file that defines it, and there is no other.
pub proof fn law_defined_in(tables: EdgeTables, project_id: i64, e: EdgeView)
    requires
        e.kind == EdgeKind::DefinedIn,
    ensures
        vfs_edges(tables, project_id).contains(e) <==> exists|n: int, f: int|
            #[trigger] is_definition(tables.entries@, project_id, n, f) && e == edge_between(
                tables.entries@,
                n,
                f,
                EdgeKind::DefinedIn,
                None,
            ),
{
    lemma_by_kind(tables, project_id, e);
    lemma_defined_in(tables.entries@, project_id, tables.entries@.len(), e);
}

/// A `depends_on` edge leads from each file to every file that it references by GUID, and there is no
/// other; its subkind is the kind of the reference.
pub proof fn law_depends_on(tables: EdgeTables, project_id: i64, e: EdgeView)
    requires
        e.kind == EdgeKind::DependsOn,
    ensures
        vfs_edges(tables, project_id).contains(e) <==> exists|r: int, t: int, u: int, v: int|
            #[trigger] refers(tables, project_id, EdgeKind::DependsOn, r, t, u, v) && e == edge_between(
                tables.entries@,
                u,
                v,
                EdgeKind::DependsOn,
                optional(tables.references@[r].ref_kind),
            ),
{
    lemma_by_kind(tables, project_id, e);
    lemma_all_reference_edges(tables, project_id, EdgeKind::DependsOn, tables.references@.len(), e);
}

/// An `instance_of` edge leads from each scene and prefab to every file that it references by GUID, and
/// there is no other.
pub proof fn law_instance_of(tables: EdgeTables, project_id: i64, e: EdgeView)
    requires
        e.kind == EdgeKind::InstanceOf,
    ensures
        vfs_edges(tables, project_id).contains(e) <==> exists|r: int, t: int, u: int, v: int|
            #[trigger] refers(tables, project_id, EdgeKind::InstanceOf, r, t, u, v) && e == edge_between(
                tables.entries@,
                u,
                v,
                EdgeKind::InstanceOf,
                None,
            ),
{
    lemma_by_kind(tables, project_id, e);
    lemma_all_reference_edges(tables, project_id, EdgeKind::InstanceOf, tables.references@.len(), e);
}

/// A `binds_to` edge leads from each component to the file of the script class that it is bound to, and
/// there is no other: an unbound component has none, nor has an entity of another kind.
pub proof fn law_binds_to(tables: EdgeTables, project_id: i64, e: EdgeView)
    requires
        e.kind == EdgeKind::BindsTo,
    ensures
        vfs_edges(tables, project_id).contains(e) <==> exists|c: int, s: int, u: int, v: int|
            #[trigger] is_bound(tables, project_id, c, s, u, v) && e == edge_between(
                tables.entries@,
                u,
                v,
                EdgeKind::BindsTo,
                Some("component_script"@),
            ),
{
    lemma_by_kind(tables, project_id, e);
    lemma_binds_to(tables, project_id, tables.entities@.len(), e);
}

/// Whether an entry has the id.
pub open spec fn has_entry(entries: Seq<EntryRecord>, id: i64) -> bool {
    exists|i: int| 0 <= i < entries.len() && (#[trigger] entries[i]).id == id
}

/// No edge is broken: both ends of every edge are entries.
pub proof fn law_edges_join_entries(tables: EdgeTables, project_id: i64, e: EdgeView)
    requires
        vfs_edges(tables, project_id).contains(e),
    ensures
        has_entry(tables.entries@, e.from),
        has_entry(tables.entries@, e.to),
{
    lemma_by_kind(tables, project_id, e);
    lemma_child_of(tables.entries@, project_id, tables.entries@.len(), e);
    lemma_defined_in(tables.entries@, project_id, tables.entries@.len(), e);
    lemma_all_reference_edges(tables, project_id, EdgeKind::DependsOn, tables.references@.len(), e);
    lemma_binds_to(tables, project_id, tables.entities@.len(), e);
    lemma_all_reference_edges(tables, project_id, EdgeKind::InstanceOf, tables.references@.len(), e);
}

/// Where an `instance_of` edge leads from one file to another, so does a `depends_on` edge.
pub proof fn law_instance_depends(tables: EdgeTables, project_id: i64, e: EdgeView)
    requires
        vfs_edges(tables, project_id).contains(e),
        e.kind == EdgeKind::InstanceOf,
    ensures
        exists|subkind: Option<Seq<char>>|
            #[trigger] vfs_edges(tables, project_id).contains(
                (EdgeView { from: e.from, to: e.to, kind: EdgeKind::DependsOn, subkind }),
            ),
{
    law_instance_of(tables, project_id, e);
    let (r, t, u, v) = choose|r: int, t: int, u: int, v: int|
        #[trigger] refers(tables, project_id, EdgeKind::InstanceOf, r, t, u, v) && e == edge_between(
            tables.entries@,
            u,
            v,
            EdgeKind::InstanceOf,
            None,
        );
    let subkind = optional(tables.references@[r].ref_kind);
    let d = EdgeView { from: e.from, to: e.to, kind: EdgeKind::DependsOn, subkind };
    assert(refers(tables, project_id, EdgeKind::DependsOn, r, t, u, v));
    law_depends_on(tables, project_id, d);
}

/// The place of a kind among the kinds, in the order in which their edges come.
pub open spec fn place_of(kind: EdgeKind) -> nat {
    match kind {
        EdgeKind::ChildOf => 0,
        EdgeKind::DefinedIn => 1,
        EdgeKind::DependsOn => 2,
        EdgeKind::BindsTo => 3,
        EdgeKind::InstanceOf => 4,
    }
}

/// The edges of each part of the list are of one kind.
pub proof fn lemma_edges_by_part(tables: EdgeTables, project_id: i64)
    ensures
        forall|k: int|
            0 <= k < child_of(tables.entries@, project_id, tables.entries@.len()).len() ==> (#[trigger] child_of(
                tables.entries@,
                project_id,
                tables.entries@.len(),
            )[k]).kind == EdgeKind::ChildOf,
        forall|k: int|
            0 <= k < defined_in(tables.entries@, project_id, tables.entries@.len()).len() ==> (#[trigger] defined_in(
                tables.entries@,
                project_id,
                tables.entries@.len(),
            )[k]).kind == EdgeKind::DefinedIn,
        forall|k: int|
            0 <= k < binds_to(tables, project_id, tables.entities@.len()).len() ==> (#[trigger] binds_to(
                tables,
                project_id,
                tables.entities@.len(),
            )[k]).kind == EdgeKind::BindsTo,
        forall|kind: EdgeKind, k: int|
            (kind == EdgeKind::DependsOn || kind == EdgeKind::InstanceOf) && 0 <= k < distinct(
                all_reference_edges(tables, project_id, kind, tables.references@.len()),
            ).len() ==> (#[trigger] distinct(
                all_reference_edges(tables, project_id, kind, tables.references@.len()),
            )[k]).kind == kind,
{
    let n = tables.references@.len();
    let s1 = child_of(tables.entries@, project_id, tables.entries@.len());
    let s2 = defined_in(tables.entries@, project_id, tables.entries@.len());
    let s4 = binds_to(tables, project_id, tables.entities@.len());
    assert forall|k: int| 0 <= k < s1.len() implies (#[trigger] s1[k]).kind == EdgeKind::ChildOf by {
        lemma_child_of(tables.entries@, project_id, tables.entries@.len(), s1[k]);
        assert(s1.contains(s1[k]));
    }
    assert forall|k: int| 0 <= k < s2.len() implies (#[trigger] s2[k]).kind == EdgeKind::DefinedIn by {
        lemma_defined_in(tables.entries@, project_id, tables.entries@.len(), s2[k]);
        assert(s2.contains(s2[k]));
    }
    assert forall|k: int| 0 <= k < s4.len() implies (#[trigger] s4[k]).kind == EdgeKind::BindsTo by {
        lemma_binds_to(tables, project_id, tables.entities@.len(), s4[k]);
        assert(s4.contains(s4[k]));
    }
    assert forall|kind: EdgeKind, k: int|
        (kind == EdgeKind::DependsOn || kind == EdgeKind::InstanceOf) && 0 <= k < distinct(
            all_reference_edges(tables, project_id, kind, n),
        ).len() implies (#[trigger] distinct(all_reference_edges(tables, project_id, kind, n))[k]).kind == kind by {
        let r = all_reference_edges(tables, project_id, kind, n);
        let s = distinct(r);
        law_distinct(r);
        lemma_all_reference_edges(tables, project_id, kind, n, s[k]);
        assert(s.contains(s[k]));
        assert(r.contains(s[k]));
    }
}

/// Edges come by their kind, and no edge of a reference comes twice.
pub proof fn law_edges_come_by_kind(tables: EdgeTables, project_id: i64, i: int, j: int)
    requires
        0 <= i < j < vfs_edges(tables, project_id).len(),
    ensures
        place_of(vfs_edges(tables, project_id)[i].kind) <= place_of(vfs_edges(tables, project_id)[j].kind),
        vfs_edges(tables, project_id)[i].kind == EdgeKind::DependsOn || vfs_edges(tables, project_id)[i].kind
            == EdgeKind::InstanceOf ==> vfs_edges(tables, project_id)[i] != vfs_edges(tables, project_id)[j],
{
    let n = tables.references@.len();
    let s1 = child_of(tables.entries@, project_id, tables.entries@.len());
    let s2 = defined_in(tables.entries@, project_id, tables.entries@.len());
    let r3 = all_reference_edges(tables, project_id, EdgeKind::DependsOn, n);
    let s3 = distinct(r3);
    let s4 = binds_to(tables, project_id, tables.entities@.len());
    let r5 = all_reference_edges(tables, project_id, EdgeKind::InstanceOf, n);
    let s5 = distinct(r5);
    law_distinct(r3);
    law_distinct(r5);
    lemma_edges_by_part(tables, project_id);
    let all = vfs_edges(tables, project_id);
    assert(all == s1 + s2 + s3 + s4 + s5);
    let a = s1.len() as int;
    let b = a + s2.len();
    let c = b + s3.len();
    let d = c + s4.len();
    assert forall|k: int| 0 <= k < all.len() implies #[trigger] all[k] == (if k < a {
        s1[k]
    } else if k < b {
        s2[k - a]
    } else if k < c {
        s3[k - b]
    } else if k < d {
        s4[k - c]
    } else {
        s5[k - d]
    }) by {}
}

} // verus!
