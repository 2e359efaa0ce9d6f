//! The edges of the virtual file system, said of the stored rows themselves.
//!
//! Every rule here speaks of the fields of rows alone: which rows there are on the one side, and which
//! edges there are on the other.
use crate::edge_laws::{
    has_guid, is_bound, is_definition, is_parent, law_binds_to, law_child_of, law_defined_in, law_depends_on,
    law_instance_of, refers, stands_for,
};
use crate::edges::{edge_between, is_source, lower, lower_char, vfs_edges, EdgeKind, EdgeTables, EdgeView};
use crate::text::optional;
use vstd::prelude::*;

verus! {

/// Whether two texts are the same but for the case of ASCII letters.
pub open spec fn same_but_for_case(a: Seq<char>, b: Seq<char>) -> bool {
    &&& a.len() == b.len()
    &&& forall|i: int|
        0 <= i < a.len() ==> {
            ||| #[trigger] a[i] == b[i]
            ||| ('A' <= a[i] && a[i] <= 'Z' && b[i] as int == a[i] as int + 32)
            ||| ('A' <= b[i] && b[i] <= 'Z' && a[i] as int == b[i] as int + 32)
        }
}

/// Two texts have the same lower case if and only if they are the same but for case.
pub proof fn law_lower_case(a: Seq<char>, b: Seq<char>)
    ensures
        lower(a) == lower(b) <==> same_but_for_case(a, b),
{
    if lower(a) == lower(b) {
        assert(a.len() == lower(a).len() && b.len() == lower(b).len());
        assert forall|i: int| 0 <= i < a.len() implies {
            ||| #[trigger] a[i] == b[i]
            ||| ('A' <= a[i] && a[i] <= 'Z' && b[i] as int == a[i] as int + 32)
            ||| ('A' <= b[i] && b[i] <= 'Z' && a[i] as int == b[i] as int + 32)
        } by {
            assert(lower(a)[i] == lower_char(a[i]));
            assert(lower(b)[i] == lower_char(b[i]));
            lemma_lower_char(a[i], b[i]);
        }
    }
    if same_but_for_case(a, b) {
        assert forall|i: int| 0 <= i < a.len() implies #[trigger] lower(a)[i] == lower(b)[i] by {
            lemma_lower_char(a[i], b[i]);
        }
        assert(lower(a) =~= lower(b));
    }
}

proof fn lemma_lower_char(a: char, b: char)
    ensures
        lower_char(a) == lower_char(b) <==> {
            ||| a == b
            ||| ('A' <= a && a <= 'Z' && b as int == a as int + 32)
            ||| ('A' <= b && b <= 'Z' && a as int == b as int + 32)
        },
{
    if 'A' <= a <= 'Z' {
        assert(lower_char(a) as int == a as int + 32);
    }
    if 'A' <= b <= 'Z' {
        assert(lower_char(b) as int == b as int + 32);
    }
}

/// Whether the file at `t` has the GUID that the reference at `r` names, in whatever case.
pub open spec fn names_guid(tables: EdgeTables, r: int, t: int) -> bool {
    match (tables.references@[r].target_guid, tables.files@[t].guid) {
        (Some(wanted), Some(guid)) => same_but_for_case(wanted@, guid@),
        _ => false,
    }
}

/// Whether the entry at `i` is a file entry of the project for the file with the id.
pub open spec fn is_entry_of(tables: EdgeTables, project_id: i64, i: int, file_id: i64) -> bool {
    &&& tables.entries@[i].project_id == project_id
    &&& tables.entries@[i].entry_type is File
    &&& tables.entries@[i].source_file_id == Some(file_id)
}

/// Whether the reference at `r` stands in the file at `a`, names the GUID of the file at `t`, and the
/// entries at `u` and `v` are those of the two files.
pub open spec fn connects(tables: EdgeTables, project_id: i64, r: int, a: int, t: int, u: int, v: int) -> bool {
    &&& 0 <= r < tables.references@.len()
    &&& 0 <= a < tables.files@.len()
    &&& 0 <= t < tables.files@.len()
    &&& 0 <= u < tables.entries@.len()
    &&& 0 <= v < tables.entries@.len()
    &&& tables.files@[a].id == tables.references@[r].file_id
    &&& names_guid(tables, r, t)
    &&& is_entry_of(tables, project_id, u, tables.files@[a].id)
    &&& is_entry_of(tables, project_id, v, tables.files@[t].id)
}

proof fn lemma_connects(tables: EdgeTables, project_id: i64, kind: EdgeKind, r: int, a: int, t: int, u: int, v: int)
    requires
        connects(tables, project_id, r, a, t, u, v),
        is_source(tables.files@, tables.references@[r].file_id, kind),
    ensures
        refers(tables, project_id, kind, r, t, u, v),
{
    let wanted = tables.references@[r].target_guid->0@;
    let guid = tables.files@[t].guid->0@;
    law_lower_case(wanted, guid);
    assert(has_guid(tables, t, wanted));
}

proof fn lemma_refers(tables: EdgeTables, project_id: i64, kind: EdgeKind, r: int, t: int, u: int, v: int) -> (a: int)
    requires
        refers(tables, project_id, kind, r, t, u, v),
        kind == EdgeKind::DependsOn || kind == EdgeKind::InstanceOf,
    ensures
        connects(tables, project_id, r, a, t, u, v),
        kind == EdgeKind::InstanceOf ==> tables.files@[a].kind@ == "scene"@ || tables.files@[a].kind@ == "prefab"@,
{
    let wanted = tables.references@[r].target_guid->0@;
    let guid = tables.files@[t].guid->0@;
    law_lower_case(wanted, guid);
    let a = choose|a: int|
        0 <= a < tables.files@.len() && (#[trigger] tables.files@[a]).id == tables.references@[r].file_id && (kind
            == EdgeKind::DependsOn || tables.files@[a].kind@ == "scene"@ || tables.files@[a].kind@ == "prefab"@);
    assert(connects(tables, project_id, r, a, t, u, v));
    a
}

/// Whoever references a file depends on it: for every reference by GUID out of a file of whatever kind,
/// a `depends_on` edge leads from each entry of that file to each entry of every file with the GUID,
/// and its subkind is the kind of the reference.
pub proof fn law_every_reference_is_a_dependency(
    tables: EdgeTables,
    project_id: i64,
    r: int,
    a: int,
    t: int,
    u: int,
    v: int,
)
    requires
        connects(tables, project_id, r, a, t, u, v),
    ensures
        vfs_edges(tables, project_id).contains(
            (EdgeView {
                from: tables.entries@[u].id,
                to: tables.entries@[v].id,
                kind: EdgeKind::DependsOn,
                subkind: match tables.references@[r].ref_kind {
                    Some(k) => Some(k@),
                    None => None,
                },
            }),
        ),
{
    assert(tables.files@[a].id == tables.references@[r].file_id);
    assert(is_source(tables.files@, tables.references@[r].file_id, EdgeKind::DependsOn));
    lemma_connects(tables, project_id, EdgeKind::DependsOn, r, a, t, u, v);
    let e = edge_between(tables.entries@, u, v, EdgeKind::DependsOn, optional(tables.references@[r].ref_kind));
    law_depends_on(tables, project_id, e);
}

/// Every `depends_on` edge comes of a reference by GUID.
pub proof fn law_every_dependency_is_a_reference(tables: EdgeTables, project_id: i64, e: EdgeView)
    requires
        vfs_edges(tables, project_id).contains(e),
        e.kind == EdgeKind::DependsOn,
    ensures
        exists|r: int, a: int, t: int, u: int, v: int| #[trigger]
            connects(tables, project_id, r, a, t, u, v) && e.from == tables.entries@[u].id && e.to
                == tables.entries@[v].id && e.subkind == match tables.references@[r].ref_kind {
                Some(k) => Some(k@),
                None => None,
            },
{
    law_depends_on(tables, project_id, e);
    let (r, t, u, v) = choose|r: int, t: int, u: int, v: int|
        #[trigger] refers(tables, project_id, EdgeKind::DependsOn, r, t, u, v) && e == edge_between(
            tables.entries@,
            u,
            v,
            EdgeKind::DependsOn,
            optional(tables.references@[r].ref_kind),
        );
    let a = lemma_refers(tables, project_id, EdgeKind::DependsOn, r, t, u, v);
    assert(connects(tables, project_id, r, a, t, u, v));
}

/// What a scene or a prefab references it is an instance of: for every reference by GUID out of a scene
/// or prefab, an `instance_of` edge without subkind leads from each entry of that file to each entry of
/// every file with the GUID.
pub proof fn law_every_reference_of_a_scene_is_an_instance(
    tables: EdgeTables,
    project_id: i64,
    r: int,
    a: int,
    t: int,
    u: int,
    v: int,
)
    requires
        connects(tables, project_id, r, a, t, u, v),
        tables.files@[a].kind@ == "scene"@ || tables.files@[a].kind@ == "prefab"@,
    ensures
        vfs_edges(tables, project_id).contains(
            (EdgeView {
                from: tables.entries@[u].id,
                to: tables.entries@[v].id,
                kind: EdgeKind::InstanceOf,
                subkind: None,
            }),
        ),
{
    assert(tables.files@[a].id == tables.references@[r].file_id);
    assert(is_source(tables.files@, tables.references@[r].file_id, EdgeKind::InstanceOf));
    lemma_connects(tables, project_id, EdgeKind::InstanceOf, r, a, t, u, v);
    let e = edge_between(tables.entries@, u, v, EdgeKind::InstanceOf, None);
    law_instance_of(tables, project_id, e);
}

/// Every `instance_of` edge comes of a reference by GUID out of a scene or a prefab.
pub proof fn law_every_instance_is_a_reference_of_a_scene(tables: EdgeTables, project_id: i64, e: EdgeView)
    requires
        vfs_edges(tables, project_id).contains(e),
        e.kind == EdgeKind::InstanceOf,
    ensures
        e.subkind is None,
        exists|r: int, a: int, t: int, u: int, v: int| #[trigger]
            connects(tables, project_id, r, a, t, u, v) && (tables.files@[a].kind@ == "scene"@
                || tables.files@[a].kind@ == "prefab"@) && e.from == tables.entries@[u].id && e.to
                == tables.entries@[v].id,
{
    law_instance_of(tables, project_id, e);
    let (r, t, u, v) = choose|r: int, t: int, u: int, v: int|
        #[trigger] refers(tables, project_id, EdgeKind::InstanceOf, r, t, u, v) && e == edge_between(
            tables.entries@,
            u,
            v,
            EdgeKind::InstanceOf,
            None,
        );
    let a = lemma_refers(tables, project_id, EdgeKind::InstanceOf, r, t, u, v);
    assert(connects(tables, project_id, r, a, t, u, v));
}

/// Whether the entry at `p` has the path that the entry at `c` names as its parent, within the project.
pub open spec fn holds(tables: EdgeTables, project_id: i64, p: int, c: int) -> bool {
    &&& 0 <= p < tables.entries@.len()
    &&& 0 <= c < tables.entries@.len()
    &&& tables.entries@[p].project_id == project_id
    &&& tables.entries@[c].project_id == project_id
    &&& match tables.entries@[c].parent_vfs_path {
        Some(parent) => parent@ == tables.entries@[p].vfs_path@,
        None => false,
    }
}

/// Every entry is below its parent: a `child_of` edge without subkind leads from the parent to it, be it
/// a directory, a file or a node.
pub proof fn law_every_entry_is_below_its_parent(tables: EdgeTables, project_id: i64, p: int, c: int)
    requires
        holds(tables, project_id, p, c),
    ensures
        vfs_edges(tables, project_id).contains(
            (EdgeView {
                from: tables.entries@[p].id,
                to: tables.entries@[c].id,
                kind: EdgeKind::ChildOf,
                subkind: None,
            }),
        ),
{
    assert(is_parent(tables.entries@, project_id, p, c));
    law_child_of(tables, project_id, edge_between(tables.entries@, p, c, EdgeKind::ChildOf, None));
}

/// Every `child_of` edge leads from a parent to its child.
pub proof fn law_every_child_edge_joins_parent_and_child(tables: EdgeTables, project_id: i64, e: EdgeView)
    requires
        vfs_edges(tables, project_id).contains(e),
        e.kind == EdgeKind::ChildOf,
    ensures
        e.subkind is None,
        exists|p: int, c: int| #[trigger]
            holds(tables, project_id, p, c) && e.from == tables.entries@[p].id && e.to == tables.entries@[c].id,
{
    law_child_of(tables, project_id, e);
    let (p, c) = choose|p: int, c: int|
        #[trigger] is_parent(tables.entries@, project_id, p, c) && e == edge_between(
            tables.entries@,
            p,
            c,
            EdgeKind::ChildOf,
            None,
        );
    assert(holds(tables, project_id, p, c));
}

/// Every node is defined in its file: a `defined_in` edge without subkind leads from the node to the file
/// entry with the path that it names as its parent.
pub proof fn law_every_node_is_defined_in_its_file(tables: EdgeTables, project_id: i64, f: int, n: int)
    requires
        holds(tables, project_id, f, n),
        tables.entries@[n].entry_type is Node,
        tables.entries@[f].entry_type is File,
    ensures
        vfs_edges(tables, project_id).contains(
            (EdgeView {
                from: tables.entries@[n].id,
                to: tables.entries@[f].id,
                kind: EdgeKind::DefinedIn,
                subkind: None,
            }),
        ),
{
    assert(is_definition(tables.entries@, project_id, n, f));
    law_defined_in(tables, project_id, edge_between(tables.entries@, n, f, EdgeKind::DefinedIn, None));
}

/// Every `defined_in` edge leads from a node to the file that holds it.
pub proof fn law_every_definition_joins_node_and_file(tables: EdgeTables, project_id: i64, e: EdgeView)
    requires
        vfs_edges(tables, project_id).contains(e),
        e.kind == EdgeKind::DefinedIn,
    ensures
        e.subkind is None,
        exists|f: int, n: int| #[trigger]
            holds(tables, project_id, f, n) && tables.entries@[n].entry_type is Node
                && tables.entries@[f].entry_type is File && e.from == tables.entries@[n].id && e.to
                == tables.entries@[f].id,
{
    law_defined_in(tables, project_id, e);
    let (n, f) = choose|n: int, f: int|
        #[trigger] is_definition(tables.entries@, project_id, n, f) && e == edge_between(
            tables.entries@,
            n,
            f,
            EdgeKind::DefinedIn,
            None,
        );
    assert(holds(tables, project_id, f, n));
}

/// Whether the entity at `c` is a component bound to the symbol at `s`, the entry at `u` is the
/// component's, and the entry at `v` is that of the file that declares the symbol.
pub open spec fn is_scripted(tables: EdgeTables, project_id: i64, c: int, s: int, u: int, v: int) -> bool {
    &&& 0 <= c < tables.entities@.len()
    &&& 0 <= s < tables.symbols@.len()
    &&& 0 <= u < tables.entries@.len()
    &&& 0 <= v < tables.entries@.len()
    &&& tables.entities@[c].entity_kind@ == "component"@
    &&& tables.entities@[c].script_symbol_id == Some(tables.symbols@[s].id)
    &&& tables.entries@[u].source_entity_id == Some(tables.entities@[c].id)
    &&& is_entry_of(tables, project_id, v, tables.symbols@[s].file_id)
}

/// Every bound component leads to its script: a `binds_to` edge with subkind `component_script` goes from
/// the entry of the component to the entry of the file that declares the script class.
pub proof fn law_every_component_leads_to_its_script(
    tables: EdgeTables,
    project_id: i64,
    c: int,
    s: int,
    u: int,
    v: int,
)
    requires
        is_scripted(tables, project_id, c, s, u, v),
    ensures
        vfs_edges(tables, project_id).contains(
            (EdgeView {
                from: tables.entries@[u].id,
                to: tables.entries@[v].id,
                kind: EdgeKind::BindsTo,
                subkind: Some("component_script"@),
            }),
        ),
{
    assert(stands_for(tables.entries@, project_id, v, tables.symbols@[s].file_id));
    assert(is_bound(tables, project_id, c, s, u, v));
    law_binds_to(
        tables,
        project_id,
        edge_between(tables.entries@, u, v, EdgeKind::BindsTo, Some("component_script"@)),
    );
}

/// Every `binds_to` edge leads from a bound component to its script.
pub proof fn law_every_binding_joins_component_and_script(tables: EdgeTables, project_id: i64, e: EdgeView)
    requires
        vfs_edges(tables, project_id).contains(e),
        e.kind == EdgeKind::BindsTo,
    ensures
        e.subkind == Some("component_script"@),
        exists|c: int, s: int, u: int, v: int| #[trigger]
            is_scripted(tables, project_id, c, s, u, v) && e.from == tables.entries@[u].id && e.to
                == tables.entries@[v].id,
{
    law_binds_to(tables, project_id, e);
    let (c, s, u, v) = choose|c: int, s: int, u: int, v: int|
        #[trigger] is_bound(tables, project_id, c, s, u, v) && e == edge_between(
            tables.entries@,
            u,
            v,
            EdgeKind::BindsTo,
            Some("component_script"@),
        );
    assert(is_scripted(tables, project_id, c, s, u, v));
}

} // verus!
