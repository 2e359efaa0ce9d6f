//! The edges of the virtual file system.
//!
//! | edge          | from, to                                        |
//! |---------------|-------------------------------------------------|
//! | `child_of`    | directory to file, parent to child              |
//! | `defined_in`  | node to the file that defines it                |
//! | `depends_on`  | file to the file that it references by GUID     |
//! | `binds_to`    | component to the file of its script class       |
//! | `instance_of` | scene or prefab to the file that it references  |
use crate::lookup::{key_texts, lemma_rows_with, rows_with, positions, IdIndex, TextIndex};
use crate::text::{
    chars_of, copy_optional, is_digit, law_digits_injective, lemma_digits_are_digits, optional, same_text, signed_decimal,
    signed_digits,
};
use crate::vfs::{EntryType, VfsBuilder};
use vstd::hash_set::StringHashSet;
use vstd::prelude::*;

verus! {

/// The kinds of edges.
#[derive(Clone, Copy, PartialEq, Eq, Structural, Debug)]
pub enum EdgeKind {
    ChildOf,
    DefinedIn,
    DependsOn,
    BindsTo,
    InstanceOf,
}

impl EdgeKind {
    /// The name of the kind in the index.
    pub open spec fn name(self) -> Seq<char> {
        match self {
            EdgeKind::ChildOf => "child_of"@,
            EdgeKind::DefinedIn => "defined_in"@,
            EdgeKind::DependsOn => "depends_on"@,
            EdgeKind::BindsTo => "binds_to"@,
            EdgeKind::InstanceOf => "instance_of"@,
        }
    }

    /// The name of the kind in the index.
    pub fn as_str(&self) -> (r: &'static str)
        ensures
            r@ == self.name(),
    {
        match self {
            EdgeKind::ChildOf => "child_of",
            EdgeKind::DefinedIn => "defined_in",
            EdgeKind::DependsOn => "depends_on",
            EdgeKind::BindsTo => "binds_to",
            EdgeKind::InstanceOf => "instance_of",
        }
    }
}

/// An edge between two entries.
#[derive(Debug, PartialEq, Eq)]
pub struct VfsEdge {
    pub from_entry_id: i64,
    pub to_entry_id: i64,
    pub edge_kind: EdgeKind,
    pub edge_subkind: Option<String>,
}

/// What a [`VfsEdge`] holds.
pub struct EdgeView {
    pub from: i64,
    pub to: i64,
    pub kind: EdgeKind,
    pub subkind: Option<Seq<char>>,
}

impl View for VfsEdge {
    type V = EdgeView;

    open spec fn view(&self) -> EdgeView {
        EdgeView {
            from: self.from_entry_id,
            to: self.to_entry_id,
            kind: self.edge_kind,
            subkind: optional(self.edge_subkind),
        }
    }
}

/// What a list of edges holds.
pub open spec fn edges(v: Seq<VfsEdge>) -> Seq<EdgeView> {
    v.map_values(|e: VfsEdge| e@)
}

/// A stored entry.
pub struct EntryRecord {
    pub id: i64,
    pub project_id: i64,
    pub entry_type: EntryType,
    pub vfs_path: String,
    pub parent_vfs_path: Option<String>,
    pub source_file_id: Option<i64>,
    pub source_entity_id: Option<i64>,
}

/// A file with its GUID.
pub struct GuidRecord {
    pub id: i64,
    pub kind: String,
    pub guid: Option<String>,
}

/// A reference by GUID out of a file.
pub struct ReferenceRecord {
    pub file_id: i64,
    pub target_guid: Option<String>,
    pub ref_kind: Option<String>,
}

/// A C# symbol and the file that declares it.
pub struct SymbolRecord {
    pub id: i64,
    pub file_id: i64,
}

/// An entity and the symbol of the script class that it is bound to.
pub struct EntityRecord {
    pub id: i64,
    pub entity_kind: String,
    pub script_symbol_id: Option<i64>,
}

/// The stored rows that edges are made from.
pub struct EdgeTables {
    pub entries: Vec<EntryRecord>,
    pub files: Vec<GuidRecord>,
    pub references: Vec<ReferenceRecord>,
    pub symbols: Vec<SymbolRecord>,
    pub entities: Vec<EntityRecord>,
}

/// The paths of the entries of a project.
pub open spec fn path_keys(entries: Seq<EntryRecord>, project_id: i64) -> Seq<Option<Seq<char>>> {
    entries.map_values(
        |e: EntryRecord|
            if e.project_id == project_id {
                Some(e.vfs_path@)
            } else {
                None
            },
    )
}

/// The paths of the file entries of a project.
pub open spec fn file_path_keys(entries: Seq<EntryRecord>, project_id: i64) -> Seq<Option<Seq<char>>> {
    entries.map_values(
        |e: EntryRecord|
            if e.project_id == project_id && e.entry_type == EntryType::File {
                Some(e.vfs_path@)
            } else {
                None
            },
    )
}

/// The files behind the file entries of a project.
pub open spec fn file_keys(entries: Seq<EntryRecord>, project_id: i64) -> Seq<Option<i64>> {
    entries.map_values(
        |e: EntryRecord|
            if e.project_id == project_id && e.entry_type == EntryType::File {
                e.source_file_id
            } else {
                None
            },
    )
}

/// The entities behind entries.
pub open spec fn entity_keys(entries: Seq<EntryRecord>) -> Seq<Option<i64>> {
    entries.map_values(|e: EntryRecord| e.source_entity_id)
}

/// A text in ASCII lower case.
pub open spec fn lower(s: Seq<char>) -> Seq<char> {
    s.map_values(|c: char| lower_char(c))
}

/// A character in ASCII lower case.
pub open spec fn lower_char(c: char) -> char {
    if 'A' <= c <= 'Z' {
        ((c as u32) + 32) as char
    } else {
        c
    }
}

/// The GUIDs of files, in lower case.
pub open spec fn guid_keys(files: Seq<GuidRecord>) -> Seq<Option<Seq<char>>> {
    files.map_values(
        |f: GuidRecord|
            match f.guid {
                Some(g) => Some(lower(g@)),
                None => None,
            },
    )
}

/// The ids of files.
pub open spec fn file_ids(files: Seq<GuidRecord>) -> Seq<Option<i64>> {
    files.map_values(|f: GuidRecord| Some(f.id))
}

/// The ids of symbols.
pub open spec fn symbol_ids(symbols: Seq<SymbolRecord>) -> Seq<Option<i64>> {
    symbols.map_values(|s: SymbolRecord| Some(s.id))
}

/// The edge between two entries, given by position.
pub open spec fn edge_between(
    entries: Seq<EntryRecord>,
    from: int,
    to: int,
    kind: EdgeKind,
    subkind: Option<Seq<char>>,
) -> EdgeView {
    EdgeView { from: entries[from].id, to: entries[to].id, kind, subkind }
}

/// The edges from the parents of an entry to it.
pub open spec fn child_edges(entries: Seq<EntryRecord>, project_id: i64, i: int) -> Seq<EdgeView> {
    match entries[i].parent_vfs_path {
        Some(parent) if entries[i].project_id == project_id => rows_with(
            path_keys(entries, project_id),
            parent@,
        ).map_values(|j: int| edge_between(entries, j, i, EdgeKind::ChildOf, None)),
        _ => Seq::empty(),
    }
}

/// The edges from parents to the first `n` entries.
pub open spec fn child_of(entries: Seq<EntryRecord>, project_id: i64, n: nat) -> Seq<EdgeView>
    decreases n,
{
    if n == 0 {
        Seq::empty()
    } else {
        child_of(entries, project_id, (n - 1) as nat) + child_edges(entries, project_id, n - 1)
    }
}

/// The edges from a node to the file that defines it.
pub open spec fn definition_edges(entries: Seq<EntryRecord>, project_id: i64, i: int) -> Seq<EdgeView> {
    match entries[i].parent_vfs_path {
        Some(parent) if entries[i].project_id == project_id && entries[i].entry_type == EntryType::Node => rows_with(
            file_path_keys(entries, project_id),
            parent@,
        ).map_values(|j: int| edge_between(entries, i, j, EdgeKind::DefinedIn, None)),
        _ => Seq::empty(),
    }
}

/// The edges from nodes among the first `n` entries to the files that define them.
pub open spec fn defined_in(entries: Seq<EntryRecord>, project_id: i64, n: nat) -> Seq<EdgeView>
    decreases n,
{
    if n == 0 {
        Seq::empty()
    } else {
        defined_in(entries, project_id, (n - 1) as nat) + definition_edges(entries, project_id, n - 1)
    }
}

/// The edges from each of some entries to each of some others.
pub open spec fn all_between(
    entries: Seq<EntryRecord>,
    from: Seq<int>,
    to: Seq<int>,
    kind: EdgeKind,
    subkind: Option<Seq<char>>,
) -> Seq<EdgeView>
    decreases from.len(),
{
    if from.len() == 0 {
        Seq::empty()
    } else {
        all_between(entries, from.drop_last(), to, kind, subkind) + to.map_values(
            |v: int| edge_between(entries, from.last(), v, kind, subkind),
        )
    }
}

/// Whether a file with this id exists that edges of the kind can come from: any file for
/// `depends_on`, a scene or a prefab for `instance_of`.
pub open spec fn is_source(files: Seq<GuidRecord>, id: i64, kind: EdgeKind) -> bool {
    exists|a: int|
        0 <= a < files.len() && (#[trigger] files[a]).id == id && (kind == EdgeKind::DependsOn || files[a].kind@
            == "scene"@ || files[a].kind@ == "prefab"@)
}

/// The edges from the entries of a file to the entries of the first `m` of some other files.
pub open spec fn edges_to_files(
    tables: EdgeTables,
    project_id: i64,
    file_id: i64,
    targets: Seq<int>,
    kind: EdgeKind,
    subkind: Option<Seq<char>>,
    m: nat,
) -> Seq<EdgeView>
    decreases m,
{
    if m == 0 {
        Seq::empty()
    } else {
        let keys = file_keys(tables.entries@, project_id);
        edges_to_files(tables, project_id, file_id, targets, kind, subkind, (m - 1) as nat) + all_between(
            tables.entries@,
            rows_with(keys, file_id),
            rows_with(keys, tables.files@[targets[m - 1]].id),
            kind,
            subkind,
        )
    }
}

/// The subkind of the edges of a reference.
pub open spec fn reference_subkind(reference: ReferenceRecord, kind: EdgeKind) -> Option<Seq<char>> {
    if kind == EdgeKind::DependsOn {
        optional(reference.ref_kind)
    } else {
        None
    }
}

/// The edges of one reference: from the entries of its file to the entries of every file whose GUID
/// is the target, in upper or lower case.
pub open spec fn reference_edges(tables: EdgeTables, project_id: i64, kind: EdgeKind, i: int) -> Seq<EdgeView> {
    let r = tables.references@[i];
    match r.target_guid {
        Some(guid) if is_source(tables.files@, r.file_id, kind) => {
            let targets = rows_with(guid_keys(tables.files@), lower(guid@));
            edges_to_files(
                tables,
                project_id,
                r.file_id,
                targets,
                kind,
                reference_subkind(r, kind),
                targets.len(),
            )
        },
        _ => Seq::empty(),
    }
}

/// The edges of the first `n` references.
pub open spec fn all_reference_edges(tables: EdgeTables, project_id: i64, kind: EdgeKind, n: nat) -> Seq<EdgeView>
    decreases n,
{
    if n == 0 {
        Seq::empty()
    } else {
        all_reference_edges(tables, project_id, kind, (n - 1) as nat) + reference_edges(
            tables,
            project_id,
            kind,
            n - 1,
        )
    }
}

/// A list without repetitions: the first of equal edges stays.
pub open spec fn distinct(s: Seq<EdgeView>) -> Seq<EdgeView>
    decreases s.len(),
{
    if s.len() == 0 {
        Seq::empty()
    } else {
        let before = distinct(s.drop_last());
        if before.contains(s.last()) {
            before
        } else {
            before.push(s.last())
        }
    }
}

/// The edges from the entries of a component to the entries of the files that declare the first `m` of
/// some symbols. A script class has no entry but that of its file.
pub open spec fn script_edges(
    tables: EdgeTables,
    project_id: i64,
    component: i64,
    targets: Seq<int>,
    m: nat,
) -> Seq<EdgeView>
    decreases m,
{
    if m == 0 {
        Seq::empty()
    } else {
        script_edges(tables, project_id, component, targets, (m - 1) as nat) + all_between(
            tables.entries@,
            rows_with(entity_keys(tables.entries@), component),
            rows_with(file_keys(tables.entries@, project_id), tables.symbols@[targets[m - 1]].file_id),
            EdgeKind::BindsTo,
            Some("component_script"@),
        )
    }
}

/// The edges of one entity to its script: only components that are bound to a symbol have any.
pub open spec fn binding_edges(tables: EdgeTables, project_id: i64, i: int) -> Seq<EdgeView> {
    let e = tables.entities@[i];
    match e.script_symbol_id {
        Some(script) if e.entity_kind@ == "component"@ => {
            let targets = rows_with(symbol_ids(tables.symbols@), script);
            script_edges(tables, project_id, e.id, targets, targets.len())
        },
        _ => Seq::empty(),
    }
}

/// The edges of the first `n` entities to their scripts.
pub open spec fn binds_to(tables: EdgeTables, project_id: i64, n: nat) -> Seq<EdgeView>
    decreases n,
{
    if n == 0 {
        Seq::empty()
    } else {
        binds_to(tables, project_id, (n - 1) as nat) + binding_edges(tables, project_id, n - 1)
    }
}

/// All edges of a project.
pub open spec fn vfs_edges(tables: EdgeTables, project_id: i64) -> Seq<EdgeView> {
    let n = tables.references@.len();
    child_of(tables.entries@, project_id, tables.entries@.len()) + defined_in(
        tables.entries@,
        project_id,
        tables.entries@.len(),
    ) + distinct(all_reference_edges(tables, project_id, EdgeKind::DependsOn, n)) + binds_to(
        tables,
        project_id,
        tables.entities@.len(),
    ) + distinct(all_reference_edges(tables, project_id, EdgeKind::InstanceOf, n))
}

/// A text in ASCII lower case.
fn to_lower(s: &str) -> (r: String)
    ensures
        r@ == lower(s@),
{
    let chars = chars_of(s);
    let mut out = String::new();
    let mut i: usize = 0;
    while i < chars.len()
        invariant
            i <= chars@.len(),
            out@ == lower(chars@.take(i as int)),
        decreases chars@.len() - i,
    {
        let c = chars[i];
        if 'A' <= c && c <= 'Z' {
            out.push(((c as u8) + 32) as char);
        } else {
            out.push(c);
        }
        i = i + 1;
        assert(out@ =~= lower(chars@.take(i as int)));
    }
    assert(chars@.take(i as int) =~= chars@);
    out
}

/// A text that determines end points and subkind of an edge.
pub open spec fn edge_key(e: EdgeView) -> Seq<char> {
    signed_digits(e.from as int).push(',') + signed_digits(e.to as int) + match e.subkind {
        Some(s) => seq![','] + s,
        None => Seq::empty(),
    }
}

proof fn lemma_no_comma(n: int)
    ensures
        forall|i: int| 0 <= i < signed_digits(n).len() ==> #[trigger] signed_digits(n)[i] != ',',
{
    let s = signed_digits(n);
    let d = digits_of(n);
    lemma_digits_are_digits(d);
    assert forall|i: int| 0 <= i < s.len() implies #[trigger] s[i] != ',' by {
        if n < 0 {
            if i > 0 {
                assert(s[i] == crate::text::digits(d)[i - 1]);
            }
        } else {
            assert(s[i] == crate::text::digits(d)[i]);
        }
    }
}

spec fn digits_of(n: int) -> nat {
    if n < 0 {
        (-n) as nat
    } else {
        n as nat
    }
}

proof fn lemma_signed_injective(a: int, b: int)
    requires
        signed_digits(a) == signed_digits(b),
    ensures
        a == b,
{
    let x = crate::text::digits(digits_of(a));
    let y = crate::text::digits(digits_of(b));
    lemma_digits_are_digits(digits_of(a));
    lemma_digits_are_digits(digits_of(b));
    assert(is_digit(x[0]) && is_digit(y[0]));
    let s = signed_digits(a);
    if a < 0 {
        assert(s[0] == '-');
        assert(s.skip(1) =~= x);
    } else {
        assert(s[0] == x[0]);
    }
    if b < 0 {
        assert(signed_digits(b)[0] == '-');
        assert(s.skip(1) =~= y);
    } else {
        assert(signed_digits(b)[0] == y[0]);
    }
    law_digits_injective(digits_of(a), digits_of(b));
}

/// Two texts that agree, each split at its first comma, agree in both parts.
proof fn lemma_split_at_comma(a: Seq<char>, x: Seq<char>, b: Seq<char>, y: Seq<char>)
    requires
        a.push(',') + x == b.push(',') + y,
        forall|i: int| 0 <= i < a.len() ==> #[trigger] a[i] != ',',
        forall|i: int| 0 <= i < b.len() ==> #[trigger] b[i] != ',',
    ensures
        a == b,
        x == y,
{
    let s = a.push(',') + x;
    let t = b.push(',') + y;
    assert(s[a.len() as int] == ',');
    assert(t[b.len() as int] == ',');
    if a.len() < b.len() {
        assert(t[a.len() as int] == b[a.len() as int]);
    } else if b.len() < a.len() {
        assert(s[b.len() as int] == a[b.len() as int]);
    }
    assert(s.take(a.len() as int) =~= a);
    assert(t.take(b.len() as int) =~= b);
    assert(s.skip((a.len() + 1) as int) =~= x);
    assert(t.skip((b.len() + 1) as int) =~= y);
}

/// The key of an edge determines its end points and its subkind.
proof fn lemma_edge_key(e: EdgeView, f: EdgeView)
    requires
        edge_key(e) == edge_key(f),
        e.kind == f.kind,
    ensures
        e == f,
{
    let te = signed_digits(e.to as int);
    let tf = signed_digits(f.to as int);
    let xe = match e.subkind {
        Some(s) => seq![','] + s,
        None => Seq::empty(),
    };
    let xf = match f.subkind {
        Some(s) => seq![','] + s,
        None => Seq::empty(),
    };
    let fe = signed_digits(e.from as int);
    let ff = signed_digits(f.from as int);
    lemma_no_comma(e.from as int);
    lemma_no_comma(f.from as int);
    lemma_no_comma(e.to as int);
    lemma_no_comma(f.to as int);
    assert(edge_key(e) =~= fe.push(',') + (te + xe));
    assert(edge_key(f) =~= ff.push(',') + (tf + xf));
    lemma_split_at_comma(fe, te + xe, ff, tf + xf);
    lemma_signed_injective(e.from as int, f.from as int);
    let ve = te + xe;
    let vf = tf + xf;
    match (e.subkind, f.subkind) {
        (Some(se), Some(sf)) => {
            assert(ve =~= te.push(',') + se);
            assert(vf =~= tf.push(',') + sf);
            lemma_split_at_comma(te, se, tf, sf);
        },
        (None, None) => {
            assert(ve =~= te);
            assert(vf =~= tf);
        },
        (Some(se), None) => {
            assert(vf =~= tf);
            assert(ve[te.len() as int] == ',');
            assert(tf[te.len() as int] == ',');
        },
        (None, Some(sf)) => {
            assert(ve =~= te);
            assert(vf[tf.len() as int] == ',');
            assert(te[tf.len() as int] == ',');
        },
    }
    lemma_signed_injective(e.to as int, f.to as int);
}

/// Collects edges of one kind without repetitions.
struct EdgeSink {
    kind: EdgeKind,
    found: Vec<VfsEdge>,
    seen: StringHashSet,
}

impl EdgeSink {
    spec fn inv(self) -> bool {
        &&& forall|i: int| 0 <= i < self.found@.len() ==> (#[trigger] self.found@[i])@.kind == self.kind
        &&& forall|key: Seq<char>| #[trigger] self.seen@.contains(key) <==> has_key(edges(self.found@), key)
    }

    fn new(kind: EdgeKind) -> (r: EdgeSink)
        ensures
            r.inv(),
            r.kind == kind,
            edges(r.found@) == Seq::<EdgeView>::empty(),
    {
        let r = EdgeSink { kind, found: Vec::new(), seen: StringHashSet::new() };
        assert(edges(r.found@) =~= Seq::<EdgeView>::empty());
        r
    }

    /// Takes an edge, unless it is there already.
    fn offer(&mut self, from: i64, to: i64, subkind: &Option<String>)
        requires
            old(self).inv(),
        ensures
            final(self).inv(),
            final(self).kind == old(self).kind,
            ({
                let e = EdgeView { from, to, kind: old(self).kind, subkind: optional(*subkind) };
                edges(final(self).found@) == if edges(old(self).found@).contains(e) {
                    edges(old(self).found@)
                } else {
                    edges(old(self).found@).push(e)
                }
            }),
    {
        let ghost e = EdgeView { from, to, kind: self.kind, subkind: optional(*subkind) };
        let mut key = signed_decimal(from);
        key.push(',');
        let to_text = signed_decimal(to);
        key.append(to_text.as_str());
        if let Some(s) = subkind {
            key.push(',');
            key.append(s.as_str());
        }
        assert(key@ =~= edge_key(e));
        let ghost before = edges(self.found@);
        let fresh = self.seen.insert(key);
        if fresh {
            proof {
                if before.contains(e) {
                    let i = choose|i: int| 0 <= i < before.len() && before[i] == e;
                    assert(edge_key(before[i]) == edge_key(e));
                }
            }
            let edge = VfsEdge {
                from_entry_id: from,
                to_entry_id: to,
                edge_kind: self.kind,
                edge_subkind: copy_optional(subkind),
            };
            assert(edge@ == e);
            self.found.push(edge);
            assert(edges(self.found@) =~= before.push(e));
            proof {
                lemma_has_key_push(before, e);
            }
        } else {
            proof {
                assert(has_key(before, edge_key(e)));
                let i = choose|i: int| 0 <= i < before.len() && edge_key(#[trigger] before[i]) == edge_key(e);
                assert(before[i] == self.found@[i]@);
                lemma_edge_key(before[i], e);
                assert(before.contains(e));
                assert forall|key: Seq<char>| #[trigger] self.seen@.contains(key) <==> has_key(
                    edges(self.found@),
                    key,
                ) by {
                    assert(old(self).seen@.contains(key) <==> has_key(before, key));
                }
            }
        }
    }
}

spec fn has_key(s: Seq<EdgeView>, key: Seq<char>) -> bool {
    exists|i: int| 0 <= i < s.len() && edge_key(#[trigger] s[i]) == key
}

proof fn lemma_has_key_push(s: Seq<EdgeView>, e: EdgeView)
    ensures
        forall|key: Seq<char>| #[trigger] has_key(s.push(e), key) <==> has_key(s, key) || key == edge_key(e),
{
    let t = s.push(e);
    assert forall|key: Seq<char>| #[trigger] has_key(t, key) <==> has_key(s, key) || key == edge_key(e) by {
        if has_key(s, key) {
            let i = choose|i: int| 0 <= i < s.len() && edge_key(#[trigger] s[i]) == key;
            assert(edge_key(t[i]) == key);
        }
        if key == edge_key(e) {
            assert(edge_key(t[s.len() as int]) == key);
        }
        if has_key(t, key) && key != edge_key(e) {
            let i = choose|i: int| 0 <= i < t.len() && edge_key(#[trigger] t[i]) == key;
            assert(edge_key(s[i]) == key);
        }
    }
}

/// The paths of the entries of a project, or of its file entries alone.
fn collect_paths(entries: &Vec<EntryRecord>, project_id: i64, files_only: bool) -> (r: Vec<Option<String>>)
    ensures
        key_texts(r@) == if files_only {
            file_path_keys(entries@, project_id)
        } else {
            path_keys(entries@, project_id)
        },
{
    let mut keys: Vec<Option<String>> = Vec::new();
    let ghost all = if files_only {
        file_path_keys(entries@, project_id)
    } else {
        path_keys(entries@, project_id)
    };
    let mut i: usize = 0;
    while i < entries.len()
        invariant
            i <= entries@.len(),
            all == if files_only {
                file_path_keys(entries@, project_id)
            } else {
                path_keys(entries@, project_id)
            },
            key_texts(keys@) == all.take(i as int),
        decreases entries@.len() - i,
    {
        let e = &entries[i];
        let ghost before = key_texts(keys@);
        let key = if e.project_id == project_id && (!files_only || e.entry_type == EntryType::File) {
            Some(e.vfs_path.clone())
        } else {
            None
        };
        keys.push(key);
        assert(key_texts(keys@) =~= before.push(optional(key)));
        i = i + 1;
        assert(key_texts(keys@) =~= all.take(i as int));
    }
    assert(all.take(i as int) =~= all);
    keys
}

/// The files behind the file entries of a project.
fn collect_file_keys(entries: &Vec<EntryRecord>, project_id: i64) -> (r: Vec<Option<i64>>)
    ensures
        r@ == file_keys(entries@, project_id),
{
    let mut keys: Vec<Option<i64>> = Vec::new();
    let mut i: usize = 0;
    while i < entries.len()
        invariant
            i <= entries@.len(),
            keys@ == file_keys(entries@, project_id).take(i as int),
        decreases entries@.len() - i,
    {
        let e = &entries[i];
        keys.push(
            if e.project_id == project_id && e.entry_type == EntryType::File {
                e.source_file_id
            } else {
                None
            },
        );
        i = i + 1;
        assert(keys@ =~= file_keys(entries@, project_id).take(i as int));
    }
    assert(keys@ =~= file_keys(entries@, project_id));
    keys
}

/// The entities behind entries.
fn collect_entity_keys(entries: &Vec<EntryRecord>) -> (r: Vec<Option<i64>>)
    ensures
        r@ == entity_keys(entries@),
{
    let mut keys: Vec<Option<i64>> = Vec::new();
    let mut i: usize = 0;
    while i < entries.len()
        invariant
            i <= entries@.len(),
            keys@ == entity_keys(entries@).take(i as int),
        decreases entries@.len() - i,
    {
        keys.push(entries[i].source_entity_id);
        i = i + 1;
        assert(keys@ =~= entity_keys(entries@).take(i as int));
    }
    assert(keys@ =~= entity_keys(entries@));
    keys
}

/// The GUIDs of files, in lower case.
fn collect_guids(files: &Vec<GuidRecord>) -> (r: Vec<Option<String>>)
    ensures
        key_texts(r@) == guid_keys(files@),
{
    let mut keys: Vec<Option<String>> = Vec::new();
    let mut i: usize = 0;
    while i < files.len()
        invariant
            i <= files@.len(),
            key_texts(keys@) == guid_keys(files@).take(i as int),
        decreases files@.len() - i,
    {
        let ghost before = key_texts(keys@);
        let key = match &files[i].guid {
            Some(g) => Some(to_lower(g.as_str())),
            None => None,
        };
        keys.push(key);
        assert(key_texts(keys@) =~= before.push(optional(key)));
        i = i + 1;
        assert(key_texts(keys@) =~= guid_keys(files@).take(i as int));
    }
    assert(key_texts(keys@) =~= guid_keys(files@));
    keys
}

/// The ids of files.
fn collect_file_ids(files: &Vec<GuidRecord>) -> (r: Vec<Option<i64>>)
    ensures
        r@ == file_ids(files@),
{
    let mut keys: Vec<Option<i64>> = Vec::new();
    let mut i: usize = 0;
    while i < files.len()
        invariant
            i <= files@.len(),
            keys@ == file_ids(files@).take(i as int),
        decreases files@.len() - i,
    {
        keys.push(Some(files[i].id));
        i = i + 1;
        assert(keys@ =~= file_ids(files@).take(i as int));
    }
    assert(keys@ =~= file_ids(files@));
    keys
}

/// The ids of symbols.
fn collect_symbol_ids(symbols: &Vec<SymbolRecord>) -> (r: Vec<Option<i64>>)
    ensures
        r@ == symbol_ids(symbols@),
{
    let mut keys: Vec<Option<i64>> = Vec::new();
    let mut i: usize = 0;
    while i < symbols.len()
        invariant
            i <= symbols@.len(),
            keys@ == symbol_ids(symbols@).take(i as int),
        decreases symbols@.len() - i,
    {
        keys.push(Some(symbols[i].id));
        i = i + 1;
        assert(keys@ =~= symbol_ids(symbols@).take(i as int));
    }
    assert(keys@ =~= symbol_ids(symbols@));
    keys
}

/// Offers the edges from each of some entries to each of some others.
fn offer_all_between(
    sink: &mut EdgeSink,
    entries: &Vec<EntryRecord>,
    from: &Vec<usize>,
    to: &Vec<usize>,
    subkind: &Option<String>,
    Ghost(offered): Ghost<Seq<EdgeView>>,
)
    requires
        old(sink).inv(),
        forall|i: int| 0 <= i < from@.len() ==> (#[trigger] from@[i]) < entries@.len(),
        forall|i: int| 0 <= i < to@.len() ==> (#[trigger] to@[i]) < entries@.len(),
        edges(old(sink).found@) == distinct(offered),
    ensures
        final(sink).inv(),
        final(sink).kind == old(sink).kind,
        edges(final(sink).found@) == distinct(
            offered + all_between(entries@, positions(from@), positions(to@), old(sink).kind, optional(*subkind)),
        ),
{
    let ghost kind = sink.kind;
    let ghost sub = optional(*subkind);
    let ghost fs = positions(from@);
    let ghost ts = positions(to@);
    let mut a: usize = 0;
    assert(offered + all_between(entries@, fs.take(0), ts, kind, sub) =~= offered);
    while a < from.len()
        invariant
            a <= from@.len(),
            fs == positions(from@),
            ts == positions(to@),
            sub == optional(*subkind),
            sink.inv(),
            sink.kind == kind,
            forall|i: int| 0 <= i < from@.len() ==> (#[trigger] from@[i]) < entries@.len(),
            forall|i: int| 0 <= i < to@.len() ==> (#[trigger] to@[i]) < entries@.len(),
            edges(sink.found@) == distinct(offered + all_between(entries@, fs.take(a as int), ts, kind, sub)),
        decreases from@.len() - a,
    {
        let u = from[a];
        let ghost base = offered + all_between(entries@, fs.take(a as int), ts, kind, sub);
        let ghost row = ts.map_values(|v: int| edge_between(entries@, u as int, v, kind, sub));
        let mut b: usize = 0;
        assert(base + row.take(0) =~= base);
        while b < to.len()
            invariant
                b <= to@.len(),
                u < entries@.len(),
                ts == positions(to@),
                sub == optional(*subkind),
                row == ts.map_values(|v: int| edge_between(entries@, u as int, v, kind, sub)),
                sink.inv(),
                sink.kind == kind,
                forall|i: int| 0 <= i < to@.len() ==> (#[trigger] to@[i]) < entries@.len(),
                edges(sink.found@) == distinct(base + row.take(b as int)),
            decreases to@.len() - b,
        {
            let v = to[b];
            sink.offer(entries[u].id, entries[v].id, subkind);
            proof {
                let all = base + row.take(b + 1);
                assert(all.drop_last() =~= base + row.take(b as int));
                assert(all.last() == row[b as int]);
                assert(row[b as int] == edge_between(entries@, u as int, v as int, kind, sub));
            }
            b = b + 1;
        }
        proof {
            assert(row.take(b as int) =~= row);
            assert(fs.take(a + 1).drop_last() =~= fs.take(a as int));
            assert(fs.take(a + 1).last() == u as int);
            assert(offered + all_between(entries@, fs.take(a + 1), ts, kind, sub) =~= base + row);
        }
        a = a + 1;
    }
    assert(fs.take(a as int) =~= fs);
}

proof fn lemma_found_in_range<T>(keys: Seq<Option<T>>, key: T, found: Seq<usize>)
    requires
        positions(found) == rows_with(keys, key),
    ensures
        forall|i: int| 0 <= i < found.len() ==> (#[trigger] found[i]) < keys.len(),
{
    lemma_rows_with(keys, key);
    assert forall|i: int| 0 <= i < found.len() implies (#[trigger] found[i]) < keys.len() by {
        assert(positions(found)[i] == found[i]);
    }
}

impl VfsBuilder {
    /// All edges of the project: `child_of`, `defined_in`, `depends_on`, `binds_to` and
    /// `instance_of`, in this order.
    pub fn build_vfs_edges(&self, tables: &EdgeTables) -> (r: Vec<VfsEdge>)
        ensures
            edges(r@) == vfs_edges(*tables, self.project_id),
    {
        let mut out = self.link_children(&tables.entries);
        let ghost e1 = edges(out@);
        let mut more = self.link_definitions(&tables.entries);
        let ghost e2 = edges(more@);
        out.append(&mut more);
        assert(edges(out@) =~= e1 + e2);
        let mut more = self.link_references(tables, EdgeKind::DependsOn);
        let ghost e3 = edges(more@);
        out.append(&mut more);
        assert(edges(out@) =~= e1 + e2 + e3);
        let mut more = self.link_scripts(tables);
        let ghost e4 = edges(more@);
        out.append(&mut more);
        assert(edges(out@) =~= e1 + e2 + e3 + e4);
        let mut more = self.link_references(tables, EdgeKind::InstanceOf);
        let ghost e5 = edges(more@);
        out.append(&mut more);
        assert(edges(out@) =~= e1 + e2 + e3 + e4 + e5);
        out
    }

    /// The `child_of` edges.
    fn link_children(&self, entries: &Vec<EntryRecord>) -> (r: Vec<VfsEdge>)
        ensures
            edges(r@) == child_of(entries@, self.project_id, entries@.len()),
    {
        let keys = collect_paths(entries, self.project_id, false);
        let index = TextIndex::new(&keys);
        let ghost paths = path_keys(entries@, self.project_id);
        let mut out: Vec<VfsEdge> = Vec::new();
        let mut i: usize = 0;
        assert(edges(out@) =~= Seq::<EdgeView>::empty());
        while i < entries.len()
            invariant
                i <= entries@.len(),
                paths == path_keys(entries@, self.project_id),
                index@ == paths,
                edges(out@) == child_of(entries@, self.project_id, i as nat),
            decreases entries@.len() - i,
        {
            let ghost base = edges(out@);
            let ghost row = child_edges(entries@, self.project_id, i as int);
            if let Some(parent) = &entries[i].parent_vfs_path {
                if entries[i].project_id == self.project_id {
                    let found = index.find(parent.as_str());
                    proof {
                        lemma_found_in_range(paths, parent@, found@);
                    }
                    let mut k: usize = 0;
                    assert(base + row.take(0) =~= base);
                    while k < found.len()
                        invariant
                            k <= found@.len(),
                            i < entries@.len(),
                            forall|j: int| 0 <= j < found@.len() ==> (#[trigger] found@[j]) < entries@.len(),
                            row == positions(found@).map_values(
                                |j: int| edge_between(entries@, j, i as int, EdgeKind::ChildOf, None),
                            ),
                            edges(out@) == base + row.take(k as int),
                        decreases found@.len() - k,
                    {
                        let j = found[k];
                        let ghost before = edges(out@);
                        let edge = VfsEdge {
                            from_entry_id: entries[j].id,
                            to_entry_id: entries[i].id,
                            edge_kind: EdgeKind::ChildOf,
                            edge_subkind: None,
                        };
                        assert(edge@ == row[k as int]);
                        out.push(edge);
                        assert(edges(out@) =~= before.push(edge@));
                        k = k + 1;
                        assert(edges(out@) =~= base + row.take(k as int));
                    }
                    assert(row.take(k as int) =~= row);
                }
            }
            assert(edges(out@) =~= base + row);
            i = i + 1;
        }
        out
    }

    /// The `defined_in` edges.
    fn link_definitions(&self, entries: &Vec<EntryRecord>) -> (r: Vec<VfsEdge>)
        ensures
            edges(r@) == defined_in(entries@, self.project_id, entries@.len()),
    {
        let keys = collect_paths(entries, self.project_id, true);
        let index = TextIndex::new(&keys);
        let ghost paths = file_path_keys(entries@, self.project_id);
        let mut out: Vec<VfsEdge> = Vec::new();
        let mut i: usize = 0;
        assert(edges(out@) =~= Seq::<EdgeView>::empty());
        while i < entries.len()
            invariant
                i <= entries@.len(),
                paths == file_path_keys(entries@, self.project_id),
                index@ == paths,
                edges(out@) == defined_in(entries@, self.project_id, i as nat),
            decreases entries@.len() - i,
        {
            let ghost base = edges(out@);
            let ghost row = definition_edges(entries@, self.project_id, i as int);
            if let Some(parent) = &entries[i].parent_vfs_path {
                if entries[i].project_id == self.project_id && entries[i].entry_type == EntryType::Node {
                    let found = index.find(parent.as_str());
                    proof {
                        lemma_found_in_range(paths, parent@, found@);
                    }
                    let mut k: usize = 0;
                    assert(base + row.take(0) =~= base);
                    while k < found.len()
                        invariant
                            k <= found@.len(),
                            i < entries@.len(),
                            forall|j: int| 0 <= j < found@.len() ==> (#[trigger] found@[j]) < entries@.len(),
                            row == positions(found@).map_values(
                                |j: int| edge_between(entries@, i as int, j, EdgeKind::DefinedIn, None),
                            ),
                            edges(out@) == base + row.take(k as int),
                        decreases found@.len() - k,
                    {
                        let j = found[k];
                        let ghost before = edges(out@);
                        let edge = VfsEdge {
                            from_entry_id: entries[i].id,
                            to_entry_id: entries[j].id,
                            edge_kind: EdgeKind::DefinedIn,
                            edge_subkind: None,
                        };
                        assert(edge@ == row[k as int]);
                        out.push(edge);
                        assert(edges(out@) =~= before.push(edge@));
                        k = k + 1;
                        assert(edges(out@) =~= base + row.take(k as int));
                    }
                    assert(row.take(k as int) =~= row);
                }
            }
            assert(edges(out@) =~= base + row);
            i = i + 1;
        }
        out
    }
}

impl VfsBuilder {
    /// The edges of the references: `depends_on`, or `instance_of` for scenes and prefabs.
    fn link_references(&self, tables: &EdgeTables, kind: EdgeKind) -> (r: Vec<VfsEdge>)
        requires
            kind == EdgeKind::DependsOn || kind == EdgeKind::InstanceOf,
        ensures
            edges(r@) == distinct(all_reference_edges(*tables, self.project_id, kind, tables.references@.len())),
    {
        let guids = collect_guids(&tables.files);
        let by_guid = TextIndex::new(&guids);
        let ids = collect_file_ids(&tables.files);
        let by_id = IdIndex::new(&ids);
        let file_of_entry = collect_file_keys(&tables.entries, self.project_id);
        let by_file = IdIndex::new(&file_of_entry);
        let ghost guid_list = guid_keys(tables.files@);
        let ghost id_list = file_ids(tables.files@);
        let ghost file_list = file_keys(tables.entries@, self.project_id);
        let mut sink = EdgeSink::new(kind);
        let mut i: usize = 0;
        assert(distinct(Seq::<EdgeView>::empty()) =~= Seq::<EdgeView>::empty());
        while i < tables.references.len()
            invariant
                i <= tables.references@.len(),
                kind == EdgeKind::DependsOn || kind == EdgeKind::InstanceOf,
                guid_list == guid_keys(tables.files@),
                id_list == file_ids(tables.files@),
                file_list == file_keys(tables.entries@, self.project_id),
                by_guid@ == guid_list,
                by_id@ == id_list,
                by_file@ == file_list,
                sink.inv(),
                sink.kind == kind,
                edges(sink.found@) == distinct(all_reference_edges(*tables, self.project_id, kind, i as nat)),
            decreases tables.references@.len() - i,
        {
            let r = &tables.references[i];
            let ghost base = all_reference_edges(*tables, self.project_id, kind, i as nat);
            let ghost row = reference_edges(*tables, self.project_id, kind, i as int);
            if let Some(guid) = &r.target_guid {
                let sources = by_id.find(r.file_id);
                if is_source_file(&tables.files, &sources, r.file_id, kind) {
                    let key = to_lower(guid.as_str());
                    let targets = by_guid.find(key.as_str());
                    let from = by_file.find(r.file_id);
                    let subkind = if kind == EdgeKind::DependsOn {
                        copy_optional(&r.ref_kind)
                    } else {
                        None
                    };
                    let ghost sub = reference_subkind(*r, kind);
                    let ghost ts = positions(targets@);
                    proof {
                        lemma_found_in_range(guid_list, key@, targets@);
                        lemma_found_in_range(file_list, r.file_id, from@);
                    }
                    let mut m: usize = 0;
                    assert(base + edges_to_files(*tables, self.project_id, r.file_id, ts, kind, sub, 0) =~= base);
                    while m < targets.len()
                        invariant
                            m <= targets@.len(),
                            ts == positions(targets@),
                            sub == optional(subkind),
                            file_list == file_keys(tables.entries@, self.project_id),
                            by_file@ == file_list,
                            positions(from@) == rows_with(file_list, r.file_id),
                            forall|j: int| 0 <= j < targets@.len() ==> (#[trigger] targets@[j]) < tables.files@.len(),
                            forall|j: int| 0 <= j < from@.len() ==> (#[trigger] from@[j]) < tables.entries@.len(),
                            sink.inv(),
                            sink.kind == kind,
                            edges(sink.found@) == distinct(
                                base + edges_to_files(
                                    *tables,
                                    self.project_id,
                                    r.file_id,
                                    ts,
                                    kind,
                                    sub,
                                    m as nat,
                                ),
                            ),
                        decreases targets@.len() - m,
                    {
                        let target_id = tables.files[targets[m]].id;
                        let to = by_file.find(target_id);
                        let ghost offered = base + edges_to_files(
                            *tables,
                            self.project_id,
                            r.file_id,
                            ts,
                            kind,
                            sub,
                            m as nat,
                        );
                        proof {
                            lemma_found_in_range(file_list, target_id, to@);
                        }
                        offer_all_between(&mut sink, &tables.entries, &from, &to, &subkind, Ghost(offered));
                        proof {
                            assert(ts[m as int] == targets@[m as int]);
                            assert(offered + all_between(
                                tables.entries@,
                                positions(from@),
                                positions(to@),
                                kind,
                                sub,
                            ) =~= base + edges_to_files(
                                *tables,
                                self.project_id,
                                r.file_id,
                                ts,
                                kind,
                                sub,
                                (m + 1) as nat,
                            ));
                        }
                        m = m + 1;
                    }
                }
            }
            assert(edges(sink.found@) == distinct(base + row)) by {
                assert(row.len() == 0 ==> base + row =~= base);
            }
            i = i + 1;
        }
        sink.found
    }

    /// The `binds_to` edges.
    fn link_scripts(&self, tables: &EdgeTables) -> (r: Vec<VfsEdge>)
        ensures
            edges(r@) == binds_to(*tables, self.project_id, tables.entities@.len()),
    {
        let entity_of_entry = collect_entity_keys(&tables.entries);
        let by_entity = IdIndex::new(&entity_of_entry);
        let file_of_entry = collect_file_keys(&tables.entries, self.project_id);
        let by_file = IdIndex::new(&file_of_entry);
        let ids = collect_symbol_ids(&tables.symbols);
        let by_id = IdIndex::new(&ids);
        let ghost entity_list = entity_keys(tables.entries@);
        let ghost file_list = file_keys(tables.entries@, self.project_id);
        let ghost id_list = symbol_ids(tables.symbols@);
        let mut out: Vec<VfsEdge> = Vec::new();
        let mut i: usize = 0;
        assert(edges(out@) =~= Seq::<EdgeView>::empty());
        while i < tables.entities.len()
            invariant
                i <= tables.entities@.len(),
                entity_list == entity_keys(tables.entries@),
                file_list == file_keys(tables.entries@, self.project_id),
                id_list == symbol_ids(tables.symbols@),
                by_entity@ == entity_list,
                by_file@ == file_list,
                by_id@ == id_list,
                edges(out@) == binds_to(*tables, self.project_id, i as nat),
            decreases tables.entities@.len() - i,
        {
            let e = &tables.entities[i];
            let ghost base = edges(out@);
            let ghost row = binding_edges(*tables, self.project_id, i as int);
            if let Some(script) = e.script_symbol_id {
                if same_text(e.entity_kind.as_str(), "component") {
                    let targets = by_id.find(script);
                    let from = by_entity.find(e.id);
                    let ghost ts = positions(targets@);
                    proof {
                        lemma_found_in_range(id_list, script, targets@);
                        lemma_found_in_range(entity_list, e.id, from@);
                    }
                    let mut m: usize = 0;
                    assert(base + script_edges(*tables, self.project_id, e.id, ts, 0) =~= base);
                    while m < targets.len()
                        invariant
                            m <= targets@.len(),
                            ts == positions(targets@),
                            entity_list == entity_keys(tables.entries@),
                            file_list == file_keys(tables.entries@, self.project_id),
                            by_file@ == file_list,
                            positions(from@) == rows_with(entity_list, e.id),
                            forall|j: int| 0 <= j < targets@.len() ==> (#[trigger] targets@[j]) < tables.symbols@.len(),
                            forall|j: int| 0 <= j < from@.len() ==> (#[trigger] from@[j]) < tables.entries@.len(),
                            edges(out@) == base + script_edges(*tables, self.project_id, e.id, ts, m as nat),
                        decreases targets@.len() - m,
                    {
                        let file_id = tables.symbols[targets[m]].file_id;
                        let to = by_file.find(file_id);
                        proof {
                            lemma_found_in_range(file_list, file_id, to@);
                            assert(ts[m as int] == targets@[m as int]);
                        }
                        push_script_edges(&mut out, &tables.entries, &from, &to);
                        m = m + 1;
                        assert(edges(out@) =~= base + script_edges(*tables, self.project_id, e.id, ts, m as nat));
                    }
                }
            }
            assert(edges(out@) =~= base + row);
            i = i + 1;
        }
        out
    }
}

/// Appends the `binds_to` edges from each of some entries to each of some others.
fn push_script_edges(out: &mut Vec<VfsEdge>, entries: &Vec<EntryRecord>, from: &Vec<usize>, to: &Vec<usize>)
    requires
        forall|i: int| 0 <= i < from@.len() ==> (#[trigger] from@[i]) < entries@.len(),
        forall|i: int| 0 <= i < to@.len() ==> (#[trigger] to@[i]) < entries@.len(),
    ensures
        edges(final(out)@) == edges(old(out)@) + all_between(
            entries@,
            positions(from@),
            positions(to@),
            EdgeKind::BindsTo,
            Some("component_script"@),
        ),
{
    let ghost base = edges(out@);
    let ghost sub = Some("component_script"@);
    let ghost fs = positions(from@);
    let ghost ts = positions(to@);
    let mut a: usize = 0;
    assert(base + all_between(entries@, fs.take(0), ts, EdgeKind::BindsTo, sub) =~= base);
    while a < from.len()
        invariant
            a <= from@.len(),
            fs == positions(from@),
            ts == positions(to@),
            sub == Some("component_script"@),
            forall|i: int| 0 <= i < from@.len() ==> (#[trigger] from@[i]) < entries@.len(),
            forall|i: int| 0 <= i < to@.len() ==> (#[trigger] to@[i]) < entries@.len(),
            edges(out@) == base + all_between(entries@, fs.take(a as int), ts, EdgeKind::BindsTo, sub),
        decreases from@.len() - a,
    {
        let u = from[a];
        let ghost start = edges(out@);
        let ghost row = ts.map_values(|v: int| edge_between(entries@, u as int, v, EdgeKind::BindsTo, sub));
        let mut b: usize = 0;
        assert(start + row.take(0) =~= start);
        while b < to.len()
            invariant
                b <= to@.len(),
                u < entries@.len(),
                ts == positions(to@),
                sub == Some("component_script"@),
                row == ts.map_values(|v: int| edge_between(entries@, u as int, v, EdgeKind::BindsTo, sub)),
                forall|i: int| 0 <= i < to@.len() ==> (#[trigger] to@[i]) < entries@.len(),
                edges(out@) == start + row.take(b as int),
            decreases to@.len() - b,
        {
            let v = to[b];
            let ghost before = edges(out@);
            let edge = VfsEdge {
                from_entry_id: entries[u].id,
                to_entry_id: entries[v].id,
                edge_kind: EdgeKind::BindsTo,
                edge_subkind: Some("component_script".to_owned()),
            };
            assert(edge@ == row[b as int]);
            out.push(edge);
            assert(edges(out@) =~= before.push(edge@));
            b = b + 1;
            assert(edges(out@) =~= start + row.take(b as int));
        }
        proof {
            assert(row.take(b as int) =~= row);
            assert(fs.take(a + 1).drop_last() =~= fs.take(a as int));
            assert(fs.take(a + 1).last() == u as int);
            assert(base + all_between(entries@, fs.take(a + 1), ts, EdgeKind::BindsTo, sub) =~= start + row);
        }
        a = a + 1;
    }
    assert(fs.take(a as int) =~= fs);
}

/// Whether edges of the kind can come from a file with this id; `sources` are the files that have it.
fn is_source_file(files: &Vec<GuidRecord>, sources: &Vec<usize>, id: i64, kind: EdgeKind) -> (r: bool)
    requires
        positions(sources@) == rows_with(file_ids(files@), id),
    ensures
        r == is_source(files@, id, kind),
{
    proof {
        lemma_rows_with(file_ids(files@), id);
        lemma_found_in_range(file_ids(files@), id, sources@);
        assert forall|j: int| 0 <= j < sources@.len() implies files@[(#[trigger] sources@[j]) as int].id == id by {
            assert(positions(sources@)[j] == sources@[j]);
            assert(file_ids(files@)[sources@[j] as int] == Some(id));
        }
    }
    let mut i: usize = 0;
    while i < sources.len()
        invariant
            i <= sources@.len(),
            forall|j: int| 0 <= j < sources@.len() ==> (#[trigger] sources@[j]) < files@.len(),
            forall|j: int| 0 <= j < sources@.len() ==> files@[(#[trigger] sources@[j]) as int].id == id,
            forall|j: int|
                0 <= j < i ==> {
                    let f = files@[(#[trigger] sources@[j]) as int];
                    !(kind == EdgeKind::DependsOn || f.kind@ == "scene"@ || f.kind@ == "prefab"@)
                },
        decreases sources@.len() - i,
    {
        let f = &files[sources[i]];
        if kind == EdgeKind::DependsOn || same_text(f.kind.as_str(), "scene") || same_text(
            f.kind.as_str(),
            "prefab",
        ) {
            assert(files@[sources@[i as int] as int].id == id);
            return true;
        }
        i = i + 1;
    }
    assert forall|a: int| 0 <= a < files@.len() && (#[trigger] files@[a]).id == id implies !(kind
        == EdgeKind::DependsOn || files@[a].kind@ == "scene"@ || files@[a].kind@ == "prefab"@) by {
        assert(file_ids(files@)[a] == Some(id));
        let found = rows_with(file_ids(files@), id);
        assert(found.contains(a));
        let j = choose|j: int| 0 <= j < found.len() && found[j] == a;
        assert(positions(sources@)[j] == sources@[j]);
    }
    false
}

} // verus!
