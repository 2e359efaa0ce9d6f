//! The rows that extraction stores. Every table numbers its rows from a counter of its own.
use crate::lookup::{first_with, key_texts, TextIndex};
use crate::text::optional;
use vstd::prelude::*;

verus! {

/// A row with its id and the file that it comes from.
#[derive(Debug, PartialEq, Eq)]
pub struct Row<T> {
    pub id: i64,
    pub file_id: i64,
    pub item: T,
}

/// Items numbered from `first_id` on.
pub open spec fn numbered<T>(first_id: int, file_id: i64, items: Seq<T>) -> Seq<Row<T>> {
    Seq::new(items.len(), |i: int| Row { id: (first_id + i) as i64, file_id, item: items[i] })
}

/// Numbers items of a file by the counter.
pub fn number_rows<T>(next_id: &mut i64, file_id: i64, items: Vec<T>) -> (r: Vec<Row<T>>)
    requires
        *old(next_id) + items@.len() <= i64::MAX,
    ensures
        *final(next_id) == *old(next_id) + items@.len(),
        r@ == numbered(*old(next_id) as int, file_id, items@),
{
    let ghost all = items@;
    let ghost first = *next_id as int;
    let mut rows: Vec<Row<T>> = Vec::new();
    assert(rows@ =~= numbered(first, file_id, all.take(0)));
    for item in it: items
        invariant
            it.seq() == all,
            *next_id == first + it.index(),
            first + all.len() <= i64::MAX,
            rows@ == numbered(first, file_id, all.take(it.index() as int)),
    {
        let ghost before = rows@;
        rows.push(Row { id: *next_id, file_id, item });
        *next_id = *next_id + 1;
        assert(rows@ =~= numbered(first, file_id, all.take(it.index() + 1)));
    }
    assert(all.take(all.len() as int) =~= all);
    rows
}

/// Within a batch and between a batch and the next, no two rows have the same id.
pub proof fn law_ids_are_unique<T>(first_id: int, file_a: i64, a: Seq<T>, file_b: i64, b: Seq<T>, i: int, j: int)
    requires
        i64::MIN <= first_id,
        first_id + a.len() + b.len() <= i64::MAX,
        0 <= i < j < a.len() + b.len(),
    ensures
        (numbered(first_id, file_a, a) + numbered(first_id + a.len(), file_b, b))[i].id != (numbered(
            first_id,
            file_a,
            a,
        ) + numbered(first_id + a.len(), file_b, b))[j].id,
{
}

/// An object in a Unity YAML file.
pub struct YamlObject {
    pub doc_index: usize,
    pub unity_class_id: i64,
    pub anchor: Option<String>,
    pub object_type: String,
    /// Its identifier within the file.
    pub local_identifier: String,
    pub game_object_file_id: Option<String>,
    pub component_type_name: Option<String>,
    pub script_guid: Option<String>,
    pub script_file_id: Option<String>,
    pub name: Option<String>,
    pub line_start: Option<i64>,
    pub line_end: Option<i64>,
}

/// A reference in a Unity YAML file.
pub struct YamlReference {
    /// The object that it stands in.
    pub source_local_identifier: Option<String>,
    pub field_path: String,
    pub target_guid: Option<String>,
    pub target_file_id: Option<i64>,
    pub target_local_id: Option<String>,
    pub ref_kind: String,
}

/// A stored object of a Unity YAML file.
pub struct StoredObject {
    pub id: i64,
    pub local_identifier: String,
}

/// The identifiers of stored objects.
pub open spec fn object_keys(objects: Seq<StoredObject>) -> Seq<Option<Seq<char>>> {
    objects.map_values(|o: StoredObject| Some(o.local_identifier@))
}

/// The id of the first object with an identifier.
pub open spec fn object_id(objects: Seq<StoredObject>, key: Option<Seq<char>>) -> Option<i64> {
    match key {
        Some(key) => match first_with(object_keys(objects), key) {
            Some(i) => Some(objects[i].id),
            None => None,
        },
        None => None,
    }
}

/// The stored objects of one file, by identifier.
pub struct ObjectIndex<'a> {
    objects: &'a Vec<StoredObject>,
    index: TextIndex,
}

impl<'a> ObjectIndex<'a> {
    #[verifier::type_invariant]
    spec fn inv(self) -> bool {
        self.index@ == object_keys(self.objects@)
    }

    /// The objects.
    pub closed spec fn objects(self) -> Seq<StoredObject> {
        self.objects@
    }

    /// The table of the objects.
    pub fn new(objects: &'a Vec<StoredObject>) -> (r: ObjectIndex<'a>)
        ensures
            r.objects() == objects@,
    {
        let mut keys: Vec<Option<String>> = Vec::new();
        let mut i: usize = 0;
        while i < objects.len()
            invariant
                i <= objects@.len(),
                key_texts(keys@) == object_keys(objects@).take(i as int),
            decreases objects@.len() - i,
        {
            let ghost before = key_texts(keys@);
            keys.push(Some(objects[i].local_identifier.clone()));
            assert(key_texts(keys@) =~= before.push(Some(objects@[i as int].local_identifier@)));
            i = i + 1;
            assert(key_texts(keys@) =~= object_keys(objects@).take(i as int));
        }
        assert(key_texts(keys@) =~= object_keys(objects@));
        let index = TextIndex::new(&keys);
        ObjectIndex { objects, index }
    }

    /// The id of the first object with an identifier.
    pub fn id_of(&self, key: &Option<String>) -> (r: Option<i64>)
        ensures
            r == object_id(self.objects(), optional(*key)),
    {
        proof {
            use_type_invariant(self);
        }
        match key {
            Some(key) => {
                proof {
                    crate::lookup::lemma_first_with(self.index@, key@);
                }
                match self.index.first(key.as_str()) {
                    Some(i) => Some(self.objects[i].id),
                    None => None,
                }
            },
            None => None,
        }
    }
}

/// A reference to store.
pub struct ReferenceRow {
    pub id: i64,
    pub file_id: i64,
    /// The object that the reference stands in, where it is stored.
    pub source_yaml_object_id: Option<i64>,
    pub reference: YamlReference,
}

/// The rows of the references of a file with the given objects.
pub open spec fn reference_rows_of(
    first_id: int,
    file_id: i64,
    objects: Seq<StoredObject>,
    references: Seq<YamlReference>,
) -> Seq<ReferenceRow> {
    Seq::new(
        references.len(),
        |i: int|
            ReferenceRow {
                id: (first_id + i) as i64,
                file_id,
                source_yaml_object_id: object_id(objects, optional(references[i].source_local_identifier)),
                reference: references[i],
            },
    )
}

/// Numbers the references of a file and finds the objects that they stand in.
pub fn reference_rows(
    next_id: &mut i64,
    file_id: i64,
    objects: &Vec<StoredObject>,
    references: Vec<YamlReference>,
) -> (r: Vec<ReferenceRow>)
    requires
        *old(next_id) + references@.len() <= i64::MAX,
    ensures
        *final(next_id) == *old(next_id) + references@.len(),
        r@ == reference_rows_of(*old(next_id) as int, file_id, objects@, references@),
{
    let ghost all = references@;
    let ghost first = *next_id as int;
    let index = ObjectIndex::new(objects);
    let mut rows: Vec<ReferenceRow> = Vec::new();
    assert(rows@ =~= reference_rows_of(first, file_id, objects@, all.take(0)));
    for reference in it: references
        invariant
            it.seq() == all,
            index.objects() == objects@,
            *next_id == first + it.index(),
            first + all.len() <= i64::MAX,
            rows@ == reference_rows_of(first, file_id, objects@, all.take(it.index() as int)),
    {
        let source_yaml_object_id = index.id_of(&reference.source_local_identifier);
        rows.push(ReferenceRow { id: *next_id, file_id, source_yaml_object_id, reference });
        *next_id = *next_id + 1;
        assert(rows@ =~= reference_rows_of(first, file_id, objects@, all.take(it.index() + 1)));
    }
    assert(all.take(all.len() as int) =~= all);
    rows
}

/// A declaration in a C# file.
pub struct CsDeclaration {
    pub decl_kind: String,
    pub simple_name: String,
    pub qualified_name: String,
    pub signature: Option<String>,
    pub line_start: i64,
    pub line_end: i64,
}

/// A mention in a C# file.
pub struct CsMention {
    pub mention_kind: String,
    pub text: String,
    pub receiver_text: Option<String>,
    /// The simple name of the declaration that it stands in.
    pub containing_declaration: Option<String>,
    pub line_start: i64,
    pub line_end: i64,
}

/// The simple names of declarations.
pub open spec fn simple_names(declarations: Seq<Row<CsDeclaration>>) -> Seq<Option<Seq<char>>> {
    declarations.map_values(|d: Row<CsDeclaration>| Some(d.item.simple_name@))
}

/// The id of the first declaration with a simple name.
pub open spec fn declaration_id(declarations: Seq<Row<CsDeclaration>>, name: Option<Seq<char>>) -> Option<i64> {
    match name {
        Some(name) => match first_with(simple_names(declarations), name) {
            Some(i) => Some(declarations[i].id),
            None => None,
        },
        None => None,
    }
}

/// A mention to store.
pub struct MentionRow {
    pub id: i64,
    pub file_id: i64,
    /// The first declaration of the file with the name of the one that the mention stands in.
    pub containing_declaration_id: Option<i64>,
    pub mention: CsMention,
}

/// The rows of the mentions of a file with the given declarations.
pub open spec fn mention_rows_of(
    first_id: int,
    file_id: i64,
    declarations: Seq<Row<CsDeclaration>>,
    mentions: Seq<CsMention>,
) -> Seq<MentionRow> {
    Seq::new(
        mentions.len(),
        |i: int|
            MentionRow {
                id: (first_id + i) as i64,
                file_id,
                containing_declaration_id: declaration_id(
                    declarations,
                    optional(mentions[i].containing_declaration),
                ),
                mention: mentions[i],
            },
    )
}

/// Numbers the mentions of a file and finds the declarations that they stand in.
pub fn mention_rows(
    next_id: &mut i64,
    file_id: i64,
    declarations: &Vec<Row<CsDeclaration>>,
    mentions: Vec<CsMention>,
) -> (r: Vec<MentionRow>)
    requires
        *old(next_id) + mentions@.len() <= i64::MAX,
    ensures
        *final(next_id) == *old(next_id) + mentions@.len(),
        r@ == mention_rows_of(*old(next_id) as int, file_id, declarations@, mentions@),
{
    let ghost all = mentions@;
    let ghost first = *next_id as int;
    let mut names: Vec<Option<String>> = Vec::new();
    let mut i: usize = 0;
    while i < declarations.len()
        invariant
            i <= declarations@.len(),
            key_texts(names@) == simple_names(declarations@).take(i as int),
        decreases declarations@.len() - i,
    {
        let ghost before = key_texts(names@);
        names.push(Some(declarations[i].item.simple_name.clone()));
        assert(key_texts(names@) =~= before.push(Some(declarations@[i as int].item.simple_name@)));
        i = i + 1;
        assert(key_texts(names@) =~= simple_names(declarations@).take(i as int));
    }
    assert(key_texts(names@) =~= simple_names(declarations@));
    let index = TextIndex::new(&names);
    let mut rows: Vec<MentionRow> = Vec::new();
    assert(rows@ =~= mention_rows_of(first, file_id, declarations@, all.take(0)));
    for mention in it: mentions
        invariant
            it.seq() == all,
            index@ == simple_names(declarations@),
            *next_id == first + it.index(),
            first + all.len() <= i64::MAX,
            rows@ == mention_rows_of(first, file_id, declarations@, all.take(it.index() as int)),
    {
        let containing_declaration_id = match &mention.containing_declaration {
            Some(name) => {
                proof {
                    crate::lookup::lemma_first_with(index@, name@);
                }
                match index.first(name.as_str()) {
                    Some(k) => Some(declarations[k].id),
                    None => None,
                }
            },
            None => None,
        };
        rows.push(MentionRow { id: *next_id, file_id, containing_declaration_id, mention });
        *next_id = *next_id + 1;
        assert(rows@ =~= mention_rows_of(first, file_id, declarations@, all.take(it.index() + 1)));
    }
    assert(all.take(all.len() as int) =~= all);
    rows
}

/// A mention is bound to a declaration of its own file with the name that it gives, and to the first
/// such one.
pub proof fn law_mention_in_its_file(
    first_decl: int,
    first_id: int,
    file_id: i64,
    declarations: Seq<CsDeclaration>,
    mentions: Seq<CsMention>,
    m: int,
)
    requires
        i64::MIN <= first_decl,
        first_decl + declarations.len() <= i64::MAX,
        0 <= m < mentions.len(),
    ensures
        ({
            let rows = mention_rows_of(first_id, file_id, numbered(first_decl, file_id, declarations), mentions);
            rows[m].containing_declaration_id matches Some(id) ==> {
                let d = id - first_decl;
                &&& 0 <= d < declarations.len()
                &&& optional(mentions[m].containing_declaration) == Some(declarations[d].simple_name@)
                &&& forall|k: int|
                    0 <= k < d ==> (#[trigger] declarations[k]).simple_name@ != declarations[d].simple_name@
            }
        }),
{
    let decl_rows = numbered(first_decl, file_id, declarations);
    let names = simple_names(decl_rows);
    if let Some(name) = optional(mentions[m].containing_declaration) {
        crate::lookup::lemma_first_with(names, name);
        if let Some(d) = first_with(names, name) {
            assert(names[d] == Some(declarations[d].simple_name@));
            assert forall|k: int| 0 <= k < d implies (#[trigger] declarations[k]).simple_name@
                != declarations[d].simple_name@ by {
                assert(names[k] == Some(declarations[k].simple_name@));
            }
        }
    }
}

/// A stored declaration.
pub struct StoredDeclaration {
    pub id: i64,
    pub file_id: i64,
    pub decl_kind: String,
    pub simple_name: String,
    pub qualified_name: String,
    pub line_start: i64,
    pub line_end: i64,
}

/// A symbol to store.
#[derive(Debug, PartialEq, Eq)]
pub struct SymbolRow {
    pub id: i64,
    pub file_id: i64,
    pub declaration_id: i64,
    pub symbol_kind: String,
    pub simple_name: String,
    pub qualified_name: String,
    pub display_name: String,
    pub line_start: i64,
    pub line_end: i64,
}

/// What a [`SymbolRow`] holds.
pub struct SymbolView {
    pub id: i64,
    pub file_id: i64,
    pub declaration_id: i64,
    pub symbol_kind: Seq<char>,
    pub simple_name: Seq<char>,
    pub qualified_name: Seq<char>,
    pub display_name: Seq<char>,
    pub line_start: i64,
    pub line_end: i64,
}

impl View for SymbolRow {
    type V = SymbolView;

    open spec fn view(&self) -> SymbolView {
        SymbolView {
            id: self.id,
            file_id: self.file_id,
            declaration_id: self.declaration_id,
            symbol_kind: self.symbol_kind@,
            simple_name: self.simple_name@,
            qualified_name: self.qualified_name@,
            display_name: self.display_name@,
            line_start: self.line_start,
            line_end: self.line_end,
        }
    }
}

/// What a list of symbols holds.
pub open spec fn symbols(rows: Seq<SymbolRow>) -> Seq<SymbolView> {
    rows.map_values(|r: SymbolRow| r@)
}

/// The symbols of declarations: one for each, shown under its simple name.
pub open spec fn symbols_of(first_id: int, declarations: Seq<StoredDeclaration>) -> Seq<SymbolView> {
    Seq::new(
        declarations.len(),
        |i: int|
            SymbolView {
                id: (first_id + i) as i64,
                file_id: declarations[i].file_id,
                declaration_id: declarations[i].id,
                symbol_kind: declarations[i].decl_kind@,
                simple_name: declarations[i].simple_name@,
                qualified_name: declarations[i].qualified_name@,
                display_name: declarations[i].simple_name@,
                line_start: declarations[i].line_start,
                line_end: declarations[i].line_end,
            },
    )
}

/// Whether one declaration comes no later than another, by file and then by id.
pub open spec fn no_later(a: StoredDeclaration, b: StoredDeclaration) -> bool {
    a.file_id < b.file_id || (a.file_id == b.file_id && a.id <= b.id)
}

/// The position at which a declaration goes in among ordered ones: behind all that come no later.
pub open spec fn position_for(ordered: Seq<StoredDeclaration>, d: StoredDeclaration) -> nat
    decreases ordered.len(),
{
    if ordered.len() == 0 || no_later(ordered.last(), d) {
        ordered.len()
    } else {
        position_for(ordered.drop_last(), d)
    }
}

/// Declarations ordered by file, and by id within a file.
pub open spec fn by_file(declarations: Seq<StoredDeclaration>) -> Seq<StoredDeclaration>
    decreases declarations.len(),
{
    if declarations.len() == 0 {
        Seq::empty()
    } else {
        let before = by_file(declarations.drop_last());
        before.insert(position_for(before, declarations.last()) as int, declarations.last())
    }
}

/// Whether declarations are ordered by file, and by id within a file.
pub open spec fn is_ordered(declarations: Seq<StoredDeclaration>) -> bool {
    forall|i: int, j: int|
        0 <= i < j < declarations.len() ==> no_later(#[trigger] declarations[i], #[trigger] declarations[j])
}

proof fn lemma_position_for(ordered: Seq<StoredDeclaration>, d: StoredDeclaration)
    ensures
        position_for(ordered, d) <= ordered.len(),
        position_for(ordered, d) > 0 ==> no_later(ordered[position_for(ordered, d) - 1], d),
        forall|i: int| position_for(ordered, d) <= i < ordered.len() ==> !no_later(#[trigger] ordered[i], d),
    decreases ordered.len(),
{
    if ordered.len() > 0 && !no_later(ordered.last(), d) {
        let init = ordered.drop_last();
        lemma_position_for(init, d);
        assert forall|i: int| position_for(ordered, d) <= i < ordered.len() implies !no_later(
            #[trigger] ordered[i],
            d,
        ) by {
            if i < init.len() {
                assert(init[i] == ordered[i]);
            }
        }
    }
}

/// Ordering by file gives an ordered list of the same declarations.
pub proof fn law_by_file(declarations: Seq<StoredDeclaration>)
    ensures
        is_ordered(by_file(declarations)),
        by_file(declarations).len() == declarations.len(),
        by_file(declarations).to_multiset() == declarations.to_multiset(),
    decreases declarations.len(),
{
    broadcast use vstd::seq_lib::group_to_multiset_ensures;

    let all = by_file(declarations);
    if declarations.len() > 0 {
        let init = declarations.drop_last();
        let d = declarations.last();
        let before = by_file(init);
        let p = position_for(before, d) as int;
        law_by_file(init);
        lemma_position_for(before, d);
        assert forall|i: int, j: int| 0 <= i < j < all.len() implies no_later(
            #[trigger] all[i],
            #[trigger] all[j],
        ) by {
            if i < p && j == p {
                assert(no_later(before[p - 1], d));
                if i < p - 1 {
                    assert(no_later(before[i], before[p - 1]));
                }
            } else if i == p {
                assert(!no_later(before[j - 1], d));
            } else if i < p && j > p {
                assert(no_later(before[i], before[j - 1]));
            } else if i < p {
                assert(no_later(before[i], before[j]));
            } else {
                assert(no_later(before[i - 1], before[j - 1]));
            }
        }
        assert(declarations =~= init.push(d));
    } else {
        assert(all =~= declarations);
    }
}

/// The ids of symbols ascend by file and declaration.
pub proof fn law_symbols_ascend(first_id: int, declarations: Seq<StoredDeclaration>, i: int, j: int)
    requires
        i64::MIN <= first_id,
        first_id + declarations.len() <= i64::MAX,
        0 <= i < j < declarations.len(),
    ensures
        ({
            let s = symbols_of(first_id, by_file(declarations));
            &&& s.len() == declarations.len()
            &&& s[i].id < s[j].id
            &&& s[i].file_id < s[j].file_id || (s[i].file_id == s[j].file_id && s[i].declaration_id
                <= s[j].declaration_id)
        }),
{
    law_by_file(declarations);
    assert(no_later(by_file(declarations)[i], by_file(declarations)[j]));
}

/// Orders declarations by file, and by id within a file.
fn order_by_file(declarations: Vec<StoredDeclaration>) -> (r: Vec<StoredDeclaration>)
    ensures
        r@ == by_file(declarations@),
{
    let ghost all = declarations@;
    let mut ordered: Vec<StoredDeclaration> = Vec::new();
    assert(ordered@ =~= by_file(all.take(0)));
    for d in it: declarations
        invariant
            it.seq() == all,
            ordered@ == by_file(all.take(it.index() as int)),
    {
        let mut p: usize = ordered.len();
        assert(ordered@.take(p as int) =~= ordered@);
        while p > 0 && !(ordered[p - 1].file_id < d.file_id || (ordered[p - 1].file_id == d.file_id && ordered[p
            - 1].id <= d.id))
            invariant
                p <= ordered@.len(),
                position_for(ordered@, d) == position_for(ordered@.take(p as int), d),
            decreases p,
        {
            assert(ordered@.take(p as int).drop_last() =~= ordered@.take(p - 1));
            p = p - 1;
        }
        assert(p == position_for(ordered@, d));
        assert(all.take(it.index() + 1).drop_last() =~= all.take(it.index() as int));
        ordered.insert(p, d);
    }
    assert(all.take(all.len() as int) =~= all);
    ordered
}

/// The symbols of the stored declarations, ordered by file and declaration and numbered by the counter.
pub fn build_symbols(next_id: &mut i64, declarations: Vec<StoredDeclaration>) -> (r: Vec<SymbolRow>)
    requires
        *old(next_id) + declarations@.len() <= i64::MAX,
    ensures
        *final(next_id) == *old(next_id) + declarations@.len(),
        symbols(r@) == symbols_of(*old(next_id) as int, by_file(declarations@)),
{
    proof {
        law_by_file(declarations@);
    }
    let declarations = order_by_file(declarations);
    let ghost all = declarations@;
    let ghost first = *next_id as int;
    let mut rows: Vec<SymbolRow> = Vec::new();
    assert(symbols(rows@) =~= symbols_of(first, all.take(0)));
    for d in it: declarations
        invariant
            it.seq() == all,
            *next_id == first + it.index(),
            first + all.len() <= i64::MAX,
            symbols(rows@) == symbols_of(first, all.take(it.index() as int)),
    {
        let ghost before = symbols(rows@);
        let display_name = d.simple_name.clone();
        let row = SymbolRow {
            id: *next_id,
            file_id: d.file_id,
            declaration_id: d.id,
            symbol_kind: d.decl_kind,
            simple_name: d.simple_name,
            qualified_name: d.qualified_name,
            display_name,
            line_start: d.line_start,
            line_end: d.line_end,
        };
        rows.push(row);
        assert(symbols(rows@) =~= before.push(row@));
        *next_id = *next_id + 1;
        assert(symbols(rows@) =~= symbols_of(first, all.take(it.index() + 1)));
    }
    assert(all.take(all.len() as int) =~= all);
    rows
}

} // verus!
