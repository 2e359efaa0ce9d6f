//! The entries of the virtual file system, said of paths character by character.
use crate::paths::{
    components, joined, last_slash, law_components, lemma_last_slash, lemma_last_slash_is, name_of, normalized,
    parent_of, part_texts,
};
use crate::vfs::{
    directories_above, directory_parts, directory_rows, entries, file_rows, node_rows, stores_content,
    with_new, FileRecord, NodeRecord, VfsEntryRow, VfsEntryView,
};
use vstd::prelude::*;

verus! {

/// The view of an entry holds each of its fields.
pub proof fn law_entry_view(rows: Seq<VfsEntryRow>, i: int)
    requires
        0 <= i < rows.len(),
    ensures
        entries(rows).len() == rows.len(),
        entries(rows)[i].project_id == rows[i].project_id,
        entries(rows)[i].entry_type == rows[i].entry_type,
        entries(rows)[i].entry_kind == rows[i].entry_kind@,
        entries(rows)[i].vfs_path == rows[i].vfs_path@,
        match rows[i].parent_vfs_path {
            Some(parent) => entries(rows)[i].parent_vfs_path == Some(parent@),
            None => entries(rows)[i].parent_vfs_path is None,
        },
        entries(rows)[i].source_file_id == rows[i].source_file_id,
        entries(rows)[i].source_entity_id == rows[i].source_entity_id,
        entries(rows)[i].display_name == rows[i].display_name@,
        match rows[i].content {
            Some(content) => entries(rows)[i].content == Some(content@),
            None => entries(rows)[i].content is None,
        },
{
}

/// The texts of parts stand in their order, none left out.
pub proof fn law_parts_stand_in_order(parts: Seq<String>, i: int)
    requires
        0 <= i < parts.len(),
    ensures
        part_texts(parts).len() == parts.len(),
        part_texts(parts)[i] == parts[i]@,
{
}

/// A path in which every backslash is a slash.
pub open spec fn slashed(path: Seq<char>) -> Seq<char> {
    Seq::new(
        path.len(),
        |j: int|
            if path[j] == '\\' {
                '/'
            } else {
                path[j]
            },
    )
}

/// A path without the slashes that begin it, end it or follow another slash.
pub open spec fn tidy(s: Seq<char>) -> Seq<char>
    decreases s.len(),
{
    if s.len() == 0 {
        s
    } else {
        let front = s.drop_last();
        if s.last() == '/' {
            tidy(front)
        } else if tidy(front).len() > 0 && front.last() == '/' {
            tidy(front).push('/').push(s.last())
        } else {
            tidy(front).push(s.last())
        }
    }
}

/// Every backslash of a path becomes a slash, and every other character stays.
pub proof fn law_backslashes_become_slashes(path: Seq<char>)
    ensures
        normalized(path) == slashed(path),
{
    assert(normalized(path) =~= slashed(path));
}

/// A further part comes behind a slash, and the first part stands alone.
pub proof fn law_further_part_comes_behind_a_slash(parts: Seq<Seq<char>>, part: Seq<char>)
    ensures
        joined(parts.push(part)) == if parts.len() == 0 {
            part
        } else {
            joined(parts).push('/') + part
        },
{
    assert(parts.push(part).drop_last() =~= parts);
}

/// The parts of a path, put together, are the path without the slashes that part nothing.
pub proof fn law_parts_make_up_the_path(s: Seq<char>)
    ensures
        joined(components(s)) == tidy(s),
        components(s).len() == 0 <==> tidy(s).len() == 0,
    decreases s.len(),
{
    lemma_last_slash(s);
    if s.len() == 0 {
        assert(name_of(s) =~= Seq::<char>::empty());
        assert(joined(components(s)) =~= tidy(s));
    } else {
        let front = s.drop_last();
        let c = s.last();
        law_parts_make_up_the_path(front);
        lemma_last_slash(front);
        if c == '/' {
            assert(s.take(s.len() - 1) =~= front);
            assert(name_of(s) =~= Seq::<char>::empty());
            assert(components(s) == components(front));
        } else if front.len() > 0 && front.last() == '/' {
            lemma_last_slash_is(s, s.len() - 2);
            assert(s.take(s.len() - 2) =~= front.take(front.len() - 1));
            assert(name_of(front) =~= Seq::<char>::empty());
            assert(name_of(s) =~= seq![c]);
            assert(components(s) == components(front).push(seq![c]));
            law_further_part_comes_behind_a_slash(components(front), seq![c]);
            if components(front).len() == 0 {
                assert(tidy(s) =~= seq![c]);
            } else {
                assert(tidy(s) =~= joined(components(front)).push('/') + seq![c]);
            }
        } else {
            assert forall|i: int| last_slash(front) < i < s.len() implies s[i] != '/' by {
                if i < front.len() {
                    assert(front[i] == s[i]);
                }
            }
            if last_slash(front) >= 0 {
                assert(front[last_slash(front)] == s[last_slash(front)]);
            }
            lemma_last_slash_is(s, last_slash(front));
            let l = last_slash(front);
            let before = if l < 0 {
                Seq::empty()
            } else {
                components(front.take(l))
            };
            if l >= 0 {
                assert(front.take(l) =~= s.take(l));
            }
            assert(name_of(s) =~= name_of(front).push(c));
            assert(components(s) == before.push(name_of(s)));
            law_further_part_comes_behind_a_slash(before, name_of(s));
            if name_of(front).len() == 0 {
                assert(front.len() == 0);
                assert(before.len() == 0);
                assert(tidy(s) =~= seq![c]);
                assert(name_of(s) =~= seq![c]);
            } else {
                assert(components(front) == before.push(name_of(front)));
                law_further_part_comes_behind_a_slash(before, name_of(front));
                assert(tidy(s) == tidy(front).push(c));
                assert(joined(components(s)) =~= joined(components(front)).push(c));
            }
        }
    }
}

/// The parts before a slash are the first parts of the whole.
proof fn lemma_parts_before(s: Seq<char>, k: int)
    requires
        0 <= k < s.len(),
        s[k] == '/',
    ensures
        components(s.take(k)).len() <= components(s).len(),
        components(s).take(components(s.take(k)).len() as int) == components(s.take(k)),
    decreases s.len(),
{
    lemma_last_slash(s);
    let l = last_slash(s);
    let front = s.take(l);
    let n = components(s.take(k)).len() as int;
    if k < l {
        assert(front[k] == s[k]);
        lemma_parts_before(front, k);
        assert(front.take(k) =~= s.take(k));
        assert(components(s).take(n) =~= components(front).take(n));
    } else {
        assert(components(s).take(n) =~= components(front));
    }
}

/// The first parts of a path are the parts before a slash, or all parts.
proof fn lemma_first_parts(s: Seq<char>, m: int) -> (k: int)
    requires
        0 < m <= components(s).len(),
    ensures
        0 <= k <= s.len(),
        k < s.len() ==> s[k] == '/',
        components(s.take(k)) == components(s).take(m),
    decreases s.len(),
{
    lemma_last_slash(s);
    if m == components(s).len() {
        assert(s.take(s.len() as int) =~= s);
        assert(components(s).take(m) =~= components(s));
        s.len() as int
    } else {
        let l = last_slash(s);
        let front = s.take(l);
        let k = lemma_first_parts(front, m);
        assert(front.take(k) =~= s.take(k));
        assert(components(s).take(m) =~= components(front).take(m));
        if k < l {
            assert(front[k] == s[k]);
        }
        k
    }
}

proof fn lemma_with_new(rows: Seq<VfsEntryView>, more: Seq<VfsEntryView>)
    ensures
        rows.len() <= with_new(rows, more).len(),
        with_new(rows, more).take(rows.len() as int) == rows,
        forall|i: int|
            rows.len() <= i < with_new(rows, more).len() ==> more.contains(#[trigger] with_new(rows, more)[i]),
        forall|j: int| 0 <= j < more.len() ==> is_entered(with_new(rows, more), (#[trigger] more[j]).vfs_path),
    decreases more.len(),
{
    let all = with_new(rows, more);
    if more.len() == 0 {
        assert(rows.take(rows.len() as int) =~= rows);
    } else {
        let init = more.drop_last();
        lemma_with_new(rows, init);
        let before = with_new(rows, init);
        assert(all.take(rows.len() as int) =~= before.take(rows.len() as int));
        assert forall|i: int| rows.len() <= i < all.len() implies more.contains(#[trigger] all[i]) by {
            if i < before.len() {
                assert(all[i] == before[i]);
                assert(init.contains(before[i]));
                let j = choose|j: int| 0 <= j < init.len() && init[j] == before[i];
                assert(more[j] == all[i]);
            } else {
                assert(more[more.len() - 1] == all[i]);
            }
        }
        assert forall|j: int| 0 <= j < more.len() implies is_entered(all, (#[trigger] more[j]).vfs_path) by {
            if j < init.len() {
                assert(init[j] == more[j]);
                let i = choose|i: int| 0 <= i < before.len() && (#[trigger] before[i]).vfs_path == init[j].vfs_path;
                assert(all[i].vfs_path == more[j].vfs_path);
            } else if crate::vfs::has_path(before, more.last().vfs_path) {
                let i = choose|i: int| 0 <= i < before.len() && (#[trigger] before[i]).vfs_path == more.last().vfs_path;
                assert(all[i].vfs_path == more[j].vfs_path);
            } else {
                assert(all[before.len() as int].vfs_path == more[j].vfs_path);
            }
        }
    }
}

/// Whether some entry has the path.
pub open spec fn is_entered(rows: Seq<VfsEntryView>, path: Seq<char>) -> bool {
    exists|i: int| 0 <= i < rows.len() && (#[trigger] rows[i]).vfs_path == path
}

proof fn lemma_directory_entry(project_id: i64, path: Seq<char>, j: int)
    requires
        0 <= j < directories_above(project_id, path).len(),
    ensures
        is_directory_of(project_id, directories_above(project_id, path)[j]),
{
    let parts = directory_parts(path);
    let row = directories_above(project_id, path)[j];
    let mine = parts.take(j + 1);
    law_components(parent_of(normalized(path))->0);
    assert(mine.last() == parts[j]);
    assert(mine =~= mine.drop_last().push(parts[j]));
    law_further_part_comes_behind_a_slash(mine.drop_last(), parts[j]);
    assert forall|i: int| 0 <= i < row.display_name.len() implies #[trigger] row.display_name[i] != '/' by {
        assert(row.display_name[i] == parts[j][i]);
    }
}

/// What holds of the entry of a directory: its name holds no slash, and its path is its name, or the path
/// of its parent, a slash and its name.
spec fn is_directory_of(project_id: i64, row: VfsEntryView) -> bool {
    &&& row.project_id == project_id
    &&& row.entry_type is Directory
    &&& row.entry_kind == "directory"@
    &&& row.source_file_id is None
    &&& row.source_entity_id is None
    &&& row.content is None
    &&& row.display_name.len() > 0
    &&& !row.display_name.contains('/')
    &&& match row.parent_vfs_path {
        Some(parent) => row.vfs_path == parent.push('/') + row.display_name,
        None => row.vfs_path == row.display_name,
    }
}

/// Every directory with a parent has the parent's path, a slash and its own name as its path, and a name
/// without slashes; a directory without a parent has its name as its path.
pub proof fn law_directory_lies_in_its_parent(project_id: i64, paths: Seq<Seq<char>>, i: int)
    requires
        0 <= i < directory_rows(project_id, paths).len(),
    ensures
        ({
            let row = directory_rows(project_id, paths)[i];
            &&& row.display_name.len() > 0
            &&& !row.display_name.contains('/')
            &&& match row.parent_vfs_path {
                Some(parent) => row.vfs_path == parent.push('/') + row.display_name,
                None => row.vfs_path == row.display_name,
            }
        }),
        ({
            let row = directory_rows(project_id, paths)[i];
            &&& row.project_id == project_id
            &&& row.entry_type is Directory
            &&& row.entry_kind == "directory"@
            &&& row.source_file_id is None
            &&& row.source_entity_id is None
            &&& row.content is None
        }),
    decreases paths.len(),
{
    let before = directory_rows(project_id, paths.drop_last());
    let more = directories_above(project_id, paths.last());
    let rows = directory_rows(project_id, paths);
    lemma_with_new(before, more);
    if i < before.len() {
        law_directory_lies_in_its_parent(project_id, paths.drop_last(), i);
        assert(rows.take(before.len() as int)[i] == rows[i]);
    } else {
        assert(more.contains(rows[i]));
        let j = choose|j: int| 0 <= j < more.len() && more[j] == rows[i];
        lemma_directory_entry(project_id, paths.last(), j);
        assert(is_directory_of(project_id, rows[i]));
    }
}

/// What stands before a slash in a path is entered as a directory, without the slashes that part
/// nothing.
pub proof fn law_every_directory_is_entered(project_id: i64, paths: Seq<Seq<char>>, i: int, k: int)
    requires
        0 <= i < paths.len(),
        0 <= k < paths[i].len(),
        slashed(paths[i])[k] == '/',
        tidy(slashed(paths[i]).take(k)).len() > 0,
    ensures
        is_entered(directory_rows(project_id, paths), tidy(slashed(paths[i]).take(k))),
    decreases paths.len(),
{
    let wanted = tidy(slashed(paths[i]).take(k));
    let before = directory_rows(project_id, paths.drop_last());
    let more = directories_above(project_id, paths.last());
    let rows = directory_rows(project_id, paths);
    lemma_with_new(before, more);
    if i < paths.len() - 1 {
        assert(paths.drop_last()[i] == paths[i]);
        law_every_directory_is_entered(project_id, paths.drop_last(), i, k);
        let j = choose|j: int| 0 <= j < before.len() && (#[trigger] before[j]).vfs_path == wanted;
        assert(rows.take(before.len() as int)[j] == rows[j]);
        assert(rows[j].vfs_path == wanted);
    } else {
        law_backslashes_become_slashes(paths[i]);
        let s = normalized(paths[i]);
        lemma_last_slash(s);
        let l = last_slash(s);
        let dir = s.take(l);
        let parts = components(dir);
        law_parts_make_up_the_path(s.take(k));
        let n = components(s.take(k)).len() as int;
        if k < l {
            assert(dir[k] == s[k]);
            lemma_parts_before(dir, k);
            assert(dir.take(k) =~= s.take(k));
        } else {
            assert(parts.take(n) =~= parts);
        }
        assert(more[n - 1].vfs_path == joined(parts.take(n)));
        assert(is_entered(rows, more[n - 1].vfs_path));
    }
}

/// Every directory that is entered stands before a slash in one of the paths.
pub proof fn law_every_entered_directory_is_in_a_path(project_id: i64, paths: Seq<Seq<char>>, r: int) -> (place: (
    int,
    int,
))
    requires
        0 <= r < directory_rows(project_id, paths).len(),
    ensures
        0 <= place.0 < paths.len(),
        0 <= place.1 < paths[place.0].len(),
        slashed(paths[place.0])[place.1] == '/',
        directory_rows(project_id, paths)[r].vfs_path == tidy(slashed(paths[place.0]).take(place.1)),
    decreases paths.len(),
{
    let before = directory_rows(project_id, paths.drop_last());
    let more = directories_above(project_id, paths.last());
    let rows = directory_rows(project_id, paths);
    lemma_with_new(before, more);
    if r < before.len() {
        let place = law_every_entered_directory_is_in_a_path(project_id, paths.drop_last(), r);
        assert(rows.take(before.len() as int)[r] == rows[r]);
        assert(paths.drop_last()[place.0] == paths[place.0]);
        place
    } else {
        assert(more.contains(rows[r]));
        let j = choose|j: int| 0 <= j < more.len() && more[j] == rows[r];
        let path = paths.last();
        law_backslashes_become_slashes(path);
        let s = normalized(path);
        lemma_last_slash(s);
        let l = last_slash(s);
        let dir = s.take(l);
        let k = lemma_first_parts(dir, j + 1);
        if k < l {
            assert(dir[k] == s[k]);
        }
        assert(dir.take(k) =~= s.take(k));
        law_parts_make_up_the_path(s.take(k));
        (paths.len() - 1, k)
    }
}

/// A clean path needs no tidying: what stands before each of its slashes is entered as it is.
pub proof fn law_tidy_keeps_clean_paths(s: Seq<char>)
    requires
        s.len() > 0 ==> s[0] != '/',
        s.len() > 0 ==> s.last() != '/',
        forall|i: int| 0 <= i < s.len() - 1 && #[trigger] s[i] == '/' ==> s[i + 1] != '/',
    ensures
        tidy(s) == s,
    decreases s.len(),
{
    if s.len() > 0 {
        let front = s.drop_last();
        if front.len() > 0 && front.last() == '/' {
            let shorter = front.drop_last();
            assert(s[s.len() - 2] == '/');
            assert(front.len() > 1);
            assert(shorter.last() == s[s.len() - 3]);
            assert forall|i: int| 0 <= i < shorter.len() - 1 && #[trigger] shorter[i] == '/' implies shorter[i + 1]
                != '/' by {
                assert(s[i] == '/');
            }
            law_tidy_keeps_clean_paths(shorter);
            assert(tidy(front) == tidy(shorter));
            assert(s =~= shorter.push('/').push(s.last()));
        } else {
            assert forall|i: int| 0 <= i < front.len() - 1 && #[trigger] front[i] == '/' implies front[i + 1]
                != '/' by {
                assert(s[i] == '/');
            }
            law_tidy_keeps_clean_paths(front);
            assert(s =~= front.push(s.last()));
        }
    }
}

/// No directory is entered twice.
pub proof fn law_no_directory_twice(project_id: i64, paths: Seq<Seq<char>>, i: int, j: int)
    requires
        0 <= i < j < directory_rows(project_id, paths).len(),
    ensures
        directory_rows(project_id, paths)[i].vfs_path != directory_rows(project_id, paths)[j].vfs_path,
{
    crate::vfs::law_directories_distinct(project_id, paths);
}

/// A further path leaves the entries of the directories before it as they are, and in their places.
pub proof fn law_directories_stay(project_id: i64, paths: Seq<Seq<char>>, path: Seq<char>)
    ensures
        directory_rows(project_id, paths).len() <= directory_rows(project_id, paths.push(path)).len(),
        directory_rows(project_id, paths.push(path)).take(directory_rows(project_id, paths).len() as int)
            == directory_rows(project_id, paths),
{
    assert(paths.push(path).drop_last() =~= paths);
    lemma_with_new(directory_rows(project_id, paths), directories_above(project_id, path));
}

/// Whether the kind is one of those whose text is worth storing.
pub open spec fn is_text_kind(kind: Seq<char>) -> bool {
    kind == "scene"@ || kind == "prefab"@ || kind == "csharp"@ || kind == "material"@ || kind == "asset"@ || kind
        == "yaml-asset"@ || kind == "shader"@ || kind == "shader-include"@ || kind == "asmdef"@ || kind == "asmref"@
}

/// No files, no entries.
pub proof fn law_no_files_no_entries(project_id: i64)
    ensures
        file_rows(project_id, Seq::empty()).len() == 0,
{
}

/// One more file adds one entry behind the others, of the kind of the file. Its path is that of the file
/// with slashes; it splits at the last slash into the parent's path and the name. The text of a file of
/// one of ten kinds is kept up to 262144 bytes.
pub proof fn law_file_adds_its_entry(project_id: i64, files: Seq<FileRecord>, file: FileRecord)
    requires
        file.kind@ != "meta"@,
    ensures
        ({
            let before = file_rows(project_id, files);
            let after = file_rows(project_id, files.push(file));
            let row = after.last();
            &&& after.len() == before.len() + 1
            &&& after.drop_last() == before
            &&& row.project_id == project_id
            &&& row.entry_type is File
            &&& row.entry_kind == file.kind@
            &&& row.vfs_path == slashed(file.project_rel_path@)
            &&& !row.display_name.contains('/')
            &&& match row.parent_vfs_path {
                Some(parent) => row.vfs_path == parent.push('/') + row.display_name,
                None => row.vfs_path == row.display_name,
            }
            &&& row.source_file_id == Some(file.id)
            &&& row.source_entity_id is None
            &&& match file.content {
                Some(text) if is_text_kind(file.kind@) && file.size_bytes <= 262144 => row.content == Some(text@),
                _ => row.content is None,
            }
        }),
{
    let all = files.push(file);
    assert(all.drop_last() =~= files);
    law_backslashes_become_slashes(file.project_rel_path@);
    crate::vfs::law_file_path_splits(project_id, file);
    assert(file_rows(project_id, all).drop_last() =~= file_rows(project_id, files));
    assert(stores_content(file.kind@, file.size_bytes) == (is_text_kind(file.kind@) && file.size_bytes <= 262144));
}

/// A file that describes another one adds no entry.
pub proof fn law_meta_file_adds_no_entry(project_id: i64, files: Seq<FileRecord>, file: FileRecord)
    requires
        file.kind@ == "meta"@,
    ensures
        file_rows(project_id, files.push(file)) == file_rows(project_id, files),
{
    assert(files.push(file).drop_last() =~= files);
}

/// Every entity has an entry of its kind, in its order: below the file of its asset, under the path of the
/// file, `:/`, its kind, a slash and its key, with its name or else its class to show.
pub proof fn law_every_entity_has_its_entry(project_id: i64, nodes: Seq<NodeRecord>, i: int)
    requires
        0 <= i < nodes.len(),
    ensures
        ({
            let row = node_rows(project_id, nodes)[i];
            let root = nodes[i].vfs_root_path@;
            &&& node_rows(project_id, nodes).len() == nodes.len()
            &&& row.project_id == project_id
            &&& row.entry_type is Node
            &&& row.entry_kind == nodes[i].entity_kind@
            &&& row.parent_vfs_path == Some(root)
            &&& row.vfs_path == root.push(':').push('/') + nodes[i].entity_kind@.push('/') + nodes[i].local_key@
            &&& row.source_file_id is None
            &&& row.source_entity_id == Some(nodes[i].id)
            &&& match nodes[i].name {
                Some(name) => row.display_name == name@,
                None => row.display_name == nodes[i].class_name@,
            }
            &&& row.content is None
        }),
{
    reveal_strlit(":/");
    reveal_strlit("/");
    let row = node_rows(project_id, nodes)[i];
    assert(row.vfs_path =~= nodes[i].vfs_root_path@.push(':').push('/') + nodes[i].entity_kind@.push('/')
        + nodes[i].local_key@);
}

} // verus!
