//! Virtual paths: forward slashes, directories and names.
use crate::text::{chars_of, text_of};
use vstd::prelude::*;

verus! {

/// A path with every backslash turned into a slash.
pub open spec fn normalized(path: Seq<char>) -> Seq<char> {
    path.map_values(|c: char| if c == '\\' { '/' } else { c })
}

/// The index of the last slash, or -1.
pub open spec fn last_slash(s: Seq<char>) -> int
    decreases s.len(),
{
    if s.len() == 0 {
        -1
    } else if s.last() == '/' {
        s.len() - 1
    } else {
        last_slash(s.drop_last())
    }
}

/// What stands before the last slash.
pub open spec fn parent_of(s: Seq<char>) -> Option<Seq<char>> {
    if last_slash(s) < 0 {
        None
    } else {
        Some(s.take(last_slash(s)))
    }
}

/// What stands behind the last slash.
pub open spec fn name_of(s: Seq<char>) -> Seq<char> {
    s.skip(last_slash(s) + 1)
}

/// The non-empty parts between slashes.
pub open spec fn components(s: Seq<char>) -> Seq<Seq<char>>
    decreases s.len(),
    via components_decreases
{
    let front = if last_slash(s) < 0 {
        Seq::empty()
    } else {
        components(s.take(last_slash(s)))
    };
    if name_of(s).len() == 0 {
        front
    } else {
        front.push(name_of(s))
    }
}

#[via_fn]
proof fn components_decreases(s: Seq<char>) {
    lemma_last_slash(s);
}

/// Parts put together with slashes.
pub open spec fn joined(parts: Seq<Seq<char>>) -> Seq<char>
    decreases parts.len(),
{
    if parts.len() == 0 {
        Seq::empty()
    } else if parts.len() == 1 {
        parts[0]
    } else {
        joined(parts.drop_last()).push('/') + parts.last()
    }
}

/// The last slash is a slash, and none follows it.
pub proof fn lemma_last_slash(s: Seq<char>)
    ensures
        -1 <= last_slash(s) < s.len(),
        last_slash(s) >= 0 ==> s[last_slash(s)] == '/',
        forall|i: int| last_slash(s) < i < s.len() ==> s[i] != '/',
    decreases s.len(),
{
    if s.len() > 0 && s.last() != '/' {
        lemma_last_slash(s.drop_last());
        assert forall|i: int| last_slash(s) < i < s.len() implies s[i] != '/' by {
            if i < s.len() - 1 {
                assert(s[i] == s.drop_last()[i]);
            }
        }
        if last_slash(s) >= 0 {
            assert(s[last_slash(s)] == s.drop_last()[last_slash(s)]);
        }
    }
}

/// The last slash is found by its two properties.
pub proof fn lemma_last_slash_is(s: Seq<char>, k: int)
    requires
        -1 <= k < s.len(),
        k >= 0 ==> s[k] == '/',
        forall|i: int| k < i < s.len() ==> s[i] != '/',
    ensures
        last_slash(s) == k,
{
    lemma_last_slash(s);
    let l = last_slash(s);
    if l < k {
        assert(s[k] != '/');
    } else if l > k {
        assert(s[l] != '/');
    }
}

/// The characters of a path with every backslash turned into a slash.
pub fn normalize(path: &str) -> (r: Vec<char>)
    ensures
        r@ == normalized(path@),
{
    let chars = chars_of(path);
    let mut out: Vec<char> = Vec::new();
    let mut i: usize = 0;
    while i < chars.len()
        invariant
            i <= chars@.len(),
            out@ == normalized(chars@.take(i as int)),
        decreases chars@.len() - i,
    {
        let c = chars[i];
        out.push(if c == '\\' { '/' } else { c });
        i = i + 1;
        assert(out@ =~= normalized(chars@.take(i as int)));
    }
    assert(chars@.take(i as int) =~= chars@);
    out
}

/// The index of the last slash.
pub fn find_last_slash(s: &Vec<char>) -> (r: Option<usize>)
    ensures
        match r {
            Some(k) => k == last_slash(s@),
            None => last_slash(s@) == -1,
        },
{
    let mut i: usize = s.len();
    while i > 0
        invariant
            i <= s@.len(),
            forall|j: int| i <= j < s@.len() ==> s@[j] != '/',
        decreases i,
    {
        if s[i - 1] == '/' {
            proof {
                lemma_last_slash_is(s@, i - 1);
            }
            return Some(i - 1);
        }
        i = i - 1;
    }
    proof {
        lemma_last_slash_is(s@, -1);
    }
    None
}

/// The texts of a list of parts.
pub open spec fn part_texts(v: Seq<String>) -> Seq<Seq<char>> {
    v.map_values(|s: String| s@)
}

/// A run without slashes between `start` and `end`, with a slash or the beginning before it.
proof fn lemma_components_of_run(s: Seq<char>, start: int, end: int)
    requires
        0 <= start <= end <= s.len(),
        start == 0 || s[start - 1] == '/',
        forall|i: int| start <= i < end ==> s[i] != '/',
    ensures
        components(s.take(end)) == if start == end {
            components(s.take(start))
        } else {
            components(s.take(start)).push(s.subrange(start, end))
        },
        start == 0 ==> components(s.take(start)) == Seq::<Seq<char>>::empty(),
{
    let t = s.take(end);
    let h = s.take(start);
    lemma_last_slash_is(t, start - 1);
    lemma_last_slash_is(h, start - 1);
    assert(name_of(t) =~= s.subrange(start, end));
    assert(name_of(h) =~= Seq::<char>::empty());
    if start > 0 {
        assert(t.take(start - 1) =~= s.take(start - 1));
        assert(h.take(start - 1) =~= s.take(start - 1));
    }
}

/// The non-empty parts between slashes of the first `end` characters.
pub fn split_components(s: &Vec<char>, end: usize) -> (r: Vec<String>)
    requires
        end <= s@.len(),
    ensures
        part_texts(r@) == components(s@.take(end as int)),
{
    let mut parts: Vec<String> = Vec::new();
    let mut start: usize = 0;
    let mut i: usize = 0;
    proof {
        lemma_components_of_run(s@, 0, 0);
    }
    assert(part_texts(parts@) =~= components(s@.take(0)));
    while i < end
        invariant
            start <= i <= end <= s@.len(),
            start == 0 || s@[start - 1] == '/',
            forall|j: int| start <= j < i ==> s@[j] != '/',
            part_texts(parts@) == components(s@.take(start as int)),
        decreases end - i,
    {
        if s[i] == '/' {
            proof {
                lemma_components_of_run(s@, start as int, i as int);
                lemma_components_of_run(s@, i + 1, i + 1);
                lemma_components_after_slash(s@, i as int);
            }
            if start < i {
                let ghost before = part_texts(parts@);
                parts.push(text_of(s, start, i));
                assert(part_texts(parts@) =~= before.push(s@.subrange(start as int, i as int)));
            }
            start = i + 1;
        }
        i = i + 1;
    }
    proof {
        lemma_components_of_run(s@, start as int, end as int);
    }
    if start < end {
        let ghost before = part_texts(parts@);
        parts.push(text_of(s, start, end));
        assert(part_texts(parts@) =~= before.push(s@.subrange(start as int, end as int)));
    }
    parts
}

/// A slash at the end adds no part.
proof fn lemma_components_after_slash(s: Seq<char>, i: int)
    requires
        0 <= i < s.len(),
        s[i] == '/',
    ensures
        components(s.take(i + 1)) == components(s.take(i)),
{
    let t = s.take(i + 1);
    lemma_last_slash_is(t, i);
    assert(t.take(i) =~= s.take(i));
    assert(name_of(t) =~= Seq::<char>::empty());
}

/// No part is empty, and none holds a slash.
pub proof fn law_components(s: Seq<char>)
    ensures
        forall|k: int| 0 <= k < components(s).len() ==> (#[trigger] components(s)[k]).len() > 0,
        forall|k: int, i: int|
            0 <= k < components(s).len() && 0 <= i < components(s)[k].len() ==> #[trigger] components(s)[k][i] != '/',
    decreases s.len(),
{
    lemma_last_slash(s);
    let all = components(s);
    let front = if last_slash(s) < 0 {
        Seq::empty()
    } else {
        components(s.take(last_slash(s)))
    };
    if last_slash(s) >= 0 {
        law_components(s.take(last_slash(s)));
    }
    assert(all == front || all == front.push(name_of(s)));
    assert forall|k: int| 0 <= k < all.len() implies (#[trigger] all[k]).len() > 0 by {
        if k < front.len() {
            assert(all[k] == front[k]);
        }
    }
    assert forall|k: int, i: int| 0 <= k < all.len() && 0 <= i < all[k].len() implies #[trigger] all[k][i] != '/' by {
        if k < front.len() {
            assert(all[k][i] == front[k][i]);
        } else {
            assert(all[k][i] == s[last_slash(s) + 1 + i]);
        }
    }
}

/// Whether a path has only non-empty parts.
pub open spec fn is_clean(s: Seq<char>) -> bool {
    &&& s.len() > 0
    &&& s[0] != '/'
    &&& s.last() != '/'
    &&& forall|i: int| 0 <= i < s.len() - 1 && #[trigger] s[i] == '/' ==> s[i + 1] != '/'
}

/// A path with only non-empty parts is what its parts give when put together.
pub proof fn law_clean_path_rejoins(s: Seq<char>)
    requires
        is_clean(s),
    ensures
        components(s).len() > 0,
        joined(components(s)) == s,
    decreases s.len(),
{
    lemma_last_slash(s);
    let l = last_slash(s);
    if l < 0 {
        assert(name_of(s) =~= s);
        assert(components(s) =~= seq![s]);
    } else {
        let front = s.take(l);
        assert(s[l - 1] != '/');
        assert(front.last() == s[l - 1]);
        assert forall|i: int| 0 <= i < front.len() - 1 && #[trigger] front[i] == '/' implies front[i + 1] != '/' by {
            assert(s[i] == '/');
        }
        law_clean_path_rejoins(front);
        let parts = components(front);
        assert(components(s) == parts.push(name_of(s)));
        assert(parts.push(name_of(s)).drop_last() =~= parts);
        assert(s =~= front.push('/') + name_of(s));
    }
}

/// Parts put together with slashes read back, where none is empty or holds a slash.
pub proof fn law_joined_reads_back(parts: Seq<Seq<char>>)
    requires
        forall|k: int| 0 <= k < parts.len() ==> (#[trigger] parts[k]).len() > 0 && !parts[k].contains('/'),
    ensures
        components(joined(parts)) == parts,
    decreases parts.len(),
{
    let s = joined(parts);
    if parts.len() == 0 {
        lemma_last_slash(s);
        assert(name_of(s) =~= Seq::<char>::empty());
        assert(components(s) =~= parts);
    } else {
        let name = parts.last();
        assert(parts[parts.len() - 1] == name);
        assert forall|i: int| 0 <= i < name.len() implies #[trigger] name[i] != '/' by {
            assert(name.contains(name[i]));
        }
        if parts.len() == 1 {
            lemma_last_slash_is(s, -1);
            assert(name_of(s) =~= name);
            assert(components(s) =~= parts);
        } else {
            let init = parts.drop_last();
            let front = joined(init);
            assert forall|k: int| 0 <= k < init.len() implies (#[trigger] init[k]).len() > 0 && !init[k].contains(
                '/',
            ) by {
                assert(init[k] == parts[k]);
            }
            law_joined_reads_back(init);
            lemma_last_slash_is(s, front.len() as int);
            assert(s.take(front.len() as int) =~= front);
            assert(name_of(s) =~= name);
            assert(components(s) =~= parts);
        }
    }
}

} // verus!
