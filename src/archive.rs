//! Naming of the entries of a directory archive: the archive is rooted at
//! the directory's own name, and only regular files become entries.
use vstd::prelude::*;
use crate::text::{
    chars_of, has_prefix, last_index, last_index_exec, lemma_last_index_after, string_of,
};

verus! {

/// The capacity of the byte pipe between the archive writer and the reader.
pub const ZIP_BUFFER_SIZE: usize = 65536;

/// The Unix permission bits that every archive entry carries.
pub const ENTRY_MODE: u16 = 0o644;

/// The length of the parent part of `target`, its trailing `/` included
/// (0 where `target` has no `/`).
pub open spec fn parent_len(target: Seq<char>) -> int {
    last_index(target, '/') + 1
}

/// The archive name of the walked path `entry`: `entry` relative to the
/// parent of `target`, where `entry` lies under that parent.
pub open spec fn archive_name_spec(target: Seq<char>, entry: Seq<char>) -> Option<Seq<char>> {
    let k = parent_len(target);
    if has_prefix(entry, target.subrange(0, k)) {
        Some(entry.subrange(k, entry.len() as int))
    } else {
        None
    }
}

/// The name under which a walked entry goes into the archive of `target`:
/// none for what is not a regular file, or lies outside the parent of
/// `target`.
pub fn archive_entry_name(target: &str, entry: &str, is_file: bool) -> (r: Option<String>)
    ensures
        !is_file ==> r is None,
        is_file ==> match archive_name_spec(target@, entry@) {
            Some(n) => r is Some && r->0@ == n,
            None => r is None,
        },
{
    if !is_file {
        return None;
    }
    let t = chars_of(target);
    let e = chars_of(entry);
    let tl = t.len();
    let k: usize = match last_index_exec(&t, '/') {
        Some(d) => d + 1,
        None => 0,
    };
    if k > e.len() {
        return None;
    }
    let mut i: usize = 0;
    while i < k
        invariant
            t@ == target@,
            e@ == entry@,
            k as int == parent_len(target@),
            k <= t@.len(),
            k <= e@.len(),
            i <= k,
            forall|j: int| 0 <= j < i ==> e@[j] == t@[j],
        decreases k - i,
    {
        if e[i] != t[i] {
            assert(e@.subrange(0, k as int)[i as int] != t@.subrange(0, k as int)[i as int]);
            return None;
        }
        i += 1;
    }
    assert(e@.subrange(0, k as int) =~= t@.subrange(0, k as int));
    let mut name: Vec<char> = Vec::new();
    let mut j: usize = k;
    while j < e.len()
        invariant
            k <= j <= e@.len(),
            name@ == e@.subrange(k as int, j as int),
        decreases e@.len() - j,
    {
        name.push(e[j]);
        assert(name@ =~= e@.subrange(k as int, j + 1));
        j += 1;
    }
    Some(string_of(&name))
}

/// The archive of `parent/name` is rooted at `name`: the file
/// `parent/name/rel` goes in as `name/rel`.
pub proof fn lemma_archive_rooted(parent: Seq<char>, name: Seq<char>, rel: Seq<char>)
    requires
        forall|i: int| 0 <= i < name.len() ==> name[i] != '/',
    ensures
        archive_name_spec(parent + seq!['/'] + name, parent + seq!['/'] + name + seq!['/'] + rel)
            == Some(name + seq!['/'] + rel),
{
    let target = parent + seq!['/'] + name;
    let entry = target + seq!['/'] + rel;
    lemma_last_index_after(parent + seq!['/'], name, '/');
    assert(parent + seq!['/'] + name =~= (parent + seq!['/']) + name);
    assert(last_index(parent + seq!['/'], '/') == parent.len());
    assert(target.subrange(0, parent.len() + 1 as int) =~= parent + seq!['/']);
    assert(entry.subrange(0, parent.len() + 1 as int) =~= parent + seq!['/']);
    assert(entry.subrange(parent.len() + 1 as int, entry.len() as int) =~= name + seq!['/'] + rel);
}

/// An archive of a directory at the top of the tree (a path without `/`)
/// is rooted at that directory: `name/rel` goes in unchanged.
pub proof fn lemma_archive_rooted_top(name: Seq<char>, rel: Seq<char>)
    requires
        forall|i: int| 0 <= i < name.len() ==> name[i] != '/',
    ensures
        archive_name_spec(name, name + seq!['/'] + rel) == Some(name + seq!['/'] + rel),
{
    lemma_last_index_after(Seq::<char>::empty(), name, '/');
    assert(Seq::<char>::empty() + name =~= name);
    let entry = name + seq!['/'] + rel;
    assert(entry.subrange(0, 0) =~= name.subrange(0, 0));
    assert(entry.subrange(0, entry.len() as int) =~= entry);
}

} // verus!
