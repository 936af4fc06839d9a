//! Keyword search over a walked tree, filtered by inherited permission, and
//! the permission filter of a directory listing.
use vstd::prelude::*;
use crate::Error;
use crate::permission::{Hidden, inherited_permission, max_permission_parent};
use crate::paths::{url_decode, url_decoded};
use crate::text::{
    chars_of, contains_chars, contains_seq, last_index, last_index_exec, lemma_last_index_after,
    lower_of, lowercase, string_of,
};

verus! {

/// An entry met while walking the storage tree: its path relative to the
/// storage root, its base name, and whether it is a directory.
#[derive(Debug)]
pub struct PathEntry {
    pub path: String,
    pub name: String,
    pub is_dir: bool,
}

impl PathEntry {
    pub fn new(path: &str, name: &str, is_dir: bool) -> (r: PathEntry)
        ensures
            r.path@ == path@,
            r.name@ == name@,
            r.is_dir == is_dir,
    {
        PathEntry { path: path.to_owned(), name: name.to_owned(), is_dir }
    }
}

/// The extension of a file name with its leading dot: from the last `.` on,
/// where that dot is not the name's first character.
pub open spec fn dotted_ext(name: Seq<char>) -> Option<Seq<char>> {
    if last_index(name, '.') <= 0 {
        None
    } else {
        Some(name.subrange(last_index(name, '.'), name.len() as int))
    }
}

/// Whether a (folded) name satisfies one (folded) keyword: the keyword
/// occurs in it, and a keyword that starts with `.` is the name's whole
/// extension, which a directory never has.
pub open spec fn keyword_ok(name: Seq<char>, is_dir: bool, kw: Seq<char>) -> bool {
    contains_seq(name, kw) && (kw.len() > 0 && kw[0] == '.' ==> !is_dir && dotted_ext(name)
        == Some(kw))
}

/// Whether a (folded) name satisfies every (folded) keyword.
pub open spec fn all_keywords_ok(name: Seq<char>, is_dir: bool, kws: Seq<Seq<char>>) -> bool {
    forall|i: int| 0 <= i < kws.len() ==> keyword_ok(name, is_dir, #[trigger] kws[i])
}

/// No directory satisfies a keyword that starts with `.`.
pub proof fn lemma_dir_fails_dot_keyword(name: Seq<char>, kws: Seq<Seq<char>>, i: int)
    requires
        0 <= i < kws.len(),
        kws[i].len() > 0,
        kws[i][0] == '.',
    ensures
        !all_keywords_ok(name, true, kws),
{
    assert(!keyword_ok(name, true, kws[i]));
}

/// The views of some strings.
pub open spec fn views(v: Seq<String>) -> Seq<Seq<char>> {
    v.map_values(|s: String| s@)
}

/// The folded views of some strings.
pub open spec fn folded(v: Seq<String>) -> Seq<Seq<char>> {
    v.map_values(|s: String| lower_of(s@))
}

/// Whether `name`'s extension with its dot is `kw`.
fn ext_is(name: &Vec<char>, kw: &Vec<char>) -> (r: bool)
    ensures
        r == (dotted_ext(name@) == Some(kw@)),
{
    proof {
        assert(name@.subrange(0, name@.len() as int) =~= name@);
    }
    match last_index_exec(name, '.') {
        None => false,
        Some(d) => {
            if d == 0 {
                return false;
            }
            let n = name.len();
            if n - d != kw.len() {
                return false;
            }
            let mut k: usize = 0;
            while k < kw.len()
                invariant
                    n == name@.len(),
                    0 < d < name@.len(),
                    d as int == last_index(name@, '.'),
                    d + kw@.len() == name@.len(),
                    k <= kw@.len(),
                    forall|j: int| 0 <= j < k ==> name@[d + j] == kw@[j],
                decreases kw@.len() - k,
            {
                if name[d + k] != kw[k] {
                    assert(name@.subrange(d as int, name@.len() as int)[k as int] != kw@[k as int]);
                    return false;
                }
                k += 1;
            }
            assert(name@.subrange(d as int, name@.len() as int) =~= kw@);
            true
        },
    }
}

/// The keyword test on a name and keywords that are already folded.
pub fn matches_keywords_folded(name: &str, is_dir: bool, keywords: &Vec<String>) -> (r: bool)
    ensures
        r == all_keywords_ok(name@, is_dir, views(keywords@)),
{
    let n = chars_of(name);
    let mut i: usize = 0;
    while i < keywords.len()
        invariant
            n@ == name@,
            i <= keywords@.len(),
            forall|j: int| 0 <= j < i ==> keyword_ok(name@, is_dir, #[trigger] views(keywords@)[j]),
        decreases keywords@.len() - i,
    {
        let kw = chars_of(keywords[i].as_str());
        assert(views(keywords@)[i as int] == kw@);
        if !contains_chars(&n, &kw) {
            return false;
        }
        if kw.len() > 0 && kw[0] == '.' {
            if is_dir || !ext_is(&n, &kw) {
                return false;
            }
        }
        i += 1;
    }
    true
}

/// Whether the base name `name` satisfies every keyword, compared without
/// regard to case (both sides folded by `str::to_lowercase`).
pub fn contains_all_keywords(name: &str, is_dir: bool, keywords: &Vec<String>) -> (r: bool)
    ensures
        r == all_keywords_ok(lower_of(name@), is_dir, folded(keywords@)),
{
    let low = lowercase(name);
    let kws = lowercase_all(keywords);
    matches_keywords_folded(low.as_str(), is_dir, &kws)
}

/// Every string folded by `str::to_lowercase`.
pub fn lowercase_all(v: &Vec<String>) -> (r: Vec<String>)
    ensures
        views(r@) == folded(v@),
{
    let mut r: Vec<String> = Vec::new();
    let mut i: usize = 0;
    while i < v.len()
        invariant
            i <= v@.len(),
            r@.len() == i,
            views(r@) == folded(v@.subrange(0, i as int)),
        decreases v@.len() - i,
    {
        let ghost prev = r@;
        let low = lowercase(v[i].as_str());
        r.push(low);
        proof {
            assert forall|j: int| 0 <= j < i + 1 implies #[trigger] views(r@)[j] == folded(
                v@.subrange(0, i + 1),
            )[j] by {
                if j < i {
                    assert(r@[j] == prev[j]);
                    assert(views(prev)[j] == folded(v@.subrange(0, i as int))[j]);
                }
            }
            assert(views(r@) =~= folded(v@.subrange(0, i + 1)));
        }
        i += 1;
    }
    assert(v@.subrange(0, v@.len() as int) =~= v@);
    r
}

/// The pieces of `s` between `+` signs, in order.
pub open spec fn split_plus(s: Seq<char>) -> Seq<Seq<char>>
    decreases s.len(),
{
    let k = last_index(s, '+');
    if !(0 <= k < s.len()) {
        seq![s]
    } else {
        split_plus(s.subrange(0, k)).push(s.subrange(k + 1, s.len() as int))
    }
}

proof fn lemma_last_index_bounds(s: Seq<char>, c: char)
    ensures
        -1 <= last_index(s, c) < s.len(),
        last_index(s, c) >= 0 ==> s[last_index(s, c)] == c,
    decreases s.len(),
{
    if s.len() > 0 && s.last() != c {
        lemma_last_index_bounds(s.drop_last(), c);
    }
}

/// The pieces of `s` between `+` signs, in order.
pub fn split_keywords(s: &str) -> (r: Vec<String>)
    ensures
        views(r@) == split_plus(s@),
{
    let cs = chars_of(s);
    let n = cs.len();
    let mut pieces: Vec<String> = Vec::new();
    let mut cur: Vec<char> = Vec::new();
    let mut start: usize = 0;
    let mut i: usize = 0;
    while i < n
        invariant
            n == cs@.len(),
            cs@ == s@,
            start <= i <= n,
            cur@ == cs@.subrange(start as int, i as int),
            forall|j: int| start <= j < i ==> cs@[j] != '+',
            start == 0 ==> pieces@.len() == 0,
            start > 0 ==> cs@[start - 1] == '+' && views(pieces@) == split_plus(
                cs@.subrange(0, start - 1),
            ),
        decreases n - i,
    {
        if cs[i] == '+' {
            proof {
                let pre = cs@.subrange(0, i as int);
                let head = cs@.subrange(0, start as int);
                let tail = cs@.subrange(start as int, i as int);
                lemma_last_index_after(head, tail, '+');
                assert(pre =~= head + tail);
                if start > 0 {
                    assert(head =~= cs@.subrange(0, start - 1).push('+'));
                    assert(head.drop_last() =~= cs@.subrange(0, start - 1));
                    assert(last_index(head, '+') == start - 1);
                    lemma_last_index_bounds(pre, '+');
                    assert(pre.subrange(0, start - 1) =~= cs@.subrange(0, start - 1));
                } else {
                    assert(head =~= Seq::<char>::empty());
                }
                assert(pre.subrange(start as int, pre.len() as int) =~= tail);
            }
            let ghost prev = pieces@;
            pieces.push(string_of(&cur));
            proof {
                let pre = cs@.subrange(0, i as int);
                assert(views(pieces@) =~= views(prev).push(cur@));
                if start == 0 {
                    assert(split_plus(pre) == seq![pre]);
                }
                assert(views(pieces@) == split_plus(pre));
                assert(cs@.subrange(0, i + 1 - 1) =~= pre);
            }
            cur = Vec::new();
            start = i + 1;
        } else {
            cur.push(cs[i]);
            assert(cur@ =~= cs@.subrange(start as int, i + 1));
        }
        i += 1;
    }
    proof {
        let head = cs@.subrange(0, start as int);
        let tail = cs@.subrange(start as int, n as int);
        lemma_last_index_after(head, tail, '+');
        assert(cs@ =~= head + tail);
        if start > 0 {
            assert(head =~= cs@.subrange(0, start - 1).push('+'));
            assert(last_index(head, '+') == start - 1);
        } else {
            assert(head =~= Seq::<char>::empty());
        }
    }
    let ghost prev = pieces@;
    pieces.push(string_of(&cur));
    proof {
        assert(views(pieces@) =~= views(prev).push(cur@));
        if start == 0 {
            assert(cs@.subrange(0, n as int) =~= cs@);
        }
    }
    pieces
}

/// The keywords of a search request: the decoded query split at `+`;
/// refused where it does not decode.
pub fn parse_keywords(encoded: &str) -> (r: Result<Vec<String>, Error>)
    ensures
        match url_decoded(encoded@) {
            Some(d) => r is Ok && views(r->Ok_0@) == split_plus(d),
            None => r == Err::<Vec<String>, Error>(Error::BadRequest),
        },
{
    match url_decode(encoded) {
        None => Err(Error::BadRequest),
        Some(d) => Ok(split_keywords(d.as_str())),
    }
}

/// Whether an entry is a search hit for the folded keywords `kws`.
pub open spec fn search_hit(e: PathEntry, kws: Seq<Seq<char>>, rules: Seq<Hidden>, level: i8) -> bool {
    all_keywords_ok(lower_of(e.name@), e.is_dir, kws) && inherited_permission(rules, e.path@)
        <= level
}

/// The indices, in order, of the first `n` entries that are search hits.
pub open spec fn hits(
    entries: Seq<PathEntry>,
    n: int,
    kws: Seq<Seq<char>>,
    rules: Seq<Hidden>,
    level: i8,
) -> Seq<int>
    decreases n,
{
    if n <= 0 {
        Seq::empty()
    } else if search_hit(entries[n - 1], kws, rules, level) {
        hits(entries, n - 1, kws, rules, level).push(n - 1)
    } else {
        hits(entries, n - 1, kws, rules, level)
    }
}

/// The indices of the walked entries that match every keyword and whose
/// inherited permission does not exceed the requester's level.
pub fn search_entries(
    entries: &Vec<PathEntry>,
    keywords: &Vec<String>,
    hiddens: &Vec<Hidden>,
    level: i8,
) -> (r: Vec<usize>)
    ensures
        r@.map_values(|i: usize| i as int) == hits(
            entries@,
            entries@.len() as int,
            folded(keywords@),
            hiddens@,
            level,
        ),
{
    let kws = lowercase_all(keywords);
    let mut r: Vec<usize> = Vec::new();
    let mut i: usize = 0;
    while i < entries.len()
        invariant
            i <= entries@.len(),
            views(kws@) == folded(keywords@),
            r@.map_values(|i: usize| i as int) == hits(
                entries@,
                i as int,
                folded(keywords@),
                hiddens@,
                level,
            ),
        decreases entries@.len() - i,
    {
        let e = &entries[i];
        let low = lowercase(e.name.as_str());
        if matches_keywords_folded(low.as_str(), e.is_dir, &kws) && max_permission_parent(
            e.path.as_str(),
            hiddens,
        ) <= level {
            r.push(i);
        }
        proof {
            assert(r@.map_values(|i: usize| i as int) =~= hits(
                entries@,
                i + 1,
                folded(keywords@),
                hiddens@,
                level,
            ));
        }
        i += 1;
    }
    r
}

/// The indices, in order, of the first `n` entries whose inherited
/// permission does not exceed `level`.
pub open spec fn visible(entries: Seq<PathEntry>, n: int, rules: Seq<Hidden>, level: i8) -> Seq<
    int,
>
    decreases n,
{
    if n <= 0 {
        Seq::empty()
    } else if inherited_permission(rules, entries[n - 1].path@) <= level {
        visible(entries, n - 1, rules, level).push(n - 1)
    } else {
        visible(entries, n - 1, rules, level)
    }
}

/// The listing of directory `dir`: refused where the directory's inherited
/// permission exceeds the requester's level; otherwise the indices of the
/// children whose inherited permission does not. Listing, delivery and
/// search all go by inherited permission, so a listing never shows what
/// delivery would refuse.
pub fn visible_children(
    dir: &str,
    children: &Vec<PathEntry>,
    hiddens: &Vec<Hidden>,
    level: i8,
) -> (r: Result<Vec<usize>, Error>)
    ensures
        inherited_permission(hiddens@, dir@) > level ==> r == Err::<Vec<usize>, Error>(
            Error::Unauthorized,
        ),
        inherited_permission(hiddens@, dir@) <= level ==> r is Ok && r->Ok_0@.map_values(
            |i: usize| i as int,
        ) == visible(children@, children@.len() as int, hiddens@, level),
{
    if max_permission_parent(dir, hiddens) > level {
        return Err(Error::Unauthorized);
    }
    let mut r: Vec<usize> = Vec::new();
    let mut i: usize = 0;
    while i < children.len()
        invariant
            i <= children@.len(),
            r@.map_values(|i: usize| i as int) == visible(children@, i as int, hiddens@, level),
        decreases children@.len() - i,
    {
        if max_permission_parent(children[i].path.as_str(), hiddens) <= level {
            r.push(i);
        }
        proof {
            assert(r@.map_values(|i: usize| i as int) =~= visible(
                children@,
                i + 1,
                hiddens@,
                level,
            ));
        }
        i += 1;
    }
    Ok(r)
}

} // verus!
