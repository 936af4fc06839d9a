//! Request paths: percent-decoding, refusal of paths that would escape the
//! storage root, and joining a validated name onto a directory.
use vstd::prelude::*;
use crate::Error;
use crate::text::{chars_of, string_of, last_index, last_index_exec};

verus! {

/// What `urlencoding::decode` returns for a string with these characters;
/// none where the decoded bytes are not UTF-8.
pub uninterp spec fn url_decoded(s: Seq<char>) -> Option<Seq<char>>;

/// Relies on `urlencoding::decode`: it fails only where the decoded bytes
/// are not UTF-8, and a string without `%` comes back unchanged.
#[verifier::external_body]
pub(crate) fn url_decode(s: &str) -> (r: Option<String>)
    ensures
        match r {
            Some(d) => url_decoded(s@) == Some(d@),
            None => url_decoded(s@) is None,
        },
        (forall|i: int| 0 <= i < s@.len() ==> s@[i] != '%') ==> r is Some && r->0@ == s@,
{
    urlencoding::decode(s).ok().map(|d| d.into_owned())
}

/// Whether a `..` component starts at `i`.
pub open spec fn dotdot_at(p: Seq<char>, i: int) -> bool {
    0 <= i && i + 2 <= p.len() && p[i] == '.' && p[i + 1] == '.' && (i == 0 || p[i - 1] == '/')
        && (i + 2 == p.len() || p[i + 2] == '/')
}

/// Whether `p` stays inside the storage root: it is relative (no leading
/// `/`) and has no `..` component.
pub open spec fn safe_rel_path(p: Seq<char>) -> bool {
    !(p.len() > 0 && p[0] == '/') && forall|i: int| !dotdot_at(p, i)
}

/// Accepts a decoded path only where it stays inside the storage root.
pub fn check_rel_path(path: &str) -> (r: Result<(), Error>)
    ensures
        r is Ok <==> safe_rel_path(path@),
        r is Err ==> r == Err::<(), Error>(Error::BadRequest),
{
    let p = chars_of(path);
    let n = p.len();
    if n > 0 && p[0] == '/' {
        return Err(Error::BadRequest);
    }
    let mut i: usize = 0;
    while i < n
        invariant
            n == p@.len(),
            p@ == path@,
            i <= n,
            forall|j: int| 0 <= j < i ==> !dotdot_at(p@, j),
        decreases n - i,
    {
        if n - i >= 2 && p[i] == '.' && p[i + 1] == '.' && (i == 0 || p[i - 1] == '/') && (n - i
            == 2 || p[i + 2] == '/') {
            assert(dotdot_at(p@, i as int));
            return Err(Error::BadRequest);
        }
        i += 1;
    }
    assert forall|j: int| !dotdot_at(p@, j) by {
        if dotdot_at(p@, j) {
            assert(j < n);
        }
    }
    Ok(())
}

/// Decodes a path from a request and accepts it only where it stays inside
/// the storage root.
pub fn parse_encoded_url(encoded: &str) -> (r: Result<String, Error>)
    ensures
        match url_decoded(encoded@) {
            Some(d) => if safe_rel_path(d) {
                r is Ok && r->Ok_0@ == d
            } else {
                r == Err::<String, Error>(Error::BadRequest)
            },
            None => r == Err::<String, Error>(Error::BadRequest),
        },
{
    match url_decode(encoded) {
        None => Err(Error::BadRequest),
        Some(d) => match check_rel_path(d.as_str()) {
            Ok(()) => Ok(d),
            Err(e) => Err(e),
        },
    }
}

/// Whether `name` can name an entry of a directory: non-empty, without `/`,
/// and neither `.` nor `..`.
pub open spec fn valid_name(name: Seq<char>) -> bool {
    name.len() > 0 && (forall|i: int| 0 <= i < name.len() ==> name[i] != '/') && name != seq![
        '.',
    ] && name != seq!['.', '.']
}

/// `dir/name`, or `name` alone where `dir` is the storage root.
pub open spec fn join_spec(dir: Seq<char>, name: Seq<char>) -> Seq<char> {
    if dir.len() == 0 {
        name
    } else {
        dir + seq!['/'] + name
    }
}

/// The path of the entry `name` of directory `dir`; refused where `name`
/// is not a valid entry name.
pub fn join_name(dir: &str, name: &str) -> (r: Result<String, Error>)
    ensures
        valid_name(name@) ==> r is Ok && r->Ok_0@ == join_spec(dir@, name@),
        !valid_name(name@) ==> r == Err::<String, Error>(Error::BadRequest),
{
    let d = chars_of(dir);
    let nm = chars_of(name);
    let n = nm.len();
    if n == 0 {
        return Err(Error::BadRequest);
    }
    if n == 1 && nm[0] == '.' {
        assert(nm@ =~= seq!['.']);
        return Err(Error::BadRequest);
    }
    if n == 2 && nm[0] == '.' && nm[1] == '.' {
        assert(nm@ =~= seq!['.', '.']);
        return Err(Error::BadRequest);
    }
    let mut i: usize = 0;
    while i < n
        invariant
            n == nm@.len(),
            nm@ == name@,
            i <= n,
            forall|j: int| 0 <= j < i ==> nm@[j] != '/',
        decreases n - i,
    {
        if nm[i] == '/' {
            return Err(Error::BadRequest);
        }
        i += 1;
    }
    let mut out = d;
    if out.len() > 0 {
        out.push('/');
    }
    let mut rest = nm;
    out.append(&mut rest);
    Ok(string_of(&out))
}

/// The parent directory part of `p`: everything before its last `/`, or the
/// storage root where it has none.
pub open spec fn parent_spec(p: Seq<char>) -> Seq<char> {
    if last_index(p, '/') < 0 {
        Seq::empty()
    } else {
        p.subrange(0, last_index(p, '/'))
    }
}

/// The path that `path` takes when renamed to `new_name` in its directory.
pub fn renamed_path(path: &str, new_name: &str) -> (r: Result<String, Error>)
    ensures
        valid_name(new_name@) ==> r is Ok && r->Ok_0@ == join_spec(parent_spec(path@), new_name@),
        !valid_name(new_name@) ==> r == Err::<String, Error>(Error::BadRequest),
{
    let p = chars_of(path);
    let mut parent: Vec<char> = Vec::new();
    match last_index_exec(&p, '/') {
        None => {},
        Some(k) => {
            let mut j: usize = 0;
            while j < k
                invariant
                    k < p@.len(),
                    j <= k,
                    parent@ == p@.subrange(0, j as int),
                decreases k - j,
            {
                parent.push(p[j]);
                assert(parent@ =~= p@.subrange(0, j + 1));
                j += 1;
            }
        },
    }
    let parent_str = string_of(&parent);
    join_name(parent_str.as_str(), new_name)
}

} // verus!
