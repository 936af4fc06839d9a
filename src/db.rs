//! Statements for the rule and task store: the text of a statement with
//! its arguments, and whether running it yields the id of an inserted row.
use vstd::prelude::*;
use crate::text::{chars_of, has_prefix, lower_of, lowercase};

verus! {

/// A statement and its arguments, bound in order.
#[derive(Debug)]
pub struct Query<'a> {
    pub sql: &'a str,
    pub args: Vec<String>,
}

impl<'a> Query<'a> {
    pub fn new(sql: &'a str, args: Vec<String>) -> (r: Query<'a>)
        ensures
            r.sql == sql,
            r.args == args,
    {
        Query { sql, args }
    }
}

/// `insert`.
pub open spec fn insert_word() -> Seq<char> {
    seq!['i', 'n', 's', 'e', 'r', 't']
}

/// Whether an already folded statement starts with `insert`.
pub fn starts_with_insert(folded_sql: &str) -> (r: bool)
    ensures
        r == has_prefix(folded_sql@, insert_word()),
{
    let s = chars_of(folded_sql);
    let w = chars_of("insert");
    proof {
        reveal_strlit("insert");
        assert(w@ =~= insert_word());
    }
    if s.len() < 6 {
        return false;
    }
    let mut i: usize = 0;
    while i < 6
        invariant
            s@ == folded_sql@,
            w@ == insert_word(),
            6 <= s@.len(),
            i <= 6,
            forall|j: int| 0 <= j < i ==> s@[j] == w@[j],
        decreases 6 - i,
    {
        if s[i] != w[i] {
            assert(s@.subrange(0, 6)[i as int] != insert_word()[i as int]);
            return false;
        }
        i += 1;
    }
    assert(s@.subrange(0, 6) =~= insert_word());
    true
}

/// Whether running `sql` yields the id of the row it inserts: it starts
/// with `insert`, in any case.
pub fn returns_row_id(sql: &str) -> (r: bool)
    ensures
        r == has_prefix(lower_of(sql@), insert_word()),
{
    let low = lowercase(sql);
    starts_with_insert(low.as_str())
}

} // verus!
