//! Resolution of the permission level that a path requires, from hidden-path rules.
//!
//! Paths are relative to the storage root, `/`-separated and normalized (no
//! trailing slash); the empty path is the storage root itself.
use vstd::prelude::*;
use crate::Error;
use crate::text::{chars_of, same_chars, string_of};

verus! {

/// A hidden-path rule: `path` and everything beneath it require at least
/// `least_permission` (higher is more restricted).
#[derive(Debug)]
pub struct Hidden {
    pub path: String,
    pub least_permission: i8,
}

impl Hidden {
    pub fn new(path: &str, least_permission: i8) -> (r: Hidden)
        ensures
            r.path@ == path@,
            r.least_permission == least_permission,
    {
        Hidden { path: path.to_owned(), least_permission }
    }
}

/// Whether the rule path `rule` is `p` itself or one of its ancestors.
pub open spec fn covers(rule: Seq<char>, p: Seq<char>) -> bool {
    rule.len() == 0 || rule == p || (rule.len() < p.len() && p.subrange(0, rule.len() as int)
        == rule && p[rule.len() as int] == '/')
}

/// The level of the first rule whose path equals `p`, else 0 (public).
pub open spec fn exact_permission(rules: Seq<Hidden>, p: Seq<char>) -> i8
    decreases rules.len(),
{
    if rules.len() == 0 {
        0
    } else if rules[0].path@ == p {
        rules[0].least_permission
    } else {
        exact_permission(rules.drop_first(), p)
    }
}

/// The highest level among 0 and the rules whose path covers `p`.
pub open spec fn inherited_permission(rules: Seq<Hidden>, p: Seq<char>) -> i8
    decreases rules.len(),
{
    if rules.len() == 0 {
        0
    } else {
        let rest = inherited_permission(rules.drop_last(), p);
        if covers(rules.last().path@, p) && rules.last().least_permission > rest {
            rules.last().least_permission
        } else {
            rest
        }
    }
}

fn covers_exec(rule: &Vec<char>, p: &Vec<char>) -> (r: bool)
    ensures
        r == covers(rule@, p@),
{
    if rule.len() == 0 {
        return true;
    }
    if rule.len() > p.len() {
        return false;
    }
    let mut i: usize = 0;
    while i < rule.len()
        invariant
            rule@.len() <= p@.len(),
            i <= rule@.len(),
            forall|k: int| 0 <= k < i ==> rule@[k] == p@[k],
        decreases rule@.len() - i,
    {
        if rule[i] != p[i] {
            assert(p@.subrange(0, rule@.len() as int)[i as int] != rule@[i as int]);
            assert(rule@ != p@);
            return false;
        }
        i += 1;
    }
    assert(p@.subrange(0, rule@.len() as int) =~= rule@);
    if rule.len() == p.len() {
        assert(rule@ =~= p@);
        return true;
    }
    p[rule.len()] == '/'
}

/// The permission of the rule at exactly `file_path`, or 0 where none is.
pub fn get_least_permission(file_path: &str, hiddens: &Vec<Hidden>) -> (r: i8)
    ensures
        r == exact_permission(hiddens@, file_path@),
{
    let p = chars_of(file_path);
    let mut i: usize = 0;
    assert(hiddens@.subrange(0, hiddens@.len() as int) =~= hiddens@);
    while i < hiddens.len()
        invariant
            p@ == file_path@,
            i <= hiddens@.len(),
            exact_permission(hiddens@, file_path@) == exact_permission(
                hiddens@.subrange(i as int, hiddens@.len() as int),
                file_path@,
            ),
        decreases hiddens@.len() - i,
    {
        let rule = chars_of(hiddens[i].path.as_str());
        let ghost rest = hiddens@.subrange(i as int, hiddens@.len() as int);
        assert(rest.drop_first() =~= hiddens@.subrange(i + 1, hiddens@.len() as int));
        if same_chars(&rule, &p) {
            return hiddens[i].least_permission;
        }
        i += 1;
    }
    0
}

/// The highest permission among the rules at `file_path` or at any of its
/// ancestors, and 0.
pub fn max_permission_parent(file_path: &str, hiddens: &Vec<Hidden>) -> (r: i8)
    ensures
        r == inherited_permission(hiddens@, file_path@),
{
    let p = chars_of(file_path);
    let mut least_permission: i8 = 0;
    let mut i: usize = 0;
    while i < hiddens.len()
        invariant
            p@ == file_path@,
            i <= hiddens@.len(),
            least_permission == inherited_permission(hiddens@.subrange(0, i as int), file_path@),
        decreases hiddens@.len() - i,
    {
        let rule = chars_of(hiddens[i].path.as_str());
        assert(hiddens@.subrange(0, i + 1).drop_last() =~= hiddens@.subrange(0, i as int));
        if covers_exec(&rule, &p) && hiddens[i].least_permission > least_permission {
            least_permission = hiddens[i].least_permission;
        }
        i += 1;
    }
    assert(hiddens@.subrange(0, hiddens@.len() as int) =~= hiddens@);
    least_permission
}

/// Admits a requester of `level` to `path` unless the path's inherited
/// permission exceeds that level.
pub fn check_access(path: &str, hiddens: &Vec<Hidden>, level: i8) -> (r: Result<(), Error>)
    ensures
        inherited_permission(hiddens@, path@) > level ==> r == Err::<(), Error>(Error::Unauthorized),
        inherited_permission(hiddens@, path@) <= level ==> r == Ok::<(), Error>(()),
{
    if max_permission_parent(path, hiddens) > level {
        Err(Error::Unauthorized)
    } else {
        Ok(())
    }
}

/// A rule as its path and level.
pub open spec fn rule_pair(h: Hidden) -> (Seq<char>, i8) {
    (h.path@, h.least_permission)
}

/// The rules that survive deleting `path`: those not at it or beneath it.
pub open spec fn kept_after_delete(rules: Seq<Hidden>, n: int, path: Seq<char>) -> Seq<
    (Seq<char>, i8),
>
    decreases n,
{
    if n <= 0 {
        Seq::empty()
    } else if covers(path, rules[n - 1].path@) {
        kept_after_delete(rules, n - 1, path)
    } else {
        kept_after_delete(rules, n - 1, path).push(rule_pair(rules[n - 1]))
    }
}

fn copy_str(s: &String) -> (r: String)
    ensures
        r@ == s@,
{
    s.clone()
}

/// The rule set after deleting `path`: every rule at `path` or beneath it
/// goes, the others stay in order with their levels.
pub fn delete_sub_path(hiddens: &Vec<Hidden>, path: &str) -> (r: Vec<Hidden>)
    ensures
        r@.map_values(|h: Hidden| rule_pair(h)) == kept_after_delete(
            hiddens@,
            hiddens@.len() as int,
            path@,
        ),
{
    let p = chars_of(path);
    let mut r: Vec<Hidden> = Vec::new();
    let mut i: usize = 0;
    while i < hiddens.len()
        invariant
            p@ == path@,
            i <= hiddens@.len(),
            r@.map_values(|h: Hidden| rule_pair(h)) == kept_after_delete(hiddens@, i as int, path@),
        decreases hiddens@.len() - i,
    {
        let rule = chars_of(hiddens[i].path.as_str());
        if !covers_exec(&p, &rule) {
            let h = Hidden { path: copy_str(&hiddens[i].path), least_permission: hiddens[i].least_permission };
            let ghost prev = r@;
            r.push(h);
            proof {
                assert(r@.map_values(|h: Hidden| rule_pair(h)) =~= prev.map_values(
                    |h: Hidden| rule_pair(h),
                ).push(rule_pair(hiddens@[i as int])));
            }
        }
        i += 1;
    }
    r
}

/// Where `p` lies at or beneath `old`, the same place beneath `new`;
/// otherwise `p` itself.
pub open spec fn moved_path(p: Seq<char>, old: Seq<char>, new: Seq<char>) -> Seq<char> {
    if covers(old, p) {
        new + p.subrange(old.len() as int, p.len() as int)
    } else {
        p
    }
}

/// The rule set after renaming `old` to `new`: every rule at `old` or
/// beneath it moves along, keeping its level and its place in the list.
pub fn update_sub_path(hiddens: &Vec<Hidden>, old: &str, new: &str) -> (r: Vec<Hidden>)
    ensures
        r@.len() == hiddens@.len(),
        forall|i: int|
            0 <= i < r@.len() ==> (#[trigger] r@[i]).path@ == moved_path(hiddens@[i].path@, old@, new@)
                && r@[i].least_permission == hiddens@[i].least_permission,
{
    let o = chars_of(old);
    let nw = chars_of(new);
    let mut r: Vec<Hidden> = Vec::new();
    let mut i: usize = 0;
    while i < hiddens.len()
        invariant
            o@ == old@,
            nw@ == new@,
            i <= hiddens@.len(),
            r@.len() == i,
            forall|k: int|
                0 <= k < i ==> (#[trigger] r@[k]).path@ == moved_path(hiddens@[k].path@, old@, new@)
                    && r@[k].least_permission == hiddens@[k].least_permission,
        decreases hiddens@.len() - i,
    {
        let rule = chars_of(hiddens[i].path.as_str());
        let path = if covers_exec(&o, &rule) {
            let mut out: Vec<char> = nw.clone();
            let mut j: usize = o.len();
            proof {
                assert(out@ == new@);
                assert(rule@.subrange(o@.len() as int, o@.len() as int) =~= Seq::<char>::empty());
                assert(out@ =~= new@ + rule@.subrange(o@.len() as int, j as int));
            }
            while j < rule.len()
                invariant
                    o@.len() <= j <= rule@.len(),
                    out@ == new@ + rule@.subrange(o@.len() as int, j as int),
                decreases rule@.len() - j,
            {
                out.push(rule[j]);
                assert(out@ =~= new@ + rule@.subrange(o@.len() as int, j + 1));
                j += 1;
            }
            string_of(&out)
        } else {
            copy_str(&hiddens[i].path)
        };
        r.push(Hidden { path, least_permission: hiddens[i].least_permission });
        i += 1;
    }
    r
}

/// A path covers itself.
pub proof fn lemma_covers_self(p: Seq<char>)
    ensures
        covers(p, p),
{
}

/// An ancestor of an ancestor of `p` is an ancestor of `p`.
pub proof fn lemma_covers_transitive(r: Seq<char>, a: Seq<char>, p: Seq<char>)
    requires
        covers(r, a),
        covers(a, p),
    ensures
        covers(r, p),
{
    if r.len() != 0 && r != a && a != p && a.len() != 0 {
        assert(p.subrange(0, r.len() as int) =~= a.subrange(0, a.len() as int).subrange(
            0,
            r.len() as int,
        ));
        assert(a.subrange(0, a.len() as int) =~= a);
        assert(p[r.len() as int] == p.subrange(0, a.len() as int)[r.len() as int]);
    }
}

/// The inherited level is at least 0 and at least the level of every rule
/// that covers the path.
pub proof fn lemma_inherited_bounds(rules: Seq<Hidden>, p: Seq<char>)
    ensures
        inherited_permission(rules, p) >= 0,
        forall|j: int|
            0 <= j < rules.len() && covers(#[trigger] rules[j].path@, p) ==> inherited_permission(
                rules,
                p,
            ) >= rules[j].least_permission,
    decreases rules.len(),
{
    if rules.len() > 0 {
        lemma_inherited_bounds(rules.drop_last(), p);
        assert forall|j: int|
            0 <= j < rules.len() && covers(#[trigger] rules[j].path@, p) implies inherited_permission(
            rules,
            p,
        ) >= rules[j].least_permission by {
            if j < rules.len() - 1 {
                assert(rules.drop_last()[j] == rules[j]);
            }
        }
    }
}

/// The inherited level is 0 or the level of some rule that covers the path.
pub proof fn lemma_inherited_witness(rules: Seq<Hidden>, p: Seq<char>)
    ensures
        inherited_permission(rules, p) == 0 || exists|j: int|
            0 <= j < rules.len() && covers(#[trigger] rules[j].path@, p)
                && inherited_permission(rules, p) == rules[j].least_permission,
    decreases rules.len(),
{
    if rules.len() > 0 {
        lemma_inherited_witness(rules.drop_last(), p);
        if inherited_permission(rules, p) != 0 && inherited_permission(rules, p)
            == inherited_permission(rules.drop_last(), p) {
            let j = choose|j: int|
                0 <= j < rules.drop_last().len() && covers(#[trigger] rules.drop_last()[j].path@, p)
                    && inherited_permission(rules.drop_last(), p)
                    == rules.drop_last()[j].least_permission;
            assert(rules[j] == rules.drop_last()[j]);
        }
    }
}

/// Where some rule sits exactly at `p`, the exact level is that of such a rule.
pub proof fn lemma_exact_witness(rules: Seq<Hidden>, p: Seq<char>)
    requires
        exists|j: int| 0 <= j < rules.len() && #[trigger] rules[j].path@ == p,
    ensures
        exists|j: int|
            0 <= j < rules.len() && #[trigger] rules[j].path@ == p && exact_permission(rules, p)
                == rules[j].least_permission,
    decreases rules.len(),
{
    if rules[0].path@ != p {
        let j = choose|j: int| 0 <= j < rules.len() && #[trigger] rules[j].path@ == p;
        assert(rules.drop_first()[j - 1] == rules[j]);
        lemma_exact_witness(rules.drop_first(), p);
        let k = choose|k: int|
            0 <= k < rules.drop_first().len() && #[trigger] rules.drop_first()[k].path@ == p
                && exact_permission(rules.drop_first(), p)
                == rules.drop_first()[k].least_permission;
        assert(rules[k + 1] == rules.drop_first()[k]);
    } else {
        assert(rules[0].path@ == p);
    }
}

/// For a path that carries a rule of its own, the inherited level is at
/// least the exact level.
pub proof fn lemma_inherited_at_least_exact(rules: Seq<Hidden>, p: Seq<char>)
    requires
        exists|j: int| 0 <= j < rules.len() && #[trigger] rules[j].path@ == p,
    ensures
        inherited_permission(rules, p) >= exact_permission(rules, p),
{
    lemma_exact_witness(rules, p);
    lemma_inherited_bounds(rules, p);
    let j = choose|j: int|
        0 <= j < rules.len() && #[trigger] rules[j].path@ == p && exact_permission(rules, p)
            == rules[j].least_permission;
    lemma_covers_self(p);
    assert(covers(rules[j].path@, p));
}

/// Descending from `a` to a path `p` beneath it never lowers the inherited level.
pub proof fn lemma_inherited_monotone(rules: Seq<Hidden>, a: Seq<char>, p: Seq<char>)
    requires
        covers(a, p),
    ensures
        inherited_permission(rules, p) >= inherited_permission(rules, a),
{
    lemma_inherited_witness(rules, a);
    lemma_inherited_bounds(rules, p);
    if inherited_permission(rules, a) != 0 {
        let j = choose|j: int|
            0 <= j < rules.len() && covers(#[trigger] rules[j].path@, a)
                && inherited_permission(rules, a) == rules[j].least_permission;
        lemma_covers_transitive(rules[j].path@, a, p);
    }
}

} // verus!
