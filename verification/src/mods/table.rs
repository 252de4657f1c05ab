//! A manifest's `[dependencies]` table: (mod name, version requirement)
//! pairs kept in ascending name order, each name once, as a table keyed by
//! name keeps them.

use vstd::prelude::*;

use super::names_ascending;
use crate::order::{lemma_lex_irreflexive, lemma_lex_total, lemma_lex_transitive, lex_less, str_equal, str_less};

verus! {

pub open spec fn entry_view(e: (String, String)) -> (Seq<char>, Seq<char>) {
    (e.0@, e.1@)
}

pub open spec fn entries_view(v: Seq<(String, String)>) -> Seq<(Seq<char>, Seq<char>)> {
    v.map_values(|e: (String, String)| entry_view(e))
}

/// The names of a table's entries, in order.
pub open spec fn table_keys(t: Seq<(Seq<char>, Seq<char>)>) -> Seq<Seq<char>> {
    t.map_values(|e: (Seq<char>, Seq<char>)| e.0)
}

/// `t` with the entry `e` set: it replaces the entry of the same name, or
/// else is added at its place in name order.
pub open spec fn table_insert(t: Seq<(Seq<char>, Seq<char>)>, e: (Seq<char>, Seq<char>)) -> Seq<
    (Seq<char>, Seq<char>),
>
    decreases t.len(),
{
    if t.len() == 0 {
        seq![e]
    } else if t.last().0 == e.0 {
        t.drop_last().push(e)
    } else if lex_less(t.last().0, e.0) {
        t.push(e)
    } else {
        table_insert(t.drop_last(), e).push(t.last())
    }
}

/// The table that setting each pair of `pairs` in turn gives, starting
/// from an empty one: of two pairs with one name, the later one stays.
pub open spec fn table_of(pairs: Seq<(Seq<char>, Seq<char>)>) -> Seq<(Seq<char>, Seq<char>)>
    decreases pairs.len(),
{
    if pairs.len() == 0 {
        seq![]
    } else {
        table_insert(table_of(pairs.drop_last()), pairs.last())
    }
}

/// Setting an entry keeps the names ascending, and brings in no name but
/// the entry's own.
pub proof fn lemma_table_insert_ascending(t: Seq<(Seq<char>, Seq<char>)>, e: (Seq<char>, Seq<char>))
    requires
        names_ascending(table_keys(t)),
    ensures
        names_ascending(table_keys(table_insert(t, e))),
        forall|k: Seq<char>| #[trigger]
            table_keys(table_insert(t, e)).contains(k) ==> k == e.0 || table_keys(t).contains(k),
    decreases t.len(),
{
    let keys = table_keys(t);
    let r = table_insert(t, e);
    let rk = table_keys(r);
    if t.len() == 0 {
        assert(rk =~= seq![e.0]);
    } else if t.last().0 == e.0 {
        assert(rk =~= keys);
    } else if lex_less(t.last().0, e.0) {
        let n = keys.len() - 1;
        assert(rk =~= keys.push(e.0));
        assert forall|i: int, j: int| 0 <= i < j < rk.len() implies lex_less(
            #[trigger] rk[i],
            #[trigger] rk[j],
        ) by {
            if j == keys.len() && i < n {
                lemma_lex_transitive(keys[i], keys[n], e.0);
            }
        }
        assert forall|k: Seq<char>| #[trigger] rk.contains(k) implies k == e.0 || keys.contains(k) by {
            let i = rk.index_of(k);
            if i < keys.len() {
                assert(keys[i] == k);
            }
        }
    } else {
        let n = keys.len() - 1;
        let last = t.last().0;
        lemma_lex_total(last, e.0);
        let u = t.drop_last();
        let uk = table_keys(u);
        assert(uk =~= keys.drop_last());
        lemma_table_insert_ascending(u, e);
        let r0 = table_insert(u, e);
        let r0k = table_keys(r0);
        assert(rk =~= r0k.push(last));
        assert(keys[n] == last);
        assert forall|i: int| 0 <= i < r0k.len() implies lex_less(#[trigger] r0k[i], last) by {
            assert(r0k.contains(r0k[i]));
            if r0k[i] != e.0 {
                assert(uk.contains(r0k[i]));
                let m = uk.index_of(r0k[i]);
                assert(keys[m] == uk[m]);
            }
        }
        assert forall|i: int, j: int| 0 <= i < j < rk.len() implies lex_less(
            #[trigger] rk[i],
            #[trigger] rk[j],
        ) by {
            if j == r0k.len() {
                assert(rk[i] == r0k[i]);
            } else {
                assert(rk[i] == r0k[i] && rk[j] == r0k[j]);
            }
        }
        assert forall|k: Seq<char>| #[trigger] rk.contains(k) implies k == e.0 || keys.contains(k) by {
            let i = rk.index_of(k);
            if i < r0k.len() {
                assert(r0k[i] == k);
                assert(r0k.contains(k));
                if k != e.0 {
                    let m = uk.index_of(k);
                    assert(keys[m] == k);
                }
            } else {
                assert(keys[n] == k);
            }
        }
    }
}

/// A table built from any pairs has its names in ascending order.
pub proof fn lemma_table_of_ascending(pairs: Seq<(Seq<char>, Seq<char>)>)
    ensures
        names_ascending(table_keys(table_of(pairs))),
    decreases pairs.len(),
{
    if pairs.len() == 0 {
        assert(table_keys(table_of(pairs)) =~= Seq::<Seq<char>>::empty());
    } else {
        lemma_table_of_ascending(pairs.drop_last());
        lemma_table_insert_ascending(table_of(pairs.drop_last()), pairs.last());
    }
}

/// The requirement of the last entry of `t` named `name`, if any.
pub open spec fn table_lookup(t: Seq<(Seq<char>, Seq<char>)>, name: Seq<char>) -> Option<Seq<char>>
    decreases t.len(),
{
    if t.len() == 0 {
        None
    } else if t.last().0 == name {
        Some(t.last().1)
    } else {
        table_lookup(t.drop_last(), name)
    }
}

/// After an entry is set, looking up its name gives its requirement, and
/// looking up any other name gives what it gave before.
pub proof fn lemma_table_insert_lookup(
    t: Seq<(Seq<char>, Seq<char>)>,
    e: (Seq<char>, Seq<char>),
    name: Seq<char>,
)
    ensures
        table_lookup(table_insert(t, e), name) == if name == e.0 {
            Some(e.1)
        } else {
            table_lookup(t, name)
        },
    decreases t.len(),
{
    if t.len() == 0 {
        assert(seq![e].drop_last() =~= t);
    } else if t.last().0 == e.0 {
        assert(t.drop_last().push(e).drop_last() =~= t.drop_last());
    } else if lex_less(t.last().0, e.0) {
        assert(t.push(e).drop_last() =~= t);
    } else {
        lemma_table_insert_lookup(t.drop_last(), e, name);
        let r = table_insert(t.drop_last(), e);
        assert(r.push(t.last()).drop_last() =~= r);
    }
}

/// A name in the table built from `pairs` has the requirement of the last
/// pair with that name; a name of no pair is not in the table.
pub proof fn lemma_table_of_lookup(pairs: Seq<(Seq<char>, Seq<char>)>, name: Seq<char>)
    ensures
        table_lookup(table_of(pairs), name) == table_lookup(pairs, name),
    decreases pairs.len(),
{
    if pairs.len() > 0 {
        lemma_table_of_lookup(pairs.drop_last(), name);
        lemma_table_insert_lookup(table_of(pairs.drop_last()), pairs.last(), name);
    }
}

/// Sets the entry `e` in the table `t`, scanning from the end for its place.
fn table_set(t: &mut Vec<(String, String)>, e: (String, String))
    ensures
        entries_view(final(t)@) == table_insert(entries_view(old(t)@), entry_view(e)),
{
    let ghost t0 = entries_view(t@);
    let ghost ev = entry_view(e);
    let mut i: usize = t.len();
    proof {
        assert(t0.take(i as int) =~= t0);
        assert(t0.skip(i as int) =~= Seq::<(Seq<char>, Seq<char>)>::empty());
        assert(table_insert(t0, ev) =~= table_insert(t0.take(i as int), ev) + t0.skip(i as int));
    }
    loop
        invariant
            i <= t.len(),
            entries_view(t@) == t0,
            t0 == entries_view(old(t)@),
            ev == entry_view(e),
            table_insert(t0, ev) == table_insert(t0.take(i as int), ev) + t0.skip(i as int),
        decreases i,
    {
        if i == 0 {
            t.insert(0, e);
            proof {
                assert(t0.take(0) =~= Seq::<(Seq<char>, Seq<char>)>::empty());
                assert(t0.skip(0) =~= t0);
                assert(entries_view(t@) =~= seq![ev] + t0);
            }
            return;
        }
        let ghost prefix = t0.take(i as int);
        proof {
            assert(prefix.last() == t0[i - 1]);
            assert(t0[i - 1] == entry_view(t@[i - 1]));
            assert(prefix.drop_last() =~= t0.take(i - 1));
        }
        if str_equal(t[i - 1].0.as_str(), e.0.as_str()) {
            t.set(i - 1, e);
            proof {
                assert(entries_view(t@) =~= t0.take(i - 1).push(ev) + t0.skip(i as int));
            }
            return;
        }
        if str_less(t[i - 1].0.as_str(), e.0.as_str()) {
            t.insert(i, e);
            proof {
                assert(entries_view(t@) =~= prefix.push(ev) + t0.skip(i as int));
            }
            return;
        }
        proof {
            assert(t0.skip(i - 1) =~= seq![t0[i - 1]] + t0.skip(i as int));
            assert(table_insert(t0.take(i - 1), ev).push(t0[i - 1]) + t0.skip(i as int)
                =~= table_insert(t0.take(i - 1), ev) + t0.skip(i - 1));
        }
        i = i - 1;
    }
}

/// The `[dependencies]` table that `pairs` give: one entry per name, in
/// ascending name order, and of two pairs with one name the later one.
pub fn dependency_table(pairs: &Vec<(String, String)>) -> (table: Vec<(String, String)>)
    ensures
        entries_view(table@) == table_of(entries_view(pairs@)),
        names_ascending(table_keys(entries_view(table@))),
{
    let ghost s = entries_view(pairs@);
    let mut table: Vec<(String, String)> = Vec::new();
    proof {
        assert(entries_view(table@) =~= table_of(s.take(0)));
    }
    for i in 0..pairs.len()
        invariant
            s == entries_view(pairs@),
            entries_view(table@) == table_of(s.take(i as int)),
    {
        let e = (pairs[i].0.clone(), pairs[i].1.clone());
        proof {
            assert(s.take(i + 1).drop_last() =~= s.take(i as int));
            assert(entry_view(e) == s[i as int]);
        }
        table_set(&mut table, e);
    }
    proof {
        assert(s.take(pairs@.len() as int) =~= s);
        lemma_table_of_ascending(s);
    }
    table
}

} // verus!
