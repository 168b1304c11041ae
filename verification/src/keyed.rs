//! Ordered collections of `(key, value)` entries with map semantics:
//! inserting a key that is already present replaces its value in place.

use vstd::prelude::*;

verus! {

/// The map that a sequence of entries stands for; a later entry for a key
/// overrides an earlier one.
pub open spec fn keyed<V>(s: Seq<(String, V)>) -> Map<Seq<char>, V>
    decreases s.len(),
{
    if s.len() == 0 {
        Map::empty()
    } else {
        keyed(s.drop_last()).insert(s.last().0@, s.last().1)
    }
}

/// No key occurs twice.
pub open spec fn keys_unique<V>(s: Seq<(String, V)>) -> bool {
    forall|i: int, j: int| 0 <= i < j < s.len() ==> s[i].0@ != s[j].0@
}

/// The keys, in order.
pub open spec fn keys_of<V>(s: Seq<(String, V)>) -> Seq<Seq<char>> {
    s.map_values(|e: (String, V)| e.0@)
}

pub proof fn lemma_keyed_absent<V>(s: Seq<(String, V)>, k: Seq<char>)
    requires
        forall|i: int| 0 <= i < s.len() ==> s[i].0@ != k,
    ensures
        !keyed(s).dom().contains(k),
    decreases s.len(),
{
    if s.len() > 0 {
        lemma_keyed_absent(s.drop_last(), k);
    }
}

pub proof fn lemma_keyed_present<V>(s: Seq<(String, V)>, j: int)
    requires
        0 <= j < s.len(),
        forall|i: int| j < i < s.len() ==> s[i].0@ != s[j].0@,
    ensures
        keyed(s).dom().contains(s[j].0@),
        keyed(s)[s[j].0@] == s[j].1,
    decreases s.len(),
{
    if j < s.len() - 1 {
        lemma_keyed_present(s.drop_last(), j);
    }
}

pub proof fn lemma_keyed_update<V>(s: Seq<(String, V)>, j: int, e: (String, V))
    requires
        0 <= j < s.len(),
        e.0@ == s[j].0@,
        forall|i: int| j < i < s.len() ==> s[i].0@ != s[j].0@,
    ensures
        keyed(s.update(j, e)) == keyed(s).insert(e.0@, e.1),
    decreases s.len(),
{
    let u = s.update(j, e);
    if j == s.len() - 1 {
        assert(u.drop_last() =~= s.drop_last());
        assert(keyed(u) =~= keyed(s).insert(e.0@, e.1));
    } else {
        assert(u.drop_last() =~= s.drop_last().update(j, e));
        lemma_keyed_update(s.drop_last(), j, e);
        assert(keyed(u) =~= keyed(s).insert(e.0@, e.1));
    }
}

/// The position of the last entry whose key is `key`.
pub(crate) fn find_last<V>(s: &Vec<(String, V)>, key: &String) -> (r: Option<usize>)
    ensures
        r matches Some(j) ==> j < s.len() && s@[j as int].0@ == key@ && forall|i: int|
            j < i < s.len() ==> s@[i].0@ != key@,
        r is None ==> forall|i: int| 0 <= i < s.len() ==> s@[i].0@ != key@,
{
    let mut i = s.len();
    while i > 0
        invariant
            i <= s.len(),
            forall|k: int| i <= k < s.len() ==> s@[k].0@ != key@,
        decreases i,
    {
        i = i - 1;
        if s[i].0 == *key {
            return Some(i);
        }
    }
    None
}

/// Some entry has key `k`.
pub open spec fn has_key<V>(s: Seq<(String, V)>, k: Seq<char>) -> bool {
    exists|i: int| 0 <= i < s.len() && s[i].0@ == k
}

/// Some entry has key `k`.
pub open spec fn has_key_view<W>(s: Seq<(Seq<char>, W)>, k: Seq<char>) -> bool {
    exists|i: int| 0 <= i < s.len() && s[i].0 == k
}

/// The entries with `e` set: the last entry with `e`'s key is replaced by
/// `e`, or `e` goes at the end when no entry has that key.
pub open spec fn upsert<V>(s: Seq<(String, V)>, e: (String, V)) -> Seq<(String, V)>
    decreases s.len(),
{
    if s.len() == 0 {
        seq![e]
    } else if s.last().0@ == e.0@ {
        s.drop_last().push(e)
    } else if has_key(s.drop_last(), e.0@) {
        upsert(s.drop_last(), e).push(s.last())
    } else {
        s.push(e)
    }
}

/// The same operation over entries whose keys are plain character sequences.
pub open spec fn upsert_view<W>(s: Seq<(Seq<char>, W)>, e: (Seq<char>, W)) -> Seq<(Seq<char>, W)>
    decreases s.len(),
{
    if s.len() == 0 {
        seq![e]
    } else if s.last().0 == e.0 {
        s.drop_last().push(e)
    } else if has_key_view(s.drop_last(), e.0) {
        upsert_view(s.drop_last(), e).push(s.last())
    } else {
        s.push(e)
    }
}

pub proof fn lemma_upsert_keyed<V>(s: Seq<(String, V)>, e: (String, V))
    ensures
        keyed(upsert(s, e)) == keyed(s).insert(e.0@, e.1),
    decreases s.len(),
{
    if s.len() == 0 {
        assert(seq![e].drop_last() =~= Seq::<(String, V)>::empty());
        assert(seq![e].last() == e);
        assert(keyed(s) == Map::<Seq<char>, V>::empty());
        assert(keyed(Seq::<(String, V)>::empty()) == Map::<Seq<char>, V>::empty());
        assert(keyed(seq![e]) == keyed(seq![e].drop_last()).insert(e.0@, e.1));
        assert(keyed(upsert(s, e)) =~= keyed(s).insert(e.0@, e.1));
    } else if s.last().0@ == e.0@ {
        assert(s.drop_last().push(e).drop_last() =~= s.drop_last());
        assert(keyed(upsert(s, e)) =~= keyed(s).insert(e.0@, e.1));
    } else if has_key(s.drop_last(), e.0@) {
        lemma_upsert_keyed(s.drop_last(), e);
        let u = upsert(s.drop_last(), e).push(s.last());
        assert(u.drop_last() =~= upsert(s.drop_last(), e));
        assert(keyed(upsert(s, e)) =~= keyed(s).insert(e.0@, e.1));
    } else {
        assert(s.push(e).drop_last() =~= s);
        assert(keyed(upsert(s, e)) =~= keyed(s).insert(e.0@, e.1));
    }
}

pub proof fn lemma_upsert_update<V>(s: Seq<(String, V)>, j: int, e: (String, V))
    requires
        0 <= j < s.len(),
        s[j].0@ == e.0@,
        forall|i: int| j < i < s.len() ==> s[i].0@ != e.0@,
    ensures
        upsert(s, e) == s.update(j, e),
    decreases s.len(),
{
    if j == s.len() - 1 {
        assert(s.drop_last().push(e) =~= s.update(j, e));
    } else {
        assert(s.drop_last()[j].0@ == e.0@);
        lemma_upsert_update(s.drop_last(), j, e);
        assert(s.drop_last().update(j, e).push(s.last()) =~= s.update(j, e));
    }
}

pub proof fn lemma_upsert_push<V>(s: Seq<(String, V)>, e: (String, V))
    requires
        forall|i: int| 0 <= i < s.len() ==> s[i].0@ != e.0@,
    ensures
        upsert(s, e) == s.push(e),
{
    if s.len() > 0 {
        assert(s.last().0@ != e.0@);
        assert(!has_key(s.drop_last(), e.0@));
    }
}

pub proof fn lemma_upsert_view<V, W>(s: Seq<(String, V)>, e: (String, V), f: spec_fn((String, V)) -> (Seq<char>, W))
    requires
        forall|x: (String, V)| #[trigger] f(x).0 == x.0@,
    ensures
        upsert(s, e).map_values(f) == upsert_view(s.map_values(f), f(e)),
    decreases s.len(),
{
    let m = s.map_values(f);
    assert(f(e).0 == e.0@);
    if s.len() == 0 {
        assert(upsert(s, e).map_values(f) =~= seq![f(e)]);
    } else {
        assert(m.drop_last() =~= s.drop_last().map_values(f));
        assert(m.last() == f(s.last()));
        assert(f(s.last()).0 == s.last().0@);
        assert(has_key(s.drop_last(), e.0@) == has_key_view(m.drop_last(), e.0@)) by {
            if has_key(s.drop_last(), e.0@) {
                let i = choose|i: int| 0 <= i < s.drop_last().len() && s.drop_last()[i].0@ == e.0@;
                assert(m.drop_last()[i] == f(s.drop_last()[i]));
            }
            if has_key_view(m.drop_last(), e.0@) {
                let i = choose|i: int| 0 <= i < m.drop_last().len() && m.drop_last()[i].0 == e.0@;
                assert(m.drop_last()[i] == f(s.drop_last()[i]));
            }
        }
        if s.last().0@ == e.0@ {
            assert(upsert(s, e).map_values(f) =~= m.drop_last().push(f(e)));
        } else if has_key(s.drop_last(), e.0@) {
            lemma_upsert_view(s.drop_last(), e, f);
            assert(upsert(s, e).map_values(f) =~= upsert(s.drop_last(), e).map_values(f).push(f(s.last())));
        } else {
            assert(upsert(s, e).map_values(f) =~= m.push(f(e)));
        }
    }
}

pub proof fn lemma_upsert_unique<V>(s: Seq<(String, V)>, e: (String, V))
    requires
        keys_unique(s),
    ensures
        keys_unique(upsert(s, e)),
{
    if exists|i: int| 0 <= i < s.len() && s[i].0@ == e.0@ {
        let j = choose|i: int| 0 <= i < s.len() && s[i].0@ == e.0@;
        lemma_upsert_update(s, j, e);
    } else {
        lemma_upsert_push(s, e);
    }
}

/// Sets `key` to `value`: the entry of `key` keeps its place if there is one,
/// else the entry goes at the end.
pub(crate) fn insert_keyed<V>(s: &mut Vec<(String, V)>, key: String, value: V)
    ensures
        final(s)@ == upsert(old(s)@, (key, value)),
        keyed(final(s)@) == keyed(old(s)@).insert(key@, value),
        keys_unique(old(s)@) ==> keys_unique(final(s)@),
{
    proof {
        lemma_upsert_keyed(old(s)@, (key, value));
        if keys_unique(old(s)@) {
            lemma_upsert_unique(old(s)@, (key, value));
        }
    }
    match find_last(s, &key) {
        Some(j) => {
            proof {
                lemma_upsert_update(s@, j as int, (key, value));
            }
            s.set(j, (key, value));
        },
        None => {
            proof {
                lemma_upsert_push(s@, (key, value));
            }
            s.push((key, value));
        },
    }
}

} // verus!
