//! Sorted association lists.
//!
//! Ordered mappings are held as vectors of entries kept strictly sorted by
//! a total order on the keys. This module defines sortedness, the map a
//! sorted entry list denotes, and the verified insertion routines that keep
//! lists canonical, shared by variable assignments, records, functions and
//! sets of canonical values.

use crate::text_order::lemma_lex_cmp_eq;
use crate::text_order::lemma_lex_cmp_flip;
use crate::text_order::lemma_lex_cmp_trans;
use crate::text_order::lex_cmp;
use crate::text_order::str_cmp;
use crate::tla_value::lemma_model_fields;
use crate::tla_value::lemma_model_list;
use crate::tla_value::lemma_model_pairs;
use crate::tla_value::model_fields;
use crate::tla_value::model_list;
use crate::tla_value::model_pairs;
use crate::tla_value::TlaValue;
use crate::tla_value::ValueModel;
use crate::value_order::cmp_value;
use crate::value_order::lemma_cmp_value_eq;
use crate::value_order::lemma_cmp_value_flip;
use crate::value_order::lemma_cmp_value_trans;
use crate::value_order::value_cmp;
use vstd::pervasive::VecAdditionalExecFns;
use vstd::prelude::*;

verus! {

/// The lexicographic order on text keys, as a comparison function value.
pub open spec fn text_order_fn() -> spec_fn(Seq<char>, Seq<char>) -> int {
    |a: Seq<char>, b: Seq<char>| lex_cmp(a, b)
}

/// The structural order on canonical values, as a comparison function value.
pub open spec fn value_order_fn() -> spec_fn(ValueModel, ValueModel) -> int {
    |a: ValueModel, b: ValueModel| cmp_value(a, b)
}

/// A three-way comparison behaves as a total order: zero exactly on equal
/// keys, antisymmetric, and transitive with strictness.
pub open spec fn is_total_order<K>(cmp: spec_fn(K, K) -> int) -> bool {
    &&& forall|a: K, b: K| -1 <= #[trigger] cmp(a, b) <= 1
    &&& forall|a: K, b: K| (#[trigger] cmp(a, b) == 0) <==> a == b
    &&& forall|a: K, b: K| #[trigger] cmp(b, a) == -cmp(a, b)
    &&& forall|a: K, b: K, c: K|
        #![trigger cmp(a, b), cmp(b, c)]
        cmp(a, b) <= 0 && cmp(b, c) <= 0 ==> cmp(a, c) <= 0 && ((cmp(a, b) < 0 || cmp(b, c) < 0)
            ==> cmp(a, c) < 0)
}

/// The lexicographic order on text is a total order.
pub proof fn lemma_text_order_total()
    ensures
        is_total_order(text_order_fn()),
{
    let cmp = text_order_fn();
    assert forall|a: Seq<char>, b: Seq<char>| -1 <= #[trigger] cmp(a, b) <= 1 by {
        crate::text_order::lemma_lex_cmp_range(a, b);
    }
    assert forall|a: Seq<char>, b: Seq<char>| (#[trigger] cmp(a, b) == 0) <==> a == b by {
        lemma_lex_cmp_eq(a, b);
    }
    assert forall|a: Seq<char>, b: Seq<char>| #[trigger] cmp(b, a) == -cmp(a, b) by {
        lemma_lex_cmp_flip(a, b);
    }
    assert forall|a: Seq<char>, b: Seq<char>, c: Seq<char>|
        #![trigger cmp(a, b), cmp(b, c)]
        cmp(a, b) <= 0 && cmp(b, c) <= 0 implies cmp(a, c) <= 0 && ((cmp(a, b) < 0 || cmp(b, c)
        < 0) ==> cmp(a, c) < 0) by {
        lemma_lex_cmp_trans(a, b, c);
    }
}

/// The structural order on canonical values is a total order.
pub proof fn lemma_value_order_total()
    ensures
        is_total_order(value_order_fn()),
{
    let cmp = value_order_fn();
    assert forall|a: ValueModel, b: ValueModel| -1 <= #[trigger] cmp(a, b) <= 1 by {
        crate::value_order::lemma_cmp_value_range(a, b);
    }
    assert forall|a: ValueModel, b: ValueModel| (#[trigger] cmp(a, b) == 0) <==> a == b by {
        lemma_cmp_value_eq(a, b);
    }
    assert forall|a: ValueModel, b: ValueModel| #[trigger] cmp(b, a) == -cmp(a, b) by {
        lemma_cmp_value_flip(a, b);
    }
    assert forall|a: ValueModel, b: ValueModel, c: ValueModel|
        #![trigger cmp(a, b), cmp(b, c)]
        cmp(a, b) <= 0 && cmp(b, c) <= 0 implies cmp(a, c) <= 0 && ((cmp(a, b) < 0 || cmp(b, c)
        < 0) ==> cmp(a, c) < 0) by {
        lemma_cmp_value_trans(a, b, c);
    }
}

/// Entry keys are strictly increasing between neighbours.
pub open spec fn entries_sorted_by<K, V>(s: Seq<(K, V)>, cmp: spec_fn(K, K) -> int) -> bool {
    forall|i: int, j: int|
        0 <= i && j == i + 1 && j < s.len() ==> #[trigger] cmp(s[i].0, s[j].0) == -1
}

/// The map denoted by an entry list; a later entry overrides an earlier
/// one with the same key.
pub open spec fn map_of_entries<K, V>(s: Seq<(K, V)>) -> Map<K, V>
    decreases s.len(),
{
    if s.len() == 0 {
        Map::empty()
    } else {
        map_of_entries(s.drop_last()).insert(s.last().0, s.last().1)
    }
}

/// In a sorted entry list the keys are strictly increasing pairwise.
pub proof fn lemma_sorted_pairwise<K, V>(s: Seq<(K, V)>, cmp: spec_fn(K, K) -> int)
    requires
        is_total_order(cmp),
        entries_sorted_by(s, cmp),
    ensures
        forall|i: int, j: int| 0 <= i < j < s.len() ==> #[trigger] cmp(s[i].0, s[j].0) == -1,
{
    assert forall|i: int, j: int| 0 <= i < j < s.len() implies #[trigger] cmp(s[i].0, s[j].0)
        == -1 by {
        lemma_sorted_pair(s, cmp, i, j);
    }
}

/// Helper for `lemma_sorted_pairwise`, walking from `i` to `j`.
proof fn lemma_sorted_pair<K, V>(s: Seq<(K, V)>, cmp: spec_fn(K, K) -> int, i: int, j: int)
    requires
        is_total_order(cmp),
        entries_sorted_by(s, cmp),
        0 <= i < j < s.len(),
    ensures
        cmp(s[i].0, s[j].0) == -1,
    decreases j - i,
{
    if j == i + 1 {
        assert(cmp(s[i].0, s[j].0) == -1);
    } else {
        lemma_sorted_pair(s, cmp, i, j - 1);
        assert(cmp(s[j - 1].0, s[j].0) == -1);
        assert(cmp(s[i].0, s[j].0) < 0);
        assert(-1 <= cmp(s[i].0, s[j].0));
    }
}

/// In a sorted entry list the keys are pairwise distinct.
pub proof fn lemma_sorted_distinct<K, V>(s: Seq<(K, V)>, cmp: spec_fn(K, K) -> int)
    requires
        is_total_order(cmp),
        entries_sorted_by(s, cmp),
    ensures
        forall|i: int, j: int| 0 <= i < j < s.len() ==> (#[trigger] s[i]).0 != (#[trigger] s[j]).0,
{
    lemma_sorted_pairwise(s, cmp);
    assert forall|i: int, j: int|
        0 <= i < j < s.len() implies (#[trigger] s[i]).0 != (#[trigger] s[j]).0 by {
        assert(cmp(s[i].0, s[j].0) == -1);
    }
}

/// What a duplicate-free entry list's map contains, and where each entry
/// ends up in it.
pub proof fn lemma_map_of_entries<K, V>(s: Seq<(K, V)>)
    requires
        forall|i: int, j: int| 0 <= i < j < s.len() ==> (#[trigger] s[i]).0 != (#[trigger] s[j]).0,
    ensures
        forall|k: K|
            #[trigger] map_of_entries(s).contains_key(k) <==> exists|i: int|
                0 <= i < s.len() && (#[trigger] s[i]).0 == k,
        forall|i: int|
            0 <= i < s.len() ==> map_of_entries(s).contains_key((#[trigger] s[i]).0)
                && map_of_entries(s)[s[i].0] == s[i].1,
    decreases s.len(),
{
    if s.len() > 0 {
        let s0 = s.drop_last();
        lemma_map_of_entries(s0);
        assert forall|k: K|
            #[trigger] map_of_entries(s).contains_key(k) implies exists|i: int|
            0 <= i < s.len() && (#[trigger] s[i]).0 == k by {
            if k == s.last().0 {
                assert((s[s.len() - 1]).0 == k);
            } else {
                assert(map_of_entries(s0).contains_key(k));
                let i = choose|i: int| 0 <= i < s0.len() && (#[trigger] s0[i]).0 == k;
                assert(s0[i] == s[i]);
                assert((s[i]).0 == k);
            }
        }
        assert forall|k: K|
            (exists|i: int| 0 <= i < s.len() && (#[trigger] s[i]).0 == k) implies #[trigger]
            map_of_entries(s).contains_key(k) by {
            let i = choose|i: int| 0 <= i < s.len() && (#[trigger] s[i]).0 == k;
            if i == s.len() - 1 {
                assert(k == s.last().0);
            } else {
                assert(s0[i] == s[i]);
                assert((s0[i]).0 == k);
                assert(map_of_entries(s0).contains_key(k));
            }
        }
        assert forall|i: int|
            0 <= i < s.len() implies map_of_entries(s).contains_key((#[trigger] s[i]).0)
            && map_of_entries(s)[s[i].0] == s[i].1 by {
            if i < s.len() - 1 {
                assert(s0[i] == s[i]);
                assert(map_of_entries(s0).contains_key((s0[i]).0));
                assert(map_of_entries(s0)[s0[i].0] == s0[i].1);
                // the last entry's key differs, so the final insert leaves
                // this entry's binding alone
                assert(s[i].0 != s[s.len() - 1].0);
            }
        }
    }
}

/// Inserting a fresh key at its sorted position keeps the list sorted and
/// inserts into the denoted map.
pub proof fn lemma_sorted_insert<K, V>(
    s: Seq<(K, V)>,
    i: int,
    k: K,
    v: V,
    cmp: spec_fn(K, K) -> int,
)
    requires
        is_total_order(cmp),
        entries_sorted_by(s, cmp),
        0 <= i <= s.len(),
        forall|j: int| 0 <= j < i ==> cmp((#[trigger] s[j]).0, k) == -1,
        i < s.len() ==> cmp(k, s[i].0) == -1,
    ensures
        entries_sorted_by(s.insert(i, (k, v)), cmp),
        map_of_entries(s.insert(i, (k, v))) == map_of_entries(s).insert(k, v),
{
    let t = s.insert(i, (k, v));
    assert(t.len() == s.len() + 1);
    assert forall|j: int| 0 <= j < t.len() implies #[trigger] t[j] == (if j < i {
        s[j]
    } else if j == i {
        (k, v)
    } else {
        s[j - 1]
    }) by {}
    lemma_sorted_pairwise(s, cmp);
    assert forall|j: int| 0 <= j && j + 1 < t.len() implies #[trigger] cmp(t[j].0, t[j + 1].0)
        == -1 by {
        if j + 1 < i {
            assert(cmp(s[j].0, s[j + 1].0) == -1);
        } else if j + 1 == i {
            assert(cmp(s[j].0, k) == -1);
        } else if j == i {
            assert(cmp(k, s[j].0) == -1);
        } else {
            assert(cmp(s[j - 1].0, s[j].0) == -1);
        }
    }
    lemma_sorted_distinct(s, cmp);
    lemma_sorted_distinct(t, cmp);
    lemma_map_of_entries(s);
    lemma_map_of_entries(t);
    let m = map_of_entries(s).insert(k, v);
    let mt = map_of_entries(t);
    assert forall|key: K| #[trigger] mt.contains_key(key) implies m.contains_key(key) && mt[key]
        == m[key] by {
        let j = choose|j: int| 0 <= j < t.len() && (#[trigger] t[j]).0 == key;
        if j == i {
            assert(mt[key] == v);
        } else if j < i {
            assert((s[j]).0 == key);
            // key is below k in the order, so it is not k
            assert(cmp(s[j].0, k) == -1);
            assert(mt[key] == t[j].1);
        } else {
            assert((s[j - 1]).0 == key);
            assert(mt[key] == t[j].1);
            if key == k {
                assert(cmp(k, s[i].0) == -1);
                if j - 1 > i {
                    assert(cmp(s[i].0, s[j - 1].0) == -1);
                }
            }
        }
    }
    assert forall|key: K| #[trigger] m.contains_key(key) implies mt.contains_key(key) by {
        if key == k {
            assert((t[i]).0 == key);
        } else {
            let j = choose|j: int| 0 <= j < s.len() && (#[trigger] s[j]).0 == key;
            if j < i {
                assert((t[j]).0 == key);
            } else {
                assert((t[j + 1]).0 == key);
            }
        }
    }
    assert(mt =~= m);
}

/// Replacing the entry that already holds a key keeps the list sorted and
/// overwrites in the denoted map.
pub proof fn lemma_sorted_update<K, V>(
    s: Seq<(K, V)>,
    i: int,
    k: K,
    v: V,
    cmp: spec_fn(K, K) -> int,
)
    requires
        is_total_order(cmp),
        entries_sorted_by(s, cmp),
        0 <= i < s.len(),
        s[i].0 == k,
    ensures
        entries_sorted_by(s.update(i, (k, v)), cmp),
        map_of_entries(s.update(i, (k, v))) == map_of_entries(s).insert(k, v),
{
    let t = s.update(i, (k, v));
    assert(t.len() == s.len());
    assert forall|j: int| 0 <= j < t.len() implies #[trigger] t[j] == (if j == i {
        (k, v)
    } else {
        s[j]
    }) by {}
    assert forall|j: int| 0 <= j && j + 1 < t.len() implies #[trigger] cmp(t[j].0, t[j + 1].0)
        == -1 by {
        assert(cmp(s[j].0, s[j + 1].0) == -1);
        assert(t[j].0 == s[j].0 && t[j + 1].0 == s[j + 1].0);
    }
    lemma_sorted_distinct(s, cmp);
    lemma_sorted_distinct(t, cmp);
    lemma_map_of_entries(s);
    lemma_map_of_entries(t);
    let m = map_of_entries(s).insert(k, v);
    let mt = map_of_entries(t);
    assert forall|key: K| #[trigger] mt.contains_key(key) implies m.contains_key(key) && mt[key]
        == m[key] by {
        let j = choose|j: int| 0 <= j < t.len() && (#[trigger] t[j]).0 == key;
        assert((s[j]).0 == key);
        if j == i {
            assert(mt[key] == v);
        } else {
            assert(mt[key] == t[j].1);
            // two distinct positions cannot share the key k
            if key == k {
                if j < i {
                    assert(s[j].0 != s[i].0);
                } else {
                    assert(s[i].0 != s[j].0);
                }
            }
        }
    }
    assert forall|key: K| #[trigger] m.contains_key(key) implies mt.contains_key(key) by {
        if key == k {
            assert((t[i]).0 == key);
        } else {
            let j = choose|j: int| 0 <= j < s.len() && (#[trigger] s[j]).0 == key;
            assert((t[j]).0 == key);
        }
    }
    assert(mt =~= m);
}

/// The canonical representation is unique: two sorted entry lists that
/// denote the same map are the same list.
pub proof fn lemma_canonical_unique<K, V>(
    s: Seq<(K, V)>,
    t: Seq<(K, V)>,
    cmp: spec_fn(K, K) -> int,
)
    requires
        is_total_order(cmp),
        entries_sorted_by(s, cmp),
        entries_sorted_by(t, cmp),
        map_of_entries(s) == map_of_entries(t),
    ensures
        s == t,
    decreases s.len(),
{
    lemma_sorted_pairwise(s, cmp);
    lemma_sorted_pairwise(t, cmp);
    lemma_sorted_distinct(s, cmp);
    lemma_sorted_distinct(t, cmp);
    lemma_map_of_entries(s);
    lemma_map_of_entries(t);
    if s.len() == 0 {
        if t.len() > 0 {
            assert(map_of_entries(t).contains_key(t[0].0));
            assert(map_of_entries(s).contains_key(t[0].0));
            assert(false);
        }
        assert(s =~= t);
    } else if t.len() == 0 {
        assert(map_of_entries(s).contains_key(s[0].0));
        assert(map_of_entries(t).contains_key(s[0].0));
        assert(false);
    } else {
        let ks = s.last().0;
        let kt = t.last().0;
        // each list's last key occurs in the other list
        assert(map_of_entries(s).contains_key(kt));
        let i = choose|i: int| 0 <= i < s.len() && (#[trigger] s[i]).0 == kt;
        assert(map_of_entries(t).contains_key(ks));
        let j = choose|j: int| 0 <= j < t.len() && (#[trigger] t[j]).0 == ks;
        // and each last key is the maximum of its list, so they agree
        if i < s.len() - 1 && j < t.len() - 1 {
            assert(cmp(s[i].0, s[s.len() - 1].0) == -1);
            assert(cmp(t[j].0, t[t.len() - 1].0) == -1);
            assert(cmp(kt, ks) == -1 && cmp(ks, kt) == -1);
            assert(cmp(ks, kt) == -cmp(kt, ks));
            assert(false);
        }
        assert(ks == kt);
        assert(map_of_entries(s)[ks] == s.last().1);
        assert(map_of_entries(t)[ks] == t.last().1);
        assert(s.last() == t.last());
        let s0 = s.drop_last();
        let t0 = t.drop_last();
        assert forall|a: int, b: int|
            0 <= a && b == a + 1 && b < s0.len() implies #[trigger] cmp(s0[a].0, s0[b].0)
            == -1 by {
            assert(s0[a] == s[a] && s0[b] == s[b]);
        }
        assert forall|a: int, b: int|
            0 <= a && b == a + 1 && b < t0.len() implies #[trigger] cmp(t0[a].0, t0[b].0)
            == -1 by {
            assert(t0[a] == t[a] && t0[b] == t[b]);
        }
        lemma_sorted_distinct(s0, cmp);
        lemma_sorted_distinct(t0, cmp);
        lemma_map_of_entries(s0);
        lemma_map_of_entries(t0);
        // the shorter lists denote the shared map without its maximum key
        assert forall|k: K| #[trigger] map_of_entries(s0).contains_key(k) implies map_of_entries(
            t0,
        ).contains_key(k) && map_of_entries(s0)[k] == map_of_entries(t0)[k] by {
            let a = choose|a: int| 0 <= a < s0.len() && (#[trigger] s0[a]).0 == k;
            assert(s0[a] == s[a]);
            assert(k != ks);
            assert(map_of_entries(s).contains_key(k));
            assert(map_of_entries(t).contains_key(k));
            let b = choose|b: int| 0 <= b < t.len() && (#[trigger] t[b]).0 == k;
            assert(b < t.len() - 1);
            assert(t0[b] == t[b]);
            assert(map_of_entries(s0)[k] == s0[a].1);
            assert(map_of_entries(s)[k] == s[a].1);
            assert(map_of_entries(t)[k] == t[b].1);
            assert(map_of_entries(t0)[k] == t0[b].1);
        }
        assert forall|k: K| #[trigger] map_of_entries(t0).contains_key(k) implies map_of_entries(
            s0,
        ).contains_key(k) by {
            let b = choose|b: int| 0 <= b < t0.len() && (#[trigger] t0[b]).0 == k;
            assert(t0[b] == t[b]);
            assert(k != ks);
            assert(map_of_entries(t).contains_key(k));
            assert(map_of_entries(s).contains_key(k));
            let a = choose|a: int| 0 <= a < s.len() && (#[trigger] s[a]).0 == k;
            assert(a < s.len() - 1);
            assert(s0[a] == s[a]);
        }
        assert(map_of_entries(s0) =~= map_of_entries(t0));
        lemma_canonical_unique(s0, t0, cmp);
        assert forall|a: int| 0 <= a < s.len() implies s[a] == t[a] by {
            if a < s.len() - 1 {
                assert(s[a] == s0[a] && t[a] == t0[a]);
            }
        }
        assert(s =~= t);
    }
}

/// Inserts a string-keyed entry into a sorted entry vector, keeping it
/// sorted; an entry with the same key is overwritten.
pub fn insert_field(v: &mut Vec<(String, TlaValue)>, name: String, value: TlaValue)
    requires
        entries_sorted_by(model_fields(old(v)@), text_order_fn()),
    ensures
        entries_sorted_by(model_fields(final(v)@), text_order_fn()),
        map_of_entries(model_fields(final(v)@)) == map_of_entries(
            model_fields(old(v)@),
        ).insert(name@, value@),
{
    proof {
        lemma_text_order_total();
        lemma_model_fields(old(v)@);
    }
    let ghost s0 = model_fields(old(v)@);
    let mut i: usize = 0;
    while i < v.len() && str_cmp(v[i].0.as_str(), name.as_str()) == -1
        invariant
            i <= v@.len(),
            v@ == old(v)@,
            s0 == model_fields(v@),
            s0.len() == v@.len(),
            forall|j: int| 0 <= j < s0.len() ==> #[trigger] s0[j] == (v@[j].0@, v@[j].1@),
            forall|j: int| 0 <= j < i ==> lex_cmp((#[trigger] s0[j]).0, name@) == -1,
        decreases v@.len() - i,
    {
        i = i + 1;
    }
    let mut replace = false;
    if i < v.len() {
        if str_cmp(v[i].0.as_str(), name.as_str()) == 0 {
            replace = true;
        }
    }
    if replace {
        proof {
            lemma_lex_cmp_eq(s0[i as int].0, name@);
        }
        v.set(i, (name, value));
        proof {
            lemma_model_fields(v@);
            assert(model_fields(v@) =~= s0.update(i as int, (name@, value@)));
            lemma_sorted_update(s0, i as int, name@, value@, text_order_fn());
        }
    } else {
        proof {
            if i < v@.len() {
                crate::text_order::lemma_lex_cmp_range(s0[i as int].0, name@);
                lemma_lex_cmp_flip(s0[i as int].0, name@);
            }
        }
        v.insert(i, (name, value));
        proof {
            lemma_model_fields(v@);
            assert(model_fields(v@) =~= s0.insert(i as int, (name@, value@)));
            lemma_sorted_insert(s0, i as int, name@, value@, text_order_fn());
        }
    }
}

/// Inserts a value-keyed pair into a sorted pair vector, keeping it
/// sorted; a pair with the same key is overwritten.
pub fn insert_pair(v: &mut Vec<(TlaValue, TlaValue)>, key: TlaValue, value: TlaValue)
    requires
        entries_sorted_by(model_pairs(old(v)@), value_order_fn()),
    ensures
        entries_sorted_by(model_pairs(final(v)@), value_order_fn()),
        map_of_entries(model_pairs(final(v)@)) == map_of_entries(
            model_pairs(old(v)@),
        ).insert(key@, value@),
{
    proof {
        lemma_value_order_total();
        lemma_model_pairs(old(v)@);
    }
    let ghost s0 = model_pairs(old(v)@);
    let mut i: usize = 0;
    while i < v.len() && value_cmp(&v[i].0, &key) == -1
        invariant
            i <= v@.len(),
            v@ == old(v)@,
            s0 == model_pairs(v@),
            s0.len() == v@.len(),
            forall|j: int| 0 <= j < s0.len() ==> #[trigger] s0[j] == (v@[j].0@, v@[j].1@),
            forall|j: int| 0 <= j < i ==> cmp_value((#[trigger] s0[j]).0, key@) == -1,
        decreases v@.len() - i,
    {
        i = i + 1;
    }
    let mut replace = false;
    if i < v.len() {
        if value_cmp(&v[i].0, &key) == 0 {
            replace = true;
        }
    }
    if replace {
        proof {
            lemma_cmp_value_eq(s0[i as int].0, key@);
        }
        v.set(i, (key, value));
        proof {
            lemma_model_pairs(v@);
            assert(model_pairs(v@) =~= s0.update(i as int, (key@, value@)));
            lemma_sorted_update(s0, i as int, key@, value@, value_order_fn());
        }
    } else {
        proof {
            if i < v@.len() {
                crate::value_order::lemma_cmp_value_range(s0[i as int].0, key@);
                lemma_cmp_value_flip(s0[i as int].0, key@);
            }
        }
        v.insert(i, (key, value));
        proof {
            lemma_model_pairs(v@);
            assert(model_pairs(v@) =~= s0.insert(i as int, (key@, value@)));
            lemma_sorted_insert(s0, i as int, key@, value@, value_order_fn());
        }
    }
}

/// Looks a name up in a sorted entry vector.
pub fn lookup_field<'a>(v: &'a Vec<(String, TlaValue)>, name: &str) -> (r: Option<&'a TlaValue>)
    requires
        entries_sorted_by(model_fields(v@), text_order_fn()),
    ensures
        match r {
            Option::Some(value) => map_of_entries(model_fields(v@)).contains_key(name@)
                && value@ == map_of_entries(model_fields(v@))[name@],
            Option::None => !map_of_entries(model_fields(v@)).contains_key(name@),
        },
{
    proof {
        lemma_text_order_total();
        lemma_model_fields(v@);
        lemma_sorted_distinct(model_fields(v@), text_order_fn());
        lemma_map_of_entries(model_fields(v@));
    }
    let ghost s = model_fields(v@);
    let mut i: usize = 0;
    while i < v.len()
        invariant
            i <= v@.len(),
            s == model_fields(v@),
            s.len() == v@.len(),
            entries_sorted_by(s, text_order_fn()),
            forall|j: int| 0 <= j < s.len() ==> #[trigger] s[j] == (v@[j].0@, v@[j].1@),
            forall|j: int| 0 <= j < i ==> (#[trigger] s[j]).0 != name@,
        decreases v@.len() - i,
    {
        if crate::text_order::str_eq(v[i].0.as_str(), name) {
            proof {
                lemma_text_order_total();
                lemma_sorted_distinct(s, text_order_fn());
                lemma_map_of_entries(s);
                assert(s[i as int].0 == name@);
                assert(map_of_entries(s).contains_key(s[i as int].0));
                assert(map_of_entries(s)[s[i as int].0] == s[i as int].1);
            }
            return Some(&v[i].1);
        }
        i = i + 1;
    }
    proof {
        if map_of_entries(s).contains_key(name@) {
            // a binding would have to sit at some index, but the scan
            // compared every entry against the name
            let j = choose|j: int| 0 <= j < s.len() && (#[trigger] s[j]).0 == name@;
            assert(false);
        }
    }
    None
}

/// Set elements are strictly increasing between neighbours.
pub open spec fn elems_sorted(s: Seq<ValueModel>) -> bool {
    forall|i: int, j: int|
        0 <= i && j == i + 1 && j < s.len() ==> #[trigger] cmp_value(s[i], s[j]) == -1
}

/// In a sorted element list the elements are strictly increasing pairwise.
pub proof fn lemma_elems_sorted_pairwise(s: Seq<ValueModel>)
    requires
        elems_sorted(s),
    ensures
        forall|i: int, j: int| 0 <= i < j < s.len() ==> #[trigger] cmp_value(s[i], s[j]) == -1,
{
    assert forall|i: int, j: int| 0 <= i < j < s.len() implies #[trigger] cmp_value(s[i], s[j])
        == -1 by {
        lemma_elems_sorted_pair(s, i, j);
    }
}

/// Helper for `lemma_elems_sorted_pairwise`, walking from `i` to `j`.
proof fn lemma_elems_sorted_pair(s: Seq<ValueModel>, i: int, j: int)
    requires
        elems_sorted(s),
        0 <= i < j < s.len(),
    ensures
        cmp_value(s[i], s[j]) == -1,
    decreases j - i,
{
    if j == i + 1 {
        assert(cmp_value(s[i], s[j]) == -1);
    } else {
        lemma_elems_sorted_pair(s, i, j - 1);
        assert(cmp_value(s[j - 1], s[j]) == -1);
        crate::value_order::lemma_cmp_value_trans(s[i], s[j - 1], s[j]);
        crate::value_order::lemma_cmp_value_range(s[i], s[j]);
    }
}

/// Inserts a value into a sorted element vector, keeping it sorted and
/// free of duplicates; the element set gains the value.
pub fn insert_elem(v: &mut Vec<TlaValue>, x: TlaValue)
    requires
        elems_sorted(model_list(old(v)@)),
    ensures
        elems_sorted(model_list(final(v)@)),
        model_list(final(v)@).to_set() == model_list(old(v)@).to_set().insert(x@),
{
    proof {
        lemma_model_list(old(v)@);
    }
    let ghost s0 = model_list(old(v)@);
    let mut i: usize = 0;
    while i < v.len() && value_cmp(&v[i], &x) == -1
        invariant
            i <= v@.len(),
            v@ == old(v)@,
            s0 == model_list(v@),
            s0.len() == v@.len(),
            forall|j: int| 0 <= j < s0.len() ==> #[trigger] s0[j] == v@[j]@,
            forall|j: int| 0 <= j < i ==> cmp_value(#[trigger] s0[j], x@) == -1,
        decreases v@.len() - i,
    {
        i = i + 1;
    }
    let mut found = false;
    if i < v.len() {
        if value_cmp(&v[i], &x) == 0 {
            found = true;
        }
    }
    if found {
        proof {
            lemma_cmp_value_eq(s0[i as int], x@);
            assert(s0.contains(x@));
            assert(s0.to_set() =~= s0.to_set().insert(x@));
        }
    } else {
        proof {
            if i < v@.len() {
                crate::value_order::lemma_cmp_value_range(s0[i as int], x@);
                lemma_cmp_value_flip(s0[i as int], x@);
            }
        }
        v.insert(i, x);
        proof {
            lemma_model_list(v@);
            let s1 = model_list(v@);
            assert(s1 =~= s0.insert(i as int, x@));
            assert forall|a: int, b: int|
                0 <= a && b == a + 1 && b < s1.len() implies #[trigger] cmp_value(s1[a], s1[b])
                == -1 by {
                if b < i {
                    assert(cmp_value(s0[a], s0[b]) == -1);
                } else if b == i {
                    assert(cmp_value(s0[a], x@) == -1);
                } else if a == i {
                    assert(cmp_value(x@, s0[a]) == -1);
                } else {
                    assert(cmp_value(s0[a - 1], s0[a]) == -1);
                }
            }
            assert forall|m: ValueModel| #[trigger] s1.to_set().contains(m) implies s0.to_set(
            ).insert(x@).contains(m) by {
                let j = choose|j: int| 0 <= j < s1.len() && s1[j] == m;
                if j < i {
                    assert(s0[j] == m);
                } else if j > i {
                    assert(s0[j - 1] == m);
                }
            }
            assert forall|m: ValueModel|
                s0.to_set().insert(x@).contains(m) implies #[trigger] s1.to_set().contains(
                m,
            ) by {
                if m == x@ {
                    assert(s1[i as int] == m);
                } else {
                    let j = choose|j: int| 0 <= j < s0.len() && s0[j] == m;
                    if j < i {
                        assert(s1[j] == m);
                    } else {
                        assert(s1[j + 1] == m);
                    }
                }
            }
            assert(s1.to_set() =~= s0.to_set().insert(x@));
        }
    }
}

} // verus!
