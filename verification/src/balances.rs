use vstd::prelude::*;
use vstd::string::*;
use crate::analysis::named_entry;
use crate::representations::str_equals;
use crate::text::{lemma_str_lt_irreflexive, lemma_str_lt_total, lemma_str_lt_transitive, str_lt, string_lt, views};

verus! {

broadcast use vstd::std_specs::vec::group_vec_axioms;

/// Whether the keys of `s` increase strictly in the order of `String`: what a `BTreeMap`
/// walks.
pub open spec fn keys_sorted<V>(s: Seq<(String, V)>) -> bool {
    forall|i: int, j: int| 0 <= i < j < s.len() ==> str_lt(#[trigger] s[i].0@, #[trigger] s[j].0@)
}

/// Whether the strings of `s` increase strictly: what a `BTreeSet` walks.
pub open spec fn strings_sorted(s: Seq<String>) -> bool {
    forall|i: int, j: int| 0 <= i < j < s.len() ==> str_lt(#[trigger] s[i]@, #[trigger] s[j]@)
}

/// The keys of `s`.
pub open spec fn keys_of<V>(s: Seq<(String, V)>) -> Seq<Seq<char>> {
    s.map_values(|e: (String, V)| e.0@)
}

/// Where `key` stands in a sorted `s`: the number of keys before it, and whether it is
/// there.
pub fn find_slot<V>(s: &Vec<(String, V)>, key: &str) -> (r: (usize, bool))
    requires
        keys_sorted(s@),
    ensures
        r.0 <= s@.len(),
        forall|k: int| 0 <= k < r.0 ==> str_lt(#[trigger] s@[k].0@, key@),
        r.1 == (r.0 < s@.len() && s@[r.0 as int].0@ == key@),
        !r.1 ==> forall|k: int| r.0 <= k < s@.len() ==> str_lt(key@, #[trigger] s@[k].0@),
        r.1 <==> named_entry(s@, key@) is Some,
        r.1 ==> named_entry(s@, key@) == Some(s@[r.0 as int].1),
{
    let mut i: usize = 0;
    while i < s.len() && string_lt(s[i].0.as_str(), key)
        invariant
            i <= s@.len(),
            keys_sorted(s@),
            forall|k: int| 0 <= k < i ==> str_lt(#[trigger] s@[k].0@, key@),
        decreases s.len() - i,
    {
        i = i + 1;
    }
    let found = i < s.len() && str_equals(s[i].0.as_str(), key);
    proof {
        if i < s@.len() && !found {
            lemma_str_lt_total(s@[i as int].0@, key@);
            assert forall|k: int| i <= k < s@.len() implies str_lt(key@, #[trigger] s@[k].0@) by {
                if k > i {
                    lemma_str_lt_transitive(key@, s@[i as int].0@, s@[k].0@);
                }
            }
        }
        lemma_named_entry_sorted(s@, key@, i as int);
    }
    (i, found)
}

/// In a sorted sequence, the entry of `key` is at the slot where it would stand.
proof fn lemma_named_entry_sorted<V>(s: Seq<(String, V)>, key: Seq<char>, i: int)
    requires
        0 <= i <= s.len(),
        forall|k: int| 0 <= k < i ==> str_lt(#[trigger] s[k].0@, key),
        i < s.len() && s[i].0@ != key ==> forall|k: int| i <= k < s.len() ==> str_lt(key, #[trigger] s[k].0@),
    ensures
        (i < s.len() && s[i].0@ == key) ==> named_entry(s, key) == Some(s[i].1),
        !(i < s.len() && s[i].0@ == key) ==> named_entry(s, key) is None,
    decreases s.len(),
{
    if s.len() > 0 {
        if i > 0 {
            assert(str_lt(s[0].0@, key));
            lemma_str_lt_irreflexive(key);
            assert forall|k: int| 0 <= k < i - 1 implies str_lt(#[trigger] s.drop_first()[k].0@, key) by {
                assert(s.drop_first()[k] == s[k + 1]);
            }
            assert forall|k: int| i - 1 <= k < s.drop_first().len() && !(i - 1 < s.drop_first().len()
                && s.drop_first()[i - 1].0@ == key) implies str_lt(key, #[trigger] s.drop_first()[k].0@) by {
                assert(s.drop_first()[k] == s[k + 1]);
                assert(s.drop_first()[i - 1] == s[i]);
            }
            lemma_named_entry_sorted(s.drop_first(), key, i - 1);
            if i < s.len() {
                assert(s.drop_first()[i - 1] == s[i]);
            }
        } else if s[0].0@ != key {
            lemma_str_lt_irreflexive(key);
            assert forall|k: int| 0 <= k < s.drop_first().len() implies str_lt(key, #[trigger] s.drop_first()[k].0@) by {
                assert(s.drop_first()[k] == s[k + 1]);
            }
            assert(forall|k: int| 0 <= k < s.drop_first().len() ==> #[trigger] s.drop_first()[k].0@ != key) by {
                assert forall|k: int| 0 <= k < s.drop_first().len() implies #[trigger] s.drop_first()[k].0@ != key by {
                    assert(str_lt(key, s.drop_first()[k].0@));
                }
            }
            lemma_named_entry_absent(s.drop_first(), key);
        }
    }
}

proof fn lemma_named_entry_absent<V>(s: Seq<(String, V)>, key: Seq<char>)
    requires
        forall|k: int| 0 <= k < s.len() ==> #[trigger] s[k].0@ != key,
    ensures
        named_entry(s, key) is None,
    decreases s.len(),
{
    if s.len() > 0 {
        assert forall|k: int| 0 <= k < s.drop_first().len() implies #[trigger] s.drop_first()[k].0@ != key by {
            assert(s.drop_first()[k] == s[k + 1]);
        }
        lemma_named_entry_absent(s.drop_first(), key);
    }
}

/// The value of `key` in `s` after writing `v` for it at its slot.
proof fn lemma_named_entry_after_write<V>(s: Seq<(String, V)>, t: Seq<(String, V)>, key: Seq<char>, other: Seq<char>, i: int, v: V)
    requires
        keys_sorted(t),
        0 <= i < t.len(),
        t[i].0@ == key,
        t[i].1 == v,
        forall|k: int| 0 <= k < t.len() && k != i ==> exists|j: int| 0 <= j < s.len() && #[trigger] t[k] == s[j],
        forall|j: int| 0 <= j < s.len() && s[j].0@ != key ==> exists|k: int| 0 <= k < t.len() && t[k] == #[trigger] s[j],
        keys_sorted(s),
    ensures
        named_entry(t, key) == Some(v),
        other != key ==> named_entry(t, other) == named_entry(s, other),
{
    lemma_unique_entry(t, key, i);
    if other != key {
        match named_entry(s, other) {
            Some(x) => {
                let j = lemma_entry_index(s, other);
                let k = choose|k: int| 0 <= k < t.len() && t[k] == s[j];
                lemma_unique_entry(t, other, k);
            },
            None => {
                assert forall|k: int| 0 <= k < t.len() implies #[trigger] t[k].0@ != other by {
                    if k != i && t[k].0@ == other {
                        let j = choose|j: int| 0 <= j < s.len() && t[k] == s[j];
                        lemma_unique_entry(s, other, j);
                    }
                }
                lemma_named_entry_absent(t, other);
            },
        }
    }
}

/// In a sorted sequence, the entry of `key` is its only entry.
proof fn lemma_unique_entry<V>(s: Seq<(String, V)>, key: Seq<char>, i: int)
    requires
        keys_sorted(s),
        0 <= i < s.len(),
        s[i].0@ == key,
    ensures
        named_entry(s, key) == Some(s[i].1),
{
    assert forall|k: int| 0 <= k < i implies str_lt(#[trigger] s[k].0@, key) by {}
    lemma_named_entry_sorted(s, key, i);
}

/// The position of the entry that `named_entry` finds.
proof fn lemma_entry_index<V>(s: Seq<(String, V)>, key: Seq<char>) -> (j: int)
    requires
        named_entry(s, key) is Some,
    ensures
        0 <= j < s.len(),
        s[j].0@ == key,
        named_entry(s, key) == Some(s[j].1),
    decreases s.len(),
{
    if s[0].0@ == key {
        0
    } else {
        let j = lemma_entry_index(s.drop_first(), key);
        assert(s.drop_first()[j] == s[j + 1]);
        j + 1
    }
}

/// Inserts `key` into a sorted set of strings.
#[verifier::spinoff_prover]
pub fn insert_string(s: &mut Vec<String>, key: &str)
    requires
        strings_sorted(old(s)@),
    ensures
        strings_sorted(final(s)@),
        views(final(s)@).to_set() == views(old(s)@).to_set().insert(key@),
{
    let mut i: usize = 0;
    while i < s.len() && string_lt(s[i].as_str(), key)
        invariant
            i <= s@.len(),
            strings_sorted(s@),
            s@ == old(s)@,
            forall|k: int| 0 <= k < i ==> str_lt(#[trigger] s@[k]@, key@),
        decreases s.len() - i,
    {
        i = i + 1;
    }
    if i < s.len() && str_equals(s[i].as_str(), key) {
        proof {
            assert(views(s@).to_set().insert(key@) =~= views(s@).to_set()) by {
                assert(views(s@)[i as int] == key@);
            }
        }
        return;
    }
    proof {
        if i < s@.len() {
            lemma_str_lt_total(s@[i as int]@, key@);
        }
    }
    let ghost before = s@;
    s.insert(i, String::from_str(key));
    proof {
        assert forall|a: int, b: int| 0 <= a < b < s@.len() implies str_lt(#[trigger] s@[a]@, #[trigger] s@[b]@) by {
            if a < i && b < i {
                assert(s@[a] == before[a] && s@[b] == before[b]);
            } else if a < i && b == i {
            } else if a < i {
                assert(s@[a] == before[a] && s@[b] == before[b - 1]);
                assert(str_lt(before[a]@, key@));
                if b - 1 > i {
                    lemma_str_lt_transitive(key@, before[i as int]@, before[b - 1]@);
                }
                lemma_str_lt_transitive(before[a]@, key@, before[b - 1]@);
            } else if a == i {
                assert(s@[b] == before[b - 1]);
                if b - 1 > i {
                    lemma_str_lt_transitive(key@, before[i as int]@, before[b - 1]@);
                }
            } else {
                assert(s@[a] == before[a - 1] && s@[b] == before[b - 1]);
            }
        }
        assert(views(s@).to_set() =~= views(before).to_set().insert(key@)) by {
            assert forall|x: Seq<char>| views(s@).to_set().contains(x) implies views(before).to_set().insert(key@).contains(x) by {
                let k = choose|k: int| 0 <= k < views(s@).len() && views(s@)[k] == x;
                if k < i {
                    assert(views(before)[k] == x);
                } else if k > i {
                    assert(views(before)[k - 1] == x);
                }
            }
            assert forall|x: Seq<char>| views(before).to_set().insert(key@).contains(x) implies views(s@).to_set().contains(x) by {
                if x == key@ {
                    assert(views(s@)[i as int] == x);
                } else {
                    let k = choose|k: int| 0 <= k < views(before).len() && views(before)[k] == x;
                    if k < i {
                        assert(views(s@)[k] == x);
                    } else {
                        assert(views(s@)[k + 1] == x);
                    }
                }
            }
        }
    }
}

/// Writing over the entry at `i`, whose key is `key`, keeps the keys sorted and changes
/// only what `key` finds.
proof fn lemma_write_in_place<V>(before: Seq<(String, V)>, t: Seq<(String, V)>, key: Seq<char>, i: int, value: V)
    requires
        keys_sorted(before),
        0 <= i < before.len(),
        before[i].0@ == key,
        t.len() == before.len(),
        t[i].0@ == key,
        t[i].1 == value,
        forall|k: int| 0 <= k < t.len() && k != i ==> #[trigger] t[k] == before[k],
    ensures
        keys_sorted(t),
        named_entry(t, key) == Some(value),
        forall|other: Seq<char>| other != key ==> named_entry(t, other) == named_entry(before, other),
        keys_of(t).to_set() == keys_of(before).to_set().insert(key),
{
    assert forall|a: int, b: int| 0 <= a < b < t.len() implies str_lt(#[trigger] t[a].0@, #[trigger] t[b].0@) by {
        assert(str_lt(before[a].0@, before[b].0@));
        if a != i {
            assert(t[a] == before[a]);
        }
        if b != i {
            assert(t[b] == before[b]);
        }
    }
    assert forall|k: int| 0 <= k < t.len() && k != i implies exists|j: int| 0 <= j < before.len() && #[trigger] t[k] == before[j] by {
        assert(t[k] == before[k]);
    }
    assert forall|j: int| 0 <= j < before.len() && before[j].0@ != key implies exists|k: int| 0 <= k < t.len() && t[k] == #[trigger] before[j] by {
        assert(t[j] == before[j]);
    }
    assert(keys_of(t) =~= keys_of(before)) by {
        assert forall|k: int| 0 <= k < t.len() implies keys_of(t)[k] == keys_of(before)[k] by {
            if k != i {
                assert(t[k] == before[k]);
            }
        }
    }
    assert(keys_of(before)[i] == key);
    assert(keys_of(t).to_set() =~= keys_of(before).to_set().insert(key));
    assert forall|other: Seq<char>| other != key implies named_entry(t, other) == named_entry(before, other) by {
        lemma_named_entry_after_write(before, t, key, other, i, value);
    }
    lemma_named_entry_after_write(before, t, key, key, i, value);
}

#[verifier::spinoff_prover]
proof fn lemma_insert_sorted<V>(before: Seq<(String, V)>, t: Seq<(String, V)>, key: Seq<char>, i: int, value: V)
    requires
        keys_sorted(before),
        0 <= i <= before.len(),
        forall|k: int| 0 <= k < i ==> str_lt(#[trigger] before[k].0@, key),
        forall|k: int| i <= k < before.len() ==> str_lt(key, #[trigger] before[k].0@),
        t.len() == before.len() + 1,
        t[i].0@ == key,
        t[i].1 == value,
        forall|k: int| 0 <= k < i ==> #[trigger] t[k] == before[k],
        forall|k: int| i < k < t.len() ==> #[trigger] t[k] == before[k - 1],
    ensures
        keys_sorted(t),
{
    assert forall|a: int, b: int| 0 <= a < b < t.len() implies str_lt(#[trigger] t[a].0@, #[trigger] t[b].0@) by {
        if a < i && b < i {
            assert(t[a] == before[a] && t[b] == before[b]);
        } else if a < i && b == i {
            assert(t[a] == before[a]);
        } else if a < i {
            assert(t[a] == before[a] && t[b] == before[b - 1]);
            lemma_str_lt_transitive(before[a].0@, key, before[b - 1].0@);
        } else if a == i {
            assert(t[b] == before[b - 1]);
        } else {
            assert(t[a] == before[a - 1] && t[b] == before[b - 1]);
        }
    }
}

#[verifier::spinoff_prover]
proof fn lemma_insert_keys<V>(before: Seq<(String, V)>, t: Seq<(String, V)>, key: Seq<char>, i: int, value: V)
    requires
        keys_sorted(before),
        0 <= i <= before.len(),
        forall|k: int| 0 <= k < i ==> str_lt(#[trigger] before[k].0@, key),
        forall|k: int| i <= k < before.len() ==> str_lt(key, #[trigger] before[k].0@),
        t.len() == before.len() + 1,
        t[i].0@ == key,
        t[i].1 == value,
        forall|k: int| 0 <= k < i ==> #[trigger] t[k] == before[k],
        forall|k: int| i < k < t.len() ==> #[trigger] t[k] == before[k - 1],
    ensures
        keys_of(t).to_set() == keys_of(before).to_set().insert(key),
{
    assert forall|x: Seq<char>| keys_of(t).to_set().contains(x) implies keys_of(before).to_set().insert(key).contains(x) by {
        let k = choose|k: int| 0 <= k < keys_of(t).len() && keys_of(t)[k] == x;
        if k < i {
            assert(t[k] == before[k]);
            assert(keys_of(before)[k] == x);
        } else if k > i {
            assert(t[k] == before[k - 1]);
            assert(keys_of(before)[k - 1] == x);
        }
    }
    assert forall|x: Seq<char>| keys_of(before).to_set().insert(key).contains(x) implies keys_of(t).to_set().contains(x) by {
        if x == key {
            assert(keys_of(t)[i] == x);
        } else {
            let k = choose|k: int| 0 <= k < keys_of(before).len() && keys_of(before)[k] == x;
            if k < i {
                assert(t[k] == before[k]);
                assert(keys_of(t)[k] == x);
            } else {
                assert(t[k + 1] == before[k]);
                assert(keys_of(t)[k + 1] == x);
            }
        }
    }
    assert(keys_of(t).to_set() =~= keys_of(before).to_set().insert(key));
}

/// Inserting an entry of `key` at its slot `i` keeps the keys sorted and changes only what
/// `key` finds.
#[verifier::spinoff_prover]
proof fn lemma_write_insert<V>(before: Seq<(String, V)>, t: Seq<(String, V)>, key: Seq<char>, i: int, value: V)
    requires
        keys_sorted(before),
        0 <= i <= before.len(),
        forall|k: int| 0 <= k < i ==> str_lt(#[trigger] before[k].0@, key),
        forall|k: int| i <= k < before.len() ==> str_lt(key, #[trigger] before[k].0@),
        t.len() == before.len() + 1,
        t[i].0@ == key,
        t[i].1 == value,
        forall|k: int| 0 <= k < i ==> #[trigger] t[k] == before[k],
        forall|k: int| i < k < t.len() ==> #[trigger] t[k] == before[k - 1],
    ensures
        keys_sorted(t),
        named_entry(t, key) == Some(value),
        forall|other: Seq<char>| other != key ==> named_entry(t, other) == named_entry(before, other),
        keys_of(t).to_set() == keys_of(before).to_set().insert(key),
{
    lemma_insert_sorted(before, t, key, i, value);
    lemma_insert_keys(before, t, key, i, value);
    assert forall|k: int| 0 <= k < t.len() && k != i implies exists|j: int| 0 <= j < before.len() && #[trigger] t[k] == before[j] by {
        if k < i {
            assert(t[k] == before[k]);
        } else {
            assert(t[k] == before[k - 1]);
        }
    }
    assert forall|j: int| 0 <= j < before.len() && before[j].0@ != key implies exists|k: int| 0 <= k < t.len() && t[k] == #[trigger] before[j] by {
        if j < i {
            assert(t[j] == before[j]);
        } else {
            assert(t[j + 1] == before[j]);
        }
    }
    assert forall|other: Seq<char>| other != key implies named_entry(t, other) == named_entry(before, other) by {
        lemma_named_entry_after_write(before, t, key, other, i, value);
    }
    lemma_named_entry_after_write(before, t, key, key, i, value);
}

/// Writes `value` for `key` in a sorted keyed sequence: in place where the key is there,
/// in its slot where it is not.
pub fn write_entry<V>(s: &mut Vec<(String, V)>, key: &str, value: V)
    requires
        keys_sorted(old(s)@),
    ensures
        keys_sorted(final(s)@),
        named_entry(final(s)@, key@) == Some(value),
        forall|other: Seq<char>| other != key@ ==> named_entry(final(s)@, other) == named_entry(old(s)@, other),
        keys_of(final(s)@).to_set() == keys_of(old(s)@).to_set().insert(key@),
{
    let (i, found) = find_slot(s, key);
    let ghost before = s@;
    let ghost v = value;
    if found {
        let mut entry = (String::from_str(key), value);
        let _old_entry = s.set_and_swap(i, &mut entry);
        proof {
            lemma_write_in_place(before, s@, key@, i as int, v);
        }
    } else {
        s.insert(i, (String::from_str(key), value));
        proof {
            lemma_write_insert(before, s@, key@, i as int, v);
        }
    }
}

/// The position of an entry whose key is `key`, where `named_entry` finds one: `hint`,
/// where that is such a position.
pub proof fn lemma_entry_index_pub<V>(s: Seq<(String, V)>, key: Seq<char>, hint: int) -> (j: int)
    requires
        keys_sorted(s),
        (0 <= hint < s.len() && s[hint].0@ == key) || named_entry(s, key) is Some,
    ensures
        0 <= j < s.len(),
        s[j].0@ == key,
        named_entry(s, key) == Some(s[j].1),
        0 <= hint < s.len() && s[hint].0@ == key ==> j == hint,
{
    if 0 <= hint < s.len() && s[hint].0@ == key {
        lemma_unique_entry(s, key, hint);
        hint
    } else {
        lemma_entry_index(s, key)
    }
}

/// A copy with the same keys and values finds the same entries.
pub proof fn lemma_copy_keyed(r: Seq<(String, Vec<(String, u128)>)>, s: Seq<(String, Vec<(String, u128)>)>)
    requires
        keys_sorted(s),
        forall|k: int| 0 <= k < s.len() ==> keys_sorted((#[trigger] s[k]).1@),
        r.len() == s.len(),
        forall|k: int| 0 <= k < r.len() ==> (#[trigger] r[k]).0@ == s[k].0@ && r[k].1@.len() == s[k].1@.len() && forall|j: int|
            0 <= j < r[k].1@.len() ==> (#[trigger] r[k].1@[j]).0@ == s[k].1@[j].0@ && r[k].1@[j].1 == s[k].1@[j].1,
    ensures
        keys_sorted(r),
        keys_of(r).to_set() == keys_of(s).to_set(),
        forall|t: Seq<char>, a: Seq<char>|
            #![trigger named_entry(named_entry(r, t)->0@, a)]
            named_entry(r, t) is Some ==> named_entry(s, t) is Some && keys_sorted(named_entry(r, t)->0@) && named_entry(
                named_entry(r, t)->0@,
                a,
            ) == named_entry(named_entry(s, t)->0@, a),
        forall|t: Seq<char>| named_entry(r, t) is Some <==> #[trigger] named_entry(s, t) is Some,
        forall|t: Seq<char>| #[trigger] named_entry(r, t) is Some ==> keys_sorted(named_entry(r, t)->0@),
{
    assert forall|a: int, b: int| 0 <= a < b < r.len() implies str_lt(#[trigger] r[a].0@, #[trigger] r[b].0@) by {
        assert(r[a].0@ == s[a].0@ && r[b].0@ == s[b].0@);
    }
    assert(keys_of(r) =~= keys_of(s));
    assert forall|t: Seq<char>| named_entry(r, t) is Some <==> #[trigger] named_entry(s, t) is Some by {
        if named_entry(r, t) is Some {
            let j = lemma_entry_index(r, t);
            lemma_unique_entry(s, t, j);
        }
        if named_entry(s, t) is Some {
            let j = lemma_entry_index(s, t);
            lemma_unique_entry(r, t, j);
        }
    }
    assert forall|t: Seq<char>| #[trigger] named_entry(r, t) is Some implies keys_sorted(named_entry(r, t)->0@) by {
        let j = lemma_entry_index(r, t);
        lemma_unique_entry(s, t, j);
        let rb = r[j].1@;
        let sb = s[j].1@;
        assert forall|x: int, y: int| 0 <= x < y < rb.len() implies str_lt(#[trigger] rb[x].0@, #[trigger] rb[y].0@) by {
            assert(rb[x].0@ == sb[x].0@ && rb[y].0@ == sb[y].0@);
        }
    }
    assert forall|t: Seq<char>, a: Seq<char>|
        #![trigger named_entry(named_entry(r, t)->0@, a)]
        named_entry(r, t) is Some implies named_entry(s, t) is Some && keys_sorted(named_entry(r, t)->0@) && named_entry(
            named_entry(r, t)->0@,
            a,
        ) == named_entry(named_entry(s, t)->0@, a) by {
        let j = lemma_entry_index(r, t);
        lemma_unique_entry(s, t, j);
        let rb = r[j].1@;
        let sb = s[j].1@;
        assert forall|x: int, y: int| 0 <= x < y < rb.len() implies str_lt(#[trigger] rb[x].0@, #[trigger] rb[y].0@) by {
            assert(rb[x].0@ == sb[x].0@ && rb[y].0@ == sb[y].0@);
        }
        lemma_same_entries(rb, sb, a);
    }
}

proof fn lemma_same_entries(a: Seq<(String, u128)>, b: Seq<(String, u128)>, key: Seq<char>)
    requires
        a.len() == b.len(),
        forall|i: int| 0 <= i < a.len() ==> (#[trigger] a[i]).0@ == b[i].0@ && a[i].1 == b[i].1,
    ensures
        named_entry(a, key) == named_entry(b, key),
    decreases a.len(),
{
    if a.len() > 0 {
        assert forall|i: int| 0 <= i < a.drop_first().len() implies (#[trigger] a.drop_first()[i]).0@ == b.drop_first()[i].0@
            && a.drop_first()[i].1 == b.drop_first()[i].1 by {
            assert(a.drop_first()[i] == a[i + 1]);
            assert(b.drop_first()[i] == b[i + 1]);
        }
        lemma_same_entries(a.drop_first(), b.drop_first(), key);
    }
}

} // verus!
