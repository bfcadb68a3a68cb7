//! First-match association lists keyed by a name.
//!
//! The solver's ledger and the user's machine preferences are both small
//! maps from a name to a value. They are kept as vectors of pairs in
//! insertion order, with no key occurring twice, which makes every
//! lookup and traversal order deterministic.

use vstd::prelude::*;

verus! {

/// The value recorded for `key`: the first pair with that key, if any.
pub open spec fn assoc_get<T>(s: Seq<(String, T)>, key: Seq<char>) -> Option<T>
    decreases s.len(),
{
    if s.len() == 0 {
        None
    } else if s[0].0@ == key {
        Some(s[0].1)
    } else {
        assoc_get(s.drop_first(), key)
    }
}

/// No key occurs twice.
pub open spec fn keys_distinct<T>(s: Seq<(String, T)>) -> bool {
    forall|i: int, j: int|
        0 <= i < j < s.len() ==> (#[trigger] s[i]).0@ != (#[trigger] s[j]).0@
}

pub proof fn lemma_assoc_found<T>(s: Seq<(String, T)>, key: Seq<char>, i: int)
    requires
        0 <= i < s.len(),
        forall|j: int| 0 <= j < i ==> (#[trigger] s[j]).0@ != key,
        s[i].0@ == key,
    ensures
        assoc_get(s, key) == Some(s[i].1),
    decreases i,
{
    if i > 0 {
        lemma_assoc_found(s.drop_first(), key, i - 1);
    }
}

pub proof fn lemma_assoc_absent<T>(s: Seq<(String, T)>, key: Seq<char>)
    requires
        forall|j: int| 0 <= j < s.len() ==> (#[trigger] s[j]).0@ != key,
    ensures
        assoc_get(s, key) == None::<T>,
    decreases s.len(),
{
    if s.len() > 0 {
        lemma_assoc_absent(s.drop_first(), key);
    }
}

/// A lookup that succeeds does so at some index.
pub proof fn lemma_assoc_some_index<T>(s: Seq<(String, T)>, key: Seq<char>) -> (i: int)
    requires
        assoc_get(s, key) is Some,
    ensures
        0 <= i < s.len(),
        s[i].0@ == key,
        assoc_get(s, key) == Some(s[i].1),
    decreases s.len(),
{
    if s[0].0@ == key {
        0
    } else {
        let j = lemma_assoc_some_index(s.drop_first(), key);
        j + 1
    }
}

/// Replacing the value at index `i` changes exactly the binding of that
/// pair's key.
pub proof fn lemma_assoc_update<T>(s: Seq<(String, T)>, i: int, val: T)
    requires
        0 <= i < s.len(),
        keys_distinct(s),
    ensures
        keys_distinct(s.update(i, (s[i].0, val))),
        assoc_get(s.update(i, (s[i].0, val)), s[i].0@) == Some(val),
        forall|k: Seq<char>|
            k != s[i].0@ ==> assoc_get(s.update(i, (s[i].0, val)), k) == assoc_get(s, k),
    decreases i,
{
    let t = s.update(i, (s[i].0, val));
    assert(keys_distinct(t)) by {
        assert(forall|a: int| 0 <= a < s.len() && a != i ==> (#[trigger] t[a]).0@ == s[a].0@);
        assert(t[i].0@ == s[i].0@);
    }
    if i == 0 {
        assert(t.drop_first() =~= s.drop_first());
        assert forall|k: Seq<char>| k != s[i].0@ implies assoc_get(t, k) == assoc_get(s, k) by {
            assert(t[0].0@ == s[0].0@);
            assert(assoc_get(t, k) == assoc_get(t.drop_first(), k));
            assert(assoc_get(s, k) == assoc_get(s.drop_first(), k));
        }
    } else {
        assert(t[0] == s[0]);
        assert(t.drop_first() =~= s.drop_first().update(i - 1, (s[i].0, val)));
        assert(s.drop_first()[i - 1] == s[i]);
        lemma_assoc_update(s.drop_first(), i - 1, val);
        assert(assoc_get(t, s[i].0@) == assoc_get(t.drop_first(), s[i].0@));
        assert forall|k: Seq<char>| k != s[i].0@ implies assoc_get(t, k) == assoc_get(s, k) by {
            if s[0].0@ == k {
                assert(assoc_get(t, k) == Some(t[0].1));
                assert(assoc_get(s, k) == Some(s[0].1));
            } else {
                assert(assoc_get(t, k) == assoc_get(t.drop_first(), k));
                assert(assoc_get(s, k) == assoc_get(s.drop_first(), k));
            }
        }
    }
}

/// Appending a pair with a fresh key adds exactly that binding.
pub proof fn lemma_assoc_push<T>(s: Seq<(String, T)>, key: String, val: T)
    requires
        forall|j: int| 0 <= j < s.len() ==> (#[trigger] s[j]).0@ != key@,
    ensures
        keys_distinct(s) ==> keys_distinct(s.push((key, val))),
        assoc_get(s.push((key, val)), key@) == Some(val),
        forall|k: Seq<char>| k != key@ ==> assoc_get(s.push((key, val)), k) == assoc_get(s, k),
    decreases s.len(),
{
    let t = s.push((key, val));
    if s.len() == 0 {
        assert(t[0] == (key, val));
        assert(t.drop_first() =~= Seq::<(String, T)>::empty());
        assert forall|k: Seq<char>| k != key@ implies assoc_get(t, k) == assoc_get(s, k) by {
            assert(assoc_get(t, k) == assoc_get(t.drop_first(), k));
        }
    } else {
        assert(t[0] == s[0]);
        assert(t.drop_first() =~= s.drop_first().push((key, val)));
        lemma_assoc_push(s.drop_first(), key, val);
        assert(assoc_get(t, key@) == assoc_get(t.drop_first(), key@));
        assert forall|k: Seq<char>| k != key@ implies assoc_get(t, k) == assoc_get(s, k) by {
            if s[0].0@ == k {
                assert(assoc_get(t, k) == Some(t[0].1));
            } else {
                assert(assoc_get(t, k) == assoc_get(t.drop_first(), k));
                assert(assoc_get(s, k) == assoc_get(s.drop_first(), k));
            }
        }
    }
}

/// Some pair carries this key.
pub open spec fn lists_key<T>(s: Seq<(String, T)>, key: Seq<char>) -> bool {
    exists|k: int| 0 <= k < s.len() && (#[trigger] s[k]).0@ == key
}

/// Membership test on the keys of a pair list.
pub fn keys_contain<T>(v: &Vec<(String, T)>, key: &String) -> (r: bool)
    ensures
        r == lists_key(v@, key@),
{
    let n = v.len();
    let mut i: usize = 0;
    while i < n
        invariant
            n == v@.len(),
            0 <= i <= n,
            forall|j: int| 0 <= j < i ==> (#[trigger] v@[j]).0@ != key@,
        decreases n - i,
    {
        if v[i].0 == *key {
            return true;
        }
        i += 1;
    }
    false
}

/// Looks `key` up, returning a reference to the first matching value.
pub fn assoc_find<'a, T>(v: &'a Vec<(String, T)>, key: &String) -> (r: Option<&'a T>)
    ensures
        match r {
            Some(t) => assoc_get(v@, key@) == Some(*t),
            None => assoc_get(v@, key@) is None,
        },
{
    let n = v.len();
    let mut i: usize = 0;
    while i < n
        invariant
            n == v@.len(),
            0 <= i <= n,
            forall|j: int| 0 <= j < i ==> (#[trigger] v@[j]).0@ != key@,
        decreases n - i,
    {
        if v[i].0 == *key {
            proof {
                lemma_assoc_found(v@, key@, i as int);
            }
            return Some(&v[i].1);
        }
        i += 1;
    }
    proof {
        lemma_assoc_absent(v@, key@);
    }
    None
}

/// Binds `key` to `val`, replacing an existing binding or appending a
/// new one; all other bindings are untouched.
pub fn assoc_put<T>(v: &mut Vec<(String, T)>, key: &String, val: T)
    requires
        keys_distinct(old(v)@),
    ensures
        keys_distinct(final(v)@),
        assoc_get(final(v)@, key@) == Some(val),
        forall|k: Seq<char>| k != key@ ==> assoc_get(final(v)@, k) == assoc_get(old(v)@, k),
{
    let n = v.len();
    let mut i: usize = 0;
    while i < n
        invariant
            n == v@.len(),
            0 <= i <= n,
            v@ == old(v)@,
            keys_distinct(v@),
            forall|j: int| 0 <= j < i ==> (#[trigger] v@[j]).0@ != key@,
        decreases n - i,
    {
        if v[i].0 == *key {
            proof {
                lemma_assoc_update(v@, i as int, val);
            }
            v[i].1 = val;
            return;
        }
        i += 1;
    }
    proof {
        lemma_assoc_push(v@, *key, val);
    }
    v.push((key.clone(), val));
}

} // verus!
