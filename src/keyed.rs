//! Association lists keyed by strings: the first entry with a key is the one
//! that counts.
use vstd::prelude::*;

verus! {

/// The value of the first entry whose key is `key`.
pub open spec fn lookup<V>(s: Seq<(String, V)>, key: Seq<char>) -> Option<V>
    decreases s.len(),
{
    if s.len() == 0 {
        None
    } else if s[0].0@ == key {
        Some(s[0].1)
    } else {
        lookup(s.subrange(1, s.len() as int), key)
    }
}

/// No key occurs twice.
pub open spec fn keys_distinct<V>(s: Seq<(String, V)>) -> bool {
    forall|i: int, j: int| 0 <= i < s.len() && 0 <= j < s.len() && i != j ==> s[i].0@ != s[j].0@
}

/// Some entry has key `key`.
pub open spec fn has_key<V>(s: Seq<(String, V)>, key: Seq<char>) -> bool {
    exists|i: int| 0 <= i < s.len() && s[i].0@ == key
}

/// The first entry with a key is the one that `lookup` finds.
pub proof fn lemma_lookup_at<V>(s: Seq<(String, V)>, key: Seq<char>, i: int)
    requires
        0 <= i < s.len(),
        s[i].0@ == key,
        forall|k: int| 0 <= k < i ==> s[k].0@ != key,
    ensures
        lookup(s, key) == Some(s[i].1),
    decreases i,
{
    if i > 0 {
        let t = s.subrange(1, s.len() as int);
        assert forall|k: int| 0 <= k < i - 1 implies t[k].0@ != key by {
            assert(t[k] == s[k + 1]);
        }
        lemma_lookup_at(t, key, i - 1);
    }
}

/// Without an entry for `key`, `lookup` finds nothing.
pub proof fn lemma_lookup_absent<V>(s: Seq<(String, V)>, key: Seq<char>)
    requires
        forall|k: int| 0 <= k < s.len() ==> s[k].0@ != key,
    ensures
        lookup(s, key) == None::<V>,
    decreases s.len(),
{
    if s.len() > 0 {
        let t = s.subrange(1, s.len() as int);
        assert forall|k: int| 0 <= k < t.len() implies t[k].0@ != key by {
            assert(t[k] == s[k + 1]);
        }
        lemma_lookup_absent(t, key);
    }
}

/// `lookup` finds an entry exactly where some entry has the key.
pub proof fn lemma_lookup_some<V>(s: Seq<(String, V)>, key: Seq<char>)
    ensures
        lookup(s, key) is Some <==> has_key(s, key),
{
    if has_key(s, key) {
        let i = choose|i: int| 0 <= i < s.len() && s[i].0@ == key;
        lemma_first_key(s, key, i);
    } else {
        lemma_lookup_absent(s, key);
    }
}

proof fn lemma_first_key<V>(s: Seq<(String, V)>, key: Seq<char>, i: int)
    requires
        0 <= i < s.len(),
        s[i].0@ == key,
    ensures
        lookup(s, key) is Some,
    decreases i,
{
    if exists|k: int| 0 <= k < i && s[k].0@ == key {
        let k = choose|k: int| 0 <= k < i && s[k].0@ == key;
        lemma_first_key(s, key, k);
    } else {
        lemma_lookup_at(s, key, i);
    }
}

/// The index of the first entry whose key is `key`.
pub fn find_key<V>(entries: &Vec<(String, V)>, key: &String) -> (r: Option<usize>)
    ensures
        match r {
            Some(i) => i < entries@.len() && entries@[i as int].0@ == key@ && lookup(
                entries@,
                key@,
            ) == Some(entries@[i as int].1),
            None => lookup(entries@, key@) == None::<V> && !has_key(entries@, key@),
        },
{
    let mut i: usize = 0;
    while i < entries.len()
        invariant
            i <= entries@.len(),
            forall|k: int| 0 <= k < i ==> entries@[k].0@ != key@,
        decreases entries@.len() - i,
    {
        if entries[i].0 == *key {
            proof {
                lemma_lookup_at(entries@, key@, i as int);
            }
            return Some(i);
        }
        i = i + 1;
    }
    proof {
        lemma_lookup_absent(entries@, key@);
    }
    None
}

/// What `lookup` finds is the value of some entry with that key.
pub proof fn lemma_lookup_member<V>(s: Seq<(String, V)>, key: Seq<char>)
    requires
        lookup(s, key) is Some,
    ensures
        exists|i: int| 0 <= i < s.len() && s[i].0@ == key && s[i].1 == lookup(s, key).unwrap(),
    decreases s.len(),
{
    if s[0].0@ != key {
        let t = s.subrange(1, s.len() as int);
        lemma_lookup_member(t, key);
        let j = choose|j: int| 0 <= j < t.len() && t[j].0@ == key && t[j].1 == lookup(t, key).unwrap();
        assert(s[j + 1] == t[j]);
    } else {
        assert(s[0].1 == lookup(s, key).unwrap());
    }
}

/// Whether no key occurs twice.
pub fn keys_are_distinct<V>(entries: &Vec<(String, V)>) -> (r: bool)
    ensures
        r == keys_distinct(entries@),
{
    let mut i: usize = 0;
    while i < entries.len()
        invariant
            i <= entries@.len(),
            keys_distinct(entries@.take(i as int)),
        decreases entries@.len() - i,
    {
        let mut j: usize = 0;
        while j < i
            invariant
                i < entries@.len(),
                j <= i,
                forall|k: int| 0 <= k < j ==> entries@[k].0@ != entries@[i as int].0@,
            decreases i - j,
        {
            if entries[j].0 == entries[i].0 {
                proof {
                    assert(!keys_distinct(entries@) && entries@[j as int].0@ == entries@[i as int].0@);
                }
                return false;
            }
            j = j + 1;
        }
        proof {
            let t = entries@.take(i as int + 1);
            assert forall|a: int, b: int|
                0 <= a < t.len() && 0 <= b < t.len() && a != b implies t[a].0@ != t[b].0@ by {
                if a < i && b < i {
                    assert(entries@.take(i as int)[a] == t[a]);
                    assert(entries@.take(i as int)[b] == t[b]);
                }
            }
        }
        i = i + 1;
    }
    proof {
        assert(entries@.take(i as int) =~= entries@);
    }
    true
}

} // verus!
