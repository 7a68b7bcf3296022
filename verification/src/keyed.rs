//! Entries kept sorted by a string key with no key twice: the ordered maps of
//! the ADB code.
use vstd::prelude::*;
use crate::text::chars_of;

verus! {

/// Lexicographic order on characters, which is the order of their UTF-8
/// encodings and so the order `String` keys sort in.
pub open spec fn seq_lt(a: Seq<char>, b: Seq<char>) -> bool
    decreases a.len(),
{
    if a.len() == 0 {
        b.len() > 0
    } else if b.len() == 0 {
        false
    } else if a[0] < b[0] {
        true
    } else if a[0] == b[0] {
        seq_lt(a.drop_first(), b.drop_first())
    } else {
        false
    }
}

/// Law: the order is strict and total.
pub proof fn lemma_seq_lt_total(a: Seq<char>, b: Seq<char>)
    ensures
        !(seq_lt(a, b) && seq_lt(b, a)),
        !seq_lt(a, a),
        a != b ==> seq_lt(a, b) || seq_lt(b, a),
    decreases a.len(),
{
    if a.len() > 0 && b.len() > 0 {
        lemma_seq_lt_total(a.drop_first(), b.drop_first());
        lemma_seq_lt_total(a.drop_first(), a.drop_first());
        if a != b && a[0] == b[0] {
            assert(a =~= seq![a[0]] + a.drop_first());
            assert(b =~= seq![b[0]] + b.drop_first());
        }
    } else if a.len() == 0 && b.len() == 0 {
        assert(a =~= b);
    } else if a.len() > 0 {
        lemma_seq_lt_total(a.drop_first(), a.drop_first());
    }
}

/// Law: the order is transitive.
pub proof fn lemma_seq_lt_transitive(a: Seq<char>, b: Seq<char>, c: Seq<char>)
    requires
        seq_lt(a, b),
        seq_lt(b, c),
    ensures
        seq_lt(a, c),
    decreases a.len(),
{
    if a.len() > 0 && b.len() > 0 && c.len() > 0 {
        if a[0] == b[0] && b[0] == c[0] {
            lemma_seq_lt_transitive(a.drop_first(), b.drop_first(), c.drop_first());
        }
    }
}

/// Whether `a` sorts before `b`.
pub fn chars_lt(a: &[char], b: &[char]) -> (r: bool)
    ensures
        r == seq_lt(a@, b@),
{
    let mut i: usize = 0;
    assert(a@.skip(0) =~= a@ && b@.skip(0) =~= b@);
    while i < a.len() && i < b.len()
        invariant
            i <= a@.len(),
            i <= b@.len(),
            seq_lt(a@, b@) == seq_lt(a@.skip(i as int), b@.skip(i as int)),
        decreases a@.len() - i,
    {
        let x = a[i];
        let y = b[i];
        proof {
            assert(a@.skip(i as int)[0] == x);
            assert(b@.skip(i as int)[0] == y);
            assert(a@.skip(i as int).drop_first() =~= a@.skip(i + 1));
            assert(b@.skip(i as int).drop_first() =~= b@.skip(i + 1));
        }
        if x < y {
            return true;
        }
        if x != y {
            return false;
        }
        i = i + 1;
    }
    i == a.len() && i < b.len()
}

/// Whether string `a` sorts before string `b`.
pub fn string_lt(a: &String, b: &String) -> (r: bool)
    ensures
        r == seq_lt(a@, b@),
{
    let x = chars_of(a.as_str());
    let y = chars_of(b.as_str());
    chars_lt(x.as_slice(), y.as_slice())
}

/// The key of each entry.
pub open spec fn keys_of<V>(s: Seq<(String, V)>) -> Seq<Seq<char>> {
    s.map_values(|e: (String, V)| e.0@)
}

/// Whether the keys strictly ascend.
pub open spec fn sorted_keys<V>(s: Seq<(String, V)>) -> bool {
    forall|i: int, j: int| 0 <= i < j < s.len() ==> seq_lt(#[trigger] s[i].0@, #[trigger] s[j].0@)
}

/// The value stored under `k`, if any.
pub open spec fn lookup<V>(s: Seq<(String, V)>, k: Seq<char>) -> Option<V>
    decreases s.len(),
{
    if s.len() == 0 {
        None
    } else if s.last().0@ == k {
        Some(s.last().1)
    } else {
        lookup(s.drop_last(), k)
    }
}

/// In entries sorted by key, a key is found exactly when some entry has it,
/// and then the value found is that entry's.
pub proof fn lemma_lookup_index<V>(s: Seq<(String, V)>, k: Seq<char>)
    requires
        sorted_keys(s),
    ensures
        lookup(s, k) is None <==> (forall|i: int| 0 <= i < s.len() ==> (#[trigger] s[i]).0@ != k),
        forall|i: int| 0 <= i < s.len() && (#[trigger] s[i]).0@ == k ==> lookup(s, k) == Some(s[i].1),
    decreases s.len(),
{
    if s.len() > 0 {
        let p = s.drop_last();
        assert(sorted_keys(p)) by {
            assert forall|i: int, j: int| 0 <= i < j < p.len() implies seq_lt(#[trigger] p[i].0@, #[trigger] p[j].0@) by {
                assert(p[i] == s[i] && p[j] == s[j]);
            }
        }
        lemma_lookup_index(p, k);
        assert forall|i: int| 0 <= i < s.len() && (#[trigger] s[i]).0@ == k implies lookup(s, k) == Some(s[i].1) by {
            if i < s.len() - 1 {
                assert(seq_lt(s[i].0@, s[s.len() - 1].0@));
                lemma_seq_lt_total(s[i].0@, s[s.len() - 1].0@);
                assert(p[i] == s[i]);
            }
        }
        if lookup(s, k) is None {
            assert forall|i: int| 0 <= i < s.len() implies (#[trigger] s[i]).0@ != k by {
                if i < s.len() - 1 {
                    assert(p[i] == s[i]);
                }
            }
        }
        if forall|i: int| 0 <= i < s.len() ==> (#[trigger] s[i]).0@ != k {
            assert(s[s.len() - 1].0@ != k);
            assert forall|i: int| 0 <= i < p.len() implies (#[trigger] p[i]).0@ != k by {
                assert(p[i] == s[i]);
            }
        }
    }
}

/// Stores `value` under `key`, replacing the value already stored under it
/// and otherwise inserting it where the key order puts it.
pub fn insert_sorted<V>(entries: &mut Vec<(String, V)>, key: String, value: V)
    requires
        sorted_keys(old(entries)@),
    ensures
        sorted_keys(final(entries)@),
        forall|k: Seq<char>| #[trigger] lookup(final(entries)@, k) == if k == key@ {
            Some(value)
        } else {
            lookup(old(entries)@, k)
        },
{
    let ghost s0 = entries@;
    let mut i: usize = 0;
    while i < entries.len() && string_lt(&entries[i].0, &key)
        invariant
            entries@ == s0,
            i <= s0.len(),
            forall|j: int| 0 <= j < i ==> seq_lt(#[trigger] s0[j].0@, key@),
        decreases s0.len() - i,
    {
        i = i + 1;
    }
    proof {
        lemma_lookup_index(s0, key@);
    }
    if i < entries.len() && entries[i].0 == key {
        let _ = entries.remove(i);
        entries.insert(i, (key, value));
        proof {
            let s1 = entries@;
            assert(s1 =~= s0.update(i as int, (s1[i as int].0, value)));
            assert(s1[i as int].0@ == s0[i as int].0@);
            assert(sorted_keys(s1)) by {
                assert forall|a: int, b: int| 0 <= a < b < s1.len() implies seq_lt(#[trigger] s1[a].0@, #[trigger] s1[b].0@) by {
                    assert(s1[a].0@ == s0[a].0@ && s1[b].0@ == s0[b].0@);
                }
            }
            lemma_lookup_index(s1, key@);
            assert forall|k: Seq<char>| #[trigger] lookup(s1, k) == if k == key@ {
                Some(value)
            } else {
                lookup(s0, k)
            } by {
                lemma_lookup_index(s0, k);
                lemma_lookup_index(s1, k);
                if k != key@ {
                    if lookup(s0, k) is None {
                        assert forall|j: int| 0 <= j < s1.len() implies (#[trigger] s1[j]).0@ != k by {
                            assert(s1[j].0@ == s0[j].0@);
                        }
                    } else {
                        let j = choose|j: int| 0 <= j < s0.len() && (#[trigger] s0[j]).0@ == k;
                        assert(s1[j].0@ == k);
                        assert(s1[j].1 == s0[j].1);
                    }
                } else {
                    assert(s1[i as int].0@ == k);
                }
            }
        }
    } else {
        proof {
            if i < s0.len() {
                lemma_seq_lt_total(s0[i as int].0@, key@);
                assert(s0[i as int].0@ != key@);
            }
        }
        entries.insert(i, (key, value));
        proof {
            let s1 = entries@;
            assert(s1 =~= s0.insert(i as int, (s1[i as int].0, value)));
            assert(sorted_keys(s1)) by {
                assert forall|a: int, b: int| 0 <= a < b < s1.len() implies seq_lt(#[trigger] s1[a].0@, #[trigger] s1[b].0@) by {
                    if b < i {
                        assert(s1[a] == s0[a] && s1[b] == s0[b]);
                    } else if b == i {
                        assert(s1[a] == s0[a]);
                    } else if a == i {
                        assert(s1[b] == s0[b - 1]);
                        if b - 1 > i {
                            lemma_seq_lt_transitive(key@, s0[i as int].0@, s0[b - 1].0@);
                        } else {
                            lemma_seq_lt_total(s0[i as int].0@, key@);
                        }
                    } else if a < i {
                        assert(s1[a] == s0[a] && s1[b] == s0[b - 1]);
                        if a != b - 1 {
                        }
                    } else {
                        assert(s1[a] == s0[a - 1] && s1[b] == s0[b - 1]);
                    }
                }
            }
            assert forall|k: Seq<char>| #[trigger] lookup(s1, k) == if k == key@ {
                Some(value)
            } else {
                lookup(s0, k)
            } by {
                lemma_lookup_index(s0, k);
                lemma_lookup_index(s1, k);
                if k != key@ {
                    if lookup(s0, k) is None {
                        assert forall|j: int| 0 <= j < s1.len() implies (#[trigger] s1[j]).0@ != k by {
                            if j < i {
                                assert(s1[j] == s0[j]);
                            } else if j > i {
                                assert(s1[j] == s0[j - 1]);
                            }
                        }
                    } else {
                        let j = choose|j: int| 0 <= j < s0.len() && (#[trigger] s0[j]).0@ == k;
                        if j < i {
                            assert(s1[j] == s0[j]);
                        } else {
                            assert(s1[j + 1] == s0[j]);
                        }
                    }
                } else {
                    assert(s1[i as int].0@ == k);
                }
            }
        }
    }
}

/// The value stored under `key`, if any.
pub fn get_sorted<'a, V>(entries: &'a Vec<(String, V)>, key: &String) -> (res: Option<&'a V>)
    requires
        sorted_keys(entries@),
    ensures
        match (res, lookup(entries@, key@)) {
            (Some(v), Some(w)) => *v == w,
            (None, None) => true,
            _ => false,
        },
{
    proof {
        lemma_lookup_index(entries@, key@);
    }
    let mut i: usize = 0;
    while i < entries.len()
        invariant
            i <= entries@.len(),
            sorted_keys(entries@),
            forall|j: int| 0 <= j < i ==> (#[trigger] entries@[j]).0@ != key@,
        decreases entries@.len() - i,
    {
        if entries[i].0 == *key {
            assert(entries@[i as int].0@ == key@);
            proof {
                lemma_lookup_index(entries@, key@);
            }
            assert(lookup(entries@, key@) == Some(entries@[i as int].1));
            let v = &entries[i].1;
            assert(*v == entries@[i as int].1);
            return Some(v);
        }
        i = i + 1;
    }
    None
}

} // verus!
