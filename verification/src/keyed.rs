//! Small association lists keyed by strings: per-process flags, counters and
//! log buffers. The value of a key is that of its first entry.
use crate::text::{chars_of, seq_eq};
use vstd::prelude::*;

verus! {

/// The value stored under `k`: that of the first entry with key `k`.
pub open spec fn kv_get<V>(s: Seq<(String, V)>, k: Seq<char>) -> Option<V>
    decreases s.len(),
{
    if s.len() == 0 {
        None
    } else if s[0].0@ == k {
        Some(s[0].1)
    } else {
        kv_get(s.drop_first(), k)
    }
}

pub proof fn lemma_kv_get_first<V>(s: Seq<(String, V)>, k: Seq<char>, i: int)
    requires
        0 <= i < s.len(),
        s[i].0@ == k,
        forall|j: int| 0 <= j < i ==> (#[trigger] s[j]).0@ != k,
    ensures
        kv_get(s, k) == Some(s[i].1),
    decreases i,
{
    if i > 0 {
        assert forall|j: int| 0 <= j < i - 1 implies (#[trigger] s.drop_first()[j]).0@ != k by {
            assert(s.drop_first()[j] == s[j + 1]);
        }
        lemma_kv_get_first(s.drop_first(), k, i - 1);
    }
}

pub proof fn lemma_kv_get_none<V>(s: Seq<(String, V)>, k: Seq<char>)
    requires
        forall|j: int| 0 <= j < s.len() ==> (#[trigger] s[j]).0@ != k,
    ensures
        kv_get(s, k).is_none(),
    decreases s.len(),
{
    if s.len() > 0 {
        assert forall|j: int| 0 <= j < s.len() - 1 implies (#[trigger] s.drop_first()[j]).0@ != k by {
            assert(s.drop_first()[j] == s[j + 1]);
        }
        lemma_kv_get_none(s.drop_first(), k);
    }
}

/// Replacing an entry by one with the same key changes only that key's value
/// (when it is the first entry with that key).
pub proof fn lemma_kv_get_update<V>(s: Seq<(String, V)>, i: int, e: (String, V), k: Seq<char>)
    requires
        0 <= i < s.len(),
        e.0@ == s[i].0@,
        forall|j: int| 0 <= j < i ==> (#[trigger] s[j]).0@ != e.0@,
    ensures
        kv_get(s.update(i, e), k) == if k == e.0@ {
            Some(e.1)
        } else {
            kv_get(s, k)
        },
    decreases i,
{
    let t = s.update(i, e);
    if i == 0 {
        if k != e.0@ {
            assert(t.drop_first() =~= s.drop_first());
        }
    } else {
        assert(t.drop_first() =~= s.drop_first().update(i - 1, e));
        assert forall|j: int| 0 <= j < i - 1 implies (#[trigger] s.drop_first()[j]).0@ != e.0@ by {
            assert(s.drop_first()[j] == s[j + 1]);
        }
        lemma_kv_get_update(s.drop_first(), i - 1, e, k);
    }
}

pub proof fn lemma_kv_get_push<V>(s: Seq<(String, V)>, e: (String, V), k: Seq<char>)
    ensures
        kv_get(s.push(e), k) == match kv_get(s, k) {
            Some(v) => Some(v),
            None => if e.0@ == k {
                Some(e.1)
            } else {
                None
            },
        },
    decreases s.len(),
{
    if s.len() > 0 {
        assert(s.push(e).drop_first() =~= s.drop_first().push(e));
        lemma_kv_get_push(s.drop_first(), e, k);
    } else {
        assert(s.push(e)[0] == e);
        assert(s.push(e).drop_first() =~= Seq::<(String, V)>::empty());
        assert(kv_get(s.push(e).drop_first(), k).is_none());
    }
}

/// The index of the first entry with key `k`.
pub fn kv_find<V>(s: &Vec<(String, V)>, k: &str) -> (r: Option<usize>)
    ensures
        match r {
            Some(i) => i < s@.len() && s@[i as int].0@ == k@ && kv_get(s@, k@) == Some(
                s@[i as int].1,
            ) && forall|j: int| 0 <= j < i ==> (#[trigger] s@[j]).0@ != k@,
            None => kv_get(s@, k@).is_none(),
        },
{
    let kc = chars_of(k);
    let mut i: usize = 0;
    while i < s.len()
        invariant
            i <= s@.len(),
            kc@ == k@,
            forall|j: int| 0 <= j < i ==> (#[trigger] s@[j]).0@ != k@,
        decreases s@.len() - i,
    {
        if seq_eq(chars_of(s[i].0.as_str()).as_slice(), kc.as_slice()) {
            proof {
                lemma_kv_get_first(s@, k@, i as int);
            }
            return Some(i);
        }
        i = i + 1;
    }
    proof {
        lemma_kv_get_none(s@, k@);
    }
    None
}

/// Store `v` under `k`: the first entry with key `k` is replaced, or a new
/// entry is appended.
pub fn kv_set<V>(s: &mut Vec<(String, V)>, k: String, v: V)
    ensures
        forall|k2: Seq<char>|
            #[trigger] kv_get(final(s)@, k2) == if k2 == k@ {
                Some(v)
            } else {
                kv_get(old(s)@, k2)
            },
{
    let ghost kv = k@;
    let ghost vv = v;
    match kv_find(s, k.as_str()) {
        Some(i) => {
            let ghost o = s@;
            let ghost e = (k, v);
            s.set(i, (k, v));
            proof {
                assert(s@ == o.update(i as int, e));
                assert forall|k2: Seq<char>| #[trigger] kv_get(s@, k2) == if k2 == kv {
                    Some(vv)
                } else {
                    kv_get(o, k2)
                } by {
                    lemma_kv_get_update(o, i as int, e, k2);
                }
            }
        },
        None => {
            let ghost o = s@;
            let ghost e = (k, v);
            s.push((k, v));
            proof {
                assert(s@ == o.push(e));
                assert forall|k2: Seq<char>| #[trigger] kv_get(s@, k2) == if k2 == kv {
                    Some(vv)
                } else {
                    kv_get(o, k2)
                } by {
                    lemma_kv_get_push(o, e, k2);
                }
            }
        },
    }
}

} // verus!
