//! String-keyed association lists with unique keys: the store shape the
//! workloads use for counters, logs and offsets.

use vstd::prelude::*;

verus! {

/// Whether `s` binds `key`.
pub open spec fn assoc_has<V>(s: Seq<(Seq<char>, V)>, key: Seq<char>) -> bool {
    exists|i: int| 0 <= i < s.len() && (#[trigger] s[i]).0 == key
}

/// The value bound to `key`, if any; keys are unique, so the first
/// binding is the only one.
pub open spec fn assoc_get<V>(s: Seq<(Seq<char>, V)>, key: Seq<char>) -> Option<V>
    decreases s.len(),
{
    if s.len() == 0 {
        Option::None
    } else if s[0].0 == key {
        Option::Some(s[0].1)
    } else {
        assoc_get(s.drop_first(), key)
    }
}

/// Whether no two bindings share a key.
pub open spec fn assoc_unique<V>(s: Seq<(Seq<char>, V)>) -> bool {
    forall|i: int, j: int| 0 <= i < j < s.len() ==> (#[trigger] s[i]).0 != (#[trigger] s[j]).0
}

/// A binding found at `i` is the one `assoc_get` answers.
pub proof fn lemma_assoc_get_at<V>(s: Seq<(Seq<char>, V)>, key: Seq<char>, i: int)
    requires
        0 <= i < s.len(),
        s[i].0 == key,
        forall|k: int| 0 <= k < i ==> (#[trigger] s[k]).0 != key,
    ensures
        assoc_get(s, key) == Option::Some(s[i].1),
    decreases i,
{
    if i > 0 {
        lemma_assoc_get_at(s.drop_first(), key, i - 1);
    }
}

/// When no binding carries `key`, `assoc_get` answers nothing.
pub proof fn lemma_assoc_get_absent<V>(s: Seq<(Seq<char>, V)>, key: Seq<char>)
    requires
        forall|k: int| 0 <= k < s.len() ==> (#[trigger] s[k]).0 != key,
    ensures
        assoc_get(s, key) == Option::<V>::None,
    decreases s.len(),
{
    if s.len() > 0 {
        lemma_assoc_get_absent(s.drop_first(), key);
    }
}

/// Replacing the binding at `i` rebinds its key and nothing else.
pub proof fn lemma_assoc_update<V>(s: Seq<(Seq<char>, V)>, i: int, v: V)
    requires
        assoc_unique(s),
        0 <= i < s.len(),
    ensures
        assoc_unique(s.update(i, (s[i].0, v))),
        assoc_get(s.update(i, (s[i].0, v)), s[i].0) == Option::Some(v),
        forall|key: Seq<char>|
            key != s[i].0 ==> #[trigger] assoc_get(s.update(i, (s[i].0, v)), key) == assoc_get(
                s,
                key,
            ),
    decreases i,
{
    let s2 = s.update(i, (s[i].0, v));
    if i == 0 {
        assert forall|key: Seq<char>| key != s[i].0 implies #[trigger] assoc_get(s2, key)
            == assoc_get(s, key) by {
            assert(s2.drop_first() =~= s.drop_first());
        }
        assert(assoc_get(s2, s[i].0) == Option::Some(v));
    } else {
        lemma_assoc_update(s.drop_first(), i - 1, v);
        assert(s.drop_first()[i - 1] == s[i]);
        assert(s2.drop_first() =~= s.drop_first().update(i - 1, (s.drop_first()[i - 1].0, v)));
        assert(s2[0] == s[0]);
        assert forall|key: Seq<char>| key != s[i].0 implies #[trigger] assoc_get(s2, key)
            == assoc_get(s, key) by {
            if s[0].0 != key {
                assert(assoc_get(s2, key) == assoc_get(s2.drop_first(), key));
                assert(assoc_get(s2.drop_first(), key) == assoc_get(s.drop_first(), key));
                assert(assoc_get(s, key) == assoc_get(s.drop_first(), key));
            }
        }
        assert(s[0].0 != s[i].0);
        assert(assoc_get(s2, s[i].0) == assoc_get(s2.drop_first(), s[i].0));
        assert(assoc_get(s2, s[i].0) == Option::Some(v));
    }
}

/// Appending a fresh key binds it and nothing else.
pub proof fn lemma_assoc_push<V>(s: Seq<(Seq<char>, V)>, key: Seq<char>, v: V)
    requires
        assoc_unique(s),
        !assoc_has(s, key),
    ensures
        assoc_unique(s.push((key, v))),
        assoc_get(s.push((key, v)), key) == Option::Some(v),
        forall|k2: Seq<char>|
            k2 != key ==> #[trigger] assoc_get(s.push((key, v)), k2) == assoc_get(s, k2),
    decreases s.len(),
{
    let s2 = s.push((key, v));
    if s.len() == 0 {
        assert(s2[0] == (key, v));
        assert(s2.drop_first() =~= Seq::<(Seq<char>, V)>::empty());
        assert forall|k2: Seq<char>| k2 != key implies #[trigger] assoc_get(s2, k2) == assoc_get(
            s,
            k2,
        ) by {
            assert(assoc_get(s2.drop_first(), k2) == Option::<V>::None);
        }
    } else {
        assert(forall|k: int| 0 <= k < s.drop_first().len() ==> s.drop_first()[k] == s[k + 1]);
        assert(!assoc_has(s.drop_first(), key)) by {
            assert forall|k: int| 0 <= k < s.drop_first().len() implies (
            #[trigger] s.drop_first()[k]).0 != key by {
                assert(s[k + 1].0 != key);
            }
        }
        lemma_assoc_push(s.drop_first(), key, v);
        assert(s2.drop_first() =~= s.drop_first().push((key, v)));
        assert(s2[0] == s[0]);
        assert(s[0].0 != key);
        assert forall|k2: Seq<char>| k2 != key implies #[trigger] assoc_get(s2, k2) == assoc_get(
            s,
            k2,
        ) by {
            if s[0].0 != k2 {
                assert(assoc_get(s2, k2) == assoc_get(s2.drop_first(), k2));
                assert(assoc_get(s2.drop_first(), k2) == assoc_get(s.drop_first(), k2));
                assert(assoc_get(s, k2) == assoc_get(s.drop_first(), k2));
            }
        }
        assert(assoc_get(s2, key) == assoc_get(s2.drop_first(), key));
        assert forall|i: int, j: int| 0 <= i < j < s2.len() implies (#[trigger] s2[i]).0 != (
        #[trigger] s2[j]).0 by {
            if j == s2.len() - 1 {
                assert(s2[j].0 == key);
                if i == 0 {
                } else {
                    assert(s2[i] == s[i]);
                    assert(s[i].0 != key);
                }
            }
        }
    }
}

/// The first binding of `key` in `v`, as an index.
pub fn assoc_find<V>(v: &Vec<(String, V)>, key: &str) -> (r: Option<usize>)
    ensures
        match r {
            Option::Some(i) => 0 <= i < v@.len() && v@[i as int].0@ == key@ && (forall|k: int|
                0 <= k < i ==> (#[trigger] v@[k]).0@ != key@),
            Option::None => forall|k: int| 0 <= k < v@.len() ==> (#[trigger] v@[k]).0@ != key@,
        },
{
    let mut i: usize = 0;
    while i < v.len()
        invariant
            0 <= i <= v@.len(),
            forall|k: int| 0 <= k < i ==> (#[trigger] v@[k]).0@ != key@,
        decreases v@.len() - i,
    {
        if crate::proto::str_eq(v[i].0.as_str(), key) {
            return Option::Some(i);
        }
        i = i + 1;
    }
    Option::None
}

/// The cluster members other than `skip1` (and `skip2`, when given),
/// in cluster order.
pub open spec fn peers_except(
    nodes: Seq<Seq<char>>,
    skip1: Seq<char>,
    skip2: Option<Seq<char>>,
) -> Seq<Seq<char>> {
    nodes.filter(
        |n: Seq<char>|
            n != skip1 && match skip2 {
                Option::Some(b) => n != b,
                Option::None => true,
            },
    )
}

/// Collect the cluster members other than the given ones.
#[verifier::loop_isolation(false)]
pub fn filter_peers(nodes: &Vec<String>, skip1: &str, skip2: Option<&str>) -> (r: Vec<String>)
    ensures
        crate::proto::strs_view(r@) == peers_except(
            crate::proto::strs_view(nodes@),
            skip1@,
            match skip2 {
                Option::Some(b) => Option::Some(b@),
                Option::None => Option::None,
            },
        ),
{
    let ghost nv = crate::proto::strs_view(nodes@);
    let ghost s2 = match skip2 {
        Option::Some(b) => Option::Some(b@),
        Option::None => Option::<Seq<char>>::None,
    };
    let mut out: Vec<String> = Vec::new();
    let mut i: usize = 0;
    while i < nodes.len()
        invariant
            0 <= i <= nodes@.len(),
            crate::proto::strs_view(out@) == peers_except(nv.subrange(0, i as int), skip1@, s2),
        decreases nodes@.len() - i,
    {
        proof {
            reveal_with_fuel(Seq::filter, 2);
            assert(nv.subrange(0, i + 1).drop_last() =~= nv.subrange(0, i as int));
            assert(nv.subrange(0, i + 1).last() == nv[i as int]);
        }
        let keep = !crate::proto::str_eq(nodes[i].as_str(), skip1) && match skip2 {
            Option::Some(b) => !crate::proto::str_eq(nodes[i].as_str(), b),
            Option::None => true,
        };
        if keep {
            out.push(nodes[i].clone());
            proof {
                assert(crate::proto::strs_view(out@) =~= peers_except(
                    nv.subrange(0, i + 1),
                    skip1@,
                    s2,
                ));
            }
        } else {
            proof {
                assert(crate::proto::strs_view(out@) =~= peers_except(
                    nv.subrange(0, i + 1),
                    skip1@,
                    s2,
                ));
            }
        }
        i = i + 1;
    }
    proof {
        assert(nv.subrange(0, nv.len() as int) =~= nv);
    }
    out
}

} // verus!
