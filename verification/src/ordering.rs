//! Stable insertion order and run de-duplication as spec functions, for the
//! lists the pipeline sorts by a key and then de-duplicates.
use vstd::prelude::*;

verus! {

/// `x` placed after every element of `s` it does not precede.
pub open spec fn insert_by<T>(s: Seq<T>, x: T, lt: spec_fn(T, T) -> bool) -> Seq<T>
    decreases s.len(),
{
    if s.len() == 0 || !lt(x, s.last()) {
        s.push(x)
    } else {
        insert_by(s.drop_last(), x, lt).push(s.last())
    }
}

/// The stable sort of `s` by `lt`.
pub open spec fn sort_by<T>(s: Seq<T>, lt: spec_fn(T, T) -> bool) -> Seq<T>
    decreases s.len(),
{
    if s.len() == 0 {
        s
    } else {
        insert_by(sort_by(s.drop_last(), lt), s.last(), lt)
    }
}

/// `s` without each element that `same` pairs with the element kept before it.
pub open spec fn dedup_by<T>(s: Seq<T>, same: spec_fn(T, T) -> bool) -> Seq<T>
    decreases s.len(),
{
    if s.len() == 0 {
        s
    } else {
        let d = dedup_by(s.drop_last(), same);
        if d.len() > 0 && same(d.last(), s.last()) {
            d
        } else {
            d.push(s.last())
        }
    }
}

/// Inserting at the first position from the end that `x` does not precede
/// is `insert_by`.
pub proof fn lemma_insert_by_at<T>(s: Seq<T>, x: T, lt: spec_fn(T, T) -> bool, p: int)
    requires
        0 <= p <= s.len(),
        forall|k: int| p <= k < s.len() ==> lt(x, #[trigger] s[k]),
        p == 0 || !lt(x, s[p - 1]),
    ensures
        insert_by(s, x, lt) == s.insert(p, x),
    decreases s.len(),
{
    if s.len() == p {
        assert(s.push(x) =~= s.insert(p, x));
    } else {
        assert(lt(x, s[s.len() - 1]));
        lemma_insert_by_at(s.drop_last(), x, lt, p);
        assert(s.drop_last().insert(p, x).push(s.last()) =~= s.insert(p, x));
    }
}

pub proof fn lemma_sort_by_push<T>(s: Seq<T>, x: T, lt: spec_fn(T, T) -> bool)
    ensures
        sort_by(s.push(x), lt) == insert_by(sort_by(s, lt), x, lt),
{
    assert(s.push(x).drop_last() =~= s);
}

pub proof fn lemma_dedup_by_push<T>(s: Seq<T>, x: T, same: spec_fn(T, T) -> bool)
    ensures
        dedup_by(s.push(x), same) == (if dedup_by(s, same).len() > 0 && same(dedup_by(s, same).last(), x) {
            dedup_by(s, same)
        } else {
            dedup_by(s, same).push(x)
        }),
{
    assert(s.push(x).drop_last() =~= s);
}

/// The first `limit` elements of `s`, or all of them.
pub open spec fn first_n<T>(s: Seq<T>, limit: nat) -> Seq<T> {
    if s.len() <= limit {
        s
    } else {
        s.take(limit as int)
    }
}

} // verus!
