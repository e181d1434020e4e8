//! Order keys: how real-valued measurements (distances, radii) enter the
//! verified selection logic.
//!
//! A measurement is handed over as an `Option<u64>`: `Some(k)` for a number,
//! where the keys of two numbers compare as the numbers do, and `None` for a
//! value that is not a number. Exactly as for IEEE comparison, `x < y` holds
//! only when both are numbers and the first is smaller.

use vstd::prelude::*;

verus! {

/// `a < b` on order keys: false whenever either side is not a number.
pub open spec fn key_lt(a: Option<u64>, b: Option<u64>) -> bool {
    match (a, b) {
        (Some(x), Some(y)) => x < y,
        _ => false,
    }
}

/// Every key of `keys` is a number.
pub open spec fn all_numbers(keys: Seq<Option<u64>>) -> bool {
    forall|i: int| 0 <= i < keys.len() ==> (#[trigger] keys[i]) is Some
}

/// `i` is the first position of a minimal key: every earlier key is strictly
/// greater, and no key from `i` on is strictly smaller.
pub open spec fn is_first_min(keys: Seq<Option<u64>>, i: int) -> bool {
    &&& 0 <= i < keys.len()
    &&& forall|j: int| 0 <= j < i ==> key_lt(keys[i], #[trigger] keys[j])
    &&& forall|j: int| i <= j < keys.len() ==> !key_lt(#[trigger] keys[j], keys[i])
}

/// The positions, in increasing order, whose key is strictly below `bound`.
pub open spec fn below(keys: Seq<Option<u64>>, bound: Option<u64>) -> Seq<usize>
    decreases keys.len(),
{
    if keys.len() == 0 {
        Seq::empty()
    } else {
        let rest = below(keys.drop_last(), bound);
        if key_lt(keys.last(), bound) {
            rest.push((keys.len() - 1) as usize)
        } else {
            rest
        }
    }
}

/// Order keys are ordered as the numbers they carry: `a < b` holds exactly
/// when both are numbers and the first is numerically smaller, so distinct
/// numbers never tie.
pub proof fn lemma_key_lt_numeric(a: Option<u64>, b: Option<u64>)
    ensures
        key_lt(a, b) <==> (a is Some && b is Some && a->0 < b->0),
        a is Some && b is Some ==> (key_lt(a, b) || key_lt(b, a) || a == b),
{
}

/// The first minimal position of comparable keys carries the numerically
/// smallest key: no key is smaller, and every earlier key is strictly larger.
pub proof fn lemma_first_min_numeric(keys: Seq<Option<u64>>, i: int)
    requires
        is_first_min(keys, i),
        keys.len() < 2 || all_numbers(keys),
    ensures
        forall|j: int|
            0 <= j < keys.len() && keys.len() >= 2 ==> {
                &&& keys[i]->0 <= (#[trigger] keys[j])->0
                &&& j < i ==> keys[i]->0 < keys[j]->0
            },
{
    assert forall|j: int| 0 <= j < keys.len() && keys.len() >= 2 implies {
        &&& keys[i]->0 <= (#[trigger] keys[j])->0
        &&& j < i ==> keys[i]->0 < keys[j]->0
    } by {
        assert(keys[i] is Some && keys[j] is Some);
        if j < i {
            assert(key_lt(keys[i], keys[j]));
        } else {
            assert(!key_lt(keys[j], keys[i]));
        }
    }
}

/// Membership in `below`, numerically: a position is listed exactly when it
/// is in range, its key and the bound are numbers, and its key is smaller.
pub proof fn lemma_below_numeric(keys: Seq<Option<u64>>, bound: Option<u64>, x: usize)
    requires
        keys.len() <= usize::MAX,
    ensures
        below(keys, bound).contains(x) <==> (x < keys.len() && keys[x as int] is Some && bound is Some
            && keys[x as int]->0 < bound->0),
{
    lemma_below_members(keys, bound, x);
}

/// There is at most one first position of a minimal key.
pub proof fn lemma_first_min_unique(keys: Seq<Option<u64>>, a: int, b: int)
    requires
        is_first_min(keys, a),
        is_first_min(keys, b),
    ensures
        a == b,
{
    if a < b {
        assert(key_lt(keys[b], keys[a]));
    } else if b < a {
        assert(key_lt(keys[a], keys[b]));
    }
}

/// A nonempty sequence of comparable keys has a first minimal position.
pub proof fn lemma_first_min_exists(keys: Seq<Option<u64>>)
    requires
        keys.len() >= 1,
        keys.len() < 2 || all_numbers(keys),
    ensures
        exists|i: int| is_first_min(keys, i),
    decreases keys.len(),
{
    if keys.len() == 1 {
        assert(is_first_min(keys, 0));
    } else {
        let rest = keys.drop_last();
        let n = keys.len() - 1;
        assert forall|j: int| 0 <= j < rest.len() implies (#[trigger] rest[j]) is Some by {
            assert(rest[j] == keys[j]);
        }
        lemma_first_min_exists(rest);
        let m = choose|i: int| is_first_min(rest, i);
        assert(keys[m] is Some && keys[n] is Some);
        if key_lt(keys[n], keys[m]) {
            assert forall|j: int| 0 <= j < n implies key_lt(keys[n], #[trigger] keys[j]) by {
                assert(keys[j] == rest[j]);
                assert(keys[j] is Some);
                if j < m {
                    assert(key_lt(rest[m], rest[j]));
                } else {
                    assert(!key_lt(rest[j], rest[m]));
                }
            }
            assert(is_first_min(keys, n));
        } else {
            assert forall|j: int| 0 <= j < m implies key_lt(keys[m], #[trigger] keys[j]) by {
                assert(keys[j] == rest[j]);
            }
            assert forall|j: int| m <= j < keys.len() implies !key_lt(#[trigger] keys[j], keys[m]) by {
                if j < n {
                    assert(keys[j] == rest[j]);
                }
            }
            assert(is_first_min(keys, m));
        }
    }
}

/// Compares two order keys as the numbers they stand for.
pub fn key_less(a: Option<u64>, b: Option<u64>) -> (r: bool)
    ensures
        r == key_lt(a, b),
        r <==> (a is Some && b is Some && a->0 < b->0),
{
    match (a, b) {
        (Some(x), Some(y)) => x < y,
        _ => false,
    }
}

/// The position of the first minimal key, or `None` for no keys.
///
/// This is the choice that a minimum by partial comparison makes: ties keep
/// the earlier item. Comparing a value that is not a number fails there, so
/// with two or more keys all of them must be numbers.
pub fn first_min_index(keys: &Vec<Option<u64>>) -> (r: Option<usize>)
    requires
        keys.len() < 2 || all_numbers(keys@),
    ensures
        r is None <==> keys.len() == 0,
        r matches Some(i) ==> is_first_min(keys@, i as int),
        r matches Some(i) ==> forall|j: int|
            0 <= j < keys.len() && keys.len() >= 2 ==> {
                &&& keys@[i as int]->0 <= (#[trigger] keys@[j])->0
                &&& j < i ==> keys@[i as int]->0 < keys@[j]->0
            },
{
    if keys.len() == 0 {
        return None;
    }
    let mut best: usize = 0;
    let mut i: usize = 1;
    while i < keys.len()
        invariant
            1 <= i <= keys.len(),
            best < i,
            keys.len() < 2 || all_numbers(keys@),
            forall|j: int| 0 <= j < best ==> key_lt(keys@[best as int], #[trigger] keys@[j]),
            forall|j: int| best <= j < i ==> !key_lt(#[trigger] keys@[j], keys@[best as int]),
        decreases keys.len() - i,
    {
        if key_less(keys[i], keys[best]) {
            assert forall|j: int| 0 <= j < i implies key_lt(keys@[i as int], #[trigger] keys@[j]) by {
                assert(keys@[j] is Some);
                assert(keys@[best as int] is Some);
            }
            best = i;
        }
        i += 1;
    }
    proof {
        lemma_first_min_numeric(keys@, best as int);
    }
    Some(best)
}

/// Membership in `below`: a position is listed exactly when it is in range and
/// its key is strictly below the bound.
pub proof fn lemma_below_members(keys: Seq<Option<u64>>, bound: Option<u64>, x: usize)
    requires
        keys.len() <= usize::MAX,
    ensures
        below(keys, bound).contains(x) <==> (x < keys.len() && key_lt(keys[x as int], bound)),
    decreases keys.len(),
{
    if keys.len() == 0 {
        assert(!below(keys, bound).contains(x));
    } else {
        let n = keys.len();
        let rest = keys.drop_last();
        let r = below(rest, bound);
        lemma_below_members(rest, bound, x);
        if x < n - 1 {
            assert(keys[x as int] == rest[x as int]);
        }
        if key_lt(keys.last(), bound) {
            let s = r.push((n - 1) as usize);
            assert(below(keys, bound) == s);
            if x == n - 1 {
                assert(s[r.len() as int] == x);
            } else {
                if s.contains(x) {
                    let k = choose|k: int| 0 <= k < s.len() && s[k] == x;
                    assert(k != r.len());
                    assert(r[k] == x);
                }
                if r.contains(x) {
                    let k = choose|k: int| 0 <= k < r.len() && r[k] == x;
                    assert(s[k] == x);
                }
            }
        } else {
            assert(below(keys, bound) == r);
        }
    }
}

/// Every position listed by `below` is in range and the list is strictly
/// increasing.
pub proof fn lemma_below_bounded(keys: Seq<Option<u64>>, bound: Option<u64>)
    requires
        keys.len() <= usize::MAX,
    ensures
        forall|k: int| 0 <= k < below(keys, bound).len() ==> (#[trigger] below(keys, bound)[k]) < keys.len(),
        forall|k: int, l: int| 0 <= k < l < below(keys, bound).len() ==>
            (#[trigger] below(keys, bound)[k]) < (#[trigger] below(keys, bound)[l]),
    decreases keys.len(),
{
    if keys.len() > 0 {
        let n = keys.len();
        let rest = keys.drop_last();
        let r = below(rest, bound);
        lemma_below_bounded(rest, bound);
        if key_lt(keys.last(), bound) {
            let s = r.push((n - 1) as usize);
            assert(below(keys, bound) == s);
            assert forall|k: int| 0 <= k < s.len() implies (#[trigger] s[k]) < n by {
                if k < r.len() {
                    assert(s[k] == r[k]);
                }
            }
            assert forall|k: int, l: int| 0 <= k < l < s.len() implies (#[trigger] s[k]) < (#[trigger] s[l]) by {
                assert(s[k] == r[k]);
                if l < r.len() {
                    assert(s[l] == r[l]);
                }
            }
        } else {
            assert(below(keys, bound) == r);
        }
    }
}

/// The positions, in increasing order, whose key is strictly below `bound`.
pub fn indices_below(keys: &Vec<Option<u64>>, bound: Option<u64>) -> (r: Vec<usize>)
    ensures
        r@ == below(keys@, bound),
{
    let mut r: Vec<usize> = Vec::new();
    let mut i: usize = 0;
    while i < keys.len()
        invariant
            i <= keys.len(),
            r@ == below(keys@.take(i as int), bound),
        decreases keys.len() - i,
    {
        assert(keys@.take(i + 1).drop_last() =~= keys@.take(i as int));
        if key_less(keys[i], bound) {
            r.push(i);
        }
        i += 1;
    }
    assert(keys@.take(keys.len() as int) =~= keys@);
    r
}

} // verus!
