use vstd::prelude::*;
use crate::text::{is_blank, is_blank_str};
use crate::yaml_utils::same_text;

verus! {

/// Variable values of one category: `(variable id, value)` pairs, looked up by
/// the first pair with a given id.
pub type VariableValues = Vec<(String, String)>;

/// Per-category variable values: `(category id, values)` pairs. They are well
/// formed (`values_wf`) when ids are unique at both levels, as in a map of
/// maps; normalisation keeps them so.
pub type CategoryValues = Vec<(String, VariableValues)>;

pub type VarsView = Seq<(Seq<char>, Seq<char>)>;

pub type BucketsView = Seq<(Seq<char>, VarsView)>;

/// Position of the first entry with key `k`, or -1.
pub open spec fn key_index<V>(e: Seq<(Seq<char>, V)>, k: Seq<char>) -> int
    decreases e.len(),
{
    if e.len() == 0 {
        -1
    } else {
        let j = key_index(e.drop_last(), k);
        if j >= 0 {
            j
        } else if e.last().0 == k {
            e.len() - 1
        } else {
            -1
        }
    }
}

/// The value stored under `k`, if any.
pub open spec fn lookup<V>(e: Seq<(Seq<char>, V)>, k: Seq<char>) -> Option<V> {
    let i = key_index(e, k);
    if i >= 0 {
        Some(e[i].1)
    } else {
        None
    }
}

/// Stores `v` under `k`, unless the stored value already equals `v` or a
/// non-blank stored value would be replaced by a blank one; says whether it
/// stored.
pub open spec fn ensure_field_spec(e: VarsView, k: Seq<char>, v: Seq<char>) -> (VarsView, bool) {
    let i = key_index(e, k);
    if i >= 0 {
        let old_value = e[i].1;
        if old_value == v || (is_blank(v) && !is_blank(old_value)) {
            (e, false)
        } else {
            (e.update(i, (k, v)), true)
        }
    } else {
        (e.push((k, v)), true)
    }
}

/// The value under `k` when it is not blank.
pub open spec fn non_blank_value(e: VarsView, k: Seq<char>) -> Option<Seq<char>> {
    match lookup(e, k) {
        Some(v) => if is_blank(v) {
            None
        } else {
            Some(v)
        },
        None => None,
    }
}

/// The first non-blank value under `k1`, then under `k2`.
pub open spec fn first_non_blank(e: VarsView, k1: Seq<char>, k2: Seq<char>) -> Option<Seq<char>> {
    match non_blank_value(e, k1) {
        Some(v) => Some(v),
        None => non_blank_value(e, k2),
    }
}

pub proof fn lemma_key_index<V>(e: Seq<(Seq<char>, V)>, k: Seq<char>)
    ensures
        -1 <= key_index(e, k) < e.len(),
        key_index(e, k) >= 0 ==> e[key_index(e, k)].0 == k,
        forall|j: int|
            0 <= j < e.len() && (key_index(e, k) < 0 || j < key_index(e, k)) ==> #[trigger] e[j].0
                != k,
    decreases e.len(),
{
    if e.len() > 0 {
        let d = e.drop_last();
        lemma_key_index(d, k);
        assert forall|j: int|
            0 <= j < e.len() && (key_index(e, k) < 0 || j < key_index(
                e,
                k,
            )) implies #[trigger] e[j].0 != k by {
            if j < e.len() - 1 {
                assert(d[j] == e[j]);
            }
        }
    }
}

/// The first entry with key `k` stands at `i`.
pub proof fn lemma_key_index_at<V>(e: Seq<(Seq<char>, V)>, k: Seq<char>, i: int)
    requires
        0 <= i < e.len(),
        e[i].0 == k,
        forall|j: int| 0 <= j < i ==> #[trigger] e[j].0 != k,
    ensures
        key_index(e, k) == i,
{
    lemma_key_index(e, k);
}

/// The position of a key depends on the keys alone.
pub proof fn lemma_key_index_same_keys<V, W>(e: Seq<(Seq<char>, V)>, f: Seq<(Seq<char>, W)>, k: Seq<char>)
    requires
        e.len() == f.len(),
        forall|j: int| 0 <= j < e.len() ==> #[trigger] e[j].0 == f[j].0,
    ensures
        key_index(e, k) == key_index(f, k),
    decreases e.len(),
{
    if e.len() > 0 {
        lemma_key_index_same_keys(e.drop_last(), f.drop_last(), k);
    }
}

pub proof fn lemma_key_index_push<V>(e: Seq<(Seq<char>, V)>, x: (Seq<char>, V), k: Seq<char>)
    ensures
        key_index(e.push(x), k) == if key_index(e, k) >= 0 {
            key_index(e, k)
        } else if x.0 == k {
            e.len() as int
        } else {
            -1
        },
{
    assert(e.push(x).drop_last() =~= e);
}

/// The position of the first entry with key `k`.
pub fn find_key<V: DeepView>(e: &Vec<(String, V)>, k: &str) -> (r: Option<usize>)
    ensures
        match r {
            Some(i) => i < e@.len() && i as int == key_index(e.deep_view(), k@),
            None => key_index(e.deep_view(), k@) == -1,
        },
{
    let ghost d = e.deep_view();
    let n = e.len();
    let mut i: usize = 0;
    while i < n
        invariant
            n == e.len(),
            d == e.deep_view(),
            i <= n,
            forall|j: int| 0 <= j < i ==> #[trigger] d[j].0 != k@,
        decreases n - i,
    {
        if same_text(e[i].0.as_str(), k) {
            proof {
                lemma_key_index_at(d, k@, i as int);
            }
            return Some(i);
        }
        i = i + 1;
    }
    proof {
        lemma_key_index(d, k@);
    }
    None
}

/// Stores `value` under `key` as `ensure_field_spec` says, and tells whether it did.
pub fn ensure_field(map: &mut VariableValues, key: &str, value: &str) -> (changed: bool)
    ensures
        (final(map).deep_view(), changed) == ensure_field_spec(old(map).deep_view(), key@, value@),
{
    match find_key(map, key) {
        Some(i) => {
            let keep = {
                let existing = map[i].1.as_str();
                same_text(existing, value) || (is_blank_str(value) && !is_blank_str(existing))
            };
            if keep {
                false
            } else {
                let ghost before = map.deep_view();
                map.set(i, (String::from_str(key), String::from_str(value)));
                assert(map.deep_view() =~= before.update(i as int, (key@, value@)));
                true
            }
        },
        None => {
            let ghost before = map.deep_view();
            map.push((String::from_str(key), String::from_str(value)));
            assert(map.deep_view() =~= before.push((key@, value@)));
            true
        },
    }
}

/// A copy of the non-blank value stored under `key`.
pub fn non_blank_value_of(map: &VariableValues, key: &str) -> (r: Option<String>)
    ensures
        r.deep_view() == non_blank_value(map.deep_view(), key@),
{
    match find_key(map, key) {
        Some(i) => {
            let v = map[i].1.as_str();
            if is_blank_str(v) {
                None
            } else {
                Some(String::from_str(v))
            }
        },
        None => None,
    }
}

/// A copy of the first non-blank value stored under `k1`, then under `k2`.
pub fn first_non_blank_of(map: &VariableValues, k1: &str, k2: &str) -> (r: Option<String>)
    ensures
        r.deep_view() == first_non_blank(map.deep_view(), k1@, k2@),
{
    match non_blank_value_of(map, k1) {
        Some(v) => Some(v),
        None => non_blank_value_of(map, k2),
    }
}

} // verus!

verus! {

/// `ensure_field_spec` leaves the stored value alone.
pub open spec fn keeps(e: VarsView, k: Seq<char>, v: Seq<char>) -> bool {
    match lookup(e, k) {
        Some(x) => x == v || (is_blank(v) && !is_blank(x)),
        None => false,
    }
}

pub proof fn lemma_ensure_field(e: VarsView, k: Seq<char>, v: Seq<char>, k2: Seq<char>)
    ensures
        lookup(ensure_field_spec(e, k, v).0, k2) == if k2 == k {
            if keeps(e, k, v) {
                lookup(e, k)
            } else {
                Some(v)
            }
        } else {
            lookup(e, k2)
        },
        ensure_field_spec(e, k, v).1 == !keeps(e, k, v),
        keeps(e, k, v) ==> ensure_field_spec(e, k, v).0 == e,
{
    lemma_key_index(e, k);
    lemma_key_index(e, k2);
    let i = key_index(e, k);
    let e2 = ensure_field_spec(e, k, v).0;
    if i >= 0 {
        if !keeps(e, k, v) {
            assert forall|j: int| 0 <= j < e.len() implies #[trigger] e[j].0 == e2[j].0 by {}
            lemma_key_index_same_keys(e, e2, k2);
        }
    } else {
        lemma_key_index_push(e, (k, v), k2);
    }
}

/// Replacing the value of entry `i` under its own key.
pub proof fn lemma_update_value<V>(e: Seq<(Seq<char>, V)>, i: int, x: V, k2: Seq<char>)
    requires
        0 <= i < e.len(),
    ensures
        key_index(e.update(i, (e[i].0, x)), k2) == key_index(e, k2),
        lookup(e.update(i, (e[i].0, x)), k2) == if key_index(e, k2) == i {
            Some(x)
        } else {
            lookup(e, k2)
        },
{
    let e2 = e.update(i, (e[i].0, x));
    assert forall|j: int| 0 <= j < e.len() implies #[trigger] e[j].0 == e2[j].0 by {}
    lemma_key_index_same_keys(e, e2, k2);
    lemma_key_index(e, k2);
}

} // verus!

verus! {

/// No two entries share a key.
pub open spec fn keys_unique<V>(e: Seq<(Seq<char>, V)>) -> bool {
    forall|i: int, j: int| 0 <= i < j < e.len() ==> (#[trigger] e[i]).0 != (#[trigger] e[j]).0
}

/// Well-formed category values: category ids are unique, and so are the
/// variable ids within each category, as in a map of maps.
pub open spec fn values_wf(cv: BucketsView) -> bool {
    keys_unique(cv) && forall|i: int| 0 <= i < cv.len() ==> keys_unique(#[trigger] cv[i].1)
}

pub proof fn lemma_ensure_field_unique(e: VarsView, k: Seq<char>, v: Seq<char>)
    requires
        keys_unique(e),
    ensures
        keys_unique(ensure_field_spec(e, k, v).0),
{
    lemma_key_index(e, k);
    let e2 = ensure_field_spec(e, k, v).0;
    assert forall|i: int, j: int| 0 <= i < j < e2.len() implies (#[trigger] e2[i]).0 != (
    #[trigger] e2[j]).0 by {
        if j == e.len() {
            assert(e2[i] == e[i]);
        } else {
            assert(e2[i].0 == e[i].0 && e2[j].0 == e[j].0);
        }
    }
}

/// Adding a missing bucket, or replacing the values of bucket `i` with
/// unique-keyed ones, keeps the values well formed.
pub proof fn lemma_buckets_wf_update(cv: BucketsView, i: int, g: VarsView)
    requires
        values_wf(cv),
        0 <= i < cv.len(),
        keys_unique(g),
    ensures
        values_wf(cv.update(i, (cv[i].0, g))),
{
    let c2 = cv.update(i, (cv[i].0, g));
    assert forall|a: int, b: int| 0 <= a < b < c2.len() implies (#[trigger] c2[a]).0 != (
    #[trigger] c2[b]).0 by {
        assert(c2[a].0 == cv[a].0 && c2[b].0 == cv[b].0);
    }
    assert forall|a: int| 0 <= a < c2.len() implies keys_unique(#[trigger] c2[a].1) by {
        if a != i {
            assert(c2[a] == cv[a]);
        }
    }
}

pub proof fn lemma_buckets_wf_push(cv: BucketsView, k: Seq<char>)
    requires
        values_wf(cv),
        key_index(cv, k) < 0,
    ensures
        values_wf(cv.push((k, seq![]))),
{
    lemma_key_index(cv, k);
    let c2 = cv.push((k, Seq::<(Seq<char>, Seq<char>)>::empty()));
    assert forall|a: int, b: int| 0 <= a < b < c2.len() implies (#[trigger] c2[a]).0 != (
    #[trigger] c2[b]).0 by {
        assert(c2[a] == cv[a]);
    }
    assert forall|a: int| 0 <= a < c2.len() implies keys_unique(#[trigger] c2[a].1) by {
        if a < cv.len() {
            assert(c2[a] == cv[a]);
        }
    }
}

} // verus!
