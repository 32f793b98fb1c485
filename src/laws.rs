use vstd::prelude::*;
use crate::model::{
    ensure_field_spec, first_non_blank, key_index, lemma_ensure_field, lemma_key_index,
    lemma_buckets_wf_push, lemma_buckets_wf_update, lemma_ensure_field_unique,
    lemma_key_index_push, lemma_update_value, lookup, non_blank_value, values_wf, BucketsView,
    VarsView,
};
use crate::catalogue::{
    active_integrity, any_normalized_changed, catalogue_normalized, each_normalized, first_active,
    flags_consistent, lemma_first_active, lemma_repaired_integrity, repaired, resolved_active,
    with_flag,
};
use crate::normalize::{
    dev_step, development_key, filled, general_key, general_step, non_blank_or_empty, normalized,
    text_or, unnamed, with_bucket,
};
use crate::project::{ProjectView, RawProjectView};
use crate::unique_ids::{dedup, ids_distinct, lemma_dedup, lemma_dedup_distinct, with_id};
use crate::text::{is_blank, is_space};

verus! {

/// The values of bucket `key`, or none.
pub open spec fn bucket_or_empty(cats: BucketsView, key: Seq<char>) -> VarsView {
    match lookup(cats, key) {
        Some(b) => b,
        None => seq![],
    }
}

proof fn lemma_with_bucket(cats: BucketsView, key: Seq<char>, k2: Seq<char>)
    ensures
        0 <= with_bucket(cats, key).1 < with_bucket(cats, key).0.len(),
        with_bucket(cats, key).0[with_bucket(cats, key).1].0 == key,
        key_index(with_bucket(cats, key).0, key) == with_bucket(cats, key).1,
        with_bucket(cats, key).0[with_bucket(cats, key).1].1 == bucket_or_empty(cats, key),
        key_index(cats, key) >= 0 ==> with_bucket(cats, key).0 == cats,
        k2 != key ==> lookup(with_bucket(cats, key).0, k2) == lookup(cats, k2),
{
    lemma_key_index(cats, key);
    lemma_key_index(cats, k2);
    if key_index(cats, key) < 0 {
        lemma_key_index_push(cats, (key, seq![]), key);
        lemma_key_index_push(cats, (key, seq![]), k2);
    }
}

/// Writing bucket `i` (whose key is `key`) back with new values.
proof fn lemma_write_bucket(c0: BucketsView, i: int, key: Seq<char>, g: VarsView, k2: Seq<char>)
    requires
        0 <= i < c0.len(),
        c0[i].0 == key,
        key_index(c0, key) == i,
    ensures
        lookup(c0.update(i, (key, g)), k2) == if k2 == key {
            Some(g)
        } else {
            lookup(c0, k2)
        },
{
    lemma_update_value(c0, i, g, k2);
    lemma_key_index(c0, k2);
}

proof fn lemma_keys_distinct()
    ensures
        general_key() != development_key(),
        "project_name"@ != "active_project_name"@,
        "project_name"@ != "project_description"@,
        "active_project_name"@ != "project_description"@,
        !is_blank(unnamed()),
        !is_blank(general_key()),
        !is_blank(development_key()),
{
    reveal_strlit("general");
    reveal_strlit("development");
    reveal_strlit("project_name");
    reveal_strlit("active_project_name");
    reveal_strlit("project_description");
    reveal_strlit("Unnamed Project");
    assert(general_key().len() != development_key().len());
    assert("project_name"@.len() != "active_project_name"@.len());
    assert("project_name"@.len() != "project_description"@.len());
    assert("active_project_name"@[0] != "project_description"@[0]);
    assert(!is_space(unnamed()[0]));
    assert(!is_space(general_key()[0]));
    assert(!is_space(development_key()[0]));
}

/// What the general step leaves in the general bucket.
proof fn lemma_general_step(cats: BucketsView, name: Seq<char>, desc: Option<Seq<char>>, k2: Seq<char>)
    ensures
        ({
            let (c1, nv, dv, _) = general_step(cats, name, desc);
            let g0 = bucket_or_empty(cats, general_key());
            &&& nv == if !is_blank(name) {
                name
            } else {
                text_or(first_non_blank(g0, "project_name"@, "active_project_name"@), unnamed())
            }
            &&& !is_blank(nv)
            &&& lookup(c1, general_key()) is Some
            &&& lookup(lookup(c1, general_key())->0, "project_name"@) == Some(nv)
            &&& lookup(lookup(c1, general_key())->0, "active_project_name"@) == Some(nv)
            &&& lookup(lookup(c1, general_key())->0, "project_description"@) == Some(
                non_blank_or_empty(dv),
            )
            &&& (is_blank(dv) ==> dv.len() == 0)
            &&& (filled(desc) ==> dv == desc->0)
            &&& (k2 != general_key() ==> lookup(c1, k2) == lookup(cats, k2))
        }),
{
    let pn = "project_name"@;
    let apn = "active_project_name"@;
    let pd = "project_description"@;
    lemma_keys_distinct();
    lemma_with_bucket(cats, general_key(), k2);
    let (c0, i) = with_bucket(cats, general_key());
    let g = c0[i].1;
    let (c1, nv, dv, _) = general_step(cats, name, desc);
    let (g1, _) = ensure_field_spec(g, pn, nv);
    let (g2, _) = ensure_field_spec(g1, apn, nv);
    let sv = non_blank_or_empty(dv);
    let (g3, _) = ensure_field_spec(g2, pd, sv);
    assert(!is_blank(nv)) by {
        if is_blank(name) {
            if let Some(x) = first_non_blank(g, pn, apn) {
                assert(x == nv);
            }
        }
    }
    lemma_ensure_field(g, pn, nv, pn);
    lemma_ensure_field(g1, apn, nv, pn);
    lemma_ensure_field(g1, apn, nv, apn);
    lemma_ensure_field(g, pn, nv, pd);
    lemma_ensure_field(g1, apn, nv, pd);
    lemma_ensure_field(g2, pd, sv, pn);
    lemma_ensure_field(g2, pd, sv, apn);
    lemma_ensure_field(g2, pd, sv, pd);
    lemma_write_bucket(c0, i, general_key(), g3, general_key());
    lemma_write_bucket(c0, i, general_key(), g3, k2);
    assert(is_blank(Seq::<char>::empty()));
}

/// The development step leaves every other bucket alone.
proof fn lemma_dev_step_other(cats: BucketsView, s: Seq<char>, d: Seq<char>, r: Seq<char>, l: Seq<char>, k2: Seq<char>)
    requires
        k2 != development_key(),
    ensures
        lookup(dev_step(cats, s, d, r, l).0, k2) == lookup(cats, k2),
{
    lemma_with_bucket(cats, development_key(), k2);
    let (c0, i) = with_bucket(cats, development_key());
    let (c2, _) = dev_step(cats, s, d, r, l);
    let v8 = c2[i].1;
    assert(c2 == c0.update(i, (development_key(), v8)));
    lemma_write_bucket(c0, i, development_key(), v8, k2);
}

/// A record with a blank name takes the non-blank project name stored in its
/// general bucket, and that stored name is left as it was.
pub proof fn lemma_name_resolved_from_general_bucket(
    raw: RawProjectView,
    fresh_id: Seq<char>,
    now: Seq<char>,
    stored: Seq<char>,
)
    requires
        is_blank(raw.name),
        !is_blank(stored),
        raw.category_values matches Some(cv) && lookup(cv, general_key()) matches Some(g) && lookup(
            g,
            "project_name"@,
        ) == Some(stored),
    ensures
        normalized(raw, fresh_id, now).0.name == stored,
        lookup(normalized(raw, fresh_id, now).0.category_values, general_key()) matches Some(g)
            && lookup(g, "project_name"@) == Some(stored),
{
    lemma_keys_distinct();
    let cv0 = raw.category_values->0;
    lemma_general_step(cv0, raw.name, raw.description, general_key());
    let (cv1, nv, dv, _) = general_step(cv0, raw.name, raw.description);
    assert(nv == stored);
    let p = normalized(raw, fresh_id, now).0;
    if p.category_values != cv1 {
        let (c2, _) = dev_step(
            cv1,
            crate::normalize::dev_value(cv1, raw.stack, "tech_stack"@, "active_project_stack"@),
            crate::normalize::dev_value(cv1, raw.directory, "directory"@, "active_project_directory"@),
            crate::normalize::dev_value(
                cv1,
                raw.restart_command,
                "restart_command"@,
                "active_project_restart_cmd"@,
            ),
            crate::normalize::dev_value(cv1, raw.log_command, "log_command"@, "active_project_log_cmd"@),
        );
        assert(p.category_values == c2);
        lemma_dev_step_other(
            cv1,
            crate::normalize::dev_value(cv1, raw.stack, "tech_stack"@, "active_project_stack"@),
            crate::normalize::dev_value(cv1, raw.directory, "directory"@, "active_project_directory"@),
            crate::normalize::dev_value(
                cv1,
                raw.restart_command,
                "restart_command"@,
                "active_project_restart_cmd"@,
            ),
            crate::normalize::dev_value(cv1, raw.log_command, "log_command"@, "active_project_log_cmd"@),
            general_key(),
        );
    }
}

} // verus!

verus! {

/// Both keys hold the same value, and that value is empty or not blank.
pub open spec fn pair_settled(b: VarsView, k1: Seq<char>, k2: Seq<char>) -> bool {
    lookup(b, k1) is Some && lookup(b, k2) == lookup(b, k1) && (lookup(b, k1)->0.len() == 0
        || !is_blank(lookup(b, k1)->0))
}

pub open spec fn dev_pairs_settled(b: VarsView) -> bool {
    pair_settled(b, "tech_stack"@, "active_project_stack"@) && pair_settled(
        b,
        "directory"@,
        "active_project_directory"@,
    ) && pair_settled(b, "restart_command"@, "active_project_restart_cmd"@) && pair_settled(
        b,
        "log_command"@,
        "active_project_log_cmd"@,
    )
}

pub open spec fn dev_pairs_empty(b: VarsView) -> bool {
    first_non_blank(b, "tech_stack"@, "active_project_stack"@) is None && first_non_blank(
        b,
        "directory"@,
        "active_project_directory"@,
    ) is None && first_non_blank(b, "restart_command"@, "active_project_restart_cmd"@) is None
        && first_non_blank(b, "log_command"@, "active_project_log_cmd"@) is None
}

/// The general bucket mirrors the name and the description.
pub open spec fn general_settled(q: ProjectView) -> bool {
    lookup(q.category_values, general_key()) matches Some(g) && lookup(g, "project_name"@) == Some(
        q.name,
    ) && lookup(g, "active_project_name"@) == Some(q.name) && lookup(g, "project_description"@)
        == Some(text_or(q.description, seq![]))
}

/// A project that normalisation leaves exactly as it is.
pub open spec fn is_normal(q: ProjectView) -> bool {
    &&& q.id.len() > 0
    &&& !is_blank(q.name)
    &&& !is_blank(q.category_id)
    &&& (q.description is None || filled(q.description))
    &&& general_settled(q)
    &&& ((lookup(q.category_values, development_key()) matches Some(b) && dev_pairs_settled(b)) || (
    q.category_id != development_key() && dev_pairs_empty(
        bucket_or_empty(q.category_values, development_key()),
    )))
}

proof fn lemma_dev_keys_distinct()
    ensures
        ({
            let ks = seq![
                "tech_stack"@,
                "active_project_stack"@,
                "directory"@,
                "active_project_directory"@,
                "restart_command"@,
                "active_project_restart_cmd"@,
                "log_command"@,
                "active_project_log_cmd"@,
            ];
            forall|i: int, j: int| 0 <= i < 8 && 0 <= j < 8 && i != j ==> #[trigger] ks[i] != #[trigger] ks[j]
        }),
{
    reveal_strlit("tech_stack");
    reveal_strlit("active_project_stack");
    reveal_strlit("directory");
    reveal_strlit("active_project_directory");
    reveal_strlit("restart_command");
    reveal_strlit("active_project_restart_cmd");
    reveal_strlit("log_command");
    reveal_strlit("active_project_log_cmd");
    let ks = seq![
        "tech_stack"@,
        "active_project_stack"@,
        "directory"@,
        "active_project_directory"@,
        "restart_command"@,
        "active_project_restart_cmd"@,
        "log_command"@,
        "active_project_log_cmd"@,
    ];
    assert forall|i: int, j: int| 0 <= i < 8 && 0 <= j < 8 && i != j implies #[trigger] ks[i]
        != #[trigger] ks[j] by {
        assert(ks[i].len() != ks[j].len());
    }
}

/// Writing one value under a key and its alias.
proof fn lemma_write_pair(b: VarsView, k1: Seq<char>, k2: Seq<char>, v: Seq<char>, k3: Seq<char>)
    requires
        k1 != k2,
        !is_blank(v) || (v.len() == 0 && first_non_blank(b, k1, k2) is None),
    ensures
        ({
            let b2 = ensure_field_spec(ensure_field_spec(b, k1, v).0, k2, v).0;
            &&& lookup(b2, k1) == Some(v)
            &&& lookup(b2, k2) == Some(v)
            &&& (k3 != k1 && k3 != k2 ==> lookup(b2, k3) == lookup(b, k3))
        }),
{
    let b1 = ensure_field_spec(b, k1, v).0;
    lemma_ensure_field(b, k1, v, k1);
    lemma_ensure_field(b, k1, v, k2);
    lemma_ensure_field(b, k1, v, k3);
    lemma_ensure_field(b1, k2, v, k1);
    lemma_ensure_field(b1, k2, v, k2);
    lemma_ensure_field(b1, k2, v, k3);
}

/// A pair of values that the development step can settle.
pub open spec fn settles(b: VarsView, k1: Seq<char>, k2: Seq<char>, v: Seq<char>) -> bool {
    !is_blank(v) || (v.len() == 0 && first_non_blank(b, k1, k2) is None)
}

proof fn lemma_dev_step_settles(cats: BucketsView, s: Seq<char>, d: Seq<char>, r: Seq<char>, l: Seq<char>)
    requires
        ({
            let b = bucket_or_empty(cats, development_key());
            &&& settles(b, "tech_stack"@, "active_project_stack"@, s)
            &&& settles(b, "directory"@, "active_project_directory"@, d)
            &&& settles(b, "restart_command"@, "active_project_restart_cmd"@, r)
            &&& settles(b, "log_command"@, "active_project_log_cmd"@, l)
        }),
    ensures
        lookup(dev_step(cats, s, d, r, l).0, development_key()) matches Some(b) && dev_pairs_settled(b),
{
    lemma_dev_keys_distinct();
    let ks = seq![
        "tech_stack"@,
        "active_project_stack"@,
        "directory"@,
        "active_project_directory"@,
        "restart_command"@,
        "active_project_restart_cmd"@,
        "log_command"@,
        "active_project_log_cmd"@,
    ];
    assert(ks[0] != ks[1] && ks[2] != ks[3] && ks[4] != ks[5] && ks[6] != ks[7]);
    lemma_with_bucket(cats, development_key(), development_key());
    let (c0, i) = with_bucket(cats, development_key());
    let b0 = c0[i].1;
    let b2 = ensure_field_spec(ensure_field_spec(b0, ks[0], s).0, ks[1], s).0;
    let b4 = ensure_field_spec(ensure_field_spec(b2, ks[2], d).0, ks[3], d).0;
    let b6 = ensure_field_spec(ensure_field_spec(b4, ks[4], r).0, ks[5], r).0;
    let b8 = ensure_field_spec(ensure_field_spec(b6, ks[6], l).0, ks[7], l).0;
    // first pair
    lemma_write_pair(b0, ks[0], ks[1], s, ks[2]);
    lemma_write_pair(b0, ks[0], ks[1], s, ks[3]);
    lemma_write_pair(b0, ks[0], ks[1], s, ks[4]);
    lemma_write_pair(b0, ks[0], ks[1], s, ks[5]);
    lemma_write_pair(b0, ks[0], ks[1], s, ks[6]);
    lemma_write_pair(b0, ks[0], ks[1], s, ks[7]);
    // second pair
    lemma_write_pair(b2, ks[2], ks[3], d, ks[0]);
    lemma_write_pair(b2, ks[2], ks[3], d, ks[1]);
    lemma_write_pair(b2, ks[2], ks[3], d, ks[4]);
    lemma_write_pair(b2, ks[2], ks[3], d, ks[5]);
    lemma_write_pair(b2, ks[2], ks[3], d, ks[6]);
    lemma_write_pair(b2, ks[2], ks[3], d, ks[7]);
    // third pair
    lemma_write_pair(b4, ks[4], ks[5], r, ks[0]);
    lemma_write_pair(b4, ks[4], ks[5], r, ks[1]);
    lemma_write_pair(b4, ks[4], ks[5], r, ks[2]);
    lemma_write_pair(b4, ks[4], ks[5], r, ks[3]);
    lemma_write_pair(b4, ks[4], ks[5], r, ks[6]);
    lemma_write_pair(b4, ks[4], ks[5], r, ks[7]);
    // fourth pair
    lemma_write_pair(b6, ks[6], ks[7], l, ks[0]);
    lemma_write_pair(b6, ks[6], ks[7], l, ks[1]);
    lemma_write_pair(b6, ks[6], ks[7], l, ks[2]);
    lemma_write_pair(b6, ks[6], ks[7], l, ks[3]);
    lemma_write_pair(b6, ks[6], ks[7], l, ks[4]);
    lemma_write_pair(b6, ks[6], ks[7], l, ks[5]);
    assert(dev_step(cats, s, d, r, l).0 == c0.update(i, (development_key(), b8)));
    lemma_write_bucket(c0, i, development_key(), b8, development_key());
}

} // verus!

verus! {

proof fn lemma_dev_value_settles(cats: BucketsView, explicit: Option<Seq<char>>, k1: Seq<char>, k2: Seq<char>)
    ensures
        settles(
            bucket_or_empty(cats, development_key()),
            k1,
            k2,
            crate::normalize::dev_value(cats, explicit, k1, k2),
        ),
        is_blank(crate::normalize::dev_value(cats, explicit, k1, k2)) ==> !filled(explicit)
            && first_non_blank(bucket_or_empty(cats, development_key()), k1, k2) is None,
{
    assert(is_blank(Seq::<char>::empty()));
}

/// One normalisation pass yields a project that normalisation leaves alone,
/// provided the fresh id is not empty.
proof fn lemma_normalized_is_normal(raw: RawProjectView, fresh_id: Seq<char>, now: Seq<char>)
    requires
        fresh_id.len() > 0,
    ensures
        is_normal(normalized(raw, fresh_id, now).0),
{
    lemma_keys_distinct();
    let p = normalized(raw, fresh_id, now).0;
    let cv0 = match raw.category_values {
        Some(c) => c,
        None => seq![],
    };
    lemma_general_step(cv0, raw.name, raw.description, development_key());
    let (cv1, nv, dv, _) = general_step(cv0, raw.name, raw.description);
    let s = crate::normalize::dev_value(cv1, raw.stack, "tech_stack"@, "active_project_stack"@);
    let d = crate::normalize::dev_value(cv1, raw.directory, "directory"@, "active_project_directory"@);
    let r = crate::normalize::dev_value(
        cv1,
        raw.restart_command,
        "restart_command"@,
        "active_project_restart_cmd"@,
    );
    let l = crate::normalize::dev_value(cv1, raw.log_command, "log_command"@, "active_project_log_cmd"@);
    lemma_dev_value_settles(cv1, raw.stack, "tech_stack"@, "active_project_stack"@);
    lemma_dev_value_settles(cv1, raw.directory, "directory"@, "active_project_directory"@);
    lemma_dev_value_settles(cv1, raw.restart_command, "restart_command"@, "active_project_restart_cmd"@);
    lemma_dev_value_settles(cv1, raw.log_command, "log_command"@, "active_project_log_cmd"@);
    let dev_needed = crate::normalize::has_dev_fields(raw) || crate::normalize::resolved_category(raw)
        == development_key() || !is_blank(s) || !is_blank(d) || !is_blank(r) || !is_blank(l);
    if dev_needed {
        lemma_dev_step_settles(cv1, s, d, r, l);
        lemma_dev_step_other(cv1, s, d, r, l, general_key());
    } else {
        let b = bucket_or_empty(cv1, development_key());
        assert(first_non_blank(b, "tech_stack"@, "active_project_stack"@) is None);
        assert(first_non_blank(b, "directory"@, "active_project_directory"@) is None);
        assert(first_non_blank(b, "restart_command"@, "active_project_restart_cmd"@) is None);
        assert(first_non_blank(b, "log_command"@, "active_project_log_cmd"@) is None);
        assert(p.category_values == cv1);
    }
    assert(is_blank(Seq::<char>::empty()));
    assert(general_settled(p));
}

/// A normal project read back and normalised again comes out the same, with
/// nothing reported changed.
proof fn lemma_normal_is_fixed(q: ProjectView, fresh_id: Seq<char>, now: Seq<char>)
    requires
        is_normal(q),
    ensures
        normalized(crate::project::as_raw(q), fresh_id, now) == (q, false),
{
    lemma_keys_distinct();
    lemma_dev_keys_distinct();
    let pn = "project_name"@;
    let apn = "active_project_name"@;
    let pd = "project_description"@;
    let raw = crate::project::as_raw(q);
    let cv = q.category_values;
    lemma_key_index(cv, general_key());
    let gi = key_index(cv, general_key());
    let g = cv[gi].1;
    assert(with_bucket(cv, general_key()) == (cv, gi));
    let dv = match q.description {
        Some(x) => x,
        None => text_or(non_blank_value(g, pd), seq![]),
    };
    assert(dv == text_or(q.description, seq![])) by {
        if q.description is None {
            assert(dv =~= Seq::<char>::empty());
        }
    }
    lemma_ensure_field(g, pn, q.name, pn);
    lemma_ensure_field(g, apn, q.name, apn);
    lemma_ensure_field(g, pd, dv, pd);
    assert(cv.update(gi, (general_key(), g)) =~= cv);
    let (cv1, nv, dv1, gch) = general_step(cv, q.name, q.description);
    assert(cv1 == cv && nv == q.name && dv1 == dv && !gch);
    let ks = seq![
        "tech_stack"@,
        "active_project_stack"@,
        "directory"@,
        "active_project_directory"@,
        "restart_command"@,
        "active_project_restart_cmd"@,
        "log_command"@,
        "active_project_log_cmd"@,
    ];
    let b = bucket_or_empty(cv, development_key());
    let s = crate::normalize::dev_value(cv, None, ks[0], ks[1]);
    let d = crate::normalize::dev_value(cv, None, ks[2], ks[3]);
    let r = crate::normalize::dev_value(cv, None, ks[4], ks[5]);
    let l = crate::normalize::dev_value(cv, None, ks[6], ks[7]);
    if lookup(cv, development_key()) matches Some(bb) && dev_pairs_settled(bb) {
        assert(s == lookup(b, ks[0])->0) by {
            if lookup(b, ks[0])->0.len() == 0 {
                assert(s =~= lookup(b, ks[0])->0);
            }
        }
        assert(d == lookup(b, ks[2])->0) by {
            if lookup(b, ks[2])->0.len() == 0 {
                assert(d =~= lookup(b, ks[2])->0);
            }
        }
        assert(r == lookup(b, ks[4])->0) by {
            if lookup(b, ks[4])->0.len() == 0 {
                assert(r =~= lookup(b, ks[4])->0);
            }
        }
        assert(l == lookup(b, ks[6])->0) by {
            if lookup(b, ks[6])->0.len() == 0 {
                assert(l =~= lookup(b, ks[6])->0);
            }
        }
        lemma_key_index(cv, development_key());
        let di = key_index(cv, development_key());
        assert(with_bucket(cv, development_key()) == (cv, di));
        lemma_ensure_field(b, ks[0], s, ks[0]);
        lemma_ensure_field(b, ks[1], s, ks[1]);
        lemma_ensure_field(b, ks[2], d, ks[2]);
        lemma_ensure_field(b, ks[3], d, ks[3]);
        lemma_ensure_field(b, ks[4], r, ks[4]);
        lemma_ensure_field(b, ks[5], r, ks[5]);
        lemma_ensure_field(b, ks[6], l, ks[6]);
        lemma_ensure_field(b, ks[7], l, ks[7]);
        assert(cv.update(di, (development_key(), b)) =~= cv);
        assert(dev_step(cv, s, d, r, l) == (cv, false));
    } else {
        assert(s =~= Seq::<char>::empty());
        assert(d =~= Seq::<char>::empty());
        assert(r =~= Seq::<char>::empty());
        assert(l =~= Seq::<char>::empty());
    }
    let out = normalized(raw, fresh_id, now);
    assert(out.0.category_values == cv);
    assert(!out.1);
    assert(out.0 == q);
}

} // verus!

verus! {

/// The records that reading a saved catalogue back gives.
pub open spec fn read_back(ps: Seq<ProjectView>) -> Seq<RawProjectView> {
    Seq::new(ps.len(), |i: int| crate::project::as_raw(ps[i]))
}

/// Normalising a catalogue, saving it and normalising what reads back reports
/// no change and gives the same catalogue, for every record (fresh ids being
/// non-empty).
pub proof fn lemma_normalize_idempotent(
    raws: Seq<RawProjectView>,
    active: Option<Seq<char>>,
    ids: Seq<Seq<char>>,
    nows: Seq<Seq<char>>,
    dids: Seq<Seq<char>>,
    ids2: Seq<Seq<char>>,
    nows2: Seq<Seq<char>>,
    dids2: Seq<Seq<char>>,
)
    requires
        ids.len() == raws.len(),
        nows.len() == raws.len(),
        dids.len() == raws.len(),
        ids2.len() == raws.len(),
        nows2.len() == raws.len(),
        forall|i: int| 0 <= i < ids.len() ==> (#[trigger] ids[i]).len() > 0,
        forall|i: int| 0 <= i < dids.len() ==> (#[trigger] dids[i]).len() > 0,
    ensures
        ({
            let (ps, a, _) = catalogue_normalized(raws, active, ids, nows, dids);
            catalogue_normalized(read_back(ps), a, ids2, nows2, dids2) == (ps, a, false)
        }),
{
    let ps0 = each_normalized(raws, ids, nows);
    assert forall|i: int| 0 <= i < ps0.len() implies is_normal(#[trigger] ps0[i]) by {
        lemma_normalized_is_normal(raws[i], ids[i], nows[i]);
    }
    lemma_dedup(ps0, dids);
    let (pu, _) = dedup(ps0, dids);
    assert forall|i: int| 0 <= i < ps0.len() implies (#[trigger] ps0[i]).id.len() > 0
        && dids[i].len() > 0 by {
        assert(is_normal(ps0[i]));
    }
    assert forall|i: int| 0 <= i < pu.len() implies is_normal(#[trigger] pu[i]) by {
        assert(pu[i] == with_id(ps0[i], pu[i].id));
        assert(is_normal(ps0[i]));
    }
    lemma_repaired_integrity(pu, active);
    lemma_first_active(pu);
    let (ps, a, _) = catalogue_normalized(raws, active, ids, nows, dids);
    assert(ps == repaired(pu, active).0);
    assert forall|i: int| 0 <= i < ps.len() implies is_normal(#[trigger] ps[i]) by {
        let (a0, _) = resolved_active(pu, active);
        if !flags_consistent(pu, a0) {
            assert(ps[i] == with_flag(pu[i], a0));
        }
        assert(is_normal(pu[i]));
    }
    assert(ids_distinct(ps)) by {
        assert forall|i: int, j: int| 0 <= i < j < ps.len() implies (#[trigger] ps[i]).id != (
        #[trigger] ps[j]).id by {
            assert(ps[i].id == pu[i].id && ps[j].id == pu[j].id);
        }
    }
    let raws2 = read_back(ps);
    assert forall|i: int| 0 <= i < ps.len() implies #[trigger] normalized(raws2[i], ids2[i], nows2[i])
        == (ps[i], false) by {
        lemma_normal_is_fixed(ps[i], ids2[i], nows2[i]);
    }
    let ps1 = each_normalized(raws2, ids2, nows2);
    assert(ps1 =~= ps);
    lemma_dedup_distinct(ps, dids2);
    assert(!any_normalized_changed(raws2, ids2, nows2)) by {
        if any_normalized_changed(raws2, ids2, nows2) {
            let i = choose|i: int|
                0 <= i < raws2.len() && (#[trigger] normalized(raws2[i], ids2[i], nows2[i])).1;
            assert(normalized(raws2[i], ids2[i], nows2[i]) == (ps[i], false));
        }
    }
    assert(active_integrity(ps, a));
    lemma_first_active(ps);
    if a is None {
        assert(first_active(ps) < 0) by {
            if first_active(ps) >= 0 {
                assert(ps[first_active(ps)].is_active);
            }
        }
    }
    assert(resolved_active(ps, a) == (a, false));
    assert(repaired(ps, a) == (ps, a, false));
}

} // verus!

verus! {

proof fn lemma_with_bucket_wf(cats: BucketsView, key: Seq<char>)
    requires
        values_wf(cats),
    ensures
        values_wf(with_bucket(cats, key).0),
{
    if key_index(cats, key) < 0 {
        lemma_buckets_wf_push(cats, key);
    }
}

/// Normalisation keeps the category values well formed.
pub proof fn lemma_normalized_wf(raw: RawProjectView, fresh_id: Seq<char>, now: Seq<char>)
    requires
        values_wf(
            match raw.category_values {
                Some(c) => c,
                None => seq![],
            },
        ),
    ensures
        values_wf(normalized(raw, fresh_id, now).0.category_values),
{
    let cv0 = match raw.category_values {
        Some(c) => c,
        None => seq![],
    };
    lemma_with_bucket_wf(cv0, general_key());
    lemma_with_bucket(cv0, general_key(), general_key());
    let (c0, i) = with_bucket(cv0, general_key());
    let g = c0[i].1;
    let (cv1, nv, dv, _) = general_step(cv0, raw.name, raw.description);
    let g1 = ensure_field_spec(g, "project_name"@, nv).0;
    let g2 = ensure_field_spec(g1, "active_project_name"@, nv).0;
    let g3 = ensure_field_spec(g2, "project_description"@, non_blank_or_empty(dv)).0;
    lemma_ensure_field_unique(g, "project_name"@, nv);
    lemma_ensure_field_unique(g1, "active_project_name"@, nv);
    lemma_ensure_field_unique(g2, "project_description"@, non_blank_or_empty(dv));
    lemma_buckets_wf_update(c0, i, g3);
    assert(cv1 == c0.update(i, (c0[i].0, g3)));
    let s = crate::normalize::dev_value(cv1, raw.stack, "tech_stack"@, "active_project_stack"@);
    let d = crate::normalize::dev_value(cv1, raw.directory, "directory"@, "active_project_directory"@);
    let r = crate::normalize::dev_value(
        cv1,
        raw.restart_command,
        "restart_command"@,
        "active_project_restart_cmd"@,
    );
    let l = crate::normalize::dev_value(cv1, raw.log_command, "log_command"@, "active_project_log_cmd"@);
    lemma_with_bucket_wf(cv1, development_key());
    lemma_with_bucket(cv1, development_key(), development_key());
    let (d0, j) = with_bucket(cv1, development_key());
    let v0 = d0[j].1;
    let v1 = ensure_field_spec(v0, "tech_stack"@, s).0;
    let v2 = ensure_field_spec(v1, "active_project_stack"@, s).0;
    let v3 = ensure_field_spec(v2, "directory"@, d).0;
    let v4 = ensure_field_spec(v3, "active_project_directory"@, d).0;
    let v5 = ensure_field_spec(v4, "restart_command"@, r).0;
    let v6 = ensure_field_spec(v5, "active_project_restart_cmd"@, r).0;
    let v7 = ensure_field_spec(v6, "log_command"@, l).0;
    let v8 = ensure_field_spec(v7, "active_project_log_cmd"@, l).0;
    lemma_ensure_field_unique(v0, "tech_stack"@, s);
    lemma_ensure_field_unique(v1, "active_project_stack"@, s);
    lemma_ensure_field_unique(v2, "directory"@, d);
    lemma_ensure_field_unique(v3, "active_project_directory"@, d);
    lemma_ensure_field_unique(v4, "restart_command"@, r);
    lemma_ensure_field_unique(v5, "active_project_restart_cmd"@, r);
    lemma_ensure_field_unique(v6, "log_command"@, l);
    lemma_ensure_field_unique(v7, "active_project_log_cmd"@, l);
    lemma_buckets_wf_update(d0, j, v8);
    assert(dev_step(cv1, s, d, r, l).0 == d0.update(j, (d0[j].0, v8)));
}

} // verus!

verus! {

/// After normalisation no two projects share an id, and with non-empty fresh
/// ids every id is non-empty.
pub proof fn lemma_catalogue_ids_unique(
    raws: Seq<RawProjectView>,
    active: Option<Seq<char>>,
    ids: Seq<Seq<char>>,
    nows: Seq<Seq<char>>,
    dids: Seq<Seq<char>>,
)
    requires
        ids.len() == raws.len(),
        nows.len() == raws.len(),
        dids.len() == raws.len(),
    ensures
        ids_distinct(catalogue_normalized(raws, active, ids, nows, dids).0),
        (forall|i: int| 0 <= i < raws.len() ==> (#[trigger] ids[i]).len() > 0 && dids[i].len() > 0)
            ==> forall|i: int|
            0 <= i < raws.len() ==> (#[trigger] catalogue_normalized(
                raws,
                active,
                ids,
                nows,
                dids,
            ).0[i]).id.len() > 0,
{
    let ps0 = each_normalized(raws, ids, nows);
    lemma_dedup(ps0, dids);
    let (pu, _) = dedup(ps0, dids);
    lemma_repaired_integrity(pu, active);
    let ps = catalogue_normalized(raws, active, ids, nows, dids).0;
    assert forall|i: int, j: int| 0 <= i < j < ps.len() implies (#[trigger] ps[i]).id != (
    #[trigger] ps[j]).id by {
        assert(ps[i].id == pu[i].id && ps[j].id == pu[j].id);
    }
    if forall|i: int| 0 <= i < raws.len() ==> (#[trigger] ids[i]).len() > 0 && dids[i].len() > 0 {
        assert forall|i: int| 0 <= i < ps0.len() implies (#[trigger] ps0[i]).id.len() > 0
            && dids[i].len() > 0 by {
            assert(ids[i].len() > 0);
        }
        assert forall|i: int| 0 <= i < raws.len() implies (#[trigger] ps[i]).id.len() > 0 by {
            assert(ps[i].id == pu[i].id);
        }
    }
}

} // verus!
