use vstd::prelude::*;
use crate::model::{
    ensure_field, ensure_field_spec, find_key, first_non_blank, first_non_blank_of, key_index,
    lemma_key_index, lookup, non_blank_value, non_blank_value_of, values_wf, BucketsView,
    CategoryValues, VariableValues,
};
use crate::project::{Project, ProjectView, RawProject, RawProjectView};
use crate::text::{is_blank, is_blank_str};

verus! {

pub open spec fn general_key() -> Seq<char> {
    "general"@
}

pub open spec fn development_key() -> Seq<char> {
    "development"@
}

pub open spec fn unnamed() -> Seq<char> {
    "Unnamed Project"@
}

pub open spec fn text_or(o: Option<Seq<char>>, d: Seq<char>) -> Seq<char> {
    match o {
        Some(s) => s,
        None => d,
    }
}

/// A field that is there and not blank.
pub open spec fn filled(o: Option<Seq<char>>) -> bool {
    match o {
        Some(s) => !is_blank(s),
        None => false,
    }
}

/// Some flat development field of the record is filled.
pub open spec fn has_dev_fields(raw: RawProjectView) -> bool {
    filled(raw.stack) || filled(raw.directory) || filled(raw.restart_command) || filled(
        raw.log_command,
    )
}

/// The category a record ends up in.
pub open spec fn resolved_category(raw: RawProjectView) -> Seq<char> {
    let c = text_or(raw.category_id, seq![]);
    if !is_blank(c) {
        c
    } else if has_dev_fields(raw) {
        development_key()
    } else {
        general_key()
    }
}

/// Makes sure a bucket `key` exists: the buckets afterwards and the bucket's
/// position.
pub open spec fn with_bucket(cats: BucketsView, key: Seq<char>) -> (BucketsView, int) {
    let i = key_index(cats, key);
    if i >= 0 {
        (cats, i)
    } else {
        (cats.push((key, seq![])), cats.len() as int)
    }
}

/// The general bucket after the name and the description are mirrored into
/// it: the buckets, the resolved name, the resolved description text, and
/// whether anything changed.
pub open spec fn general_step(cats: BucketsView, name: Seq<char>, desc: Option<Seq<char>>) -> (
    BucketsView,
    Seq<char>,
    Seq<char>,
    bool,
) {
    let (c0, i) = with_bucket(cats, general_key());
    let g = c0[i].1;
    let nv = if !is_blank(name) {
        name
    } else {
        text_or(first_non_blank(g, "project_name"@, "active_project_name"@), unnamed())
    };
    let (g1, ch1) = ensure_field_spec(g, "project_name"@, nv);
    let (g2, ch2) = ensure_field_spec(g1, "active_project_name"@, nv);
    let dv = if filled(desc) {
        desc->0
    } else {
        text_or(non_blank_value(g2, "project_description"@), seq![])
    };
    let (g3, ch3) = ensure_field_spec(g2, "project_description"@, non_blank_or_empty(dv));
    (c0.update(i, (general_key(), g3)), nv, dv, key_index(cats, general_key()) < 0 || ch1 || ch2
        || ch3)
}

/// The text itself, or empty text when it is blank.
pub open spec fn non_blank_or_empty(v: Seq<char>) -> Seq<char> {
    if is_blank(v) {
        seq![]
    } else {
        v
    }
}

/// A development value: the explicit field if it is not blank, else the first
/// non-blank of the canonical key and its alias in the development bucket,
/// else empty text.
pub open spec fn dev_value(cats: BucketsView, explicit: Option<Seq<char>>, k1: Seq<char>, k2: Seq<char>) -> Seq<char> {
    if filled(explicit) {
        explicit->0
    } else {
        match lookup(cats, development_key()) {
            Some(d) => text_or(first_non_blank(d, k1, k2), seq![]),
            None => seq![],
        }
    }
}

/// The development bucket after the four values are written under their
/// canonical keys and their aliases.
pub open spec fn dev_step(cats: BucketsView, s: Seq<char>, d: Seq<char>, r: Seq<char>, l: Seq<char>) -> (
    BucketsView,
    bool,
) {
    let (c0, i) = with_bucket(cats, development_key());
    let (v1, ch1) = ensure_field_spec(c0[i].1, "tech_stack"@, s);
    let (v2, ch2) = ensure_field_spec(v1, "active_project_stack"@, s);
    let (v3, ch3) = ensure_field_spec(v2, "directory"@, d);
    let (v4, ch4) = ensure_field_spec(v3, "active_project_directory"@, d);
    let (v5, ch5) = ensure_field_spec(v4, "restart_command"@, r);
    let (v6, ch6) = ensure_field_spec(v5, "active_project_restart_cmd"@, r);
    let (v7, ch7) = ensure_field_spec(v6, "log_command"@, l);
    let (v8, ch8) = ensure_field_spec(v7, "active_project_log_cmd"@, l);
    (c0.update(i, (development_key(), v8)), key_index(cats, development_key()) < 0 || ch1 || ch2
        || ch3 || ch4 || ch5 || ch6 || ch7 || ch8)
}

/// The normalised record and whether normalisation changed it; `fresh_id`
/// stands in for a missing id and `now` for the current time.
pub open spec fn normalized(raw: RawProjectView, fresh_id: Seq<char>, now: Seq<char>) -> (ProjectView, bool) {
    let id_missing = match raw.id {
        Some(id) => id.len() == 0,
        None => true,
    };
    let category = resolved_category(raw);
    let category_changed = is_blank(text_or(raw.category_id, seq![]));
    let cv0 = match raw.category_values {
        Some(c) => c,
        None => seq![],
    };
    let (cv1, nv, dv, general_changed) = general_step(cv0, raw.name, raw.description);
    let s = dev_value(cv1, raw.stack, "tech_stack"@, "active_project_stack"@);
    let d = dev_value(cv1, raw.directory, "directory"@, "active_project_directory"@);
    let r = dev_value(cv1, raw.restart_command, "restart_command"@, "active_project_restart_cmd"@);
    let l = dev_value(cv1, raw.log_command, "log_command"@, "active_project_log_cmd"@);
    let dev_needed = has_dev_fields(raw) || category == development_key() || !is_blank(s)
        || !is_blank(d) || !is_blank(r) || !is_blank(l);
    let (cv2, dev_changed) = if dev_needed {
        dev_step(cv1, s, d, r, l)
    } else {
        (cv1, false)
    };
    let description = if is_blank(dv) {
        None
    } else {
        Some(dv)
    };
    let changed = id_missing || raw.created_at is None || raw.updated_at is None
        || category_changed || raw.category_values is None || general_changed || dev_changed
        || description != raw.description || raw.name != nv;
    (
        ProjectView {
            id: if id_missing {
                fresh_id
            } else {
                raw.id->0
            },
            name: nv,
            description,
            category_id: category,
            is_active: match raw.is_active {
                Some(b) => b,
                None => false,
            },
            created_at: text_or(raw.created_at, now),
            updated_at: if changed {
                now
            } else {
                raw.updated_at->0
            },
            category_values: cv2,
        },
        changed,
    )
}

/// Makes sure a bucket `key` exists and returns its position.
fn ensure_bucket(cats: &mut CategoryValues, key: &str) -> (i: usize)
    ensures
        final(cats).deep_view() == with_bucket(old(cats).deep_view(), key@).0,
        i as int == with_bucket(old(cats).deep_view(), key@).1,
        i < final(cats)@.len(),
{
    match find_key(cats, key) {
        Some(i) => i,
        None => {
            let ghost before = cats.deep_view();
            let empty: VariableValues = Vec::new();
            assert(empty.deep_view() =~= Seq::<(Seq<char>, Seq<char>)>::empty());
            cats.push((String::from_str(key), empty));
            assert(cats.deep_view() =~= before.push((key@, seq![])));
            cats.len() - 1
        },
    }
}

/// Takes the values of bucket `i` out, leaving an empty bucket in its place.
fn take_bucket(cats: &mut CategoryValues, i: usize) -> (r: (String, VariableValues))
    requires
        i < old(cats)@.len(),
    ensures
        final(cats)@.len() == old(cats)@.len(),
        r == old(cats)@[i as int],
        forall|j: int| 0 <= j < old(cats)@.len() && j != i ==> final(cats)@[j] == old(cats)@[j],
{
    let mut entry: (String, VariableValues) = (String::new(), Vec::new());
    cats.set_and_swap(i, &mut entry);
    entry
}

/// Puts bucket `i` back with the given values.
fn put_bucket(cats: &mut CategoryValues, i: usize, key: String, values: VariableValues)
    requires
        i < old(cats)@.len(),
    ensures
        final(cats)@ == old(cats)@.update(i as int, (key, values)),
{
    let mut entry = (key, values);
    cats.set_and_swap(i, &mut entry);
}

fn general_step_exec(cats: &mut CategoryValues, name: &str, desc: &Option<String>) -> (r: (
    String,
    String,
    bool,
))
    ensures
        (final(cats).deep_view(), r.0@, r.1@, r.2) == general_step(
            old(cats).deep_view(),
            name@,
            desc.deep_view(),
        ),
{
    let ghost start = cats.deep_view();
    let inserted = find_key(cats, "general").is_none();
    let i = ensure_bucket(cats, "general");
    let ghost c0 = cats.deep_view();
    proof {
        lemma_key_index(start, general_key());
        lemma_key_index(c0, general_key());
    }
    let (key, mut g) = take_bucket(cats, i);
    assert(g.deep_view() == c0[i as int].1);
    let nv = if !is_blank_str(name) {
        String::from_str(name)
    } else {
        match first_non_blank_of(&g, "project_name", "active_project_name") {
            Some(v) => v,
            None => String::from_str("Unnamed Project"),
        }
    };
    let ch1 = ensure_field(&mut g, "project_name", nv.as_str());
    let ch2 = ensure_field(&mut g, "active_project_name", nv.as_str());
    let explicit = match desc {
        Some(d) => !is_blank_str(d.as_str()),
        None => false,
    };
    let dv = if explicit {
        match desc {
            Some(d) => d.clone(),
            None => String::new(),
        }
    } else {
        match non_blank_value_of(&g, "project_description") {
            Some(v) => v,
            None => String::new(),
        }
    };
    let stored = if is_blank_str(dv.as_str()) {
        String::new()
    } else {
        dv.clone()
    };
    let ch3 = ensure_field(&mut g, "project_description", stored.as_str());
    let ghost gv = g.deep_view();
    put_bucket(cats, i, key, g);
    proof {
        assert(key@ == general_key());
        assert(cats.deep_view() =~= c0.update(i as int, (general_key(), gv)));
    }
    (nv, dv, inserted || ch1 || ch2 || ch3)
}

fn dev_value_exec(cats: &CategoryValues, explicit: Option<String>, k1: &str, k2: &str) -> (r: String)
    ensures
        r@ == dev_value(cats.deep_view(), explicit.deep_view(), k1@, k2@),
{
    if is_filled(&explicit) {
        match explicit {
            Some(v) => {
                return v;
            },
            None => {},
        }
    }
    match find_key(cats, "development") {
        Some(i) => {
            proof {
                assert(cats.deep_view()[i as int].1 == cats@[i as int].1.deep_view());
            }
            match first_non_blank_of(&cats[i].1, k1, k2) {
                Some(v) => v,
                None => String::new(),
            }
        },
        None => String::new(),
    }
}

fn dev_step_exec(cats: &mut CategoryValues, s: &str, d: &str, r: &str, l: &str) -> (changed: bool)
    ensures
        (final(cats).deep_view(), changed) == dev_step(old(cats).deep_view(), s@, d@, r@, l@),
{
    let inserted = find_key(cats, "development").is_none();
    let i = ensure_bucket(cats, "development");
    let ghost c0 = cats.deep_view();
    proof {
        lemma_key_index(c0, development_key());
    }
    let (key, mut v) = take_bucket(cats, i);
    assert(v.deep_view() == c0[i as int].1);
    let ch1 = ensure_field(&mut v, "tech_stack", s);
    let ch2 = ensure_field(&mut v, "active_project_stack", s);
    let ch3 = ensure_field(&mut v, "directory", d);
    let ch4 = ensure_field(&mut v, "active_project_directory", d);
    let ch5 = ensure_field(&mut v, "restart_command", r);
    let ch6 = ensure_field(&mut v, "active_project_restart_cmd", r);
    let ch7 = ensure_field(&mut v, "log_command", l);
    let ch8 = ensure_field(&mut v, "active_project_log_cmd", l);
    let ghost vv = v.deep_view();
    put_bucket(cats, i, key, v);
    proof {
        assert(key@ == development_key());
        assert(cats.deep_view() =~= c0.update(i as int, (development_key(), vv)));
    }
    inserted || ch1 || ch2 || ch3 || ch4 || ch5 || ch6 || ch7 || ch8
}

fn is_filled(o: &Option<String>) -> (r: bool)
    ensures
        r == filled(o.deep_view()),
{
    match o {
        Some(s) => !is_blank_str(s.as_str()),
        None => false,
    }
}

/// Repairs one record into the current schema, with `fresh_id` as the id of a
/// record that has none and `now` as the current time; also says whether
/// anything had to change.
pub fn normalize_project_at(raw: RawProject, fresh_id: String, now: String) -> (r: (Project, bool))
    ensures
        (r.0@, r.1) == normalized(raw@, fresh_id@, now@),
        values_wf(
            match raw@.category_values {
                Some(c) => c,
                None => seq![],
            },
        ) ==> values_wf(r.0@.category_values),
{
    proof {
        if values_wf(
            match raw@.category_values {
                Some(c) => c,
                None => seq![],
            },
        ) {
            crate::laws::lemma_normalized_wf(raw@, fresh_id@, now@);
        }
    }
    let ghost rv = raw@;
    let RawProject {
        id,
        name,
        description,
        category_id,
        is_active,
        created_at,
        updated_at,
        category_values,
        stack,
        directory,
        restart_command,
        log_command,
    } = raw;
    let id_missing = match &id {
        Some(s) => s.unicode_len() == 0,
        None => true,
    };
    let created_missing = created_at.is_none();
    let updated_missing = updated_at.is_none();
    let has_dev = is_filled(&stack) || is_filled(&directory) || is_filled(&restart_command)
        || is_filled(&log_command);
    let mut category = match category_id {
        Some(c) => c,
        None => String::new(),
    };
    let category_changed = is_blank_str(category.as_str());
    if category_changed {
        category = if has_dev {
            String::from_str("development")
        } else {
            String::from_str("general")
        };
    }
    let values_missing = category_values.is_none();
    let mut cats = match category_values {
        Some(c) => c,
        None => Vec::new(),
    };
    assert(cats.deep_view() =~= match rv.category_values {
        Some(c) => c,
        None => seq![],
    });
    let (nv, dv, general_changed) = general_step_exec(&mut cats, name.as_str(), &description);
    let s = dev_value_exec(&cats, stack, "tech_stack", "active_project_stack");
    let d = dev_value_exec(&cats, directory, "directory", "active_project_directory");
    let r = dev_value_exec(&cats, restart_command, "restart_command", "active_project_restart_cmd");
    let l = dev_value_exec(&cats, log_command, "log_command", "active_project_log_cmd");
    let dev_needed = has_dev || crate::yaml_utils::same_text(category.as_str(), "development")
        || !is_blank_str(s.as_str()) || !is_blank_str(d.as_str()) || !is_blank_str(r.as_str())
        || !is_blank_str(l.as_str());
    let dev_changed = if dev_needed {
        dev_step_exec(&mut cats, s.as_str(), d.as_str(), r.as_str(), l.as_str())
    } else {
        false
    };
    let normalized_description = if is_blank_str(dv.as_str()) {
        None
    } else {
        Some(dv)
    };
    let description_changed = match (&normalized_description, &description) {
        (Some(a), Some(b)) => !crate::yaml_utils::same_text(a.as_str(), b.as_str()),
        (None, None) => false,
        _ => true,
    };
    let name_changed = !crate::yaml_utils::same_text(name.as_str(), nv.as_str());
    let changed = id_missing || created_missing || updated_missing || category_changed
        || values_missing || general_changed || dev_changed || description_changed || name_changed;
    let final_id = if id_missing {
        fresh_id
    } else {
        match id {
            Some(s) => s,
            None => fresh_id,
        }
    };
    let final_created = match created_at {
        Some(c) => c,
        None => now.clone(),
    };
    let final_updated = if changed {
        now
    } else {
        match updated_at {
            Some(u) => u,
            None => now,
        }
    };
    let project = Project {
        id: final_id,
        name: nv,
        description: normalized_description,
        category_id: category,
        is_active: match is_active {
            Some(b) => b,
            None => false,
        },
        created_at: final_created,
        updated_at: final_updated,
        category_values: cats,
    };
    (project, changed)
}

} // verus!

verus! {

/// Relies on `uuid::Uuid::new_v4` and the hyphenated form that its `Display`
/// writes: a fresh random id of 36 characters.
#[verifier::external_body]
pub(crate) fn new_project_id() -> (r: String)
    ensures
        r@.len() == 36,
{
    uuid::Uuid::new_v4().to_string()
}

/// Relies on `chrono::Utc::now` and `DateTime::to_rfc3339`: the current time
/// as RFC 3339 text, which is never empty; nothing more is known of its value.
#[verifier::external_body]
pub(crate) fn current_timestamp() -> (r: String)
    ensures
        r@.len() > 0,
{
    chrono::Utc::now().to_rfc3339()
}

/// Repairs one record into the current schema, drawing a fresh id for a record
/// that has none and stamping it with the current time.
pub fn normalize_project(raw: RawProject) -> (r: (Project, bool))
    ensures
        exists|fresh_id: Seq<char>, now: Seq<char>|
            fresh_id.len() == 36 && (r.0@, r.1) == #[trigger] normalized(raw@, fresh_id, now),
{
    let fresh_id = new_project_id();
    let now = current_timestamp();
    let ghost (f, t) = (fresh_id@, now@);
    let r = normalize_project_at(raw, fresh_id, now);
    assert(f.len() == 36 && (r.0@, r.1) == normalized(raw@, f, t));
    r
}

} // verus!
