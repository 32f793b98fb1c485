use vstd::prelude::*;
use crate::normalize::{normalize_project_at, normalized};
use crate::project::{Project, ProjectView, RawProject, RawProjectView};
use crate::unique_ids::{dedup, ids_distinct, lemma_dedup, make_ids_unique};
use crate::yaml_utils::same_text;

verus! {

pub open spec fn views(ps: Seq<Project>) -> Seq<ProjectView> {
    Seq::new(ps.len(), |i: int| ps[i]@)
}

pub open spec fn raw_views(rs: Seq<RawProject>) -> Seq<RawProjectView> {
    Seq::new(rs.len(), |i: int| rs[i]@)
}

/// Some project has the id.
pub open spec fn has_id(ps: Seq<ProjectView>, id: Seq<char>) -> bool {
    exists|i: int| 0 <= i < ps.len() && (#[trigger] ps[i]).id == id
}

/// Position of the first project flagged active, or -1.
pub open spec fn first_active(ps: Seq<ProjectView>) -> int
    decreases ps.len(),
{
    if ps.len() == 0 {
        -1
    } else {
        let j = first_active(ps.drop_last());
        if j >= 0 {
            j
        } else if ps.last().is_active {
            ps.len() - 1
        } else {
            -1
        }
    }
}

/// The active id after the existence check and the promotion of a flagged
/// project, and whether it differs from the given one.
pub open spec fn resolved_active(ps: Seq<ProjectView>, active: Option<Seq<char>>) -> (
    Option<Seq<char>>,
    bool,
) {
    match active {
        Some(id) => if has_id(ps, id) {
            (Some(id), false)
        } else {
            (None, true)
        },
        None => if first_active(ps) >= 0 {
            (Some(ps[first_active(ps)].id), true)
        } else {
            (None, false)
        },
    }
}

/// Exactly the projects whose id is the active id are flagged active.
pub open spec fn flags_consistent(ps: Seq<ProjectView>, active: Option<Seq<char>>) -> bool {
    forall|i: int| 0 <= i < ps.len() ==> (#[trigger] ps[i]).is_active == (active == Some(ps[i].id))
}

pub open spec fn with_flag(p: ProjectView, active: Option<Seq<char>>) -> ProjectView {
    ProjectView {
        id: p.id,
        name: p.name,
        description: p.description,
        category_id: p.category_id,
        is_active: active == Some(p.id),
        created_at: p.created_at,
        updated_at: p.updated_at,
        category_values: p.category_values,
    }
}

pub open spec fn with_flags(ps: Seq<ProjectView>, active: Option<Seq<char>>) -> Seq<ProjectView> {
    Seq::new(ps.len(), |i: int| with_flag(ps[i], active))
}

/// The catalogue-level repairs: the projects, the active id, and whether
/// anything changed.
pub open spec fn repaired(ps: Seq<ProjectView>, active: Option<Seq<char>>) -> (
    Seq<ProjectView>,
    Option<Seq<char>>,
    bool,
) {
    let (a, changed) = resolved_active(ps, active);
    if flags_consistent(ps, a) {
        (ps, a, changed)
    } else {
        (with_flags(ps, a), a, true)
    }
}

pub open spec fn each_normalized(raws: Seq<RawProjectView>, ids: Seq<Seq<char>>, nows: Seq<Seq<char>>) -> Seq<ProjectView> {
    Seq::new(raws.len(), |i: int| normalized(raws[i], ids[i], nows[i]).0)
}

pub open spec fn any_normalized_changed(raws: Seq<RawProjectView>, ids: Seq<Seq<char>>, nows: Seq<Seq<char>>) -> bool {
    exists|i: int| 0 <= i < raws.len() && (#[trigger] normalized(raws[i], ids[i], nows[i])).1
}

/// The whole catalogue normalised: each record, then repeated ids replaced,
/// then the catalogue-level repairs; `ids[i]` and `nows[i]` stand in for the
/// fresh id and the time of record `i`, `dids[i]` for the fresh id drawn if
/// its id repeats an earlier one.
pub open spec fn catalogue_normalized(
    raws: Seq<RawProjectView>,
    active: Option<Seq<char>>,
    ids: Seq<Seq<char>>,
    nows: Seq<Seq<char>>,
    dids: Seq<Seq<char>>,
) -> (Seq<ProjectView>, Option<Seq<char>>, bool) {
    let (ps1, renamed) = dedup(each_normalized(raws, ids, nows), dids);
    let (ps, a, changed) = repaired(ps1, active);
    (ps, a, changed || renamed || any_normalized_changed(raws, ids, nows))
}

/// `out` is what normalising the records gives for some fresh ids (36
/// characters each) and some times.
pub open spec fn is_normalization_of(
    raws: Seq<RawProjectView>,
    active: Option<Seq<char>>,
    out: (Seq<ProjectView>, Option<Seq<char>>, bool),
) -> bool {
    exists|ids: Seq<Seq<char>>, nows: Seq<Seq<char>>, dids: Seq<Seq<char>>|
        ids.len() == raws.len() && nows.len() == raws.len() && dids.len() == raws.len() && (forall|
            i: int,
        | 0 <= i < raws.len() ==> (#[trigger] ids[i]).len() == 36 && dids[i].len() == 36) && out
            == #[trigger] catalogue_normalized(raws, active, ids, nows, dids)
}

/// The active id is absent or names a project, and a project is flagged
/// active exactly when its id is the active id.
pub open spec fn active_integrity(ps: Seq<ProjectView>, active: Option<Seq<char>>) -> bool {
    (active matches Some(id) ==> has_id(ps, id)) && flags_consistent(ps, active)
}

pub(crate) proof fn lemma_first_active(ps: Seq<ProjectView>)
    ensures
        -1 <= first_active(ps) < ps.len(),
        first_active(ps) >= 0 ==> ps[first_active(ps)].is_active,
        forall|j: int|
            0 <= j < ps.len() && (first_active(ps) < 0 || j < first_active(ps)) ==> !(
            #[trigger] ps[j]).is_active,
    decreases ps.len(),
{
    if ps.len() > 0 {
        let d = ps.drop_last();
        lemma_first_active(d);
        assert forall|j: int|
            0 <= j < ps.len() && (first_active(ps) < 0 || j < first_active(
                ps,
            )) implies !(#[trigger] ps[j]).is_active by {
            if j < ps.len() - 1 {
                assert(d[j] == ps[j]);
            }
        }
    }
}

/// The catalogue-level repairs leave the active id sound and the flags
/// consistent with it.
pub proof fn lemma_repaired_integrity(ps: Seq<ProjectView>, active: Option<Seq<char>>)
    ensures
        active_integrity(repaired(ps, active).0, repaired(ps, active).1),
        repaired(ps, active).0.len() == ps.len(),
        forall|i: int|
            0 <= i < ps.len() ==> (#[trigger] repaired(ps, active).0[i]).id == ps[i].id,
{
    lemma_first_active(ps);
    let (a, _) = resolved_active(ps, active);
    let out = repaired(ps, active).0;
    if let Some(id) = a {
        if active is None {
            let j = first_active(ps);
            assert(ps[j].id == id);
            assert(out[j].id == id);
        } else {
            let i = choose|i: int| 0 <= i < ps.len() && (#[trigger] ps[i]).id == id;
            assert(out[i].id == id);
        }
    }
}

pub(crate) fn id_present(ps: &Vec<Project>, id: &str) -> (r: bool)
    ensures
        r == has_id(views(ps@), id@),
{
    let ghost v = views(ps@);
    let n = ps.len();
    let mut i: usize = 0;
    while i < n
        invariant
            n == ps@.len(),
            v == views(ps@),
            i <= n,
            forall|j: int| 0 <= j < i ==> (#[trigger] v[j]).id != id@,
        decreases n - i,
    {
        if same_text(ps[i].id.as_str(), id) {
            assert(v[i as int].id == id@);
            return true;
        }
        i = i + 1;
    }
    false
}

fn first_active_index(ps: &Vec<Project>) -> (r: Option<usize>)
    ensures
        match r {
            Some(i) => i < ps@.len() && i as int == first_active(views(ps@)),
            None => first_active(views(ps@)) == -1,
        },
{
    let ghost v = views(ps@);
    proof {
        lemma_first_active(v);
    }
    let n = ps.len();
    let mut i: usize = 0;
    while i < n
        invariant
            n == ps@.len(),
            v == views(ps@),
            i <= n,
            forall|j: int| 0 <= j < i ==> !(#[trigger] v[j]).is_active,
            -1 <= first_active(v) < v.len(),
            first_active(v) >= 0 ==> v[first_active(v)].is_active,
            forall|j: int|
                0 <= j < v.len() && (first_active(v) < 0 || j < first_active(v)) ==> !(
                #[trigger] v[j]).is_active,
        decreases n - i,
    {
        if ps[i].is_active {
            assert(v[i as int].is_active);
            return Some(i);
        }
        i = i + 1;
    }
    None
}

fn should_be_active(active: &Option<String>, id: &String) -> (r: bool)
    ensures
        r == (active.deep_view() == Some(id@)),
{
    match active {
        Some(a) => same_text(a.as_str(), id.as_str()),
        None => false,
    }
}

/// Applies the catalogue-level repairs: an active id that names no project is
/// cleared; with no active id, the first project flagged active becomes the
/// active one; then every flag is made to agree with the active id.
pub fn repair_active(projects: Vec<Project>, active: Option<String>) -> (r: (
    Vec<Project>,
    Option<String>,
    bool,
))
    ensures
        (views(r.0@), r.1.deep_view(), r.2) == repaired(views(projects@), active.deep_view()),
        active_integrity(views(r.0@), r.1.deep_view()),
{
    let ghost v = views(projects@);
    proof {
        lemma_repaired_integrity(v, active.deep_view());
    }
    let (resolved, mut changed) = match active {
        Some(id) => if id_present(&projects, id.as_str()) {
            (Some(id), false)
        } else {
            (None, true)
        },
        None => match first_active_index(&projects) {
            Some(j) => (Some(projects[j].id.clone()), true),
            None => (None, false),
        },
    };
    let n = projects.len();
    let mut consistent = true;
    let mut i: usize = 0;
    while i < n
        invariant
            n == projects@.len(),
            v == views(projects@),
            i <= n,
            consistent == (forall|j: int|
                0 <= j < i ==> (#[trigger] v[j]).is_active == (resolved.deep_view() == Some(
                    v[j].id,
                ))),
        decreases n - i,
    {
        let flag = should_be_active(&resolved, &projects[i].id);
        assert(v[i as int] == projects@[i as int]@);
        if projects[i].is_active != flag {
            consistent = false;
        }
        i = i + 1;
    }
    if consistent {
        return (projects, resolved, changed);
    }
    let mut rest = projects;
    let mut out: Vec<Project> = Vec::new();
    let mut k: usize = 0;
    while k < n
        invariant
            n == v.len(),
            k <= n,
            views(rest@) == v.subrange(k as int, n as int),
            out@.len() == k,
            rest@.len() == n - k,
            views(out@) == with_flags(v, resolved.deep_view()).subrange(0, k as int),
        decreases n - k,
    {
        let ghost before_rest = rest@;
        let ghost before_out = out@;
        assert(views(before_rest).len() == before_rest.len());
        assert(views(before_rest)[0] == before_rest[0]@);
        assert(views(before_rest)[0] == v.subrange(k as int, n as int)[0]);
        let mut p = rest.remove(0);
        assert(p@ == v[k as int]);
        p.is_active = should_be_active(&resolved, &p.id);
        out.push(p);
        k = k + 1;
        assert(views(rest@) =~= v.subrange(k as int, n as int)) by {
            assert forall|j: int| 0 <= j < rest@.len() implies views(rest@)[j] == v.subrange(
                k as int,
                n as int,
            )[j] by {
                assert(rest@[j] == before_rest[j + 1]);
                assert(views(before_rest)[j + 1] == before_rest[j + 1]@);
                assert(views(before_rest)[j + 1] == v.subrange(k - 1, n as int)[j + 1]);
            }
        }
        assert(views(out@) =~= with_flags(v, resolved.deep_view()).subrange(0, k as int)) by {
            assert forall|j: int| 0 <= j < out@.len() implies views(out@)[j] == with_flags(
                v,
                resolved.deep_view(),
            ).subrange(0, k as int)[j] by {
                if j < k - 1 {
                    assert(out@[j] == before_out[j]);
                    assert(views(before_out)[j] == before_out[j]@);
                    assert(views(before_out)[j] == with_flags(v, resolved.deep_view()).subrange(
                        0,
                        k - 1,
                    )[j]);
                }
            }
        }
    }
    changed = true;
    assert(with_flags(v, resolved.deep_view()).subrange(0, n as int) =~= with_flags(
        v,
        resolved.deep_view(),
    ));
    (out, resolved, changed)
}

} // verus!

verus! {

/// Normalises a whole catalogue: each record in order (a fresh id and the
/// current time drawn for each), then the catalogue-level repairs of the
/// active id and the active flags; also says whether anything changed.
pub fn normalize_projects(raw_projects: Vec<RawProject>, active_project_id: Option<String>) -> (r: (
    Vec<Project>,
    Option<String>,
    bool,
))
    ensures
        is_normalization_of(
            raw_views(raw_projects@),
            active_project_id.deep_view(),
            (views(r.0@), r.1.deep_view(), r.2),
        ),
        r.0@.len() == raw_projects@.len(),
        active_integrity(views(r.0@), r.1.deep_view()),
        ids_distinct(views(r.0@)),
        forall|i: int| 0 <= i < r.0@.len() ==> (#[trigger] r.0@[i]).id@.len() > 0,
{
    let ghost rv = raw_views(raw_projects@);
    let n = raw_projects.len();
    let ghost mut ids: Seq<Seq<char>> = seq![];
    let ghost mut nows: Seq<Seq<char>> = seq![];
    let mut rest = raw_projects;
    let mut out: Vec<Project> = Vec::new();
    let mut any = false;
    let mut k: usize = 0;
    while k < n
        invariant
            n == rv.len(),
            k <= n,
            rest@.len() == n - k,
            forall|j: int| 0 <= j < n - k ==> (#[trigger] rest@[j])@ == rv[k + j],
            out@.len() == k,
            ids.len() == k,
            nows.len() == k,
            forall|j: int| 0 <= j < k ==> (#[trigger] ids[j]).len() == 36,
            forall|j: int| 0 <= j < k ==> (#[trigger] out@[j])@ == normalized(rv[j], ids[j], nows[j]).0,
            any == (exists|j: int| 0 <= j < k && (#[trigger] normalized(rv[j], ids[j], nows[j])).1),
        decreases n - k,
    {
        let ghost before_rest = rest@;
        let ghost before_out = out@;
        let raw = rest.remove(0);
        assert(raw@ == rv[k as int]) by {
            assert(before_rest[0]@ == rv[k + 0]);
        }
        let fresh_id = crate::normalize::new_project_id();
        let now = crate::normalize::current_timestamp();
        let ghost old_ids = ids;
        let ghost old_nows = nows;
        let ghost old_any = any;
        proof {
            ids = ids.push(fresh_id@);
            nows = nows.push(now@);
        }
        let (p, ch) = normalize_project_at(raw, fresh_id, now);
        out.push(p);
        any = any || ch;
        k = k + 1;
        proof {
            if old_any {
                let w = choose|j: int|
                    0 <= j < k - 1 && (#[trigger] normalized(rv[j], old_ids[j], old_nows[j])).1;
                assert(ids[w] == old_ids[w] && nows[w] == old_nows[w]);
                assert(normalized(rv[w], ids[w], nows[w]).1);
            }
            if ch {
                assert(normalized(rv[k - 1], ids[k - 1], nows[k - 1]).1);
            }
            if any {
            } else {
                assert forall|j: int| 0 <= j < k implies !(#[trigger] normalized(
                    rv[j],
                    ids[j],
                    nows[j],
                )).1 by {
                    if j < k - 1 {
                        assert(ids[j] == old_ids[j] && nows[j] == old_nows[j]);
                    }
                }
            }
        }
        assert forall|j: int| 0 <= j < n - k implies (#[trigger] rest@[j])@ == rv[k + j] by {
            assert(rest@[j] == before_rest[j + 1]);
        }
        assert forall|j: int| 0 <= j < k implies (#[trigger] out@[j])@ == normalized(
            rv[j],
            ids[j],
            nows[j],
        ).0 by {
            if j < k - 1 {
                assert(out@[j] == before_out[j]);
            }
        }
    }
    let ghost ps0 = each_normalized(rv, ids, nows);
    assert(views(out@) =~= ps0);
    let (unique, renamed) = make_ids_unique(out);
    let ghost dids = choose|f: Seq<Seq<char>>|
        f.len() == ps0.len() && (forall|i: int| 0 <= i < f.len() ==> (#[trigger] f[i]).len() == 36)
            && (views(unique@), renamed) == #[trigger] dedup(ps0, f);
    proof {
        lemma_dedup(ps0, dids);
        assert forall|i: int| 0 <= i < ps0.len() implies (#[trigger] ps0[i]).id.len() > 0
            && dids[i].len() > 0 by {
            assert(ps0[i] == normalized(rv[i], ids[i], nows[i]).0);
        }
        lemma_repaired_integrity(views(unique@), active_project_id.deep_view());
    }
    let (projects, active, changed) = repair_active(unique, active_project_id);
    let r = (projects, active, changed || renamed || any);
    assert(views(r.0@).len() == r.0@.len());
    assert((views(r.0@), r.1.deep_view(), r.2) == catalogue_normalized(
        rv,
        active_project_id.deep_view(),
        ids,
        nows,
        dids,
    ));
    assert forall|i: int| 0 <= i < r.0@.len() implies (#[trigger] r.0@[i]).id@.len() > 0 by {
        assert(views(r.0@)[i] == r.0@[i]@);
        assert(views(r.0@)[i].id == views(unique@)[i].id);
    }
    assert(ids_distinct(views(r.0@))) by {
        let v = views(r.0@);
        assert forall|i: int, j: int| 0 <= i < j < v.len() implies (#[trigger] v[i]).id != (
        #[trigger] v[j]).id by {
            assert(v[i].id == views(unique@)[i].id && v[j].id == views(unique@)[j].id);
        }
    }
    r
}

} // verus!
