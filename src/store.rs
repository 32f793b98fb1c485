use vstd::prelude::*;
use crate::catalogue::{
    active_integrity, has_id, is_normalization_of, normalize_projects, raw_views, views,
};
use crate::generator::{
    active_vars_text, cleared_active_vars, cleared_text, render_active_vars,
    render_checked_selector, selector_text, yaml_accepts, ProjectCategory,
};
use crate::model::CategoryValues;
use crate::normalize::current_timestamp;
use crate::project::{Project, ProjectData, ProjectView, RawProjectData};
use crate::unique_ids::ids_distinct;
use crate::yaml_utils::same_text;

verus! {

/// The projects whose id is not `id`, in order.
pub open spec fn without_id(ps: Seq<ProjectView>, id: Seq<char>) -> Seq<ProjectView>
    decreases ps.len(),
{
    if ps.len() == 0 {
        seq![]
    } else {
        let rest = without_id(ps.drop_last(), id);
        if ps.last().id == id {
            rest
        } else {
            rest.push(ps.last())
        }
    }
}

/// Position of the first project with the id, or -1.
pub open spec fn project_index(ps: Seq<ProjectView>, id: Seq<char>) -> int
    decreases ps.len(),
{
    if ps.len() == 0 {
        -1
    } else {
        let j = project_index(ps.drop_last(), id);
        if j >= 0 {
            j
        } else if ps.last().id == id {
            ps.len() - 1
        } else {
            -1
        }
    }
}

proof fn lemma_project_index(ps: Seq<ProjectView>, id: Seq<char>)
    ensures
        -1 <= project_index(ps, id) < ps.len(),
        project_index(ps, id) >= 0 ==> ps[project_index(ps, id)].id == id,
        project_index(ps, id) >= 0 <==> has_id(ps, id),
    decreases ps.len(),
{
    if ps.len() > 0 {
        let d = ps.drop_last();
        lemma_project_index(d, id);
        if has_id(ps, id) && project_index(ps, id) < 0 {
            let i = choose|i: int| 0 <= i < ps.len() && (#[trigger] ps[i]).id == id;
            if i < ps.len() - 1 {
                assert(d[i] == ps[i]);
            }
        }
        if project_index(d, id) >= 0 {
            assert(d[project_index(d, id)] == ps[project_index(d, id)]);
        }
    }
}

fn project_position(ps: &Vec<Project>, id: &str) -> (r: Option<usize>)
    ensures
        match r {
            Some(i) => i < ps@.len() && i as int == project_index(views(ps@), id@),
            None => project_index(views(ps@), id@) == -1,
        },
{
    let ghost v = views(ps@);
    let n = ps.len();
    let mut i: usize = 0;
    while i < n
        invariant
            n == ps@.len(),
            v == views(ps@),
            i <= n,
            project_index(v.subrange(0, i as int), id@) == -1,
        decreases n - i,
    {
        assert(v.subrange(0, i + 1).drop_last() =~= v.subrange(0, i as int));
        assert(v[i as int] == ps@[i as int]@);
        if same_text(ps[i].id.as_str(), id) {
            proof {
                lemma_project_index_prefix(v, id@, i as int + 1);
            }
            return Some(i);
        }
        i = i + 1;
    }
    assert(v.subrange(0, n as int) =~= v);
    None
}

proof fn lemma_project_index_prefix(ps: Seq<ProjectView>, id: Seq<char>, m: int)
    requires
        0 <= m <= ps.len(),
        project_index(ps.subrange(0, m), id) >= 0,
    ensures
        project_index(ps, id) == project_index(ps.subrange(0, m), id),
    decreases ps.len() - m,
{
    if m < ps.len() {
        assert(ps.subrange(0, m + 1).drop_last() =~= ps.subrange(0, m));
        lemma_project_index_prefix(ps, id, m + 1);
    } else {
        assert(ps.subrange(0, m) =~= ps);
    }
}

/// Adds a project at the end of the catalogue.
pub fn create_project(data: &mut ProjectData, project: Project)
    ensures
        views(final(data).projects@) == views(old(data).projects@).push(project@),
        final(data).active_project_id == old(data).active_project_id,
{
    let ghost before = views(data.projects@);
    data.projects.push(project);
    assert(views(data.projects@) =~= before.push(project@));
}

/// Removes every project with the id; an active id that named it is cleared.
pub fn delete_project(data: &mut ProjectData, id: &str)
    ensures
        views(final(data).projects@) == without_id(views(old(data).projects@), id@),
        final(data).active_project_id.deep_view() == if old(data).active_project_id.deep_view()
            == Some(id@) {
            None
        } else {
            old(data).active_project_id.deep_view()
        },
{
    let ghost v = views(data.projects@);
    let mut rest = Vec::new();
    std::mem::swap(&mut rest, &mut data.projects);
    let n = rest.len();
    let mut kept: Vec<Project> = Vec::new();
    let mut k: usize = 0;
    while k < n
        invariant
            n == v.len(),
            k <= n,
            rest@.len() == n - k,
            forall|j: int| 0 <= j < n - k ==> (#[trigger] rest@[j])@ == v[k + j],
            views(kept@) == without_id(v.subrange(0, k as int), id@),
        decreases n - k,
    {
        let ghost before_rest = rest@;
        let ghost before_kept = views(kept@);
        assert(v.subrange(0, k + 1).drop_last() =~= v.subrange(0, k as int));
        let p = rest.remove(0);
        assert(p@ == v[k as int]) by {
            assert(before_rest[0]@ == v[k + 0]);
        }
        if !same_text(p.id.as_str(), id) {
            kept.push(p);
            assert(views(kept@) =~= before_kept.push(p@));
        }
        k = k + 1;
        assert forall|j: int| 0 <= j < n - k implies (#[trigger] rest@[j])@ == v[k + j] by {
            assert(rest@[j] == before_rest[j + 1]);
        }
    }
    assert(v.subrange(0, n as int) =~= v);
    data.projects = kept;
    let clear = match &data.active_project_id {
        Some(a) => same_text(a.as_str(), id),
        None => false,
    };
    if clear {
        data.active_project_id = None;
    }
}

/// Makes `id` the active id; an id that names no project is an error and
/// leaves the catalogue as it was.
pub fn set_active_project(data: &mut ProjectData, id: Option<String>) -> (r: Result<(), String>)
    ensures
        r is Ok <==> (id.deep_view() matches Some(i) ==> has_id(views(old(data).projects@), i)),
        r is Ok ==> final(data).active_project_id.deep_view() == id.deep_view(),
        r matches Err(e) ==> e@ == "Project not found"@ && final(data).active_project_id
            == old(data).active_project_id,
        final(data).projects == old(data).projects,
{
    match &id {
        Some(i) => {
            proof {
                lemma_project_index(views(data.projects@), i@);
            }
            if project_position(&data.projects, i.as_str()).is_none() {
                return Err(String::from_str("Project not found"));
            }
        },
        None => {},
    }
    data.active_project_id = id;
    Ok(())
}

/// Field updates for a project; a field that is `None` is left as it is. For
/// the description, `Some(None)` clears it.
#[derive(Debug, Clone, PartialEq, Eq)]
pub struct ProjectPatch {
    pub name: Option<String>,
    pub description: Option<Option<String>>,
    pub category_id: Option<String>,
    pub category_values: Option<CategoryValues>,
}

/// The project with the patch applied and its update time set to `now`.
pub open spec fn patched(p: ProjectView, patch: ProjectPatch, now: Seq<char>) -> ProjectView {
    ProjectView {
        id: p.id,
        name: match patch.name {
            Some(n) => n@,
            None => p.name,
        },
        description: match patch.description {
            Some(d) => d.deep_view(),
            None => p.description,
        },
        category_id: match patch.category_id {
            Some(c) => c@,
            None => p.category_id,
        },
        is_active: p.is_active,
        created_at: p.created_at,
        updated_at: now,
        category_values: match patch.category_values {
            Some(c) => c.deep_view(),
            None => p.category_values,
        },
    }
}

/// Applies a patch to the first project with the id and sets its update time
/// to `now`; an unknown id is an error.
pub fn update_project_at(data: &mut ProjectData, id: &str, patch: ProjectPatch, now: String) -> (r: Result<
    (),
    String,
>)
    ensures
        r is Ok <==> has_id(views(old(data).projects@), id@),
        r matches Err(e) ==> e@ == "Project not found"@ && final(data).projects == old(
            data,
        ).projects,
        r is Ok ==> views(final(data).projects@) == views(old(data).projects@).update(
            project_index(views(old(data).projects@), id@),
            patched(
                views(old(data).projects@)[project_index(views(old(data).projects@), id@)],
                patch,
                now@,
            ),
        ),
        final(data).active_project_id == old(data).active_project_id,
{
    let ghost v = views(data.projects@);
    proof {
        lemma_project_index(v, id@);
    }
    let i = match project_position(&data.projects, id) {
        Some(i) => i,
        None => {
            return Err(String::from_str("Project not found"));
        },
    };
    let ghost t = now@;
    let ghost pv = patch;
    let mut p = data.projects.remove(i);
    assert(p@ == v[i as int]);
    let ProjectPatch { name, description, category_id, category_values } = patch;
    match name {
        Some(n) => {
            p.name = n;
        },
        None => {},
    }
    match description {
        Some(d) => {
            p.description = d;
        },
        None => {},
    }
    match category_id {
        Some(c) => {
            p.category_id = c;
        },
        None => {},
    }
    match category_values {
        Some(c) => {
            p.category_values = c;
        },
        None => {},
    }
    p.updated_at = now;
    assert(p@ == patched(v[i as int], pv, t));
    let ghost removed = data.projects@;
    data.projects.insert(i, p);
    assert(views(data.projects@) =~= v.update(i as int, patched(v[i as int], pv, t))) by {
        assert(data.projects@ =~= removed.insert(i as int, p));
    }
    Ok(())
}

/// Applies a patch to the first project with the id and refreshes its update
/// time to the current time; an unknown id is an error.
pub fn update_project(data: &mut ProjectData, id: &str, patch: ProjectPatch) -> (r: Result<
    (),
    String,
>)
    ensures
        r is Ok <==> has_id(views(old(data).projects@), id@),
        r matches Err(e) ==> e@ == "Project not found"@ && final(data).projects == old(
            data,
        ).projects,
        r is Ok ==> exists|now: Seq<char>|
            now.len() > 0 && views(final(data).projects@) == #[trigger] views(
                old(data).projects@,
            ).update(
                project_index(views(old(data).projects@), id@),
                patched(views(old(data).projects@)[project_index(views(old(data).projects@), id@)], patch, now),
            ),
        final(data).active_project_id == old(data).active_project_id,
{
    let now = current_timestamp();
    let ghost t = now@;
    let ghost before = views(data.projects@);
    let ghost pv = patch;
    let r = update_project_at(data, id, patch, now);
    assert(r is Ok ==> t.len() > 0 && views(data.projects@) == before.update(
        project_index(before, id@),
        patched(before[project_index(before, id@)], pv, t),
    ));
    r
}

/// The two generated documents for the catalogue: the selector and the
/// active-variables document, which is the cleared one unless the active id
/// names a project.
pub fn render_documents(data: &ProjectData, categories: &Vec<ProjectCategory>) -> (r: Result<
    (String, String),
    String,
>)
    ensures
        match data.active_project_id.deep_view() {
            Some(id) if has_id(views(data.projects@), id) => {
                let p = views(data.projects@)[project_index(views(data.projects@), id)];
                (r is Ok <==> yaml_accepts(selector_text(views(data.projects@))) && yaml_accepts(
                    active_vars_text(p, categories@),
                )) && (r matches Ok((s, a)) ==> s@ == selector_text(views(data.projects@)) && a@
                    == active_vars_text(p, categories@))
            },
            _ => (r is Ok <==> yaml_accepts(selector_text(views(data.projects@)))) && (r matches Ok(
                (s, a),
            ) ==> s@ == selector_text(views(data.projects@)) && a@ == cleared_text()),
        },
{
    let selector = match render_checked_selector(&data.projects) {
        Ok(s) => s,
        Err(e) => {
            return Err(e);
        },
    };
    match &data.active_project_id {
        Some(id) => {
            proof {
                lemma_project_index(views(data.projects@), id@);
            }
            match project_position(&data.projects, id.as_str()) {
                Some(i) => {
                    assert(views(data.projects@)[i as int] == data.projects@[i as int]@);
                    match render_active_vars(&data.projects[i], categories) {
                        Ok(a) => Ok((selector, a)),
                        Err(e) => Err(e),
                    }
                },
                None => Ok((selector, cleared_active_vars())),
            }
        },
        None => Ok((selector, cleared_active_vars())),
    }
}

} // verus!

verus! {

/// Whether loading looks for legacy files first: the catalogue file is
/// missing, or it holds no projects.
pub fn needs_legacy_discovery(primary: &Option<RawProjectData>) -> (r: bool)
    ensures
        r == match primary {
            Some(raw) => raw.projects@.len() == 0,
            None => true,
        },
{
    match primary {
        Some(raw) => raw.projects.len() == 0,
        None => true,
    }
}

/// Finishes loading when no legacy file was migrated: a missing catalogue
/// becomes an empty one, a present one is normalised. The flag says whether
/// the result has to be written back.
pub fn finish_load(primary: Option<RawProjectData>) -> (r: (ProjectData, bool))
    ensures
        primary is None ==> r.0.projects@.len() == 0 && r.0.active_project_id is None && r.1,
        primary matches Some(raw) ==> is_normalization_of(
            raw_views(raw.projects@),
            raw.active_project_id.deep_view(),
            (views(r.0.projects@), r.0.active_project_id.deep_view(), r.1),
        ),
        active_integrity(views(r.0.projects@), r.0.active_project_id.deep_view()),
        ids_distinct(views(r.0.projects@)),
{
    match primary {
        Some(raw) => {
            let RawProjectData { projects, active_project_id } = raw;
            let (ps, active, changed) = normalize_projects(projects, active_project_id);
            (ProjectData { projects: ps, active_project_id: active }, changed)
        },
        None => {
            let data = ProjectData { projects: Vec::new(), active_project_id: None };
            assert(views(data.projects@) =~= Seq::<ProjectView>::empty());
            (data, true)
        },
    }
}

} // verus!
