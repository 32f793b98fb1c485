use vstd::prelude::*;
use crate::catalogue::{has_id, views};
use crate::project::{Project, ProjectView};

verus! {

/// The ids of the projects, in order.
pub open spec fn ids_of(ps: Seq<ProjectView>) -> Seq<Seq<char>> {
    Seq::new(ps.len(), |i: int| ps[i].id)
}

/// No two projects share an id.
pub open spec fn ids_distinct(ps: Seq<ProjectView>) -> bool {
    forall|i: int, j: int| 0 <= i < j < ps.len() ==> (#[trigger] ps[i]).id != (#[trigger] ps[j]).id
}

/// The length of the longest text.
pub open spec fn max_len(ts: Seq<Seq<char>>) -> nat
    decreases ts.len(),
{
    if ts.len() == 0 {
        0
    } else {
        let m = max_len(ts.drop_last());
        if ts.last().len() > m {
            ts.last().len()
        } else {
            m
        }
    }
}

/// `base` if no project has taken it, else `base` lengthened with dashes past
/// every taken id.
pub open spec fn unused_id(base: Seq<char>, taken: Seq<Seq<char>>) -> Seq<char> {
    if taken.contains(base) {
        base + Seq::new(max_len(taken) + 1, |i: int| '-')
    } else {
        base
    }
}

pub open spec fn with_id(p: ProjectView, id: Seq<char>) -> ProjectView {
    ProjectView {
        id,
        name: p.name,
        description: p.description,
        category_id: p.category_id,
        is_active: p.is_active,
        created_at: p.created_at,
        updated_at: p.updated_at,
        category_values: p.category_values,
    }
}

/// The projects with every id that repeats an earlier one replaced by an
/// unused one built from `fresh[i]`, and whether any was replaced.
pub open spec fn dedup(ps: Seq<ProjectView>, fresh: Seq<Seq<char>>) -> (Seq<ProjectView>, bool)
    decreases ps.len(),
{
    if ps.len() == 0 {
        (seq![], false)
    } else {
        let (out, changed) = dedup(ps.drop_last(), fresh.drop_last());
        let p = ps.last();
        if ids_of(out).contains(p.id) {
            (out.push(with_id(p, unused_id(fresh.last(), ids_of(out)))), true)
        } else {
            (out.push(p), changed)
        }
    }
}

proof fn lemma_max_len(ts: Seq<Seq<char>>)
    ensures
        forall|i: int| 0 <= i < ts.len() ==> (#[trigger] ts[i]).len() <= max_len(ts),
    decreases ts.len(),
{
    if ts.len() > 0 {
        let d = ts.drop_last();
        lemma_max_len(d);
        assert forall|i: int| 0 <= i < ts.len() implies (#[trigger] ts[i]).len() <= max_len(ts) by {
            if i < ts.len() - 1 {
                assert(d[i] == ts[i]);
            }
        }
    }
}

proof fn lemma_unused_id(base: Seq<char>, taken: Seq<Seq<char>>)
    ensures
        !taken.contains(unused_id(base, taken)),
        base.len() > 0 ==> unused_id(base, taken).len() > 0,
{
    if taken.contains(base) {
        lemma_max_len(taken);
        let u = unused_id(base, taken);
        if taken.contains(u) {
            let j = choose|j: int| 0 <= j < taken.len() && taken[j] == u;
            assert(taken[j].len() <= max_len(taken));
        }
    }
}

/// The renaming keeps the order and the other fields, gives distinct ids, and
/// keeps ids non-empty.
pub proof fn lemma_dedup(ps: Seq<ProjectView>, fresh: Seq<Seq<char>>)
    requires
        fresh.len() == ps.len(),
    ensures
        dedup(ps, fresh).0.len() == ps.len(),
        ids_distinct(dedup(ps, fresh).0),
        forall|i: int|
            0 <= i < ps.len() ==> #[trigger] dedup(ps, fresh).0[i] == with_id(
                ps[i],
                dedup(ps, fresh).0[i].id,
            ),
        (forall|i: int| 0 <= i < ps.len() ==> (#[trigger] ps[i]).id.len() > 0 && fresh[i].len() > 0)
            ==> forall|i: int| 0 <= i < ps.len() ==> (#[trigger] dedup(ps, fresh).0[i]).id.len() > 0,
    decreases ps.len(),
{
    if ps.len() > 0 {
        let d = ps.drop_last();
        let f = fresh.drop_last();
        lemma_dedup(d, f);
        let (out, _) = dedup(d, f);
        let p = ps.last();
        let taken = ids_of(out);
        lemma_unused_id(fresh.last(), taken);
        let r = dedup(ps, fresh).0;
        let new_id = r[ps.len() - 1].id;
        assert(!taken.contains(new_id));
        assert forall|i: int, j: int| 0 <= i < j < r.len() implies (#[trigger] r[i]).id != (
        #[trigger] r[j]).id by {
            if j == r.len() - 1 {
                assert(taken[i] == out[i].id);
            } else {
                assert(out[i] == r[i] && out[j] == r[j]);
            }
        }
        assert forall|i: int| 0 <= i < ps.len() implies #[trigger] r[i] == with_id(ps[i], r[i].id) by {
            if i < ps.len() - 1 {
                assert(d[i] == ps[i]);
                assert(out[i] == r[i]);
            }
        }
        if forall|i: int| 0 <= i < ps.len() ==> (#[trigger] ps[i]).id.len() > 0 && fresh[i].len() > 0 {
            assert forall|i: int| 0 <= i < d.len() implies (#[trigger] d[i]).id.len() > 0 && f[i].len()
                > 0 by {
                assert(d[i] == ps[i] && f[i] == fresh[i]);
            }
            assert forall|i: int| 0 <= i < ps.len() implies (#[trigger] r[i]).id.len() > 0 by {
                if i < ps.len() - 1 {
                    assert(out[i] == r[i]);
                }
            }
        }
    }
}

/// Distinct ids are left as they are.
pub proof fn lemma_dedup_distinct(ps: Seq<ProjectView>, fresh: Seq<Seq<char>>)
    requires
        ids_distinct(ps),
    ensures
        dedup(ps, fresh) == (ps, false),
    decreases ps.len(),
{
    if ps.len() > 0 {
        let d = ps.drop_last();
        assert(ids_distinct(d)) by {
            assert forall|i: int, j: int| 0 <= i < j < d.len() implies (#[trigger] d[i]).id != (
            #[trigger] d[j]).id by {
                assert(d[i] == ps[i] && d[j] == ps[j]);
            }
        }
        lemma_dedup_distinct(d, fresh.drop_last());
        let taken = ids_of(d);
        if taken.contains(ps.last().id) {
            let j = choose|j: int| 0 <= j < taken.len() && taken[j] == ps.last().id;
            assert(d[j] == ps[j]);
        }
        assert(d.push(ps.last()) =~= ps);
    }
}

fn longest_id(ps: &Vec<Project>) -> (m: usize)
    ensures
        m as nat == max_len(ids_of(views(ps@))),
{
    let ghost ts = ids_of(views(ps@));
    let n = ps.len();
    let mut m: usize = 0;
    let mut i: usize = 0;
    while i < n
        invariant
            n == ps@.len(),
            ts == ids_of(views(ps@)),
            i <= n,
            m as nat == max_len(ts.subrange(0, i as int)),
        decreases n - i,
    {
        assert(ts.subrange(0, i + 1).drop_last() =~= ts.subrange(0, i as int));
        assert(ts[i as int] == ps@[i as int].id@);
        let len = ps[i].id.unicode_len();
        if len > m {
            m = len;
        }
        i = i + 1;
    }
    assert(ts.subrange(0, n as int) =~= ts);
    m
}

proof fn lemma_has_id_ids_of(ps: Seq<ProjectView>, id: Seq<char>)
    ensures
        has_id(ps, id) == ids_of(ps).contains(id),
{
    if has_id(ps, id) {
        let i = choose|i: int| 0 <= i < ps.len() && (#[trigger] ps[i]).id == id;
        assert(ids_of(ps)[i] == id);
    }
    if ids_of(ps).contains(id) {
        let i = choose|i: int| 0 <= i < ids_of(ps).len() && ids_of(ps)[i] == id;
        assert(ps[i].id == id);
    }
}

/// Gives every project whose id repeats an earlier one a fresh id that no
/// earlier project has; also says whether any id was replaced.
pub fn make_ids_unique(projects: Vec<Project>) -> (r: (Vec<Project>, bool))
    ensures
        exists|fresh: Seq<Seq<char>>|
            fresh.len() == projects@.len() && (forall|i: int|
                0 <= i < fresh.len() ==> (#[trigger] fresh[i]).len() == 36) && (views(r.0@), r.1)
                == #[trigger] dedup(views(projects@), fresh),
{
    let ghost v = views(projects@);
    let n = projects.len();
    let ghost mut fresh: Seq<Seq<char>> = seq![];
    let mut rest = projects;
    let mut out: Vec<Project> = Vec::new();
    let mut changed = false;
    let mut k: usize = 0;
    while k < n
        invariant
            n == v.len(),
            k <= n,
            rest@.len() == n - k,
            forall|j: int| 0 <= j < n - k ==> (#[trigger] rest@[j])@ == v[k + j],
            fresh.len() == k,
            forall|j: int| 0 <= j < k ==> (#[trigger] fresh[j]).len() == 36,
            (views(out@), changed) == dedup(v.subrange(0, k as int), fresh),
        decreases n - k,
    {
        let ghost before_rest = rest@;
        let ghost before_out = views(out@);
        let ghost before_fresh = fresh;
        let mut p = rest.remove(0);
        assert(p@ == v[k as int]) by {
            assert(before_rest[0]@ == v[k + 0]);
        }
        let ghost taken = ids_of(before_out);
        proof {
            lemma_has_id_ids_of(before_out, p.id@);
        }
        let f = crate::normalize::new_project_id();
        proof {
            fresh = fresh.push(f@);
        }
        if crate::catalogue::id_present(&out, p.id.as_str()) {
            proof {
                lemma_has_id_ids_of(before_out, f@);
            }
            let mut id = f;
            if crate::catalogue::id_present(&out, id.as_str()) {
                let m = longest_id(&out);
                id.append("-");
                proof {
                    reveal_strlit("-");
                    assert(id@ =~= fresh.last() + Seq::new(1nat, |i: int| '-'));
                }
                let mut c: usize = 0;
                while c < m
                    invariant
                        c <= m,
                        id@ == fresh.last() + Seq::new((c + 1) as nat, |i: int| '-'),
                    decreases m - c,
                {
                    id.append("-");
                    proof {
                        reveal_strlit("-");
                        assert(id@ =~= fresh.last() + Seq::new((c + 2) as nat, |i: int| '-'));
                    }
                    c = c + 1;
                }
                assert(id@ == unused_id(fresh.last(), taken));
            }
            assert(id@ == unused_id(fresh.last(), taken));
            p.id = id;
            changed = true;
        }
        out.push(p);
        k = k + 1;
        proof {
            let sub = v.subrange(0, k as int);
            assert(sub.drop_last() =~= v.subrange(0, k - 1));
            assert(fresh.drop_last() =~= before_fresh);
            assert(views(out@) =~= before_out.push(p@));
        }
        assert forall|j: int| 0 <= j < n - k implies (#[trigger] rest@[j])@ == v[k + j] by {
            assert(rest@[j] == before_rest[j + 1]);
        }
    }
    assert(v.subrange(0, n as int) =~= v);
    (out, changed)
}

} // verus!
