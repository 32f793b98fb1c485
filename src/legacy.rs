use vstd::prelude::*;
use crate::catalogue::{
    active_integrity, is_normalization_of, normalize_projects, raw_views, views,
};
use crate::unique_ids::ids_distinct;
use crate::project::{ProjectData, RawProject};

verus! {

/// What probing one legacy candidate file found.
#[derive(Debug, Clone, PartialEq, Eq)]
pub enum LegacyProbe {
    /// No such file.
    Missing,
    /// The file holds only white space.
    Blank,
    /// The file parses in neither the catalogue shape nor the list shape.
    Invalid,
    /// The records the file holds, and the active id of the catalogue shape.
    Parsed { projects: Vec<RawProject>, active_project_id: Option<String> },
}

/// The legacy files, in the order in which they are tried.
pub open spec fn candidate_names() -> Seq<Seq<char>> {
    seq!["projects.json"@, "projects.legacy.json"@, "projects.backup.json"@]
}

/// The candidate file names, in the order in which they are tried.
pub fn legacy_candidates() -> (r: Vec<String>)
    ensures
        r.deep_view() == candidate_names(),
{
    let mut r: Vec<String> = Vec::new();
    r.push(String::from_str("projects.json"));
    r.push(String::from_str("projects.legacy.json"));
    r.push(String::from_str("projects.backup.json"));
    assert(r.deep_view() =~= candidate_names());
    r
}

/// A probe that found records to migrate.
pub open spec fn usable(p: LegacyProbe) -> bool {
    p matches LegacyProbe::Parsed { projects, .. } && projects@.len() > 0
}

/// Position of the first usable probe, or -1.
pub open spec fn first_usable(ps: Seq<LegacyProbe>) -> int
    decreases ps.len(),
{
    if ps.len() == 0 {
        -1
    } else {
        let j = first_usable(ps.drop_last());
        if j >= 0 {
            j
        } else if usable(ps.last()) {
            ps.len() - 1
        } else {
            -1
        }
    }
}

proof fn lemma_first_usable(ps: Seq<LegacyProbe>)
    ensures
        -1 <= first_usable(ps) < ps.len(),
        first_usable(ps) >= 0 ==> usable(ps[first_usable(ps)]),
        forall|j: int|
            0 <= j < ps.len() && (first_usable(ps) < 0 || j < first_usable(ps)) ==> !usable(
                #[trigger] ps[j],
            ),
    decreases ps.len(),
{
    if ps.len() > 0 {
        let d = ps.drop_last();
        lemma_first_usable(d);
        assert forall|j: int|
            0 <= j < ps.len() && (first_usable(ps) < 0 || j < first_usable(
                ps,
            )) implies !usable(#[trigger] ps[j]) by {
            if j < ps.len() - 1 {
                assert(d[j] == ps[j]);
            }
        }
        if first_usable(d) >= 0 {
            assert(d[first_usable(d)] == ps[first_usable(d)]);
        }
    }
}

fn is_usable(p: &LegacyProbe) -> (r: bool)
    ensures
        r == usable(*p),
{
    match p {
        LegacyProbe::Parsed { projects, .. } => projects.len() > 0,
        _ => false,
    }
}

/// The first candidate with records to migrate: blank, missing and unparsable
/// files are passed over.
pub fn pick_legacy_candidate(probes: &Vec<LegacyProbe>) -> (r: Option<usize>)
    ensures
        match r {
            Some(i) => i as int == first_usable(probes@) && i < probes@.len(),
            None => first_usable(probes@) == -1,
        },
{
    proof {
        lemma_first_usable(probes@);
    }
    let n = probes.len();
    let mut i: usize = 0;
    while i < n
        invariant
            n == probes@.len(),
            i <= n,
            forall|j: int| 0 <= j < i ==> !usable(#[trigger] probes@[j]),
            -1 <= first_usable(probes@) < probes@.len(),
            first_usable(probes@) >= 0 ==> usable(probes@[first_usable(probes@)]),
            forall|j: int|
                0 <= j < probes@.len() && (first_usable(probes@) < 0 || j < first_usable(
                    probes@,
                )) ==> !usable(#[trigger] probes@[j]),
        decreases n - i,
    {
        if is_usable(&probes[i]) {
            return Some(i);
        }
        i = i + 1;
    }
    None
}

/// Migrates the first usable candidate: which one it was, the normalised
/// catalogue, and whether normalisation changed anything. Nothing when no
/// candidate has records.
pub fn migrate_legacy_projects(probes: Vec<LegacyProbe>) -> (r: Option<(usize, ProjectData, bool)>)
    ensures
        r is None <==> first_usable(probes@) == -1,
        r matches Some((i, data, changed)) ==> i as int == first_usable(probes@) && (
        probes@[i as int] matches LegacyProbe::Parsed { projects, active_project_id }
            && is_normalization_of(
            raw_views(projects@),
            active_project_id.deep_view(),
            (views(data.projects@), data.active_project_id.deep_view(), changed),
        )) && active_integrity(views(data.projects@), data.active_project_id.deep_view())
            && ids_distinct(views(data.projects@)),
{
    let i = match pick_legacy_candidate(&probes) {
        Some(i) => i,
        None => {
            return None;
        },
    };
    let ghost chosen = probes@[i as int];
    proof {
        lemma_first_usable(probes@);
    }
    let mut probes = probes;
    let probe = probes.remove(i);
    assert(probe == chosen);
    match probe {
        LegacyProbe::Parsed { projects, active_project_id } => {
            let (ps, active, changed) = normalize_projects(projects, active_project_id);
            Some((i, ProjectData { projects: ps, active_project_id: active }, changed))
        },
        _ => None,
    }
}

/// Position of the dot that starts the extension, as `Path::file_stem` sees
/// it: the last dot, unless it is the first character; -1 when there is none.
pub open spec fn extension_dot(s: Seq<char>) -> int
    decreases s.len(),
{
    if s.len() <= 1 {
        -1
    } else if s.last() == '.' {
        s.len() - 1
    } else {
        extension_dot(s.drop_last())
    }
}

pub open spec fn archive_marker() -> Seq<char> {
    ".migrated.bak"@
}

/// `<stem>.migrated.bak.<ext>`, or `<name>.migrated.bak` for a name without
/// an extension.
pub open spec fn archived_name(s: Seq<char>) -> Seq<char> {
    let d = extension_dot(s);
    if d > 0 {
        s.subrange(0, d) + archive_marker() + s.subrange(d, s.len() as int)
    } else {
        s + archive_marker()
    }
}

proof fn lemma_extension_dot(s: Seq<char>)
    ensures
        -1 <= extension_dot(s) < s.len(),
        extension_dot(s) != 0,
    decreases s.len(),
{
    if s.len() > 1 && s.last() != '.' {
        lemma_extension_dot(s.drop_last());
    }
}

/// The name under which a migrated legacy file is kept.
pub fn archived_file_name(file_name: &str) -> (r: String)
    ensures
        r@ == archived_name(file_name@),
{
    let n = file_name.unicode_len();
    let mut j: usize = n;
    assert(file_name@.subrange(0, n as int) =~= file_name@);
    while j > 1 && file_name.get_char(j - 1) != '.'
        invariant
            n == file_name@.len(),
            j <= n,
            n == 0 || (j >= 1 && extension_dot(file_name@) == extension_dot(
                file_name@.subrange(0, j as int),
            )),
        decreases j,
    {
        assert(file_name@.subrange(0, j as int).drop_last() =~= file_name@.subrange(0, j - 1));
        j = j - 1;
    }
    proof {
        if n > 1 && j > 1 {
            assert(file_name@.subrange(0, j as int).last() == '.');
        }
    }
    if j > 1 {
        let mut out = String::from_str(file_name.substring_char(0, j - 1));
        out.append(".migrated.bak");
        out.append(file_name.substring_char(j - 1, n));
        out
    } else {
        let mut out = String::from_str(file_name);
        out.append(".migrated.bak");
        out
    }
}

} // verus!

verus! {

proof fn lemma_archived_len(s: Seq<char>)
    ensures
        archived_name(s).len() == s.len() + archive_marker().len(),
{
    lemma_extension_dot(s);
}

/// Archiving a migrated candidate takes it out of discovery: no candidate
/// name is the archived name of a candidate, once the chosen file is gone a
/// second discovery does not choose it again, and when it was the only file
/// with records the second discovery finds nothing.
pub proof fn lemma_archival_not_rediscovered(probes: Seq<LegacyProbe>)
    requires
        first_usable(probes) >= 0,
    ensures
        forall|i: int|
            0 <= i < candidate_names().len() ==> !candidate_names().contains(
                #[trigger] archived_name(candidate_names()[i]),
            ),
        first_usable(probes.update(first_usable(probes), LegacyProbe::Missing)) != first_usable(
            probes,
        ),
        (forall|j: int| 0 <= j < probes.len() && j != first_usable(probes) ==> !usable(
            #[trigger] probes[j],
        )) ==> first_usable(probes.update(first_usable(probes), LegacyProbe::Missing)) == -1,
{
    reveal_strlit("projects.json");
    reveal_strlit("projects.legacy.json");
    reveal_strlit("projects.backup.json");
    reveal_strlit(".migrated.bak");
    let names = candidate_names();
    assert forall|i: int| 0 <= i < names.len() implies !names.contains(
        #[trigger] archived_name(names[i]),
    ) by {
        lemma_archived_len(names[i]);
        if names.contains(archived_name(names[i])) {
            let j = choose|j: int| 0 <= j < names.len() && names[j] == archived_name(names[i]);
            assert(names[j].len() == names[i].len() + 13);
        }
    }
    lemma_first_usable(probes);
    let i = first_usable(probes);
    let after = probes.update(i, LegacyProbe::Missing);
    lemma_first_usable(after);
    assert(!usable(after[i]));
    if forall|j: int| 0 <= j < probes.len() && j != i ==> !usable(#[trigger] probes[j]) {
        if first_usable(after) >= 0 {
            assert(after[first_usable(after)] == probes[first_usable(after)]);
        }
    }
}

} // verus!
