use better_replacements_core::{
    normalize_project, normalize_project_at, normalize_projects, repair_active, CategoryValues,
    Project, RawProject, VariableValues,
};

fn s(x: &str) -> String {
    x.to_string()
}

fn raw(name: &str) -> RawProject {
    RawProject {
        id: Some(s("p1")),
        name: s(name),
        description: None,
        category_id: Some(s("general")),
        is_active: Some(false),
        created_at: Some(s("2024-01-01T00:00:00Z")),
        updated_at: Some(s("2024-01-01T00:00:00Z")),
        category_values: Some(vec![]),
        stack: None,
        directory: None,
        restart_command: None,
        log_command: None,
    }
}

fn get<'a>(values: &'a CategoryValues, cat: &str, key: &str) -> Option<&'a str> {
    let bucket: &VariableValues = &values.iter().find(|(c, _)| c == cat)?.1;
    bucket.iter().find(|(k, _)| k == key).map(|(_, v)| v.as_str())
}

fn project(id: &str, active: bool) -> Project {
    let (mut p, _) = normalize_project_at(raw(id), s("fresh"), s("now"));
    p.id = s(id);
    p.is_active = active;
    p
}

#[test]
fn scenario_legacy_dev_record() {
    let r = RawProject {
        id: None,
        name: s(""),
        description: None,
        category_id: None,
        is_active: None,
        created_at: None,
        updated_at: None,
        category_values: None,
        stack: Some(s("Go")),
        directory: Some(s("/tmp")),
        restart_command: Some(s("run")),
        log_command: Some(s("")),
    };
    let (p, changed) = normalize_project_at(r, s("id-1"), s("2025-05-05T00:00:00Z"));
    assert!(changed);
    assert_eq!(p.id, "id-1");
    assert_eq!(p.category_id, "development");
    assert_eq!(p.name, "Unnamed Project");
    assert_eq!(p.description, None);
    assert_eq!(p.created_at, "2025-05-05T00:00:00Z");
    assert_eq!(p.updated_at, "2025-05-05T00:00:00Z");
    let cv = &p.category_values;
    assert_eq!(get(cv, "general", "project_name"), Some("Unnamed Project"));
    assert_eq!(get(cv, "general", "active_project_name"), Some("Unnamed Project"));
    assert_eq!(get(cv, "general", "project_description"), Some(""));
    assert_eq!(get(cv, "development", "tech_stack"), Some("Go"));
    assert_eq!(get(cv, "development", "active_project_stack"), Some("Go"));
    assert_eq!(get(cv, "development", "directory"), Some("/tmp"));
    assert_eq!(get(cv, "development", "active_project_directory"), Some("/tmp"));
    assert_eq!(get(cv, "development", "restart_command"), Some("run"));
    assert_eq!(get(cv, "development", "active_project_restart_cmd"), Some("run"));
    assert_eq!(get(cv, "development", "log_command"), Some(""));
    assert_eq!(get(cv, "development", "active_project_log_cmd"), Some(""));
}

#[test]
fn name_taken_from_general_bucket_is_kept() {
    let mut r = raw("  ");
    r.category_values = Some(vec![(s("general"), vec![(s("project_name"), s("Foo"))])]);
    let (p, changed) = normalize_project_at(r, s("x"), s("now"));
    assert!(changed);
    assert_eq!(p.name, "Foo");
    assert_eq!(get(&p.category_values, "general", "project_name"), Some("Foo"));
    assert_eq!(get(&p.category_values, "general", "active_project_name"), Some("Foo"));
}

#[test]
fn blank_value_never_overwrites_filled_one() {
    let mut r = raw("Site");
    r.category_id = Some(s("development"));
    r.stack = Some(s(""));
    r.category_values = Some(vec![(s("development"), vec![(s("tech_stack"), s("Rust"))])]);
    let (p, _) = normalize_project_at(r, s("x"), s("now"));
    assert_eq!(get(&p.category_values, "development", "tech_stack"), Some("Rust"));
    assert_eq!(get(&p.category_values, "development", "active_project_stack"), Some("Rust"));
    let first = p.clone();
    let (q, changed) = normalize_project_at(p.into_raw(), s("y"), s("later"));
    assert!(!changed);
    assert_eq!(q, first);
}

#[test]
fn blank_description_falls_back_to_stored_text() {
    let mut r = raw("Site");
    r.description = Some(s("  "));
    r.category_values = Some(vec![(s("general"), vec![(s("project_description"), s("Foo"))])]);
    let (p, changed) = normalize_project_at(r, s("x"), s("now"));
    assert!(changed);
    assert_eq!(p.description, Some(s("Foo")));
    assert_eq!(get(&p.category_values, "general", "project_description"), Some("Foo"));
    let first = p.clone();
    let (q, changed2) = normalize_project_at(p.into_raw(), s("y"), s("later"));
    assert!(!changed2);
    assert_eq!(q, first);
}

#[test]
fn clean_record_is_unchanged() {
    let (p, _) = normalize_project_at(raw("Clean"), s("x"), s("first"));
    let first = p.clone();
    let (q, changed) = normalize_project_at(p.into_raw(), s("y"), s("second"));
    assert!(!changed);
    assert_eq!(q, first);
    assert_eq!(q.updated_at, "first");
}

#[test]
fn normalizing_twice_changes_nothing() {
    let mut dev = raw("");
    dev.id = None;
    dev.stack = Some(s("TS"));
    dev.is_active = Some(true);
    let mut other = raw("Other");
    other.description = Some(s("About it"));
    other.is_active = Some(true);
    let (ps, active, changed) = normalize_projects(vec![dev, other], None);
    assert!(changed);
    let first = ps.clone();
    let raws: Vec<RawProject> = ps.into_iter().map(|p| p.into_raw()).collect();
    let (ps2, active2, changed2) = normalize_projects(raws, active.clone());
    assert!(!changed2);
    assert_eq!(ps2, first);
    assert_eq!(active2, active);
}

#[test]
fn fresh_ids_are_drawn_for_missing_ids() {
    let mut r = raw("New");
    r.id = None;
    let (p, changed) = normalize_project(r);
    assert!(changed);
    assert_eq!(p.id.len(), 36);
    let mut r2 = raw("Empty id");
    r2.id = Some(s(""));
    let (p2, _) = normalize_project(r2);
    assert_eq!(p2.id.len(), 36);
    assert_ne!(p.id, p2.id);
    assert!(!p.updated_at.is_empty());
}

#[test]
fn two_active_flags_promote_the_first() {
    let ps = vec![project("a", true), project("b", true)];
    let (ps, active, changed) = repair_active(ps, None);
    assert!(changed);
    assert_eq!(active, Some(s("a")));
    assert!(ps[0].is_active);
    assert!(!ps[1].is_active);
}

#[test]
fn dangling_active_id_is_cleared() {
    let ps = vec![project("a", true)];
    let (ps, active, changed) = repair_active(ps, Some(s("gone")));
    assert!(changed);
    assert_eq!(active, None);
    assert!(!ps[0].is_active);
}

#[test]
fn active_integrity_after_normalizing() {
    let mut a = raw("A");
    a.id = Some(s("a"));
    let mut b = raw("B");
    b.id = Some(s("b"));
    b.is_active = Some(false);
    let (ps, active, changed) = normalize_projects(vec![a, b], Some(s("b")));
    assert!(changed);
    assert_eq!(active, Some(s("b")));
    for p in &ps {
        assert_eq!(p.is_active, p.id == "b");
    }
}

#[test]
fn consistent_catalogue_reports_no_change() {
    let ps = vec![project("a", false), project("b", true)];
    let (_, active, changed) = repair_active(ps, Some(s("b")));
    assert!(!changed);
    assert_eq!(active, Some(s("b")));
}

#[test]
fn repeated_ids_are_replaced() {
    let mut a = raw("A");
    a.id = Some(s("same"));
    let mut b = raw("B");
    b.id = Some(s("same"));
    b.is_active = Some(true);
    let (ps, active, changed) = normalize_projects(vec![a, b], Some(s("same")));
    assert!(changed);
    assert_eq!(ps[0].id, "same");
    assert_ne!(ps[1].id, "same");
    assert!(!ps[1].id.is_empty());
    assert_eq!(active, Some(s("same")));
    assert!(ps[0].is_active);
    assert!(!ps[1].is_active);
    let first = ps.clone();
    let raws: Vec<RawProject> = ps.into_iter().map(|p| p.into_raw()).collect();
    let (again, active2, changed2) = normalize_projects(raws, active);
    assert!(!changed2);
    assert_eq!(again, first);
    assert_eq!(active2, Some(s("same")));
}

#[test]
fn blank_description_is_stored_as_empty_text() {
    let mut r = raw("Site");
    r.description = Some(s(" "));
    r.directory = Some(s("  "));
    r.category_id = Some(s("development"));
    let (p, _) = normalize_project_at(r, s("x"), s("now"));
    assert_eq!(p.description, None);
    assert_eq!(get(&p.category_values, "general", "project_description"), Some(""));
    assert_eq!(get(&p.category_values, "development", "directory"), Some(""));
    let first = p.clone();
    let (q, changed) = normalize_project_at(p.into_raw(), s("y"), s("later"));
    assert!(!changed);
    assert_eq!(q, first);
}
