use better_replacements_core::{
    active_vars_document, archived_file_name, cleared_active_vars, create_project,
    delete_project, finish_load, legacy_candidates, migrate_legacy_projects,
    needs_legacy_discovery, normalize_project_at, pick_legacy_candidate, render_active_vars, render_documents, render_project_selector,
    set_active_project, update_project, update_project_at, LegacyProbe, Project, ProjectCategory,
    ProjectCategoryVariable, ProjectData, ProjectPatch, RawProject, RawProjectData,
};

fn s(x: &str) -> String {
    x.to_string()
}

fn raw(id: &str, name: &str) -> RawProject {
    RawProject {
        id: Some(s(id)),
        name: s(name),
        description: None,
        category_id: Some(s("general")),
        is_active: None,
        created_at: Some(s("t0")),
        updated_at: Some(s("t0")),
        category_values: None,
        stack: None,
        directory: None,
        restart_command: None,
        log_command: None,
    }
}

fn project(id: &str, name: &str) -> Project {
    normalize_project_at(raw(id, name), s("unused"), s("t1")).0
}

fn variable(id: &str) -> ProjectCategoryVariable {
    ProjectCategoryVariable {
        id: s(id),
        name: s(id),
        description: None,
        default_value: None,
        required: Some(false),
    }
}

fn general_category() -> ProjectCategory {
    ProjectCategory {
        id: s("general"),
        name: s("General"),
        description: None,
        icon: None,
        color: None,
        is_default: Some(true),
        file_name: Some(s("project_general.yml")),
        variable_definitions: vec![
            variable("project_name"),
            variable("missing_one"),
            variable("project_description"),
        ],
    }
}

const CLEARED: &str =
    "# No active project - project variables will not be available\nglobal_vars: []\n";

#[test]
fn deleting_active_project_clears_documents() {
    let mut data = ProjectData {
        projects: vec![project("a", "Alpha"), project("b", "Beta")],
        active_project_id: Some(s("a")),
    };
    delete_project(&mut data, "a");
    assert_eq!(data.active_project_id, None);
    assert_eq!(data.projects.len(), 1);
    assert_eq!(data.projects[0].id, "b");
    let (selector, active_vars) = render_documents(&data, &vec![general_category()]).unwrap();
    assert_eq!(active_vars, CLEARED);
    assert!(selector.contains("id: \"b\""));
    assert!(!selector.contains("id: \"a\""));
}

#[test]
fn deleting_other_project_keeps_active_id() {
    let mut data = ProjectData {
        projects: vec![project("a", "Alpha"), project("b", "Beta")],
        active_project_id: Some(s("a")),
    };
    delete_project(&mut data, "b");
    assert_eq!(data.active_project_id, Some(s("a")));
    assert_eq!(data.projects.len(), 1);
}

#[test]
fn active_vars_document_lists_filled_values() {
    let mut p = project("a", "My: App");
    p.description = Some(s("Two\nlines"));
    for entry in p.category_values[0].1.iter_mut() {
        if entry.0 == "project_description" {
            entry.1 = s("Two\nlines");
        }
    }
    p.category_values.push((s("unknown"), vec![(s("x"), s("y"))]));
    let doc = active_vars_document(&p, &vec![general_category()]);
    let expected = "# Generated active project variables for: 'My: App'\nglobal_vars:\n  - name: project_name\n    type: echo\n    params:\n      echo: 'My: App'\n  - name: project_description\n    type: echo\n    params:\n      echo: |-\n        Two\n        lines\n";
    assert_eq!(doc, expected);
    let rendered = render_active_vars(&p, &vec![general_category()]).unwrap();
    assert_eq!(rendered, expected);
    let parsed: serde_yaml::Value = serde_yaml::from_str(&rendered).unwrap();
    assert_eq!(parsed["global_vars"][1]["params"]["echo"].as_str(), Some("Two\nlines"));
}

#[test]
fn invalid_document_is_refused() {
    let mut p = project("a", "Alpha");
    let mut cat = general_category();
    cat.variable_definitions[0].name = s("[broken");
    p.category_values[0].1.push((s("project_name"), s("Alpha")));
    let r = render_active_vars(&p, &vec![cat]);
    assert!(r.is_err());
    assert!(r.unwrap_err().starts_with("Generated invalid YAML: "));
}

#[test]
fn selector_lists_projects_in_order() {
    let ps = vec![project("id-1", "First"), project("id-2", "key: two")];
    let doc = render_project_selector(&ps);
    let expected = "# Generated project selector for quick switching\nmatches:\n  - trigger: \":project\"\n    replace: \"{{project_choice}}\"\n    vars:\n      - name: project_choice\n        type: choice\n        params:\n          values:\n          - label: First\n            id: \"id-1\"\n          - label: 'key: two'\n            id: \"id-2\"\n";
    assert_eq!(doc, expected);
    let parsed: serde_yaml::Value = serde_yaml::from_str(&doc).unwrap();
    assert!(parsed["matches"][0]["vars"][0]["params"]["values"].is_sequence());
}

#[test]
fn empty_selector_has_empty_list() {
    let doc = render_project_selector(&vec![]);
    assert!(doc.ends_with("          values: []\n"));
    let parsed: serde_yaml::Value = serde_yaml::from_str(&doc).unwrap();
    let values = &parsed["matches"][0]["vars"][0]["params"]["values"];
    assert_eq!(values.as_sequence().map(|v| v.len()), Some(0));
}

#[test]
fn cleared_document_is_constant() {
    assert_eq!(cleared_active_vars(), CLEARED);
}

#[test]
fn set_active_checks_existence() {
    let mut data = ProjectData { projects: vec![project("a", "Alpha")], active_project_id: None };
    assert_eq!(set_active_project(&mut data, Some(s("zzz"))), Err(s("Project not found")));
    assert_eq!(data.active_project_id, None);
    assert_eq!(set_active_project(&mut data, Some(s("a"))), Ok(()));
    assert_eq!(data.active_project_id, Some(s("a")));
    let (_, active_vars) = render_documents(&data, &vec![general_category()]).unwrap();
    assert!(active_vars.starts_with("# Generated active project variables for: Alpha\n"));
    assert_eq!(set_active_project(&mut data, None), Ok(()));
    assert_eq!(data.active_project_id, None);
}

#[test]
fn update_applies_only_given_fields() {
    let mut data = ProjectData { projects: vec![project("a", "Alpha")], active_project_id: None };
    let before = data.projects[0].clone();
    let patch = ProjectPatch {
        name: Some(s("Renamed")),
        description: Some(None),
        category_id: None,
        category_values: None,
    };
    assert_eq!(update_project(&mut data, "a", patch.clone()), Ok(()));
    let after = &data.projects[0];
    assert_eq!(after.name, "Renamed");
    assert_eq!(after.description, None);
    assert_eq!(after.category_id, before.category_id);
    assert_eq!(after.category_values, before.category_values);
    assert_ne!(after.updated_at, before.updated_at);
    assert_eq!(update_project(&mut data, "nope", patch), Err(s("Project not found")));
}

#[test]
fn create_appends() {
    let mut data = ProjectData { projects: vec![], active_project_id: None };
    create_project(&mut data, project("a", "Alpha"));
    create_project(&mut data, project("b", "Beta"));
    assert_eq!(data.projects.len(), 2);
    assert_eq!(data.projects[1].id, "b");
}

#[test]
fn legacy_candidates_in_order() {
    assert_eq!(
        legacy_candidates(),
        vec![s("projects.json"), s("projects.legacy.json"), s("projects.backup.json")]
    );
}

#[test]
fn archive_names() {
    assert_eq!(archived_file_name("projects.json"), "projects.migrated.bak.json");
    assert_eq!(archived_file_name("projects.legacy.json"), "projects.legacy.migrated.bak.json");
    assert_eq!(archived_file_name("notes"), "notes.migrated.bak");
    assert_eq!(archived_file_name(".hidden"), ".hidden.migrated.bak");
    for c in legacy_candidates() {
        assert!(!legacy_candidates().contains(&archived_file_name(&c)));
    }
}

#[test]
fn legacy_probe_skips_blank_and_empty() {
    let probes = vec![
        LegacyProbe::Blank,
        LegacyProbe::Parsed { projects: vec![], active_project_id: None },
        LegacyProbe::Invalid,
        LegacyProbe::Parsed { projects: vec![raw("x", "X")], active_project_id: None },
    ];
    assert_eq!(pick_legacy_candidate(&probes), Some(3));
    let (i, data, changed) = migrate_legacy_projects(probes.clone()).unwrap();
    assert_eq!(i, 3);
    assert!(changed);
    assert_eq!(data.projects.len(), 1);
    assert_eq!(data.projects[0].name, "X");
    let mut after = probes;
    after[3] = LegacyProbe::Missing;
    assert_eq!(pick_legacy_candidate(&after), None);
    assert!(migrate_legacy_projects(after).is_none());
}

#[test]
fn missing_catalogue_loads_empty_and_is_written() {
    assert!(needs_legacy_discovery(&None));
    let (data, write_back) = finish_load(None);
    assert!(write_back);
    assert!(data.projects.is_empty());
    assert_eq!(data.active_project_id, None);
    let empty = Some(RawProjectData { projects: vec![], active_project_id: Some(s("x")) });
    assert!(needs_legacy_discovery(&empty));
    let (data, write_back) = finish_load(empty);
    assert!(write_back);
    assert_eq!(data.active_project_id, None);
}

#[test]
fn present_catalogue_is_normalized() {
    let clean = project("a", "Alpha").into_raw();
    let primary = Some(RawProjectData { projects: vec![clean], active_project_id: None });
    assert!(!needs_legacy_discovery(&primary));
    let (data, write_back) = finish_load(primary);
    assert!(!write_back);
    assert_eq!(data.projects.len(), 1);
    assert_eq!(data.projects[0].name, "Alpha");
}

#[test]
fn block_values_keep_their_text() {
    for value in ["a\nb", "a\nb\n", "  indented\nnext", "x\n  deeper"] {
        let mut p = project("a", "Alpha");
        for entry in p.category_values[0].1.iter_mut() {
            if entry.0 == "project_description" {
                entry.1 = s(value);
            }
        }
        let doc = render_active_vars(&p, &vec![general_category()]).unwrap();
        let parsed: serde_yaml::Value = serde_yaml::from_str(&doc).unwrap();
        assert_eq!(parsed["global_vars"][1]["params"]["echo"].as_str(), Some(value), "{:?}", value);
    }
}

#[test]
fn selector_ids_are_escaped() {
    let ps = vec![project("we\"ird\\id", "Odd")];
    let doc = render_project_selector(&ps);
    assert!(doc.contains("id: \"we\\\"ird\\\\id\"\n"));
    let parsed: serde_yaml::Value = serde_yaml::from_str(&doc).unwrap();
    let id = &parsed["matches"][0]["vars"][0]["params"]["values"][0]["id"];
    assert_eq!(id.as_str(), Some("we\"ird\\id"));
}

#[test]
fn multi_line_names_keep_documents_valid() {
    let ps = vec![project("a", "Two\nlines"), project("b", "cr\rhere")];
    let doc = render_project_selector(&ps);
    assert!(doc.contains("label: \"Two\\nlines\"\n"));
    let parsed: serde_yaml::Value = serde_yaml::from_str(&doc).unwrap();
    let values = &parsed["matches"][0]["vars"][0]["params"]["values"];
    assert_eq!(values[0]["label"].as_str(), Some("Two\nlines"));
    assert_eq!(values[1]["label"].as_str(), Some("cr\rhere"));
    assert_eq!(values[1]["id"].as_str(), Some("b"));
    let data = ProjectData { projects: ps, active_project_id: Some(s("a")) };
    let (_, active_vars) = render_documents(&data, &vec![general_category()]).unwrap();
    assert!(active_vars.starts_with("# Generated active project variables for: \"Two\\nlines\"\n"));
}

#[test]
fn update_at_sets_the_given_time() {
    let mut data = ProjectData { projects: vec![project("a", "Alpha")], active_project_id: None };
    let patch = ProjectPatch { name: None, description: None, category_id: None, category_values: None };
    assert_eq!(update_project_at(&mut data, "a", patch, s("2030-01-01T00:00:00Z")), Ok(()));
    assert_eq!(data.projects[0].updated_at, "2030-01-01T00:00:00Z");
    assert_eq!(data.projects[0].name, "Alpha");
}
