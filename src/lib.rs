//! Catalogue normalisation and configuration generation for a text-expansion
//! manager: repairs project records into a consistent schema and renders the
//! documents that the expansion tool reads.

pub mod catalogue;
pub mod generator;
pub mod laws;
pub mod legacy;
pub mod llm;
pub mod model;
pub mod normalize;
pub mod number;
pub mod paths;
pub mod project;
pub mod store;
pub mod text;
pub mod unique_ids;
pub mod yaml_utils;

pub use number::parses_as_float;
pub use text::{is_blank_str, is_space_char};
pub use yaml_utils::{escape_yaml_value, lemma_escape_round_trip, same_text};
pub use project::{Project, ProjectData, RawProject, RawProjectData};
pub use model::{CategoryValues, VariableValues};
pub use normalize::{normalize_project, normalize_project_at};
pub use catalogue::{normalize_projects, repair_active};
pub use generator::{
    active_vars_document, cleared_active_vars, render_active_vars, render_checked_selector,
    render_project_selector, ProjectCategory, ProjectCategoryVariable,
};
pub use store::{
    create_project, delete_project, finish_load, needs_legacy_discovery, render_documents,
    set_active_project, update_project, update_project_at, ProjectPatch,
};
pub use paths::{
    app_data_dir_under, espanso_config_dir_from, get_app_data_dir_internal, get_app_data_file_path,
    get_espanso_config_dir_internal, get_espanso_file_path, get_espanso_match_dir_internal,
    parse_espanso_path_output,
};
pub use legacy::{
    archived_file_name, legacy_candidates, lemma_archival_not_rediscovered,
    migrate_legacy_projects, pick_legacy_candidate, LegacyProbe,
};
pub use llm::{LLMResponse, TokenUsage};
pub use laws::{
    lemma_catalogue_ids_unique, lemma_name_resolved_from_general_bucket, lemma_normalize_idempotent,
};
