use vstd::prelude::*;
use crate::model::{BucketsView, CategoryValues};

verus! {

/// A project record as stored by any earlier version: every field but the
/// name may be missing, and the flat development fields may still be there.
#[derive(Debug, Clone, PartialEq, Eq)]
pub struct RawProject {
    pub id: Option<String>,
    pub name: String,
    pub description: Option<String>,
    pub category_id: Option<String>,
    pub is_active: Option<bool>,
    pub created_at: Option<String>,
    pub updated_at: Option<String>,
    pub category_values: Option<CategoryValues>,
    pub stack: Option<String>,
    pub directory: Option<String>,
    pub restart_command: Option<String>,
    pub log_command: Option<String>,
}

/// A catalogue entry in the current schema.
#[derive(Debug, Clone, PartialEq, Eq)]
pub struct Project {
    pub id: String,
    pub name: String,
    pub description: Option<String>,
    pub category_id: String,
    pub is_active: bool,
    pub created_at: String,
    pub updated_at: String,
    pub category_values: CategoryValues,
}

/// The catalogue: the projects in order and the id of the active one.
#[derive(Debug, Clone, PartialEq, Eq)]
pub struct ProjectData {
    pub projects: Vec<Project>,
    pub active_project_id: Option<String>,
}

/// A catalogue as read from a file, before normalisation.
#[derive(Debug, Clone, PartialEq, Eq)]
pub struct RawProjectData {
    pub projects: Vec<RawProject>,
    pub active_project_id: Option<String>,
}

pub struct RawProjectView {
    pub id: Option<Seq<char>>,
    pub name: Seq<char>,
    pub description: Option<Seq<char>>,
    pub category_id: Option<Seq<char>>,
    pub is_active: Option<bool>,
    pub created_at: Option<Seq<char>>,
    pub updated_at: Option<Seq<char>>,
    pub category_values: Option<BucketsView>,
    pub stack: Option<Seq<char>>,
    pub directory: Option<Seq<char>>,
    pub restart_command: Option<Seq<char>>,
    pub log_command: Option<Seq<char>>,
}

pub struct ProjectView {
    pub id: Seq<char>,
    pub name: Seq<char>,
    pub description: Option<Seq<char>>,
    pub category_id: Seq<char>,
    pub is_active: bool,
    pub created_at: Seq<char>,
    pub updated_at: Seq<char>,
    pub category_values: BucketsView,
}

impl View for RawProject {
    type V = RawProjectView;

    open spec fn view(&self) -> RawProjectView {
        RawProjectView {
            id: self.id.deep_view(),
            name: self.name@,
            description: self.description.deep_view(),
            category_id: self.category_id.deep_view(),
            is_active: self.is_active,
            created_at: self.created_at.deep_view(),
            updated_at: self.updated_at.deep_view(),
            category_values: self.category_values.deep_view(),
            stack: self.stack.deep_view(),
            directory: self.directory.deep_view(),
            restart_command: self.restart_command.deep_view(),
            log_command: self.log_command.deep_view(),
        }
    }
}

impl View for Project {
    type V = ProjectView;

    open spec fn view(&self) -> ProjectView {
        ProjectView {
            id: self.id@,
            name: self.name@,
            description: self.description.deep_view(),
            category_id: self.category_id@,
            is_active: self.is_active,
            created_at: self.created_at@,
            updated_at: self.updated_at@,
            category_values: self.category_values.deep_view(),
        }
    }
}

/// The record that reading a saved project back gives.
pub open spec fn as_raw(p: ProjectView) -> RawProjectView {
    RawProjectView {
        id: Some(p.id),
        name: p.name,
        description: p.description,
        category_id: Some(p.category_id),
        is_active: Some(p.is_active),
        created_at: Some(p.created_at),
        updated_at: Some(p.updated_at),
        category_values: Some(p.category_values),
        stack: None,
        directory: None,
        restart_command: None,
        log_command: None,
    }
}

impl Project {
    /// The project as a raw record, as it reads back from the catalogue file.
    pub fn into_raw(self) -> (r: RawProject)
        ensures
            r@ == as_raw(self@),
    {
        RawProject {
            id: Some(self.id),
            name: self.name,
            description: self.description,
            category_id: Some(self.category_id),
            is_active: Some(self.is_active),
            created_at: Some(self.created_at),
            updated_at: Some(self.updated_at),
            category_values: Some(self.category_values),
            stack: None,
            directory: None,
            restart_command: None,
            log_command: None,
        }
    }
}

} // verus!
