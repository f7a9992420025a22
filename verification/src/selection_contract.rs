//! Bounded transport contract of desktop selections and tasks; it carries no
//! authorisation or lifecycle rule of the core. Ids are strings.

use vstd::prelude::*;

verus! {

/// What a content read addresses: a snapshot or a task's snapshot.
#[derive(Debug, Clone)]
pub enum SelectionTarget {
    Snapshot { snapshot_id: String },
    Task { task_id: String },
}

/// A content page cursor as the boundary carries it.
#[derive(Debug, Clone)]
pub struct SelectionCursorDto {
    pub session_id: String,
    pub snapshot_id: String,
    pub record: u32,
    pub text_start: u32,
}

/// The bounded summary of a fixed scope.
#[derive(Debug, Clone)]
pub struct ScopeDto {
    pub snapshot_id: String,
    pub document_id: String,
    pub document_revision: String,
    pub document_name: String,
    pub target_count: u32,
    pub content_count: u32,
    pub text_layer_count: u32,
}

/// Task status on the boundary.
#[derive(Debug, Clone, Copy, PartialEq, Eq, Structural)]
pub enum TaskStatusDto {
    Active,
    Released,
}

/// A task on the boundary.
#[derive(Debug, Clone)]
pub struct TaskDto {
    pub id: String,
    pub name: String,
    pub status: TaskStatusDto,
    pub scope: ScopeDto,
}

/// A page of tasks on the boundary.
#[derive(Debug, Clone)]
pub struct TaskPageDto {
    pub session_id: String,
    pub tasks: Vec<TaskDto>,
    pub next_after: Option<String>,
    pub total: u32,
    pub capacity: u32,
}

} // verus!
