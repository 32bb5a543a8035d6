//! Executable row types and their spec-level views.

use vstd::prelude::*;

use crate::model::ArchivedRec;
use crate::model::TodoRec;

verus! {

/// One row of the active table: a task with a title, an integer priority,
/// a completion flag, and the stamp assigned when it was inserted.
pub struct Todo {
    pub id: u64,
    pub title: String,
    pub priority: i64,
    pub completed: bool,
    pub created_at: u64,
}

impl View for Todo {
    type V = TodoRec;

    open spec fn view(&self) -> TodoRec {
        TodoRec {
            id: self.id as int,
            title: self.title@,
            priority: self.priority as int,
            completed: self.completed,
            created_at: self.created_at as int,
        }
    }
}

impl Clone for Todo {
    fn clone(&self) -> (res: Self)
        ensures
            res == *self,
    {
        Todo {
            id: self.id,
            title: self.title.clone(),
            priority: self.priority,
            completed: self.completed,
            created_at: self.created_at,
        }
    }
}

/// The spec-level contents of a vector of active rows.
pub open spec fn views(s: Seq<Todo>) -> Seq<TodoRec> {
    s.map_values(|t: Todo| t@)
}

/// The spec-level contents of a vector of archived rows.
pub open spec fn archived_views(s: Seq<ArchivedTodo>) -> Seq<ArchivedRec> {
    s.map_values(|t: ArchivedTodo| t@)
}

/// One row of the archive table: a terminal snapshot of a completed task.
/// Its id comes from the archive's own sequence, not from the active table.
pub struct ArchivedTodo {
    pub id: u64,
    pub title: String,
    pub priority: i64,
    pub completed: bool,
    pub created_at: u64,
    pub archived_at: u64,
}

impl View for ArchivedTodo {
    type V = ArchivedRec;

    open spec fn view(&self) -> ArchivedRec {
        ArchivedRec {
            id: self.id as int,
            title: self.title@,
            priority: self.priority as int,
            completed: self.completed,
            created_at: self.created_at as int,
            archived_at: self.archived_at as int,
        }
    }
}

impl Clone for ArchivedTodo {
    fn clone(&self) -> (res: Self)
        ensures
            res == *self,
    {
        ArchivedTodo {
            id: self.id,
            title: self.title.clone(),
            priority: self.priority,
            completed: self.completed,
            created_at: self.created_at,
            archived_at: self.archived_at,
        }
    }
}

} // verus!
