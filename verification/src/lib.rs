//! A verified task-list engine: the data model, lifecycle operations and
//! listing order of a small todo service, together with the bounded-retry
//! backoff planner used to establish the backing-store connection.
//!
//! The engine owns two tables: the active `todos` table and the terminal
//! `archived` table. Every operation is specified over a mathematical view
//! of those tables and proved to preserve the store invariant: ids are
//! unique and never reused, creation stamps grow strictly, titles are
//! non-empty.

pub mod api;
pub mod laws;
pub mod model;
pub mod retry;
pub mod store;
pub mod todo;

pub use api::CreateTodo;
pub use api::IdPayload;
pub use api::Message;
pub use api::RenamePayload;
pub use retry::BackoffPolicy;
pub use retry::Establisher;
pub use store::TodoStore;
pub use todo::ArchivedTodo;
pub use todo::Todo;
