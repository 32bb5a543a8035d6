//! The plain request and response shapes of the service surface, and the
//! small decisions the request adapter delegates to the engine.
//!
//! The adapter parses wire payloads into these types and renders results
//! from them; everything it hands the engine is a plain value.

use vstd::prelude::*;

verus! {

/// The priority a saved todo gets when the caller names none.
pub const DEFAULT_PRIORITY: i64 = 1;

/// A plain confirmation or banner body.
pub struct Message {
    pub text: String,
}

/// The payload that asks for a new todo.
pub struct CreateTodo {
    pub title: String,
    pub priority: Option<i64>,
}

/// The payload that names one todo.
pub struct IdPayload {
    pub id: u64,
}

/// The payload that renames one todo.
pub struct RenamePayload {
    pub id: u64,
    pub new_title: String,
}

/// The priority a creation payload asks for: the caller's, or the
/// default when the caller named none.
pub fn priority_or_default(priority: Option<i64>) -> (p: i64)
    ensures
        p == match priority {
            Some(v) => v,
            None => DEFAULT_PRIORITY,
        },
{
    match priority {
        Some(v) => v,
        None => DEFAULT_PRIORITY,
    }
}

/// The service banner.
pub fn welcome_message() -> (m: Message)
    ensures
        m.text@ == "Welcome to Rust API"@,
{
    Message { text: "Welcome to Rust API".to_owned() }
}

} // verus!
