use vstd::prelude::*;

verus! {

/// A point in time: whole seconds since the Unix epoch and the nanoseconds
/// past that second.
#[derive(Clone, Copy, Debug, PartialEq, Eq, Structural)]
pub struct Timestamp {
    pub secs: i64,
    pub nanos: u32,
}

/// An entry of the todo list, with the secret that only the secret view
/// shows.
#[derive(Debug)]
pub struct TodoItem {
    pub id: Option<String>,
    pub title: String,
    pub content: String,
    pub completion: Option<bool>,
    pub creation_time: Option<Timestamp>,
    pub update_time: Option<Timestamp>,
    pub secret: Option<String>,
}

/// An entry as the public answers show it: everything but the secret.
#[derive(Debug)]
pub struct TodoItemDTO {
    pub id: Option<String>,
    pub title: String,
    pub content: String,
    pub completion: Option<bool>,
    pub creation_time: Option<Timestamp>,
    pub update_time: Option<Timestamp>,
}

/// The fields that a patch request may change.
#[derive(Debug)]
pub struct TodoItemSchemaUpdate {
    pub title: Option<String>,
    pub content: Option<String>,
    pub completion: Option<bool>,
    pub secret: Option<String>,
}

/// Paging of the list: the page number and the page size.
#[derive(Debug, Clone, Copy, Default)]
pub struct TodoItemListQueryOptions {
    pub page: Option<usize>,
    pub limit: Option<usize>,
}

/// A query by id.
#[derive(Debug, Default)]
pub struct TodoItemQueryOptions {
    pub id: Option<String>,
}

/// A copy of an optional string.
pub fn copy_opt_string(s: &Option<String>) -> (r: Option<String>)
    ensures
        r == *s,
{
    match s {
        Some(x) => Some(x.clone()),
        None => None,
    }
}

/// The public form of an entry.
pub open spec fn dto_of(item: TodoItem) -> TodoItemDTO {
    TodoItemDTO {
        id: item.id,
        title: item.title,
        content: item.content,
        completion: item.completion,
        creation_time: item.creation_time,
        update_time: item.update_time,
    }
}

impl Clone for TodoItem {
    fn clone(&self) -> (r: Self)
        ensures
            r == *self,
    {
        TodoItem {
            id: copy_opt_string(&self.id),
            title: self.title.clone(),
            content: self.content.clone(),
            completion: self.completion,
            creation_time: self.creation_time,
            update_time: self.update_time,
            secret: copy_opt_string(&self.secret),
        }
    }
}

impl TodoItem {
    /// The entry without its secret.
    pub fn to_dto(&self) -> (r: TodoItemDTO)
        ensures
            r == dto_of(*self),
    {
        TodoItemDTO {
            id: copy_opt_string(&self.id),
            title: self.title.clone(),
            content: self.content.clone(),
            completion: self.completion,
            creation_time: self.creation_time,
            update_time: self.update_time,
        }
    }
}

impl Clone for TodoItemDTO {
    fn clone(&self) -> (r: Self)
        ensures
            r == *self,
    {
        TodoItemDTO {
            id: copy_opt_string(&self.id),
            title: self.title.clone(),
            content: self.content.clone(),
            completion: self.completion,
            creation_time: self.creation_time,
            update_time: self.update_time,
        }
    }
}

impl Clone for TodoItemSchemaUpdate {
    fn clone(&self) -> (r: Self)
        ensures
            r == *self,
    {
        TodoItemSchemaUpdate {
            title: copy_opt_string(&self.title),
            content: copy_opt_string(&self.content),
            completion: self.completion,
            secret: copy_opt_string(&self.secret),
        }
    }
}

} // verus!
