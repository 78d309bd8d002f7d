use vstd::prelude::*;
use crate::todo_api::model::{TodoItem, TodoItemDTO};

verus! {

/// A status word with a message.
#[derive(Debug)]
pub struct GenericRsponse {
    pub status: String,
    pub message: String,
}

/// One entry, without its secret.
#[derive(Debug)]
pub struct TodoItemData {
    pub todo_item: TodoItemDTO,
}

/// The answer that carries one entry, without its secret.
#[derive(Debug)]
pub struct TodoItemDataResponse {
    pub status: String,
    pub todo_item_data: TodoItemData,
}

/// One entry, with its secret.
#[derive(Debug)]
pub struct TodoItemDataSecret {
    pub todo_item: TodoItem,
}

/// The answer that carries one entry with its secret.
#[derive(Debug)]
pub struct TodoItemDataResponseSecret {
    pub status: String,
    pub todo_item_data: TodoItemDataSecret,
}

/// The answer that carries one page of entries.
#[derive(Debug)]
pub struct TodoItemDataListResponse {
    pub status: String,
    pub page: usize,
    pub result_count: usize,
    pub todo_item_list: Vec<TodoItemDTO>,
}

/// A refused request: its HTTP status code and a body with the status word
/// `fail` and a message.
#[derive(Debug)]
pub struct ErrorResponse {
    pub status_code: u16,
    pub body: GenericRsponse,
}

} // verus!
