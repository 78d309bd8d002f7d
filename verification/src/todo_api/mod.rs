//! The todo-list service: its data model, its answers and the request
//! handlers that read and change the list.

pub mod handler;
pub mod laws;
pub mod model;
pub mod response;
