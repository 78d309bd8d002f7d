//! Verified logic of a set of small networked and simulation programs:
//! a hairdresser queue state machine, a word sorter, a city-name game,
//! an employee directory server and a todo-list service.

pub mod queue_sim;
pub mod text;
pub mod word_sorter;
pub mod todo_api;
pub mod city_game;
pub mod staff_directory;
pub mod message_board;
pub mod word_laws;
