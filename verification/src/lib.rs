pub mod text;
pub mod dates;
pub mod num;
pub mod capacity;
pub mod domain;
pub mod planning;
pub mod grammar;
pub mod action;
pub mod parser;
pub mod resolver;
pub mod provider;
pub mod router;
pub mod availability;
pub mod validate;
pub mod commands;
pub mod reminders;
pub mod bridge;
pub mod schedule;
pub mod maintenance;
