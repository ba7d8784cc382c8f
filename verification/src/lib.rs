pub mod laws;
pub mod text;
pub mod users_database;
pub mod users_service;
