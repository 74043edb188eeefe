pub mod database;
pub mod greeting;
pub mod laws;
pub mod migration;
pub mod schema;
