pub mod reporter;
pub mod types;
