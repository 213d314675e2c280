pub mod data;
pub mod manager;
