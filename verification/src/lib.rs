pub mod data;
pub mod engine;
pub mod fetch;
pub mod json;
pub mod tags;
