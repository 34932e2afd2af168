pub mod laws;
pub mod model;
pub mod outside;
pub mod scanner;
pub mod store;
pub mod text;
