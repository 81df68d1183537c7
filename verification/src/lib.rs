pub mod text;
pub mod json;
pub mod order;
pub mod tools;
pub mod client;
