pub mod input;
pub mod sanitize;
