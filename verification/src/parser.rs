pub mod document;
pub mod xml;
