pub mod json;
pub mod text;
