pub mod legado;
pub mod html;
pub mod rule_engine;
pub mod context;
pub mod rule_compiler;
pub mod xpath;
