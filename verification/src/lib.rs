//! Verified core of an XML-driven UI runtime.

pub mod text;
pub mod jsonc;
pub mod names;
pub mod table;
pub mod vars;
pub mod hex;
pub mod num;
pub mod types;
pub mod parser;
pub mod expr;
pub mod keyboard;
pub mod schema;
pub mod ui;
pub mod logger;
pub mod path;
pub mod expand;
pub mod def;
pub mod audio;
pub mod outline;
pub mod xml;
pub mod document;
