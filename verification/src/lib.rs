pub mod decimal;
pub mod diagnostics;
pub mod parser;
pub mod pattern;
pub mod text;
