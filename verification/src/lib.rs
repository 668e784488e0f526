pub mod completion;
pub mod definition;
pub mod document;
pub mod formatter;
pub mod hover;
pub mod outline;
pub mod protocol;
pub mod safety;
pub mod semantic_tokens;
pub mod text;
pub mod symbols;
