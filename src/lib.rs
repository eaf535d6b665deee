pub mod error;
pub mod token;
pub mod token_tree;
mod text;
pub mod parsing;
pub mod tokenizing;
pub mod abstract_syntax_tree;
pub mod laws;
