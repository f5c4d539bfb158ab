//! Semantic index and resolution engine for a language server of a modular
//! PHP web-application platform.
pub mod text;
pub mod m2;
pub mod table;
pub mod facts;
pub mod state;
pub mod js;
pub mod php;
pub mod locate;
pub mod xml;
pub mod completion;
pub mod indexer;
