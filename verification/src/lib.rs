//! The front end of the Jo compiler and the logic of its language server.
//!
//! Text goes through the preprocessor, the lexer, the parser and the type
//! checker; `driver` runs them in order. Each stage has a mathematical
//! definition of what it computes, and its functions are proved to compute that.

pub mod acceptance;
pub mod ast;
pub mod completion;
pub mod declaration_laws;
pub mod desugaring;
pub mod diagnosis;
pub mod directive_laws;
pub mod directives;
pub mod driver;
pub mod env;
pub mod error;
pub mod grammar;
pub mod import_laws;
pub mod init_order;
pub mod lexer;
pub mod lexing_laws;
pub mod lint;
pub mod lookups;
pub mod parsed_types;
pub mod parser;
pub mod preprocessor;
pub mod program_laws;
pub mod protocol;
pub mod recovery;
pub mod server_laws;
pub mod soundness;
pub mod spelling;
pub mod symbol_laws;
pub mod symbols;
pub mod syntax_laws;
pub mod text;
pub mod text_laws;
pub mod typechecker;
pub mod types;
pub mod typing;
pub mod well_typed;
