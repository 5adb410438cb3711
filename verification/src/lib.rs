//! Yara: a small, strongly typed teaching language. This crate holds its
//! lexer and parser, vocabulary translation, the import splicing helpers,
//! scope environment, builtin and method registries, diagnostics rendering,
//! the rules of its type checker and the pointer heap with its garbage
//! collector, each with a machine-checked contract.

pub mod text;
pub mod types;
pub mod strmap;
pub mod keywords;
pub mod builtins;
pub mod messages;
pub mod typechecker;
pub mod methods;
pub mod translations;
pub mod env;
pub mod diagnostics;
pub mod lexer;
pub mod parser;
pub mod resolver;
pub mod interpreter;
pub mod ast;
pub mod syntax;
pub mod grammar;
pub mod cli;
pub mod heap;
pub mod shift;
pub mod canon;
