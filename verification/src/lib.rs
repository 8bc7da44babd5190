//! A task runner's engine: it reads a justfile into tokens and those into
//! assignments and recipes, plans the order in which the requested recipes
//! run, evaluates variables and interpolations, and says step by step which
//! command is to be run next. Commands themselves are run by the caller, who
//! hands back how they ended.

pub mod ast;
pub mod diagnostic;
pub mod evaluator;
pub mod executor;
pub mod graph;
pub mod invocation;
pub mod lexer;
pub mod listing;
pub mod parser;
pub mod resolver;
pub mod run;
pub mod suggestion;
pub mod text;
pub mod token;
pub mod variables;
