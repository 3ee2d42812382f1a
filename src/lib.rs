//! A small concurrent language of tasks that talk over rendezvous channels:
//! tokenizer, parser, tree-walking evaluator and the task topology, verified.

pub mod node;
pub mod tokenizer;
pub mod grammar;
pub mod parser;
pub mod interpreter;
pub mod runtime;
mod fabric;
pub mod text;
