pub mod assoc;
pub mod builtins;
pub mod env;
pub mod equality;
pub mod eval;
pub mod namespace;
pub mod printer;
pub mod read_back;
pub mod reader;
pub mod repl;
pub mod runtime;
pub mod stages;
pub mod text;
pub mod token_regex;
pub mod types;
