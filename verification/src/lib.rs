//! A minimal `doas`-style privilege-escalation authorizer: the policy-file
//! front end (lexer and parser) and the decision engine that, given a parsed
//! rule list and a fully resolved request, selects the governing rule.
//!
//! All identity, group and path resolution is performed by the caller and
//! handed in as plain values; the library itself does no I/O.

pub mod args;
pub mod ast;
pub mod error;
pub mod lexer;
pub mod matcher;
pub mod parser;
pub mod user;
