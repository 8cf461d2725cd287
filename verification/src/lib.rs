//! A verified core for linting commit messages written in the
//! Conventional Commits style.
//!
//! The crate parses a raw commit message into a structured [`Message`]
//! (subject, type, scope, description, body and footers) and hands the
//! result to a rule set through a thin, pass-through validator. Parsing
//! never fails: malformed structure is represented by absent optional
//! fields, to be reported by rules rather than by errors.

pub mod lines;
pub mod lint;
pub mod message;
pub mod subject;
pub mod text;
pub mod trailer;

pub use lint::Config;
pub use lint::EmptyRuleSet;
pub use lint::LintResult;
pub use lint::RuleSet;
pub use lint::Severity;
pub use lint::ValidateError;
pub use lint::Violation;
pub use lint::validate;
pub use message::Message;
