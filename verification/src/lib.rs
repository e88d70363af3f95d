//! Verified core of a roaming-filter manager: the rule grammar, glob
//! translation, rule-set checking against a directory tree, and discovery of
//! candidate rules from version-control markers and ignore files.

pub mod checker;
pub mod errors;
pub mod globber;
pub mod manager;
pub mod rule;
pub mod scanner;
pub mod strutil;
