//! Literal substring search over lines of text, with the pieces a recursive
//! directory search needs: match highlighting, report lines, a traversal
//! work-list and the command line's decisions.

pub mod chars;
pub mod cli;
pub mod decimal;
pub mod highlight;
pub mod matching;
pub mod report;
pub mod tree;
pub mod walk;
