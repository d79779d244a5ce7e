//! gitlog: the logic of a set of small git tools (a history viewer, a
//! commit window, a push window and a commit-details editor): the parsers
//! of git's output, the commit history reader, the file lists of the commit
//! window, the push and rewrite plans, and the localized date text.
pub mod text;
pub mod gitlog;
pub mod log;
pub mod i18n;
pub mod rewrite;
pub mod commit;
pub mod push;
pub mod labels;
