//! Marks directory-tree entries that match configurable glob patterns with a
//! persistent "ignore" flag, so that a sync client excludes them.
//!
//! The crate is organised leaf-first: [`configuration`] holds the plain
//! pattern-set data, [`matcher`] compiles the two glob sets and answers
//! "should this path be marked", [`dropbox`] is the persistent attribute
//! store, and [`scanner`] and [`traversal`] hold the entry rule and the
//! tree-walk engine built on top of the other three.

pub mod configuration;

pub mod dropbox;

pub mod matcher;

pub mod scanner;

pub mod traversal;
