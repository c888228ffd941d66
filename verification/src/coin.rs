//! Balance histories of the native coin and of fungible tokens.
pub mod history;
pub mod models;
pub mod schemas;
