//! A quiz engine: it hands each user unseen questions of a category, one
//! instance at a time and without the answer key, and later judges the answer
//! given to an instance. Beside it stand the decisions of the registration
//! and lookup of users.

pub mod bank;
pub mod counting;
pub mod engine;
pub mod error;
pub mod history;
pub mod ident;
pub mod laws;
pub mod ledger;
pub mod question;
pub mod registration;
pub mod tracker;
pub mod users;
