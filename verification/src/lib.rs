//! An authenticated CRUD service for rustaceans: credential handling, the
//! repository of records and the translation of outcomes into responses.

pub mod auth;
pub mod base64;
pub mod credentials;
pub mod failures;
pub mod models;
pub mod operations;
pub mod pipeline;
pub mod repositories;
pub mod responses;
