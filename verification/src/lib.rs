//! NavHub: the verified core of a self-hosted web-application navigation site.
pub mod clock;
pub mod text;
pub mod limiter;
pub mod json;
pub mod errors;
pub mod patterns;
pub mod schemas;
pub mod dates;
pub mod routes;
pub mod sql;
pub mod config;
pub mod auth;
pub mod models;
pub mod handlers;
pub mod upload;
pub mod seed;
pub mod field_laws;
