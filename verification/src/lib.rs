//! The logic of a portal that lists the HTTP services listening on the local
//! machine: reading the socket listing, combining it with directly tried
//! ports, naming each service, and keeping a cache of services in step with
//! successive scans.
pub mod text;
pub mod number;
pub mod models;
pub mod config;
pub mod lsof;
pub mod scanner;
pub mod detector;
pub mod cache;
pub mod web;
