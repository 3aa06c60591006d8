//! MemeDB: a content-addressed image store with tags.
//!
//! This crate holds the decisions of the service: how search terms and tag
//! names are cleaned, how an uploaded file is named and where it is stored,
//! which SQL statements each operation runs and in which order, and what each
//! request is answered. The program around it performs the I/O.

pub mod text;
pub mod tags;
pub mod files;
pub mod models;
pub mod sql;
pub mod services;
pub mod replies;
pub mod handlers;
pub mod db;
