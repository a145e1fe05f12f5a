//! Sorta: the organizing rules of a movie / TV-series hard drive library.
//!
//! Naming conventions, folder classification, link planning, sidecar
//! handling, episode-tag parsing and the other pure decisions of the
//! desktop app, each with a verified contract.

pub mod catalog;
pub mod classify;
pub mod config;
pub mod entry;
pub mod error;
pub mod naming;
pub mod numfmt;
pub mod order;
pub mod path;
pub mod plan;
pub mod recatalog;
pub mod series;
pub mod sidecars;
pub mod text;
pub mod tmdb;
pub mod execute;
pub mod ffmpeg;
pub mod genres;
pub mod inline;
pub mod job;
pub mod library;
pub mod link;
pub mod media;
pub mod walker;
