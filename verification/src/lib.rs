//! A small Git object store: the object format, its hashing and
//! compression, and the layout of a repository, with their contracts.
pub mod compression;
pub mod crypto;
pub mod error;
pub mod text;
pub mod objects;
pub mod paths;
pub mod repository;
pub mod commands;
