//! Fragments of configuration, stocked in a store and cooked against a
//! layered, merged configuration.
pub mod document;
pub mod dict;
pub mod text;
pub mod ingredient;
pub mod store;
pub mod cook;
pub mod config;
pub mod parse;
pub mod factory;
pub mod context;
pub mod markup;
pub mod processor;
pub mod logfile;
