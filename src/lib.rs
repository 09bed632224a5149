//! Configuration aggregation and toolset resolution for a polyglot tool
//! version manager.
pub mod aliases;
pub mod builder;
pub mod config;
pub mod entries;
pub mod settings;
pub mod strmap;
pub mod text;
pub mod ordmap;
pub mod toolset;
