//! Verified domain logic of the Porto London coordinator and participant node.

pub mod text;
pub mod order;
pub mod domain;
pub mod digest;
pub mod keyed;
pub mod services;
pub mod integrity;
pub mod node;
pub mod config;
