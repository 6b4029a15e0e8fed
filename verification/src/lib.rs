//! Format discovery for YouTube watch pages: the verified core.

pub mod text;
pub mod mime;
pub mod json;
pub mod format;
pub mod ordering;
pub mod extract;
pub mod solver;
pub mod cookies;
pub mod utils;
pub mod listing;
pub mod agent;
pub mod cli;
pub mod rate;
