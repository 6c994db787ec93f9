//! Verified core of the Loadsmith lab: origins, item resolution, case and
//! bundle bookkeeping, and the text handling the runner relies on.

pub mod bundle;
pub mod case;
pub mod commands;
pub mod docker;
pub mod error;
pub mod image;
pub mod install;
pub mod origin;
pub mod paths;
pub mod report;
pub mod runner;
pub mod sorting;
pub mod text;
