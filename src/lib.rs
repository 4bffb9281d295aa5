//! Incremental mirroring of a manga title from a remote catalog to local disk:
//! working out which chapters are missing, compiling one download job per page,
//! deciding what each download becomes, and rewriting the chapter index.
pub mod catalog;
pub mod decimal;
pub mod error;
pub mod html;
pub mod jobs;
pub mod pages;
pub mod paths;
pub mod reconcile;
pub mod site;
pub mod worker;

pub use paths::create_paths;
pub use site::sanitize_name;
