//! A download manager's placement engine: output-path resolution, paced
//! writing of a fetched body, and the one-level link pipeline used to mirror
//! a page.
pub mod batch;
pub mod error;
pub mod external;
pub mod filename;
pub mod links;
pub mod mirror;
pub mod rate;
pub mod request;
pub mod text;
