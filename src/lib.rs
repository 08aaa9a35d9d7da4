//! Bootstrap launcher core: decides how an embedded resource archive is laid
//! out on disk and in which order the backend and frontend processes start.

pub mod text;
pub mod policy;
pub mod tree;
pub mod error;
pub mod archive;
pub mod plan;
pub mod layout;
pub mod startup;
