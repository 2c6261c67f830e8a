//! Client library for the Pixel Eagle visual regression testing service:
//! the command line grammar, the data that the service exchanges, the
//! requests that the client sends and the decisions it takes on the replies.

pub mod text;
pub mod string_map;
pub mod external;
pub mod cli;
pub mod grammar;
pub mod types;
pub mod project;
pub mod upload;
pub mod retry;
pub mod laws;
pub mod upload_laws;
pub mod comparison_laws;
pub mod command_laws;

pub use project::Project;
