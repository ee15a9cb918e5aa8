//! Transport and pagination core for a REST API client: request assembly,
//! uniform error normalization across backends, and an automatic-pagination
//! engine that walks a paged collection as one lazy sequence.

pub mod error;
pub mod http;
pub mod pagination;

pub use error::ClientError;
pub use error::ClientResult;
