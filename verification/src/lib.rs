//! Two readers of federation schemas.
//!
//! [`subgraph_metadata`] tells which fields of a subgraph schema are external, that is, resolved
//! by another subgraph. [`external`] states what that means, [`external_laws`] and
//! [`metadata_laws`] what follows.
//!
//! [`connect`] reads the arguments of the connector directives `@source` and `@connect`.
//!
//! Three languages inside GraphQL strings and values are not read here: field sets, selections
//! and headers. Their readers are passed in as functions. The contracts speak of what those
//! functions were given and of what they returned.

pub mod ast;
pub mod collecting;
pub mod collections;
pub mod connect;
pub mod error;
pub mod external;
pub mod external_laws;
pub mod federation;
pub mod metadata_laws;
pub mod operation;
pub mod position;
pub mod subgraph_metadata;
