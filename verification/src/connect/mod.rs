//! The connector directives `@source` and `@connect`.

pub mod agreement;
pub mod connector;
pub mod extract;
pub mod extract_laws;
pub mod headers;
pub mod order;
pub mod reading_laws;
pub mod source;
pub mod url;
