//! Pagination metadata for list-style API endpoints.
//!
//! Two interchangeable strategies - offset/page based and opaque-token based -
//! share one Link-header boundary algorithm and produce the `X-Total-Count`
//! and `Link` response headers that let clients traverse a paged collection.

pub mod digits;
pub mod links;
pub mod normalize;
pub mod page_pagination;
pub mod token_pagination;
