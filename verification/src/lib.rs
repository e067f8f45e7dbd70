//! A blob cache library: a byte-keyed store of binary blob values,
//! a chunked reader that streams a stored value in bounded slices, and a
//! request dispatcher that maps cache operations to responses.

pub mod cache;
pub mod chunk;
pub mod config;
pub mod dispatch;
