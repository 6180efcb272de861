//! A path-segment router and a streaming file-response pipeline.
//!
//! The router consumes a request's path incrementally, one segment at a
//! time, through a [`route::RouteCursor`]: matchers extract typed values,
//! advance the cursor on success, and leave it untouched on failure.  The
//! directory matcher validates every remaining segment against `..`
//! traversal before joining it onto a fixed base directory.  The file
//! pipeline turns the outcome of opening and measuring a file into an HTTP
//! response, and drives a backpressure-respecting copy loop one read at a
//! time.

pub mod error;
pub mod files;
pub mod path;
pub mod route;
