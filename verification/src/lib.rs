//! Writer for compressed vector sections: point clouds packed into
//! bit-level byte streams, framed as data packets behind a section header.
//!
//! The crate performs no input or output of its own. Every operation hands
//! back the bytes that belong into the storage stream, and the caller decides
//! where they go.

pub mod bits;
pub mod bs_out;
pub mod cv_section;
pub mod decoder;
pub mod encoder;
pub mod endian;
pub mod error;
pub mod packet;
pub mod pc_writer;
pub mod record;
pub mod section;
