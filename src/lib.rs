//! Chunked game installer core: manifest codec, delta computation, write
//! planning, ordered chunk writing and content verification.
use vstd::prelude::*;

pub mod cli;
pub mod codec;
pub mod decimal;
pub mod delta;
pub mod error;
pub mod hash;
pub mod latin1;
pub mod launch;
pub mod library;
pub mod mac;
pub mod manifest;
pub mod paths;
pub mod plan;
pub mod product;
pub mod writer;

verus! {

/// Largest size of one chunk, in bytes (1 MiB).
pub const MAX_CHUNK_SIZE: usize = 1048576;

/// Flag value that marks a directory row in a file manifest.
pub const DIRECTORY_FLAGS: u8 = 40;

/// Default memory budget for buffered chunks: 1024 chunks (1 GiB).
pub const DEFAULT_MAX_MEMORY_USAGE: usize = 1073741824;

} // verus!
