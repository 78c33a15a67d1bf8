//! Reader for the header stream of RAR archives (format 1.5 to 4.x).
//!
//! The crate walks the block headers of an archive and decodes the names of
//! the directory entries that it meets; it never reads the packed data. Its
//! answer is the name of the one directory that the archive holds, or
//! nothing where the archive holds none or several.
//!
//! - [`cursor`]: a reading position over bytes in memory, with
//!   little-endian integers and the split of a name field into its two
//!   names.
//! - [`name`]: the decoder that rebuilds the code points of a name from its
//!   fallback name and its encoded name; [`name_laws`]: what holds of every
//!   decoded name.
//! - [`text`]: from code points to a `String`.
//! - [`header`]: the prefix of a block, and the headers of entry and
//!   service blocks.
//! - [`walker`]: the state machine that goes from block to block. It asks
//!   for bytes and is fed them, so that it works on any stream.
//! - [`scan`]: what a stream of bytes yields, and the scan of an archive in
//!   memory; [`archive`]: the same seen from a list of blocks.

pub mod archive;
pub mod cursor;
pub mod header;
pub mod name;
pub mod name_laws;
pub mod scan;
pub mod text;
pub mod walker;
