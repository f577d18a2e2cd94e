//! Decoder/encoder for a line-oriented `key: value` wire protocol, as spoken
//! by media-server control connections. A finite sequence of `(key, value)`
//! pairs is folded into one typed record (a `Song`, a `Stats` snapshot, or a
//! `Playlist` entry), and a record is projected back into a canonical form of
//! plain integers and explicit optional markers for an API boundary.

pub mod error;
pub mod value;
pub mod format;
pub mod song;
pub mod stats;
pub mod playlist;
