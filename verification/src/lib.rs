//! Linux introspection: who holds a port or a path, how the network is set up,
//! where a command comes from, and why a file or a socket is in use.
//!
//! Every function here works on plain values that were read beforehand: the text of
//! a `/proc` file, the outcome of a directory listing, the bytes of a path. The
//! contracts say exactly which values and which text come out.

pub mod bytes;
pub mod clock;
pub mod failure;
pub mod filepath;
pub mod holds;
pub mod laws;
pub mod net;
pub mod number;
pub mod order;
pub mod path;
pub mod pathguard;
pub mod process;
pub mod text;
pub mod touch;
pub mod version;
pub mod why;
