//! What holds of the operations of this library, stated of the texts that the system writes
//! and of the answers that are given.

pub mod clock;
pub mod guard;
pub mod holds;
pub mod net;
pub mod number;
pub mod path;
pub mod process;
pub mod render;
pub mod report;
pub mod scan;
pub mod text;
pub mod why;
