//! The verified core of a small static-site tool.
//!
//! The tool has two modes. In the first it collects the markdown documents
//! below a source directory, renders each one to a hypertext page and writes
//! the pages into a destination directory. In the second it serves the
//! destination directory over HTTP on the loopback interface.
//!
//! Everything that decides something lives here and is proved against its
//! contract:
//!
//! - [`mode`]: which mode a selector names;
//! - [`walk`]: which entries of a directory tree are listed and read, and in
//!   what order, as a state machine that its caller drives;
//! - [`tree`]: what such a walk collects from a whole tree;
//! - [`render`]: what page a document becomes;
//! - [`publish`]: what writing the pages does to the destination directory;
//! - [`site`]: the fixed names and addresses;
//! - [`text`]: comparing and joining text.
//!
//! Touching the file system or the network is left to the caller, which hands
//! plain values in and takes plain values back.

pub mod mode;
pub mod publish;
pub mod render;
pub mod site;
pub mod text;
pub mod tree;
pub mod walk;
