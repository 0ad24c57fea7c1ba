//! A compiler cache for gfortran.
//!
//! A compilation is identified by everything that its result depends on: the compiler and its
//! tools, the command line, the environment, the working directory, and all files that the
//! compiler reads. Where a result for exactly that is stored, it is put in place; otherwise the
//! compiler runs, and what it produced is stored once it is certain what it depends on.
//!
//! Nothing here touches the file system or starts a process. What was found there comes in as
//! plain values, and what has to be done goes out.
pub mod bstr;
pub mod cache;
pub mod cli;
pub mod compiler;
pub mod config;
pub mod decimal;
pub mod digest;
pub mod framing;
pub mod hex;
pub mod launcher;
pub mod names;
pub mod process;
pub mod text;
pub mod upath;
pub mod words;
