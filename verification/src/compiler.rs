//! Compiler command lines, dependency files and search order.
pub mod command_line;
pub mod depfile;
pub mod depfile_text;
pub mod fingerprint;
pub mod gfortran;
pub mod identity;
pub mod options;
pub mod resolution;
pub mod search_order;
pub mod trust;
