//! Link-time stage of a compiler for a stack machine: merges separately compiled modules,
//! resolves imports, eliminates labels, lowers wide tuples and assembles a native program.
pub mod mavm;
pub mod tuples;
pub mod program;
pub mod link;
pub mod striplabels;
pub mod xformcode;
pub mod postlink;
