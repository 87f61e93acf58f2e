//! Bookkeeping core of an eBPF program manager: the program registry, the
//! multi-attach dispatcher planning and the shared-map bookkeeper.
pub mod attach;
pub mod dispatcher;
pub mod errors;
pub mod ids;
pub mod laws;
pub mod list;
pub mod manager;
pub mod maps;
pub mod program;
pub mod rebuild;
pub mod registry;
pub mod request;
