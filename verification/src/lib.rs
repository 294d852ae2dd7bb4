//! A verified core for sharing files between two hosts: a directory tree with
//! cascading selection, and the decisions of the transfer protocol that moves
//! the selected files over one connection.

pub mod address;
pub mod app;
pub mod file_io;
pub mod file_system_laws;
pub mod network;
pub mod path_name;
pub mod receiver;
pub mod selection_laws;
pub mod sender;
pub mod transfer_laws;
pub mod tree_laws;
pub mod tree_model;
