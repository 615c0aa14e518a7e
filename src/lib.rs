//! Layout descriptors, a container of dynamically-sized records, and the
//! bookkeeping of an append-only packet table with a buffered writer.

pub mod buf_writer;
pub mod data;
pub mod descriptor;
pub mod fixed_vec;
pub mod layout;
pub mod table;
