//! How single values are written on the wire of the remote service, and how
//! they are read from it.

pub mod der;
pub mod ser;
