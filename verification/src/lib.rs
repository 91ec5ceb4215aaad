//! A local mirror of a remote read-later collection.
//!
//! - `localdb` holds the normalized store, the reader that folds the rows of the
//!   combined join back into items, and the cursor store.
//! - `sync` holds the engine that takes the pages of the remote collection into
//!   the store and remembers how far it got.
//! - `pocket` holds the shapes exchanged with the remote service.
//! - `codec` and `util` hold the string forms of single values.
//! - `capture`, `native_host` and `proto_handler` decide what the program does
//!   with a link, with a message of the browser extension, and at installation.
//! - `link` reaches the `url` crate, `text` the text functions of the standard
//!   library.

pub mod capture;
pub mod codec;
pub mod link;
pub mod localdb;
pub mod native_host;
pub mod pocket;
pub mod proto_handler;
pub mod sync;
pub mod text;
pub mod util;
