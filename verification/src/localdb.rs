//! The local relational mirror.

pub mod db;
pub mod error;
pub mod join;
pub mod kv;
pub mod kv_config;
pub mod laws;
pub mod model;
pub mod remote;
pub mod retry;
pub mod row;
pub mod tables;

pub use db::LocalDb;
pub use error::DBError;
pub use kv::{KeyValue, KvDB};
pub use kv_config::KvConfig;
pub use model::{Author, Entity, HasImage, HasVideo, Image, Item, ItemStatus, Tag, Video};
pub use row::{fold_rows, ItemRow};
