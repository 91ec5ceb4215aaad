//! The shapes exchanged with the remote service.

pub mod auth;
pub mod error;
pub mod item;
pub mod modify;
pub mod request;
pub mod retrieve;

pub use error::{PocketError, PocketResult};
pub use item::Item;
pub use request::PockeRequest;
pub use retrieve::{
    ContentType, DetailType, GetOptions, IncludeTotal, RetrieveResponse, SortBy, State,
};
