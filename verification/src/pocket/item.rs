//! An item as the remote service reports it.

use vstd::prelude::*;

verus! {

/// Where an item stands with its reader, as the remote reports it.
#[derive(Debug, Clone, Copy, PartialEq, Eq, Structural)]
pub enum ItemStatus {
    Unread,
    Archived,
    Deleted,
}

/// A flag of the remote, which writes it as a number.
#[derive(Debug, Clone, Copy, PartialEq, Eq, Structural)]
pub enum Boolean {
    No,
    Yes,
}

impl Boolean {
    /// The flag as a truth value.
    pub open spec fn is_set(self) -> bool {
        self == Boolean::Yes
    }

    /// The flag as a truth value.
    pub fn deref(&self) -> (set: bool)
        ensures
            set == self.is_set(),
    {
        match self {
            Boolean::No => false,
            Boolean::Yes => true,
        }
    }
}

/// Whether an item has videos, or is one.
#[derive(Debug, Clone, Copy, PartialEq, Eq, Structural)]
pub enum HasVideo {
    No,
    Yes,
    IsVideo,
}

/// Whether an item has images, or is one.
#[derive(Debug, Clone, Copy, PartialEq, Eq, Structural)]
pub enum HasImage {
    No,
    Yes,
    IsImage,
}

/// An author of an item.
#[derive(Debug, Clone)]
pub struct Authors {
    pub author_id: i32,
    pub name: String,
    pub url: Option<String>,
}

/// A video of an item.
#[derive(Debug, Clone)]
pub struct Videos {
    pub video_id: i32,
    pub src: String,
    pub width: i32,
    pub height: i32,
    pub kind: String,
    pub vid: String,
}

/// An image of an item.
#[derive(Debug, Clone)]
pub struct Images {
    pub image_id: i32,
    pub src: String,
    pub width: i32,
    pub height: i32,
    pub credit: String,
    pub caption: String,
}

/// The lead image of an item.
#[derive(Debug, Clone)]
pub struct Image {
    pub src: String,
    pub width: i32,
    pub height: i32,
}

/// A tag of an item.
#[derive(Debug, Clone)]
pub struct Tag {
    pub tag: String,
    pub item_id: u64,
}

/// An item of a page. The remote keys tags, authors, images and videos by
/// name or number; here each is a list in the order of those keys.
#[derive(Debug, Clone)]
pub struct Item {
    pub item_id: i64,
    pub resolved_id: i64,
    pub given_url: String,
    pub given_title: String,
    pub favorite: Boolean,
    pub status: ItemStatus,
    pub time_added: i32,
    pub time_updated: i32,
    pub time_read: i32,
    pub time_favorited: i32,
    pub sort_id: i32,
    pub resolved_title: String,
    pub resolved_url: String,
    pub excerpt: String,
    pub is_article: Boolean,
    pub is_index: Boolean,
    pub has_video: HasVideo,
    pub has_image: HasImage,
    pub word_count: i32,
    pub lang: String,
    pub time_to_read: i32,
    pub top_image_url: Option<String>,
    pub listen_duration_estimate: i32,
    pub tags: Vec<Tag>,
    pub authors: Option<Vec<Authors>>,
    pub image: Option<Image>,
    pub images: Option<Vec<Images>>,
    pub videos: Option<Vec<Videos>>,
}

} // verus!
