//! Changes to send to the remote service.

use url::Url;
use vstd::prelude::*;

verus! {

/// A batch of changes together with the credentials that every request carries.
pub struct PocketSendRequest<'a, T> {
    pub consumer_key: &'a str,
    pub access_token: &'a str,
    pub actions: Vec<T>,
}

impl<'a, T> PocketSendRequest<'a, T> {
    pub fn new(consumer_key: &'a str, access_token: &'a str, actions: Vec<T>) -> (request:
        PocketSendRequest<'a, T>)
        ensures
            request.consumer_key@ == consumer_key@,
            request.access_token@ == access_token@,
            request.actions == actions,
    {
        PocketSendRequest { consumer_key, access_token, actions }
    }
}

/// What a change does.
#[derive(Debug, Clone, Copy, PartialEq, Eq, Structural)]
pub enum Action {
    Add,
    Archive,
    Readd,
    Favorite,
    Unfavorite,
    Delete,
    TagsAdd,
    TagsRemove,
    TagsReplace,
    TagsClear,
    TagsRename,
    TagsDelete,
}

impl Action {
    /// The word of the protocol for this action.
    pub fn name(&self) -> (word: &'static str)
        ensures
            word@ == (match self {
                Action::Add => "add"@,
                Action::Archive => "archive"@,
                Action::Readd => "readd"@,
                Action::Favorite => "favorite"@,
                Action::Unfavorite => "unfavorite"@,
                Action::Delete => "delete"@,
                Action::TagsAdd => "tags_add"@,
                Action::TagsRemove => "tags_remove"@,
                Action::TagsReplace => "tags_replace"@,
                Action::TagsClear => "tags_clear"@,
                Action::TagsRename => "tags_rename"@,
                Action::TagsDelete => "tags_delete"@,
            }),
    {
        match self {
            Action::Add => "add",
            Action::Archive => "archive",
            Action::Readd => "readd",
            Action::Favorite => "favorite",
            Action::Unfavorite => "unfavorite",
            Action::Delete => "delete",
            Action::TagsAdd => "tags_add",
            Action::TagsRemove => "tags_remove",
            Action::TagsReplace => "tags_replace",
            Action::TagsClear => "tags_clear",
            Action::TagsRename => "tags_rename",
            Action::TagsDelete => "tags_delete",
        }
    }
}

/// A change to one item that needs nothing but the item.
#[derive(Debug, Clone, Copy, PartialEq, Eq, Structural)]
pub struct ModifyItem {
    pub action: Action,
    pub item_id: u64,
}

impl ModifyItem {
    pub fn new(action: Action, item_id: u64) -> (change: ModifyItem)
        ensures
            change == (ModifyItem { action, item_id }),
    {
        ModifyItem { action, item_id }
    }

    /// Moves the item to the archive.
    pub fn archive(item_id: u64) -> (change: ModifyItem)
        ensures
            change == (ModifyItem { action: Action::Archive, item_id }),
    {
        ModifyItem::new(Action::Archive, item_id)
    }

    /// Moves the item back from the archive to the unread ones.
    pub fn readd(item_id: u64) -> (change: ModifyItem)
        ensures
            change == (ModifyItem { action: Action::Readd, item_id }),
    {
        ModifyItem::new(Action::Readd, item_id)
    }

    /// Marks the item as a favorite.
    pub fn favorite(item_id: u64) -> (change: ModifyItem)
        ensures
            change == (ModifyItem { action: Action::Favorite, item_id }),
    {
        ModifyItem::new(Action::Favorite, item_id)
    }

    /// Takes the mark of a favorite from the item.
    pub fn unfavorite(item_id: u64) -> (change: ModifyItem)
        ensures
            change == (ModifyItem { action: Action::Unfavorite, item_id }),
    {
        ModifyItem::new(Action::Unfavorite, item_id)
    }

    /// Deletes the item for good.
    pub fn delete(item_id: u64) -> (change: ModifyItem)
        ensures
            change == (ModifyItem { action: Action::Delete, item_id }),
    {
        ModifyItem::new(Action::Delete, item_id)
    }

    /// Takes all tags from the item.
    pub fn clear_tags(item_id: u64) -> (change: ModifyItem)
        ensures
            change == (ModifyItem { action: Action::TagsClear, item_id }),
    {
        ModifyItem::new(Action::TagsClear, item_id)
    }
}

/// The changes that move each of these items to the archive, in their order.
pub fn archive_actions(items: &Vec<u64>) -> (actions: Vec<ModifyItem>)
    ensures
        actions@ == items@.map_values(
            |item_id: u64| ModifyItem { action: Action::Archive, item_id },
        ),
{
    let ghost all = items@.map_values(
        |item_id: u64| ModifyItem { action: Action::Archive, item_id },
    );
    let mut actions: Vec<ModifyItem> = Vec::new();
    let n = items.len();
    let mut k: usize = 0;
    while k < n
        invariant
            k <= n,
            n == items.len(),
            all == items@.map_values(
                |item_id: u64| ModifyItem { action: Action::Archive, item_id },
            ),
            actions@ == all.take(k as int),
        decreases n - k,
    {
        actions.push(ModifyItem::archive(items[k]));
        proof {
            assert(actions@ =~= all.take(k + 1));
        }
        k = k + 1;
    }
    proof {
        assert(all.take(n as int) =~= all);
    }
    actions
}

/// Adds a page to the collection.
#[derive(Debug)]
pub struct AddUrlRequest {
    pub action: Action,
    pub url: Url,
    pub title: Option<String>,
    pub tags: Vec<String>,
    pub tweet_id: Option<String>,
}

impl AddUrlRequest {
    /// A request to add the page at `url`, without title or tags.
    pub fn new(url: Url) -> (request: AddUrlRequest)
        ensures
            request.action == Action::Add,
            request.url == url,
            request.title is None,
            request.tags@.len() == 0,
            request.tweet_id is None,
    {
        AddUrlRequest { action: Action::Add, url, title: None, tags: Vec::new(), tweet_id: None }
    }

    /// The same request with these tags in place of those it had.
    pub fn tags(self, tags: Vec<String>) -> (request: AddUrlRequest)
        ensures
            request.action == self.action,
            request.url == self.url,
            request.title == self.title,
            request.tags == tags,
            request.tweet_id == self.tweet_id,
    {
        AddUrlRequest {
            action: self.action,
            url: self.url,
            title: self.title,
            tags,
            tweet_id: self.tweet_id,
        }
    }

    /// The same request with this title in place of the one it had.
    pub fn title(self, title: String) -> (request: AddUrlRequest)
        ensures
            request.action == self.action,
            request.url == self.url,
            request.title == Some(title),
            request.tags == self.tags,
            request.tweet_id == self.tweet_id,
    {
        AddUrlRequest {
            action: self.action,
            url: self.url,
            title: Some(title),
            tags: self.tags,
            tweet_id: self.tweet_id,
        }
    }
}

/// Gives a tag another name, on all items.
#[derive(Debug)]
pub struct TagRename {
    pub action: Action,
    pub old_tag: String,
    pub new_tag: String,
}

impl TagRename {
    pub fn new(old_tag: String, new_tag: String) -> (change: TagRename)
        ensures
            change.action == Action::TagsRename,
            change.old_tag == old_tag,
            change.new_tag == new_tag,
    {
        TagRename { action: Action::TagsRename, old_tag, new_tag }
    }
}

/// Deletes a tag, on all items.
#[derive(Debug)]
pub struct TagDelete {
    pub action: Action,
    pub tag: String,
}

impl TagDelete {
    pub fn new(tag: String) -> (change: TagDelete)
        ensures
            change.action == Action::TagsDelete,
            change.tag == tag,
    {
        TagDelete { action: Action::TagsDelete, tag }
    }
}

/// A change to the tags of one item.
#[derive(Debug)]
pub struct ItemTagAction {
    pub action: Action,
    pub item_id: u64,
    pub tags: Vec<String>,
}

impl ItemTagAction {
    /// Gives the item these tags. The change is sent as a replacement of the
    /// item's tags.
    pub fn add_tags(item_id: u64, tags: Vec<String>) -> (change: ItemTagAction)
        ensures
            change.action == Action::TagsReplace,
            change.item_id == item_id,
            change.tags == tags,
    {
        ItemTagAction { action: Action::TagsReplace, item_id, tags }
    }

    /// Gives the item these tags in place of those it has.
    pub fn replace_tags(item_id: u64, tags: Vec<String>) -> (change: ItemTagAction)
        ensures
            change.action == Action::TagsReplace,
            change.item_id == item_id,
            change.tags == tags,
    {
        ItemTagAction { action: Action::TagsReplace, item_id, tags }
    }

    /// Names tags of the item. The change is sent as a replacement of the
    /// item's tags.
    pub fn remove_tags(item_id: u64, tags: Vec<String>) -> (change: ItemTagAction)
        ensures
            change.action == Action::TagsReplace,
            change.item_id == item_id,
            change.tags == tags,
    {
        ItemTagAction { action: Action::TagsReplace, item_id, tags }
    }
}

} // verus!
