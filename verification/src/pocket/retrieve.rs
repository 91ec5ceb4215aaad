//! Asking for a page of items, and reading the answer.

use crate::pocket::error::{PocketError, PocketErrorView, PocketResult};
use crate::pocket::item::Item;
use crate::text::{copy_opt_text, opt_text};
use vstd::prelude::*;

verus! {

/// Which items to return, by their state.
#[derive(Debug, Clone, Copy, PartialEq, Eq, Structural)]
pub enum State {
    Unread,
    Archive,
    All,
}

impl State {
    /// The word of the protocol for this state.
    pub fn name(&self) -> (word: &'static str)
        ensures
            word@ == (match self {
                State::Unread => "unread"@,
                State::Archive => "archive"@,
                State::All => "all"@,
            }),
    {
        match self {
            State::Unread => "unread",
            State::Archive => "archive",
            State::All => "all",
        }
    }
}

/// How much of each item to return.
#[derive(Debug, Clone, Copy, PartialEq, Eq, Structural)]
pub enum DetailType {
    Simple,
    Complete,
}

impl DetailType {
    /// The word of the protocol for this level of detail.
    pub fn name(&self) -> (word: &'static str)
        ensures
            word@ == (match self {
                DetailType::Simple => "simple"@,
                DetailType::Complete => "complete"@,
            }),
    {
        match self {
            DetailType::Simple => "simple",
            DetailType::Complete => "complete",
        }
    }
}

/// Which items to return, by tag.
#[derive(Debug)]
pub enum Tag {
    /// Only items without any tag.
    Untagged,
    /// Only items with this tag.
    Value(String),
}

/// A tag filter as a value.
pub enum TagFilter {
    Untagged,
    Value(Seq<char>),
}

impl View for Tag {
    type V = TagFilter;

    open spec fn view(&self) -> TagFilter {
        match self {
            Tag::Untagged => TagFilter::Untagged,
            Tag::Value(tag) => TagFilter::Value(tag@),
        }
    }
}

impl Tag {
    /// The word of the protocol for this filter: the tag itself, or the
    /// reserved word for items without tag.
    pub fn name(&self) -> (word: String)
        ensures
            word@ == (match self@ {
                TagFilter::Untagged => "_untagged_"@,
                TagFilter::Value(tag) => tag,
            }),
    {
        match self {
            Tag::Untagged => "_untagged_".to_owned(),
            Tag::Value(tag) => tag.clone(),
        }
    }
}

/// Which items to return, by kind of content.
#[derive(Debug, Clone, Copy, PartialEq, Eq, Structural)]
pub enum ContentType {
    Article,
    Video,
    Image,
}

impl ContentType {
    /// The word of the protocol for this kind of content.
    pub fn name(&self) -> (word: &'static str)
        ensures
            word@ == (match self {
                ContentType::Article => "article"@,
                ContentType::Video => "video"@,
                ContentType::Image => "image"@,
            }),
    {
        match self {
            ContentType::Article => "article",
            ContentType::Video => "video",
            ContentType::Image => "image",
        }
    }
}

/// The order of the items of a page.
#[derive(Debug, Clone, Copy, PartialEq, Eq, Structural)]
pub enum SortBy {
    Newest,
    Oldest,
    Title,
    Site,
}

impl SortBy {
    /// The word of the protocol for this order.
    pub fn name(&self) -> (word: &'static str)
        ensures
            word@ == (match self {
                SortBy::Newest => "newest"@,
                SortBy::Oldest => "oldest"@,
                SortBy::Title => "title"@,
                SortBy::Site => "site"@,
            }),
    {
        match self {
            SortBy::Newest => "newest",
            SortBy::Oldest => "oldest",
            SortBy::Title => "title",
            SortBy::Site => "site",
        }
    }
}

/// Whether the answer is to say how many entries there are in all.
#[derive(Debug, Clone, Copy, PartialEq, Eq, Structural)]
pub enum IncludeTotal {
    Include,
    Exclude,
}

impl IncludeTotal {
    /// The word of the protocol for this choice.
    pub fn name(&self) -> (word: &'static str)
        ensures
            word@ == (match self {
                IncludeTotal::Include => "1"@,
                IncludeTotal::Exclude => "0"@,
            }),
    {
        match self {
            IncludeTotal::Include => "1",
            IncludeTotal::Exclude => "0",
        }
    }
}

/// A page of items, as the remote answers.
#[derive(Debug)]
pub struct RetrieveResponse {
    pub status: i32,
    pub error: Option<String>,
    pub complete: bool,
    /// The high-water mark to ask from next time.
    pub since: i32,
    /// The position of the page, as the remote repeats it.
    pub offset: Option<i32>,
    /// The number of items of the page, as the remote counts them.
    pub count: Option<i32>,
    /// The number of entries in all, where the remote says it.
    pub total: Option<i32>,
    /// The items of the page, in the order of their keys.
    pub list: Vec<Item>,
}

/// Whether entries are left after a page: there are when the total exceeds the
/// number of entries of the page plus its position.
pub open spec fn entries_left(total: int, count: int, offset: int) -> bool {
    total > count + offset
}

impl RetrieveResponse {
    /// The number of entries of the page: what the remote counts, or else the
    /// length of the list.
    pub open spec fn entries(&self) -> int {
        match self.count {
            Some(c) => c as int,
            None => self.list@.len() as int,
        }
    }

    /// The position of the page: what the remote repeats, or else the start.
    pub open spec fn position(&self) -> int {
        match self.offset {
            Some(o) => o as int,
            None => 0,
        }
    }

    /// Whether more pages follow this one. A page that does not give the total
    /// cannot tell, which is a fault.
    pub fn has_more(&self) -> (more: PocketResult<bool>)
        ensures
            match more {
                Ok(m) => self.total is Some && m == entries_left(
                    self.total->Some_0 as int,
                    self.entries(),
                    self.position(),
                ),
                Err(e) => self.total is None && e@ == PocketErrorView::InvalidPagintionRequest,
            },
    {
        if let Some(total) = self.total {
            let count: i128 = match self.count {
                Some(c) => c as i128,
                None => self.list.len() as i128,
            };
            let offset: i128 = match self.offset {
                Some(o) => o as i128,
                None => 0,
            };
            return Ok(total as i128 > count + offset);
        }
        Err(PocketError::InvalidPagintionRequest)
    }
}

/// What to ask of the remote.
#[derive(Debug)]
pub struct GetOptions {
    pub state: Option<State>,
    pub favorite: Option<bool>,
    pub tag: Option<Tag>,
    pub content_type: Option<ContentType>,
    pub sort: Option<SortBy>,
    pub detail_type: Option<DetailType>,
    pub search: Option<String>,
    pub domain: Option<String>,
    pub since: Option<i32>,
    pub count: i32,
    pub total: IncludeTotal,
    pub offset: Option<i32>,
}

/// A request for a page as a value.
pub struct GetOptionsView {
    pub state: Option<State>,
    pub favorite: Option<bool>,
    pub tag: Option<TagFilter>,
    pub content_type: Option<ContentType>,
    pub sort: Option<SortBy>,
    pub detail_type: Option<DetailType>,
    pub search: Option<Seq<char>>,
    pub domain: Option<Seq<char>>,
    pub since: Option<i32>,
    pub count: i32,
    pub total: IncludeTotal,
    pub offset: Option<i32>,
}

impl View for GetOptions {
    type V = GetOptionsView;

    open spec fn view(&self) -> GetOptionsView {
        GetOptionsView {
            state: self.state,
            favorite: self.favorite,
            tag: match self.tag {
                Some(t) => Some(t@),
                None => None,
            },
            content_type: self.content_type,
            sort: self.sort,
            detail_type: self.detail_type,
            search: opt_text(self.search),
            domain: opt_text(self.domain),
            since: self.since,
            count: self.count,
            total: self.total,
            offset: self.offset,
        }
    }
}

/// The request that is made where nothing else is asked for: the unread items,
/// oldest first, in simple detail, thirty to a page, with the total.
pub open spec fn default_options() -> GetOptionsView {
    GetOptionsView {
        state: Some(State::Unread),
        favorite: None,
        tag: None,
        content_type: None,
        sort: Some(SortBy::Oldest),
        detail_type: Some(DetailType::Simple),
        search: None,
        domain: None,
        since: None,
        count: 30,
        total: IncludeTotal::Include,
        offset: None,
    }
}

impl Default for GetOptions {
    fn default() -> (options: Self)
        ensures
            options@ == default_options(),
    {
        Self {
            state: Some(State::Unread),
            favorite: None,
            tag: None,
            content_type: None,
            sort: Some(SortBy::Oldest),
            detail_type: Some(DetailType::Simple),
            search: None,
            domain: None,
            total: IncludeTotal::Include,
            since: None,
            // 30 is the largest page that the remote permits
            count: 30,
            offset: None,
        }
    }
}

impl GetOptions {
    /// The request from which paging starts: the default one, which asks for
    /// the total that paging needs.
    pub fn for_pagination() -> (options: Self)
        ensures
            options@ == default_options(),
    {
        let mut options = GetOptions::default();
        options.total = IncludeTotal::Include;
        options
    }

    /// Sets the number of items to a page.
    pub fn count(&mut self, count: i32) -> (same: &mut Self)
        ensures
            same@ == (GetOptionsView { count, ..old(self)@ }),
            final(self)@ == final(same)@,
    {
        self.count = count;
        self
    }

    /// Sets the position at which the page starts.
    pub fn offset(&mut self, offset: i32) -> (same: &mut Self)
        ensures
            same@ == (GetOptionsView { offset: Some(offset), ..old(self)@ }),
            final(self)@ == final(same)@,
    {
        self.offset = Some(offset);
        self
    }

    /// Takes the request out and leaves the default one in its place.
    pub fn build(&mut self) -> (options: GetOptions)
        ensures
            options@ == old(self)@,
            final(self)@ == default_options(),
    {
        let mut options = GetOptions::default();
        std::mem::swap(self, &mut options);
        options
    }
}

} // verus!
