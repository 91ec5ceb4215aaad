//! The entities of the mirror and their mathematical views.

use crate::text::{copy_opt_text, opt_text, same_opt_text};
use vstd::prelude::*;

verus! {

/// A sub-entity of an item. Two of them are the same when everything they hold
/// is the same, the surrogate id included.
pub trait Entity: View + Sized {
    /// Whether the two hold the same.
    fn same(&self, other: &Self) -> (same: bool)
        ensures
            same == (self@ == other@),
    ;

    /// Another entity that holds the same.
    fn copy(&self) -> (copy: Self)
        ensures
            copy@ == self@,
    ;
}

/// Copies a vector of entities.
pub fn copy_all<T: Entity>(v: &Vec<T>) -> (out: Vec<T>)
    ensures
        views(out@) == views(v@),
{
    let mut out: Vec<T> = Vec::new();
    let n = v.len();
    let mut k: usize = 0;
    while k < n
        invariant
            k <= n,
            n == v.len(),
            views(out@) == views(v@).take(k as int),
        decreases n - k,
    {
        let ghost before = out@;
        out.push(v[k].copy());
        proof {
            assert(views(out@) =~= views(before).push(v[k as int]@));
            assert(views(v@).take(k + 1) =~= views(v@).take(k as int).push(v[k as int]@));
        }
        k = k + 1;
    }
    proof {
        assert(views(v@).take(n as int) =~= views(v@));
    }
    out
}

/// The view of an optional entity.
pub open spec fn opt_view<T: View>(o: Option<T>) -> Option<T::V> {
    match o {
        Some(t) => Some(t@),
        None => None,
    }
}

/// The views of a sequence of optional entities, in the same order.
pub open spec fn opt_views<T: View>(s: Seq<Option<T>>) -> Seq<Option<T::V>> {
    s.map_values(|o: Option<T>| opt_view(o))
}

/// The views of a sequence of entities, in the same order.
pub open spec fn views<T: View>(s: Seq<T>) -> Seq<T::V> {
    s.map_values(|t: T| t@)
}

/// The set of views that a sequence of entities holds.
pub open spec fn view_set<T: View>(s: Seq<T>) -> Set<T::V> {
    views(s).to_set()
}

/// No two entities of the sequence have the same view.
pub open spec fn distinct<T: View>(s: Seq<T>) -> bool {
    views(s).no_duplicates()
}

/// A label attached to items. The slug is its natural key.
#[derive(Debug)]
pub struct Tag {
    pub id: i32,
    pub tag: String,
    pub name: Option<String>,
}

pub struct TagView {
    pub id: i32,
    pub tag: Seq<char>,
    pub name: Option<Seq<char>>,
}

impl View for Tag {
    type V = TagView;

    open spec fn view(&self) -> TagView {
        TagView { id: self.id, tag: self.tag@, name: opt_text(self.name) }
    }
}

impl Entity for Tag {
    fn same(&self, other: &Self) -> (same: bool) {
        self.id == other.id && self.tag == other.tag && same_opt_text(&self.name, &other.name)
    }

    fn copy(&self) -> (copy: Self) {
        Tag { id: self.id, tag: self.tag.clone(), name: copy_opt_text(&self.name) }
    }
}

impl Clone for Tag {
    fn clone(&self) -> (copy: Self)
        ensures
            copy@ == self@,
    {
        self.copy()
    }
}

impl PartialEq for Tag {
    fn eq(&self, other: &Self) -> (same: bool) {
        self.same(other)
    }
}

impl vstd::std_specs::cmp::PartialEqSpecImpl for Tag {
    open spec fn obeys_eq_spec() -> bool {
        true
    }

    open spec fn eq_spec(&self, other: &Self) -> bool {
        self@ == other@
    }
}

impl Default for Tag {
    /// The sample tag: slug `example`, no display name, no id yet.
    fn default() -> (tag: Self)
        ensures
            tag@ == (TagView { id: 0, tag: "example"@, name: None }),
    {
        Tag { id: 0, tag: "example".to_owned(), name: None }
    }
}

/// Someone who wrote an item. The url, where there is one, is the natural key.
#[derive(Debug)]
pub struct Author {
    pub id: i32,
    pub name: String,
    pub url: Option<String>,
}

pub struct AuthorView {
    pub id: i32,
    pub name: Seq<char>,
    pub url: Option<Seq<char>>,
}

impl View for Author {
    type V = AuthorView;

    open spec fn view(&self) -> AuthorView {
        AuthorView { id: self.id, name: self.name@, url: opt_text(self.url) }
    }
}

impl Entity for Author {
    fn same(&self, other: &Self) -> (same: bool) {
        self.id == other.id && self.name == other.name && same_opt_text(&self.url, &other.url)
    }

    fn copy(&self) -> (copy: Self) {
        Author { id: self.id, name: self.name.clone(), url: copy_opt_text(&self.url) }
    }
}

impl Clone for Author {
    fn clone(&self) -> (copy: Self)
        ensures
            copy@ == self@,
    {
        self.copy()
    }
}

impl PartialEq for Author {
    fn eq(&self, other: &Self) -> (same: bool) {
        self.same(other)
    }
}

impl vstd::std_specs::cmp::PartialEqSpecImpl for Author {
    open spec fn obeys_eq_spec() -> bool {
        true
    }

    open spec fn eq_spec(&self, other: &Self) -> bool {
        self@ == other@
    }
}

impl Default for Author {
    /// The sample author.
    fn default() -> (author: Self)
        ensures
            author@ == (AuthorView {
                id: 0,
                name: "John Doe"@,
                url: Some("https://example.com/John-Doe"@),
            }),
    {
        Author {
            id: 0,
            name: "John Doe".to_owned(),
            url: Some("https://example.com/John-Doe".to_owned()),
        }
    }
}

/// A picture of an item. The source url is the natural key.
#[derive(Debug)]
pub struct Image {
    pub id: i32,
    pub src: String,
    pub width: i32,
    pub height: i32,
    pub caption: Option<String>,
    pub credit: Option<String>,
}

pub struct ImageView {
    pub id: i32,
    pub src: Seq<char>,
    pub width: i32,
    pub height: i32,
    pub caption: Option<Seq<char>>,
    pub credit: Option<Seq<char>>,
}

impl View for Image {
    type V = ImageView;

    open spec fn view(&self) -> ImageView {
        ImageView {
            id: self.id,
            src: self.src@,
            width: self.width,
            height: self.height,
            caption: opt_text(self.caption),
            credit: opt_text(self.credit),
        }
    }
}

impl Entity for Image {
    fn same(&self, other: &Self) -> (same: bool) {
        self.id == other.id && self.src == other.src && self.width == other.width && self.height
            == other.height && same_opt_text(&self.caption, &other.caption) && same_opt_text(
            &self.credit,
            &other.credit,
        )
    }

    fn copy(&self) -> (copy: Self) {
        Image {
            id: self.id,
            src: self.src.clone(),
            width: self.width,
            height: self.height,
            caption: copy_opt_text(&self.caption),
            credit: copy_opt_text(&self.credit),
        }
    }
}

impl Clone for Image {
    fn clone(&self) -> (copy: Self)
        ensures
            copy@ == self@,
    {
        self.copy()
    }
}

impl PartialEq for Image {
    fn eq(&self, other: &Self) -> (same: bool) {
        self.same(other)
    }
}

impl vstd::std_specs::cmp::PartialEqSpecImpl for Image {
    open spec fn obeys_eq_spec() -> bool {
        true
    }

    open spec fn eq_spec(&self, other: &Self) -> bool {
        self@ == other@
    }
}

impl Default for Image {
    /// The sample image.
    fn default() -> (image: Self)
        ensures
            image@ == (ImageView {
                id: 0,
                src: "https://s3.amazonaws.com/pocket-curatedcorpusapi-prod-images/bb16bdaf-f3e5-47fc-8bef-14ccece27fd7.jpeg"@,
                width: 0,
                height: 0,
                caption: Some(""@),
                credit: Some(""@),
            }),
    {
        Image {
            id: 0,
            src: "https://s3.amazonaws.com/pocket-curatedcorpusapi-prod-images/bb16bdaf-f3e5-47fc-8bef-14ccece27fd7.jpeg".to_owned(),
            width: 0,
            height: 0,
            caption: Some("".to_owned()),
            credit: Some("".to_owned()),
        }
    }
}

/// A video of an item. The source url is the natural key.
#[derive(Debug)]
pub struct Video {
    pub id: i32,
    pub src: String,
    pub width: i32,
    pub height: i32,
    pub kind: Option<String>,
}

pub struct VideoView {
    pub id: i32,
    pub src: Seq<char>,
    pub width: i32,
    pub height: i32,
    pub kind: Option<Seq<char>>,
}

impl View for Video {
    type V = VideoView;

    open spec fn view(&self) -> VideoView {
        VideoView {
            id: self.id,
            src: self.src@,
            width: self.width,
            height: self.height,
            kind: opt_text(self.kind),
        }
    }
}

impl Entity for Video {
    fn same(&self, other: &Self) -> (same: bool) {
        self.id == other.id && self.src == other.src && self.width == other.width && self.height
            == other.height && same_opt_text(&self.kind, &other.kind)
    }

    fn copy(&self) -> (copy: Self) {
        Video {
            id: self.id,
            src: self.src.clone(),
            width: self.width,
            height: self.height,
            kind: copy_opt_text(&self.kind),
        }
    }
}

impl Clone for Video {
    fn clone(&self) -> (copy: Self)
        ensures
            copy@ == self@,
    {
        self.copy()
    }
}

impl PartialEq for Video {
    fn eq(&self, other: &Self) -> (same: bool) {
        self.same(other)
    }
}

impl vstd::std_specs::cmp::PartialEqSpecImpl for Video {
    open spec fn obeys_eq_spec() -> bool {
        true
    }

    open spec fn eq_spec(&self, other: &Self) -> bool {
        self@ == other@
    }
}

impl Default for Video {
    /// The sample video.
    fn default() -> (video: Self)
        ensures
            video@ == (VideoView {
                id: 0,
                src: "https://www.youtube.com/watch?v=dQw4w9WgXcQ"@,
                width: 0,
                height: 0,
                kind: Some(""@),
            }),
    {
        Video {
            id: 0,
            src: "https://www.youtube.com/watch?v=dQw4w9WgXcQ".to_owned(),
            width: 0,
            height: 0,
            kind: Some("".to_owned()),
        }
    }
}

/// Where an item stands with its reader.
#[derive(Debug, Clone, Copy, PartialEq, Eq, Structural)]
pub enum ItemStatus {
    Unread,
    Archived,
    Deleted,
}

/// Whether an item has videos, or is one.
#[derive(Debug, Clone, Copy, PartialEq, Eq, Structural)]
pub enum HasVideo {
    No,
    Yes,
    IsVideo,
}

/// Whether an item has images, or is one.
#[derive(Debug, Clone, Copy, PartialEq, Eq, Structural)]
pub enum HasImage {
    No,
    Yes,
    IsImage,
}

impl ItemStatus {
    /// The number under which the value is stored.
    pub open spec fn code_of(self) -> i32 {
        match self {
            ItemStatus::Unread => 0,
            ItemStatus::Archived => 1,
            ItemStatus::Deleted => 2,
        }
    }

    /// The number under which the value is stored.
    pub fn code(&self) -> (code: i32)
        ensures
            code == self.code_of(),
    {
        match self {
            ItemStatus::Unread => 0,
            ItemStatus::Archived => 1,
            ItemStatus::Deleted => 2,
        }
    }

    /// The value that is stored under a number, if the number stands for one.
    pub fn from_code(code: i32) -> (value: Option<Self>)
        ensures
            match value {
                Some(v) => v.code_of() == code,
                None => code < 0 || code > 2,
            },
    {
        if code == 0 {
            Some(ItemStatus::Unread)
        } else if code == 1 {
            Some(ItemStatus::Archived)
        } else if code == 2 {
            Some(ItemStatus::Deleted)
        } else {
            None
        }
    }
}

impl HasVideo {
    /// The number under which the value is stored.
    pub open spec fn code_of(self) -> i32 {
        match self {
            HasVideo::No => 0,
            HasVideo::Yes => 1,
            HasVideo::IsVideo => 2,
        }
    }

    /// The number under which the value is stored.
    pub fn code(&self) -> (code: i32)
        ensures
            code == self.code_of(),
    {
        match self {
            HasVideo::No => 0,
            HasVideo::Yes => 1,
            HasVideo::IsVideo => 2,
        }
    }

    /// The value that is stored under a number, if the number stands for one.
    pub fn from_code(code: i32) -> (value: Option<Self>)
        ensures
            match value {
                Some(v) => v.code_of() == code,
                None => code < 0 || code > 2,
            },
    {
        if code == 0 {
            Some(HasVideo::No)
        } else if code == 1 {
            Some(HasVideo::Yes)
        } else if code == 2 {
            Some(HasVideo::IsVideo)
        } else {
            None
        }
    }
}

impl HasImage {
    /// The number under which the value is stored.
    pub open spec fn code_of(self) -> i32 {
        match self {
            HasImage::No => 0,
            HasImage::Yes => 1,
            HasImage::IsImage => 2,
        }
    }

    /// The number under which the value is stored.
    pub fn code(&self) -> (code: i32)
        ensures
            code == self.code_of(),
    {
        match self {
            HasImage::No => 0,
            HasImage::Yes => 1,
            HasImage::IsImage => 2,
        }
    }

    /// The value that is stored under a number, if the number stands for one.
    pub fn from_code(code: i32) -> (value: Option<Self>)
        ensures
            match value {
                Some(v) => v.code_of() == code,
                None => code < 0 || code > 2,
            },
    {
        if code == 0 {
            Some(HasImage::No)
        } else if code == 1 {
            Some(HasImage::Yes)
        } else if code == 2 {
            Some(HasImage::IsImage)
        } else {
            None
        }
    }
}

/// What an item holds besides its sets of sub-entities.
pub struct ItemScalars {
    pub id: i64,
    pub pocket_id: Option<i64>,
    pub title: Seq<char>,
    pub url: Seq<char>,
    pub excerpt: Option<Seq<char>>,
    pub is_article: Option<bool>,
    pub is_index: Option<bool>,
    pub has_video: Option<HasVideo>,
    pub has_image: Option<HasImage>,
    pub word_count: Option<i32>,
    pub lang: Option<Seq<char>>,
    pub time_to_read: Option<i32>,
    pub top_image_url: Option<Seq<char>>,
    pub listen_duration_estimate: Option<i32>,
    pub status: ItemStatus,
    pub time_added: i32,
    pub time_updated: Option<i32>,
    pub time_read: Option<i32>,
    pub time_favorited: Option<i32>,
}

/// An item as a value: its scalar part and four sets.
pub struct ItemView {
    pub scalars: ItemScalars,
    pub tags: Set<TagView>,
    pub authors: Set<AuthorView>,
    pub images: Set<ImageView>,
    pub videos: Set<VideoView>,
}

/// A bookmarked page together with what is attached to it. Each of the four
/// vectors stands for a set: see [`Item::wf`].
#[derive(Debug)]
pub struct Item {
    pub id: i64,
    pub pocket_id: Option<i64>,
    pub title: String,
    pub url: String,
    pub excerpt: Option<String>,
    pub is_article: Option<bool>,
    pub is_index: Option<bool>,
    pub has_video: Option<HasVideo>,
    pub has_image: Option<HasImage>,
    pub word_count: Option<i32>,
    pub lang: Option<String>,
    pub time_to_read: Option<i32>,
    pub top_image_url: Option<String>,
    pub listen_duration_estimate: Option<i32>,
    pub tags: Vec<Tag>,
    pub authors: Vec<Author>,
    pub images: Vec<Image>,
    pub videos: Vec<Video>,
    pub status: ItemStatus,
    pub time_added: i32,
    pub time_updated: Option<i32>,
    pub time_read: Option<i32>,
    pub time_favorited: Option<i32>,
}

impl Item {
    /// The scalar part of the item.
    pub open spec fn scalars(&self) -> ItemScalars {
        ItemScalars {
            id: self.id,
            pocket_id: self.pocket_id,
            title: self.title@,
            url: self.url@,
            excerpt: opt_text(self.excerpt),
            is_article: self.is_article,
            is_index: self.is_index,
            has_video: self.has_video,
            has_image: self.has_image,
            word_count: self.word_count,
            lang: opt_text(self.lang),
            time_to_read: self.time_to_read,
            top_image_url: opt_text(self.top_image_url),
            listen_duration_estimate: self.listen_duration_estimate,
            status: self.status,
            time_added: self.time_added,
            time_updated: self.time_updated,
            time_read: self.time_read,
            time_favorited: self.time_favorited,
        }
    }

    /// A copy of the scalar part under another id, with nothing attached.
    pub fn row_copy(&self, id: i64) -> (copy: Item)
        ensures
            copy.scalars() == (ItemScalars { id, ..self.scalars() }),
            copy.tags@.len() == 0,
            copy.authors@.len() == 0,
            copy.images@.len() == 0,
            copy.videos@.len() == 0,
    {
        Item {
            id,
            pocket_id: self.pocket_id,
            title: self.title.clone(),
            url: self.url.clone(),
            excerpt: copy_opt_text(&self.excerpt),
            is_article: self.is_article,
            is_index: self.is_index,
            has_video: self.has_video,
            has_image: self.has_image,
            word_count: self.word_count,
            lang: copy_opt_text(&self.lang),
            time_to_read: self.time_to_read,
            top_image_url: copy_opt_text(&self.top_image_url),
            listen_duration_estimate: self.listen_duration_estimate,
            tags: Vec::new(),
            authors: Vec::new(),
            images: Vec::new(),
            videos: Vec::new(),
            status: self.status,
            time_added: self.time_added,
            time_updated: self.time_updated,
            time_read: self.time_read,
            time_favorited: self.time_favorited,
        }
    }

    /// Each vector holds every sub-entity once.
    pub open spec fn wf(&self) -> bool {
        &&& distinct(self.tags@)
        &&& distinct(self.authors@)
        &&& distinct(self.images@)
        &&& distinct(self.videos@)
    }
}

impl View for Item {
    type V = ItemView;

    open spec fn view(&self) -> ItemView {
        ItemView {
            scalars: self.scalars(),
            tags: view_set(self.tags@),
            authors: view_set(self.authors@),
            images: view_set(self.images@),
            videos: view_set(self.videos@),
        }
    }
}

impl Clone for Item {
    fn clone(&self) -> (copy: Self)
        ensures
            copy.scalars() == self.scalars(),
            views(copy.tags@) == views(self.tags@),
            views(copy.authors@) == views(self.authors@),
            views(copy.images@) == views(self.images@),
            views(copy.videos@) == views(self.videos@),
    {
        let mut copy = self.row_copy(self.id);
        copy.tags = copy_all(&self.tags);
        copy.authors = copy_all(&self.authors);
        copy.images = copy_all(&self.images);
        copy.videos = copy_all(&self.videos);
        copy
    }
}

impl Default for Item {
    /// The sample item: an unread page with nothing attached.
    fn default() -> (item: Self)
        ensures
            item.wf(),
            item.tags@.len() == 0,
            item.authors@.len() == 0,
            item.images@.len() == 0,
            item.videos@.len() == 0,
            item@ == (ItemView {
                scalars: ItemScalars {
                    id: 0,
                    pocket_id: None,
                    title: "Example URL"@,
                    url: "http://example.com"@,
                    excerpt: None,
                    is_article: None,
                    is_index: None,
                    has_video: None,
                    has_image: None,
                    word_count: None,
                    lang: None,
                    time_to_read: None,
                    top_image_url: None,
                    listen_duration_estimate: None,
                    status: ItemStatus::Unread,
                    time_added: 0,
                    time_updated: None,
                    time_read: None,
                    time_favorited: None,
                },
                tags: Set::empty(),
                authors: Set::empty(),
                images: Set::empty(),
                videos: Set::empty(),
            }),
    {
        let item = Item {
            id: 0,
            pocket_id: None,
            title: "Example URL".to_owned(),
            url: "http://example.com".to_owned(),
            excerpt: None,
            is_article: None,
            is_index: None,
            has_video: None,
            has_image: None,
            word_count: None,
            lang: None,
            time_to_read: None,
            top_image_url: None,
            listen_duration_estimate: None,
            tags: Vec::new(),
            authors: Vec::new(),
            images: Vec::new(),
            videos: Vec::new(),
            status: ItemStatus::Unread,
            time_added: 0,
            time_updated: None,
            time_read: None,
            time_favorited: None,
        };
        proof {
            assert(view_set(item.tags@) =~= Set::empty());
            assert(view_set(item.authors@) =~= Set::empty());
            assert(view_set(item.images@) =~= Set::empty());
            assert(view_set(item.videos@) =~= Set::empty());
        }
        item
    }
}

} // verus!
