//! The store: the item table, the tables of sub-entities, and the link tables.

use crate::localdb::error::DBError;
use crate::localdb::join;
use crate::localdb::model::{
    copy_all, views, Author, AuthorView, Entity, Image, ImageView, Item, ItemScalars, Tag, TagView,
    Video, VideoView,
};
use crate::localdb::row::{fold_rows, ItemRow};
use crate::localdb::tables;
use crate::localdb::tables::{
    find, has_author_url, has_image_src, has_remote_id, has_slug, has_url, has_video_src,
    lemma_find, lemma_find_is, Link, Tables,
};
use crate::text::{copy_opt_text, lowercase, lowercase_of, opt_text};
use vstd::prelude::*;

verus! {

/// The normalized mirror. Rows are only ever added or updated in place.
pub struct LocalDb {
    items: Vec<Item>,
    tags: Vec<Tag>,
    authors: Vec<Author>,
    images: Vec<Image>,
    videos: Vec<Video>,
    items_tags: Vec<Link>,
    items_authors: Vec<Link>,
    items_images: Vec<Link>,
    items_videos: Vec<Link>,
}

impl View for LocalDb {
    type V = Tables;

    closed spec fn view(&self) -> Tables {
        Tables {
            items: self.items@.map_values(|i: Item| i.scalars()),
            tags: views(self.tags@),
            authors: views(self.authors@),
            images: views(self.images@),
            videos: views(self.videos@),
            items_tags: self.items_tags@,
            items_authors: self.items_authors@,
            items_images: self.items_images@,
            items_videos: self.items_videos@,
        }
    }
}

/// The place that a search found is the place that `find` gives.
pub open spec fn found_is(found: Option<usize>, place: Option<int>, len: nat) -> bool {
    match found {
        Some(k) => place == Some(k as int) && k < len,
        None => place is None,
    }
}

/// Looks a pair up in a link table.
fn holds_link(links: &Vec<Link>, link: Link) -> (held: bool)
    ensures
        held == links@.contains(link),
{
    let n = links.len();
    let mut k: usize = 0;
    while k < n
        invariant
            k <= n,
            n == links.len(),
            forall|j: int| 0 <= j < k ==> links[j] != link,
        decreases n - k,
    {
        if links[k].item_id == link.item_id && links[k].entity_id == link.entity_id {
            return true;
        }
        k = k + 1;
    }
    false
}

/// Adds a pair to a link table that lacks it.
fn put_link(links: &mut Vec<Link>, link: Link, Ghost(items): Ghost<nat>, Ghost(entities): Ghost<nat>)
    requires
        tables::links_wf(old(links)@, items, entities),
        tables::link_in_range(link, items, entities),
    ensures
        final(links)@ == tables::with_link(old(links)@, link),
        tables::links_wf(final(links)@, items, entities),
{
    if !holds_link(links, link) {
        links.push(link);
    }
}

impl LocalDb {
    /// What holds of the store at all times.
    pub open spec fn wf(&self) -> bool {
        self@.wf()
    }

    /// A store without rows.
    pub fn new() -> (db: Self)
        ensures
            db.wf(),
            db@ == Tables::empty(),
    {
        let db = LocalDb {
            items: Vec::new(),
            tags: Vec::new(),
            authors: Vec::new(),
            images: Vec::new(),
            videos: Vec::new(),
            items_tags: Vec::new(),
            items_authors: Vec::new(),
            items_images: Vec::new(),
            items_videos: Vec::new(),
        };
        proof {
            assert(db@.items =~= Seq::empty());
            assert(db@.tags =~= Seq::empty());
            assert(db@.authors =~= Seq::empty());
            assert(db@.images =~= Seq::empty());
            assert(db@.videos =~= Seq::empty());
        }
        db
    }

    fn tag_by_slug(&self, slug: &String) -> (found: Option<usize>)
        ensures
            found_is(found, find(self@.tags, has_slug(slug@)), self@.tags.len()),
    {
        let n = self.tags.len();
        let mut k: usize = 0;
        while k < n
            invariant
                k <= n,
                n == self.tags.len(),
                forall|j: int| 0 <= j < k ==> !has_slug(slug@)(self@.tags[j]),
            decreases n - k,
        {
            if self.tags[k].tag == *slug {
                proof {
                    lemma_find_is(self@.tags, has_slug(slug@), k as int);
                }
                return Some(k);
            }
            k = k + 1;
        }
        proof {
            lemma_find(self@.tags, has_slug(slug@));
        }
        None
    }

    fn author_by_url(&self, url: &String) -> (found: Option<usize>)
        ensures
            found_is(found, find(self@.authors, has_author_url(url@)), self@.authors.len()),
    {
        let n = self.authors.len();
        let mut k: usize = 0;
        while k < n
            invariant
                k <= n,
                n == self.authors.len(),
                forall|j: int| 0 <= j < k ==> !has_author_url(url@)(self@.authors[j]),
            decreases n - k,
        {
            let same = match &self.authors[k].url {
                Some(u) => *u == *url,
                None => false,
            };
            if same {
                proof {
                    lemma_find_is(self@.authors, has_author_url(url@), k as int);
                }
                return Some(k);
            }
            k = k + 1;
        }
        proof {
            lemma_find(self@.authors, has_author_url(url@));
        }
        None
    }

    fn image_by_src(&self, src: &String) -> (found: Option<usize>)
        ensures
            found_is(found, find(self@.images, has_image_src(src@)), self@.images.len()),
    {
        let n = self.images.len();
        let mut k: usize = 0;
        while k < n
            invariant
                k <= n,
                n == self.images.len(),
                forall|j: int| 0 <= j < k ==> !has_image_src(src@)(self@.images[j]),
            decreases n - k,
        {
            if self.images[k].src == *src {
                proof {
                    lemma_find_is(self@.images, has_image_src(src@), k as int);
                }
                return Some(k);
            }
            k = k + 1;
        }
        proof {
            lemma_find(self@.images, has_image_src(src@));
        }
        None
    }

    fn video_by_src(&self, src: &String) -> (found: Option<usize>)
        ensures
            found_is(found, find(self@.videos, has_video_src(src@)), self@.videos.len()),
    {
        let n = self.videos.len();
        let mut k: usize = 0;
        while k < n
            invariant
                k <= n,
                n == self.videos.len(),
                forall|j: int| 0 <= j < k ==> !has_video_src(src@)(self@.videos[j]),
            decreases n - k,
        {
            if self.videos[k].src == *src {
                proof {
                    lemma_find_is(self@.videos, has_video_src(src@), k as int);
                }
                return Some(k);
            }
            k = k + 1;
        }
        proof {
            lemma_find(self@.videos, has_video_src(src@));
        }
        None
    }

    fn item_by_remote_id(&self, remote: i64) -> (found: Option<usize>)
        ensures
            found_is(found, find(self@.items, has_remote_id(remote)), self@.items.len()),
    {
        let n = self.items.len();
        let mut k: usize = 0;
        while k < n
            invariant
                k <= n,
                n == self.items.len(),
                forall|j: int| 0 <= j < k ==> !has_remote_id(remote)(self@.items[j]),
            decreases n - k,
        {
            let same = match self.items[k].pocket_id {
                Some(p) => p == remote,
                None => false,
            };
            if same {
                proof {
                    lemma_find_is(self@.items, has_remote_id(remote), k as int);
                }
                return Some(k);
            }
            k = k + 1;
        }
        proof {
            lemma_find(self@.items, has_remote_id(remote));
        }
        None
    }

    fn item_by_url(&self, url: &String) -> (found: Option<usize>)
        ensures
            found_is(found, find(self@.items, has_url(url@)), self@.items.len()),
    {
        let n = self.items.len();
        let mut k: usize = 0;
        while k < n
            invariant
                k <= n,
                n == self.items.len(),
                forall|j: int| 0 <= j < k ==> !has_url(url@)(self@.items[j]),
            decreases n - k,
        {
            if self.items[k].url == *url {
                proof {
                    lemma_find_is(self@.items, has_url(url@), k as int);
                }
                return Some(k);
            }
            k = k + 1;
        }
        proof {
            lemma_find(self@.items, has_url(url@));
        }
        None
    }

    /// Stores a tag under a slug that is already in its stored form, or finds the
    /// tag that has the slug, and gives its id.
    pub fn upsert_tag(&mut self, slug: String, name: Option<String>) -> (id: Result<i32, DBError>)
        requires
            old(self).wf(),
        ensures
            final(self).wf(),
            (final(self)@, id) == tables::upsert_tag(old(self)@, slug@, opt_text(name)),
    {
        match self.tag_by_slug(&slug) {
            Some(k) => Ok((k + 1) as i32),
            None => {
                if self.tags.len() >= i32::MAX as usize {
                    return Err(DBError::Full);
                }
                let id = (self.tags.len() + 1) as i32;
                proof {
                    lemma_find(self@.tags, has_slug(slug@));
                }
                let ghost before = self@;
                self.tags.push(Tag { id, tag: slug, name });
                proof {
                    let row = TagView { id, tag: slug@, name: opt_text(name) };
                    assert(self@.tags =~= before.tags.push(row));
                    assert(self@ == (Tables { tags: before.tags.push(row), ..before }));
                }
                Ok(id)
            },
        }
    }

    /// Stores a tag, or finds the tag that has the same slug, and gives its id.
    /// Slugs are kept in lowercase, so tags that differ only in case are one tag.
    pub fn add_tag(&mut self, tag: &Tag) -> (id: Result<i32, DBError>)
        requires
            old(self).wf(),
        ensures
            final(self).wf(),
            (final(self)@, id) == tables::upsert_tag(
                old(self)@,
                lowercase_of(tag.tag@),
                opt_text(tag.name),
            ),
    {
        let slug = lowercase(tag.tag.as_str());
        self.upsert_tag(slug, copy_opt_text(&tag.name))
    }

    /// The tag that is stored under this slug.
    pub fn get_tag(&self, tag: &str) -> (found: Result<Tag, DBError>)
        ensures
            match found {
                Ok(t) => tables::tag_of(self@, tag@) == Ok::<TagView, DBError>(t@),
                Err(e) => tables::tag_of(self@, tag@) == Err::<TagView, DBError>(e),
            },
    {
        let slug = tag.to_owned();
        match self.tag_by_slug(&slug) {
            Some(k) => Ok(self.tags[k].copy()),
            None => Err(DBError::RowNotFound),
        }
    }

    /// All tags, in the order of their ids.
    pub fn get_tags(&self) -> (all: Result<Vec<Tag>, DBError>)
        ensures
            all is Ok,
            views(all->Ok_0@) == self@.tags,
    {
        Ok(copy_all(&self.tags))
    }

    /// Attaches a tag to an item. Both must exist; a pair that is attached
    /// already stays attached once.
    pub fn link_tag(&mut self, tag: i32, item: i32) -> (done: Result<(), DBError>)
        requires
            old(self).wf(),
        ensures
            final(self).wf(),
            (final(self)@, done) == tables::link_tag(old(self)@, tag, item),
    {
        if 1 <= item && item as usize <= self.items.len() && 1 <= tag && tag as usize
            <= self.tags.len() {
            let ghost before = self@;
            put_link(
                &mut self.items_tags,
                Link { item_id: item, entity_id: tag },
                Ghost(self.items@.len()),
                Ghost(self.tags@.len()),
            );
            proof {
                assert(self@ == (Tables { items_tags: self.items_tags@, ..before }));
            }
            Ok(())
        } else {
            Err(DBError::ForeignKey)
        }
    }

    /// Stores an author, or finds the author that has the same url, and gives
    /// the id. An author without url is stored anew each time.
    pub fn add_author(&mut self, author: &Author) -> (id: Result<i32, DBError>)
        requires
            old(self).wf(),
        ensures
            final(self).wf(),
            (final(self)@, id) == tables::upsert_author(old(self)@, author@),
    {
        let found = match &author.url {
            Some(url) => self.author_by_url(url),
            None => None,
        };
        match found {
            Some(k) => Ok((k + 1) as i32),
            None => {
                if self.authors.len() >= i32::MAX as usize {
                    return Err(DBError::Full);
                }
                let id = (self.authors.len() + 1) as i32;
                proof {
                    if author.url is Some {
                        lemma_find(self@.authors, has_author_url(author.url->Some_0@));
                    }
                }
                let ghost before = self@;
                let mut row = author.copy();
                row.id = id;
                self.authors.push(row);
                proof {
                    let stored = AuthorView { id, ..author@ };
                    assert(self@.authors =~= before.authors.push(stored));
                    assert(self@ == (Tables { authors: before.authors.push(stored), ..before }));
                }
                Ok(id)
            },
        }
    }

    /// All authors, in the order of their ids.
    pub fn get_authors(&self) -> (all: Result<Vec<Author>, DBError>)
        ensures
            all is Ok,
            views(all->Ok_0@) == self@.authors,
    {
        Ok(copy_all(&self.authors))
    }

    /// Attaches an author to an item. Both must exist; a pair that is attached
    /// already stays attached once.
    pub fn link_authors(&mut self, author: i32, item: i32) -> (done: Result<(), DBError>)
        requires
            old(self).wf(),
        ensures
            final(self).wf(),
            (final(self)@, done) == tables::link_author(old(self)@, author, item),
    {
        if 1 <= item && item as usize <= self.items.len() && 1 <= author && author as usize
            <= self.authors.len() {
            let ghost before = self@;
            put_link(
                &mut self.items_authors,
                Link { item_id: item, entity_id: author },
                Ghost(self.items@.len()),
                Ghost(self.authors@.len()),
            );
            proof {
                assert(self@ == (Tables { items_authors: self.items_authors@, ..before }));
            }
            Ok(())
        } else {
            Err(DBError::ForeignKey)
        }
    }

    /// Stores an image, or finds the image that has the same source, and gives
    /// the id.
    pub fn add_image(&mut self, img: &Image) -> (id: Result<i32, DBError>)
        requires
            old(self).wf(),
        ensures
            final(self).wf(),
            (final(self)@, id) == tables::upsert_image(old(self)@, img@),
    {
        match self.image_by_src(&img.src) {
            Some(k) => Ok((k + 1) as i32),
            None => {
                if self.images.len() >= i32::MAX as usize {
                    return Err(DBError::Full);
                }
                let id = (self.images.len() + 1) as i32;
                proof {
                    lemma_find(self@.images, has_image_src(img.src@));
                }
                let ghost before = self@;
                let mut row = img.copy();
                row.id = id;
                self.images.push(row);
                proof {
                    let stored = ImageView { id, ..img@ };
                    assert(self@.images =~= before.images.push(stored));
                    assert(self@ == (Tables { images: before.images.push(stored), ..before }));
                }
                Ok(id)
            },
        }
    }

    /// All images, in the order of their ids.
    pub fn get_images(&self) -> (all: Result<Vec<Image>, DBError>)
        ensures
            all is Ok,
            views(all->Ok_0@) == self@.images,
    {
        Ok(copy_all(&self.images))
    }

    /// Attaches an image to an item. Both must exist; a pair that is attached
    /// already stays attached once.
    pub fn link_image(&mut self, image: i32, item: i32) -> (done: Result<(), DBError>)
        requires
            old(self).wf(),
        ensures
            final(self).wf(),
            (final(self)@, done) == tables::link_image(old(self)@, image, item),
    {
        if 1 <= item && item as usize <= self.items.len() && 1 <= image && image as usize
            <= self.images.len() {
            let ghost before = self@;
            put_link(
                &mut self.items_images,
                Link { item_id: item, entity_id: image },
                Ghost(self.items@.len()),
                Ghost(self.images@.len()),
            );
            proof {
                assert(self@ == (Tables { items_images: self.items_images@, ..before }));
            }
            Ok(())
        } else {
            Err(DBError::ForeignKey)
        }
    }

    /// Stores a video, or finds the video that has the same source, and gives
    /// the id.
    pub fn add_video(&mut self, video: &Video) -> (id: Result<i32, DBError>)
        requires
            old(self).wf(),
        ensures
            final(self).wf(),
            (final(self)@, id) == tables::upsert_video(old(self)@, video@),
    {
        match self.video_by_src(&video.src) {
            Some(k) => Ok((k + 1) as i32),
            None => {
                if self.videos.len() >= i32::MAX as usize {
                    return Err(DBError::Full);
                }
                let id = (self.videos.len() + 1) as i32;
                proof {
                    lemma_find(self@.videos, has_video_src(video.src@));
                }
                let ghost before = self@;
                let mut row = video.copy();
                row.id = id;
                self.videos.push(row);
                proof {
                    let stored = VideoView { id, ..video@ };
                    assert(self@.videos =~= before.videos.push(stored));
                    assert(self@ == (Tables { videos: before.videos.push(stored), ..before }));
                }
                Ok(id)
            },
        }
    }

    /// All videos, in the order of their ids.
    pub fn get_videos(&self) -> (all: Result<Vec<Video>, DBError>)
        ensures
            all is Ok,
            views(all->Ok_0@) == self@.videos,
    {
        Ok(copy_all(&self.videos))
    }

    /// Attaches a video to an item. Both must exist; a pair that is attached
    /// already stays attached once.
    pub fn link_video(&mut self, video: i32, item: i32) -> (done: Result<(), DBError>)
        requires
            old(self).wf(),
        ensures
            final(self).wf(),
            (final(self)@, done) == tables::link_video(old(self)@, video, item),
    {
        if 1 <= item && item as usize <= self.items.len() && 1 <= video && video as usize
            <= self.videos.len() {
            let ghost before = self@;
            put_link(
                &mut self.items_videos,
                Link { item_id: item, entity_id: video },
                Ghost(self.items@.len()),
                Ghost(self.videos@.len()),
            );
            proof {
                assert(self@ == (Tables { items_videos: self.items_videos@, ..before }));
            }
            Ok(())
        } else {
            Err(DBError::ForeignKey)
        }
    }

    /// Stores the row of an item, or resolves the item to the row that is there.
    fn put_item_row(&mut self, item: &Item) -> (id: Result<i32, DBError>)
        requires
            old(self).wf(),
        ensures
            final(self).wf(),
            (final(self)@, id) == tables::upsert_item(old(self)@, item.scalars()),
    {
        let by_remote_id = match item.pocket_id {
            Some(remote) => self.item_by_remote_id(remote),
            None => None,
        };
        proof {
            if item.pocket_id is Some {
                lemma_find(self@.items, has_remote_id(item.pocket_id->Some_0));
            }
            lemma_find(self@.items, has_url(item.url@));
        }
        match by_remote_id {
            Some(k) => {
                let row = &mut self.items[k];
                row.status = item.status;
                row.time_added = item.time_added;
                row.time_updated = item.time_updated;
                row.time_read = item.time_read;
                row.time_favorited = item.time_favorited;
                proof {
                    let before = old(self)@;
                    let after = tables::resubmitted(before.items[k as int], item.scalars());
                    assert(self@.items =~= before.items.update(k as int, after));
                    assert(self@ == (Tables {
                        items: before.items.update(k as int, after),
                        ..before
                    }));
                }
                Ok((k + 1) as i32)
            },
            None => match self.item_by_url(&item.url) {
                Some(k) => if item.pocket_id.is_none() {
                    Ok((k + 1) as i32)
                } else {
                    Err(DBError::UniqueViolation)
                },
                None => {
                    if self.items.len() >= i32::MAX as usize {
                        return Err(DBError::Full);
                    }
                    let id = (self.items.len() + 1) as i32;
                    self.items.push(item.row_copy(id as i64));
                    proof {
                        let before = old(self)@;
                        let stored = ItemScalars { id: id as i64, ..item.scalars() };
                        assert(self@.items =~= before.items.push(stored));
                        assert(self@ == (Tables { items: before.items.push(stored), ..before }));
                    }
                    Ok(id)
                },
            },
        }
    }

    /// Stores and attaches the tags of an item, one after the other.
    fn attach_tags(&mut self, item: i32, tags: &Vec<Tag>) -> (done: Result<(), DBError>)
        requires
            old(self).wf(),
        ensures
            final(self).wf(),
            (final(self)@, done) == tables::attach_all(
                old(self)@,
                item,
                views(tags@),
                tables::tag_step(),
            ),
    {
        let ghost all = views(tags@);
        let n = tags.len();
        let mut k: usize = 0;
        while k < n
            invariant
                k <= n,
                n == tags.len(),
                all == views(tags@),
                self.wf(),
                tables::attach_all(old(self)@, item, all.take(k as int), tables::tag_step()) == (
                    self@,
                    Ok::<(), DBError>(()),
                ),
            decreases n - k,
        {
            proof {
                tables::lemma_attach_next(old(self)@, item, all, tables::tag_step(), k as int);
            }
            let id = match self.add_tag(&tags[k]) {
                Ok(id) => id,
                Err(e) => {
                    proof {
                        tables::lemma_attach_stops(
                            old(self)@,
                            item,
                            all,
                            tables::tag_step(),
                            k + 1,
                        );
                    }
                    return Err(e);
                },
            };
            match self.link_tag(id, item) {
                Ok(_) => {},
                Err(e) => {
                    proof {
                        tables::lemma_attach_stops(
                            old(self)@,
                            item,
                            all,
                            tables::tag_step(),
                            k + 1,
                        );
                    }
                    return Err(e);
                },
            }
            k = k + 1;
        }
        proof {
            assert(all.take(n as int) =~= all);
        }
        Ok(())
    }

    /// Stores and attaches the authors of an item, one after the other.
    fn attach_authors(&mut self, item: i32, authors: &Vec<Author>) -> (done: Result<(), DBError>)
        requires
            old(self).wf(),
        ensures
            final(self).wf(),
            (final(self)@, done) == tables::attach_all(
                old(self)@,
                item,
                views(authors@),
                tables::author_step(),
            ),
    {
        let ghost all = views(authors@);
        let n = authors.len();
        let mut k: usize = 0;
        while k < n
            invariant
                k <= n,
                n == authors.len(),
                all == views(authors@),
                self.wf(),
                tables::attach_all(old(self)@, item, all.take(k as int), tables::author_step()) == (
                    self@,
                    Ok::<(), DBError>(()),
                ),
            decreases n - k,
        {
            proof {
                tables::lemma_attach_next(old(self)@, item, all, tables::author_step(), k as int);
            }
            let id = match self.add_author(&authors[k]) {
                Ok(id) => id,
                Err(e) => {
                    proof {
                        tables::lemma_attach_stops(
                            old(self)@,
                            item,
                            all,
                            tables::author_step(),
                            k + 1,
                        );
                    }
                    return Err(e);
                },
            };
            match self.link_authors(id, item) {
                Ok(_) => {},
                Err(e) => {
                    proof {
                        tables::lemma_attach_stops(
                            old(self)@,
                            item,
                            all,
                            tables::author_step(),
                            k + 1,
                        );
                    }
                    return Err(e);
                },
            }
            k = k + 1;
        }
        proof {
            assert(all.take(n as int) =~= all);
        }
        Ok(())
    }

    /// Stores and attaches the images of an item, one after the other.
    fn attach_images(&mut self, item: i32, images: &Vec<Image>) -> (done: Result<(), DBError>)
        requires
            old(self).wf(),
        ensures
            final(self).wf(),
            (final(self)@, done) == tables::attach_all(
                old(self)@,
                item,
                views(images@),
                tables::image_step(),
            ),
    {
        let ghost all = views(images@);
        let n = images.len();
        let mut k: usize = 0;
        while k < n
            invariant
                k <= n,
                n == images.len(),
                all == views(images@),
                self.wf(),
                tables::attach_all(old(self)@, item, all.take(k as int), tables::image_step()) == (
                    self@,
                    Ok::<(), DBError>(()),
                ),
            decreases n - k,
        {
            proof {
                tables::lemma_attach_next(old(self)@, item, all, tables::image_step(), k as int);
            }
            let id = match self.add_image(&images[k]) {
                Ok(id) => id,
                Err(e) => {
                    proof {
                        tables::lemma_attach_stops(
                            old(self)@,
                            item,
                            all,
                            tables::image_step(),
                            k + 1,
                        );
                    }
                    return Err(e);
                },
            };
            match self.link_image(id, item) {
                Ok(_) => {},
                Err(e) => {
                    proof {
                        tables::lemma_attach_stops(
                            old(self)@,
                            item,
                            all,
                            tables::image_step(),
                            k + 1,
                        );
                    }
                    return Err(e);
                },
            }
            k = k + 1;
        }
        proof {
            assert(all.take(n as int) =~= all);
        }
        Ok(())
    }

    /// Stores and attaches the videos of an item, one after the other.
    fn attach_videos(&mut self, item: i32, videos: &Vec<Video>) -> (done: Result<(), DBError>)
        requires
            old(self).wf(),
        ensures
            final(self).wf(),
            (final(self)@, done) == tables::attach_all(
                old(self)@,
                item,
                views(videos@),
                tables::video_step(),
            ),
    {
        let ghost all = views(videos@);
        let n = videos.len();
        let mut k: usize = 0;
        while k < n
            invariant
                k <= n,
                n == videos.len(),
                all == views(videos@),
                self.wf(),
                tables::attach_all(old(self)@, item, all.take(k as int), tables::video_step()) == (
                    self@,
                    Ok::<(), DBError>(()),
                ),
            decreases n - k,
        {
            proof {
                tables::lemma_attach_next(old(self)@, item, all, tables::video_step(), k as int);
            }
            let id = match self.add_video(&videos[k]) {
                Ok(id) => id,
                Err(e) => {
                    proof {
                        tables::lemma_attach_stops(
                            old(self)@,
                            item,
                            all,
                            tables::video_step(),
                            k + 1,
                        );
                    }
                    return Err(e);
                },
            };
            match self.link_video(id, item) {
                Ok(_) => {},
                Err(e) => {
                    proof {
                        tables::lemma_attach_stops(
                            old(self)@,
                            item,
                            all,
                            tables::video_step(),
                            k + 1,
                        );
                    }
                    return Err(e);
                },
            }
            k = k + 1;
        }
        proof {
            assert(all.take(n as int) =~= all);
        }
        Ok(())
    }

    /// Stores an item with all that is attached to it, and gives the id of its
    /// row.
    ///
    /// An item with a remote id is keyed by it: submitted again, it keeps its
    /// row, which takes the new status and timestamps and keeps the rest. An
    /// item without remote id is looked up by its url. Then each tag, author,
    /// image and video is stored or found and linked to the item. The steps are
    /// not one transaction: the first refusal ends them and what was written
    /// stays, and submitting the item again completes it.
    pub fn add(&mut self, item: &Item) -> (id: Result<i32, DBError>)
        requires
            old(self).wf(),
        ensures
            final(self).wf(),
            (final(self)@, id) == tables::add_item(
                old(self)@,
                item.scalars(),
                views(item.tags@),
                views(item.authors@),
                views(item.images@),
                views(item.videos@),
            ),
    {
        let item_id = match self.put_item_row(item) {
            Ok(id) => id,
            Err(e) => {
                return Err(e);
            },
        };
        match self.attach_tags(item_id, &item.tags) {
            Ok(_) => {},
            Err(e) => {
                return Err(e);
            },
        }
        match self.attach_authors(item_id, &item.authors) {
            Ok(_) => {},
            Err(e) => {
                return Err(e);
            },
        }
        match self.attach_images(item_id, &item.images) {
            Ok(_) => {},
            Err(e) => {
                return Err(e);
            },
        }
        match self.attach_videos(item_id, &item.videos) {
            Ok(_) => {},
            Err(e) => {
                return Err(e);
            },
        }
        Ok(item_id)
    }

    /// The rows of the combined join: the items left-joined with their tags,
    /// authors, images and videos at once. An item has one row for each
    /// combination of what is attached to it, and one row if nothing is.
    pub fn join_rows(&self) -> (rows: Vec<ItemRow>)
        requires
            self.wf(),
        ensures
            views(rows@) == join::join(self@),
    {
        let mut rows: Vec<ItemRow> = Vec::new();
        let n = self.items.len();
        let mut k: usize = 0;
        proof {
            assert(views(rows@) =~= join::joined(self@, 0));
        }
        while k < n
            invariant
                k <= n,
                n == self.items.len(),
                self.wf(),
                views(rows@) == join::joined(self@, k as int),
            decreases n - k,
        {
            let id = (k + 1) as i32;
            let tag_ids = join::attached_ids(
                &self.items_tags,
                id,
                Ghost(self.items@.len()),
                Ghost(self.tags@.len()),
            );
            let tags = join::gather(&self.tags, &tag_ids);
            let author_ids = join::attached_ids(
                &self.items_authors,
                id,
                Ghost(self.items@.len()),
                Ghost(self.authors@.len()),
            );
            let authors = join::gather(&self.authors, &author_ids);
            let image_ids = join::attached_ids(
                &self.items_images,
                id,
                Ghost(self.items@.len()),
                Ghost(self.images@.len()),
            );
            let images = join::gather(&self.images, &image_ids);
            let video_ids = join::attached_ids(
                &self.items_videos,
                id,
                Ghost(self.items@.len()),
                Ghost(self.videos@.len()),
            );
            let videos = join::gather(&self.videos, &video_ids);
            join::push_item_rows(&mut rows, &self.items[k], &tags, &authors, &images, &videos);
            proof {
                assert(self.items[k as int].scalars() == self@.items[k as int]);
            }
            k = k + 1;
        }
        rows
    }

    /// All items, each with what is attached to it, in the order of their ids.
    ///
    /// The items are read through the combined join and folded back, so that a
    /// sub-entity that the join repeats is in its set once. A store without
    /// items gives no items.
    pub fn get_items(&self) -> (items: Result<Vec<Item>, DBError>)
        requires
            self.wf(),
        ensures
            items is Ok,
            items->Ok_0@.len() == self@.items.len(),
            forall|k: int|
                0 <= k < self@.items.len() ==> {
                    &&& (#[trigger] items->Ok_0@[k]).wf()
                    &&& items->Ok_0@[k]@ == join::stored_aggregate(self@, k)
                },
    {
        let rows = self.join_rows();
        let items = fold_rows(rows);
        proof {
            join::lemma_join_order(self@, self@.items.len() as int);
            assert forall|k: int| 0 <= k < self@.items.len() implies {
                &&& (#[trigger] items@[k]).wf()
                &&& items@[k]@ == join::stored_aggregate(self@, k)
            } by {
                join::lemma_join_folds(self@, k);
            }
        }
        Ok(items)
    }
}

} // verus!
