//! From the shapes of the remote service to the shapes of the mirror.

use crate::localdb::model::{
    views, Author, AuthorView, HasImage, HasVideo, Image, ImageView, Item, ItemScalars,
    ItemStatus, Tag, TagView, Video, VideoView,
};
use crate::pocket;
use crate::pocket::item::{Authors, Images, Videos};
use crate::text::{copy_opt_text, opt_text};
use vstd::prelude::*;

verus! {

impl From<pocket::item::ItemStatus> for ItemStatus {
    fn from(status: pocket::item::ItemStatus) -> (local: Self) {
        match status {
            pocket::item::ItemStatus::Unread => ItemStatus::Unread,
            pocket::item::ItemStatus::Archived => ItemStatus::Archived,
            pocket::item::ItemStatus::Deleted => ItemStatus::Deleted,
        }
    }
}

impl vstd::std_specs::convert::FromSpecImpl<pocket::item::ItemStatus> for ItemStatus {
    open spec fn obeys_from_spec() -> bool {
        true
    }

    open spec fn from_spec(status: pocket::item::ItemStatus) -> Self {
        match status {
            pocket::item::ItemStatus::Unread => ItemStatus::Unread,
            pocket::item::ItemStatus::Archived => ItemStatus::Archived,
            pocket::item::ItemStatus::Deleted => ItemStatus::Deleted,
        }
    }
}

impl From<ItemStatus> for pocket::item::ItemStatus {
    fn from(status: ItemStatus) -> (remote: Self) {
        match status {
            ItemStatus::Unread => pocket::item::ItemStatus::Unread,
            ItemStatus::Archived => pocket::item::ItemStatus::Archived,
            ItemStatus::Deleted => pocket::item::ItemStatus::Deleted,
        }
    }
}

impl vstd::std_specs::convert::FromSpecImpl<ItemStatus> for pocket::item::ItemStatus {
    open spec fn obeys_from_spec() -> bool {
        true
    }

    open spec fn from_spec(status: ItemStatus) -> Self {
        match status {
            ItemStatus::Unread => pocket::item::ItemStatus::Unread,
            ItemStatus::Archived => pocket::item::ItemStatus::Archived,
            ItemStatus::Deleted => pocket::item::ItemStatus::Deleted,
        }
    }
}

impl From<pocket::item::HasVideo> for HasVideo {
    fn from(has_video: pocket::item::HasVideo) -> (local: Self) {
        match has_video {
            pocket::item::HasVideo::No => HasVideo::No,
            pocket::item::HasVideo::Yes => HasVideo::Yes,
            pocket::item::HasVideo::IsVideo => HasVideo::IsVideo,
        }
    }
}

impl vstd::std_specs::convert::FromSpecImpl<pocket::item::HasVideo> for HasVideo {
    open spec fn obeys_from_spec() -> bool {
        true
    }

    open spec fn from_spec(has_video: pocket::item::HasVideo) -> Self {
        match has_video {
            pocket::item::HasVideo::No => HasVideo::No,
            pocket::item::HasVideo::Yes => HasVideo::Yes,
            pocket::item::HasVideo::IsVideo => HasVideo::IsVideo,
        }
    }
}

impl From<HasVideo> for pocket::item::HasVideo {
    fn from(has_video: HasVideo) -> (remote: Self) {
        match has_video {
            HasVideo::No => pocket::item::HasVideo::No,
            HasVideo::Yes => pocket::item::HasVideo::Yes,
            HasVideo::IsVideo => pocket::item::HasVideo::IsVideo,
        }
    }
}

impl vstd::std_specs::convert::FromSpecImpl<HasVideo> for pocket::item::HasVideo {
    open spec fn obeys_from_spec() -> bool {
        true
    }

    open spec fn from_spec(has_video: HasVideo) -> Self {
        match has_video {
            HasVideo::No => pocket::item::HasVideo::No,
            HasVideo::Yes => pocket::item::HasVideo::Yes,
            HasVideo::IsVideo => pocket::item::HasVideo::IsVideo,
        }
    }
}

impl From<pocket::item::HasImage> for HasImage {
    fn from(has_image: pocket::item::HasImage) -> (local: Self) {
        match has_image {
            pocket::item::HasImage::No => HasImage::No,
            pocket::item::HasImage::Yes => HasImage::Yes,
            pocket::item::HasImage::IsImage => HasImage::IsImage,
        }
    }
}

impl vstd::std_specs::convert::FromSpecImpl<pocket::item::HasImage> for HasImage {
    open spec fn obeys_from_spec() -> bool {
        true
    }

    open spec fn from_spec(has_image: pocket::item::HasImage) -> Self {
        match has_image {
            pocket::item::HasImage::No => HasImage::No,
            pocket::item::HasImage::Yes => HasImage::Yes,
            pocket::item::HasImage::IsImage => HasImage::IsImage,
        }
    }
}

impl From<Authors> for Author {
    fn from(author: Authors) -> (local: Self) {
        Self { id: author.author_id, name: author.name, url: author.url }
    }
}

impl vstd::std_specs::convert::FromSpecImpl<Authors> for Author {
    open spec fn obeys_from_spec() -> bool {
        true
    }

    open spec fn from_spec(author: Authors) -> Self {
        Author { id: author.author_id, name: author.name, url: author.url }
    }
}

impl From<Images> for Image {
    fn from(image: Images) -> (local: Self) {
        Image {
            id: image.image_id,
            src: image.src,
            width: image.width,
            height: image.height,
            caption: Some(image.caption),
            credit: Some(image.credit),
        }
    }
}

impl vstd::std_specs::convert::FromSpecImpl<Images> for Image {
    open spec fn obeys_from_spec() -> bool {
        true
    }

    open spec fn from_spec(image: Images) -> Self {
        Image {
            id: image.image_id,
            src: image.src,
            width: image.width,
            height: image.height,
            caption: Some(image.caption),
            credit: Some(image.credit),
        }
    }
}

impl From<Videos> for Video {
    fn from(video: Videos) -> (local: Self) {
        Self {
            id: video.video_id,
            src: video.src,
            width: video.width,
            height: video.height,
            kind: Some(video.kind),
        }
    }
}

impl vstd::std_specs::convert::FromSpecImpl<Videos> for Video {
    open spec fn obeys_from_spec() -> bool {
        true
    }

    open spec fn from_spec(video: Videos) -> Self {
        Video {
            id: video.video_id,
            src: video.src,
            width: video.width,
            height: video.height,
            kind: Some(video.kind),
        }
    }
}

/// The status of the mirror for a status of the remote.
pub open spec fn local_status(status: pocket::item::ItemStatus) -> ItemStatus {
    match status {
        pocket::item::ItemStatus::Unread => ItemStatus::Unread,
        pocket::item::ItemStatus::Archived => ItemStatus::Archived,
        pocket::item::ItemStatus::Deleted => ItemStatus::Deleted,
    }
}

/// The video flag of the mirror for a video flag of the remote.
pub open spec fn local_has_video(has_video: pocket::item::HasVideo) -> HasVideo {
    match has_video {
        pocket::item::HasVideo::No => HasVideo::No,
        pocket::item::HasVideo::Yes => HasVideo::Yes,
        pocket::item::HasVideo::IsVideo => HasVideo::IsVideo,
    }
}

/// The image flag of the mirror for an image flag of the remote.
pub open spec fn local_has_image(has_image: pocket::item::HasImage) -> HasImage {
    match has_image {
        pocket::item::HasImage::No => HasImage::No,
        pocket::item::HasImage::Yes => HasImage::Yes,
        pocket::item::HasImage::IsImage => HasImage::IsImage,
    }
}

/// The scalar part of the item of the mirror for an item of the remote.
///
/// The id of the remote is the remote id and never the id of the row, which
/// the store assigns. Title and url are the resolved ones. Both classification
/// flags are taken from the remote's article flag.
pub open spec fn local_scalars(remote: pocket::Item) -> ItemScalars {
    ItemScalars {
        id: 0,
        pocket_id: Some(remote.item_id),
        title: remote.resolved_title@,
        url: remote.resolved_url@,
        excerpt: Some(remote.excerpt@),
        is_article: Some(remote.is_article.is_set()),
        is_index: Some(remote.is_article.is_set()),
        has_video: Some(local_has_video(remote.has_video)),
        has_image: Some(local_has_image(remote.has_image)),
        word_count: Some(remote.word_count),
        lang: Some(remote.lang@),
        time_to_read: Some(remote.time_to_read),
        top_image_url: opt_text(remote.top_image_url),
        listen_duration_estimate: Some(remote.listen_duration_estimate),
        status: local_status(remote.status),
        time_added: remote.time_added,
        time_updated: Some(remote.time_updated),
        time_read: Some(remote.time_read),
        time_favorited: Some(remote.time_favorited),
    }
}

/// The tags of the mirror for the tags of the remote: the slug, no display
/// name, no id yet.
pub open spec fn local_tags(tags: Seq<pocket::item::Tag>) -> Seq<TagView> {
    tags.map_values(|t: pocket::item::Tag| TagView { id: 0, tag: t.tag@, name: None })
}

/// The authors of the mirror for the authors of the remote, none where the
/// remote names none.
pub open spec fn local_authors(authors: Option<Vec<Authors>>) -> Seq<AuthorView> {
    match authors {
        Some(list) => list@.map_values(
            |a: Authors| AuthorView { id: a.author_id, name: a.name@, url: opt_text(a.url) },
        ),
        None => Seq::empty(),
    }
}

/// The images of the mirror for the images of the remote, none where the
/// remote names none.
pub open spec fn local_images(images: Option<Vec<Images>>) -> Seq<ImageView> {
    match images {
        Some(list) => list@.map_values(
            |i: Images|
                ImageView {
                    id: i.image_id,
                    src: i.src@,
                    width: i.width,
                    height: i.height,
                    caption: Some(i.caption@),
                    credit: Some(i.credit@),
                },
        ),
        None => Seq::empty(),
    }
}

/// The videos of the mirror for the videos of the remote, none where the
/// remote names none.
pub open spec fn local_videos(videos: Option<Vec<Videos>>) -> Seq<VideoView> {
    match videos {
        Some(list) => list@.map_values(
            |v: Videos|
                VideoView {
                    id: v.video_id,
                    src: v.src@,
                    width: v.width,
                    height: v.height,
                    kind: Some(v.kind@),
                },
        ),
        None => Seq::empty(),
    }
}

fn local_tags_of(tags: &Vec<pocket::item::Tag>) -> (out: Vec<Tag>)
    ensures
        views(out@) == local_tags(tags@),
{
    let mut out: Vec<Tag> = Vec::new();
    let n = tags.len();
    let mut k: usize = 0;
    while k < n
        invariant
            k <= n,
            n == tags.len(),
            views(out@) == local_tags(tags@).take(k as int),
        decreases n - k,
    {
        let ghost before = views(out@);
        out.push(Tag { id: 0, tag: tags[k].tag.clone(), name: None });
        proof {
            assert(views(out@) =~= before.push(local_tags(tags@)[k as int]));
            assert(local_tags(tags@).take(k + 1) =~= before.push(local_tags(tags@)[k as int]));
        }
        k = k + 1;
    }
    proof {
        assert(local_tags(tags@).take(n as int) =~= local_tags(tags@));
    }
    out
}

fn local_authors_of(authors: &Option<Vec<Authors>>) -> (out: Vec<Author>)
    ensures
        views(out@) == local_authors(*authors),
{
    let mut out: Vec<Author> = Vec::new();
    match authors {
        Some(list) => {
            let ghost all = local_authors(*authors);
            let n = list.len();
            let mut k: usize = 0;
            while k < n
                invariant
                    k <= n,
                    n == list.len(),
                    all == local_authors(Some(*list)),
                    views(out@) == all.take(k as int),
                decreases n - k,
            {
                let ghost before = views(out@);
                out.push(
                    Author {
                        id: list[k].author_id,
                        name: list[k].name.clone(),
                        url: copy_opt_text(&list[k].url),
                    },
                );
                proof {
                    assert(views(out@) =~= before.push(all[k as int]));
                    assert(all.take(k + 1) =~= before.push(all[k as int]));
                }
                k = k + 1;
            }
            proof {
                assert(all.take(n as int) =~= all);
            }
        },
        None => {
            proof {
                assert(views(out@) =~= local_authors(*authors));
            }
        },
    }
    out
}

fn local_images_of(images: &Option<Vec<Images>>) -> (out: Vec<Image>)
    ensures
        views(out@) == local_images(*images),
{
    let mut out: Vec<Image> = Vec::new();
    match images {
        Some(list) => {
            let ghost all = local_images(*images);
            let n = list.len();
            let mut k: usize = 0;
            while k < n
                invariant
                    k <= n,
                    n == list.len(),
                    all == local_images(Some(*list)),
                    views(out@) == all.take(k as int),
                decreases n - k,
            {
                let ghost before = views(out@);
                out.push(
                    Image {
                        id: list[k].image_id,
                        src: list[k].src.clone(),
                        width: list[k].width,
                        height: list[k].height,
                        caption: Some(list[k].caption.clone()),
                        credit: Some(list[k].credit.clone()),
                    },
                );
                proof {
                    assert(views(out@) =~= before.push(all[k as int]));
                    assert(all.take(k + 1) =~= before.push(all[k as int]));
                }
                k = k + 1;
            }
            proof {
                assert(all.take(n as int) =~= all);
            }
        },
        None => {
            proof {
                assert(views(out@) =~= local_images(*images));
            }
        },
    }
    out
}

fn local_videos_of(videos: &Option<Vec<Videos>>) -> (out: Vec<Video>)
    ensures
        views(out@) == local_videos(*videos),
{
    let mut out: Vec<Video> = Vec::new();
    match videos {
        Some(list) => {
            let ghost all = local_videos(*videos);
            let n = list.len();
            let mut k: usize = 0;
            while k < n
                invariant
                    k <= n,
                    n == list.len(),
                    all == local_videos(Some(*list)),
                    views(out@) == all.take(k as int),
                decreases n - k,
            {
                let ghost before = views(out@);
                out.push(
                    Video {
                        id: list[k].video_id,
                        src: list[k].src.clone(),
                        width: list[k].width,
                        height: list[k].height,
                        kind: Some(list[k].kind.clone()),
                    },
                );
                proof {
                    assert(views(out@) =~= before.push(all[k as int]));
                    assert(all.take(k + 1) =~= before.push(all[k as int]));
                }
                k = k + 1;
            }
            proof {
                assert(all.take(n as int) =~= all);
            }
        },
        None => {
            proof {
                assert(views(out@) =~= local_videos(*videos));
            }
        },
    }
    out
}

/// The item of the mirror for an item of the remote.
pub fn from_remote(remote: &pocket::Item) -> (item: Item)
    ensures
        item.scalars() == local_scalars(*remote),
        views(item.tags@) == local_tags(remote.tags@),
        views(item.authors@) == local_authors(remote.authors),
        views(item.images@) == local_images(remote.images),
        views(item.videos@) == local_videos(remote.videos),
{
    Item {
        id: 0,
        pocket_id: Some(remote.item_id),
        title: remote.resolved_title.clone(),
        url: remote.resolved_url.clone(),
        excerpt: Some(remote.excerpt.clone()),
        is_article: Some(remote.is_article.deref()),
        is_index: Some(remote.is_article.deref()),
        has_video: Some(HasVideo::from(remote.has_video)),
        has_image: Some(HasImage::from(remote.has_image)),
        word_count: Some(remote.word_count),
        lang: Some(remote.lang.clone()),
        time_to_read: Some(remote.time_to_read),
        top_image_url: copy_opt_text(&remote.top_image_url),
        listen_duration_estimate: Some(remote.listen_duration_estimate),
        tags: local_tags_of(&remote.tags),
        authors: local_authors_of(&remote.authors),
        images: local_images_of(&remote.images),
        videos: local_videos_of(&remote.videos),
        status: ItemStatus::from(remote.status),
        time_added: remote.time_added,
        time_updated: Some(remote.time_updated),
        time_read: Some(remote.time_read),
        time_favorited: Some(remote.time_favorited),
    }
}

impl<'a> From<&'a pocket::Item> for Item {
    fn from(value: &'a pocket::Item) -> (item: Self)
        ensures
            item.scalars() == local_scalars(*value),
            views(item.tags@) == local_tags(value.tags@),
            views(item.authors@) == local_authors(value.authors),
            views(item.images@) == local_images(value.images),
            views(item.videos@) == local_videos(value.videos),
    {
        from_remote(value)
    }
}

impl<'a> vstd::std_specs::convert::FromSpecImpl<&'a pocket::Item> for Item {
    open spec fn obeys_from_spec() -> bool {
        false
    }

    open spec fn from_spec(value: &'a pocket::Item) -> Self {
        arbitrary()
    }
}

} // verus!
