//! The aggregate reader: flat rows of the combined join, folded back into items.
//!
//! Joining the items with four independent relations at once yields one row for
//! every combination of a tag, an author, an image and a video of the same item.
//! [`fold_rows`] groups such rows by item and collects each relation into a set,
//! so that every sub-entity comes out once however often the join repeated it.

use crate::localdb::model::{
    distinct, opt_view, view_set, views, Author, AuthorView, Entity, HasImage, HasVideo, Image, ImageView,
    Item, ItemScalars, ItemStatus, ItemView, Tag, TagView, Video, VideoView,
};
use crate::text::{copy_opt_text, opt_text};
use vstd::prelude::*;

verus! {

/// One row of the join: the columns of an item, and beside them the columns of
/// one tag, one author, one image and one video, each group empty where the item
/// has none of that kind.
#[derive(Debug, Clone)]
pub struct ItemRow {
    pub id: i64,
    pub pocket_id: Option<i64>,
    pub title: String,
    pub url: String,
    pub excerpt: Option<String>,
    pub is_article: Option<bool>,
    pub is_index: Option<bool>,
    pub has_video: Option<HasVideo>,
    pub has_image: Option<HasImage>,
    pub word_count: Option<i32>,
    pub lang: Option<String>,
    pub time_to_read: Option<i32>,
    pub top_image_url: Option<String>,
    pub listen_duration_estimate: Option<i32>,
    pub status: ItemStatus,
    pub time_added: i32,
    pub time_updated: Option<i32>,
    pub time_read: Option<i32>,
    pub time_favorited: Option<i32>,
    pub tag: Option<String>,
    pub tag_id: Option<i32>,
    pub tag_name: Option<String>,
    pub author_id: Option<i32>,
    pub author_name: Option<String>,
    pub author_url: Option<String>,
    pub img_id: Option<i32>,
    pub img_src: Option<String>,
    pub img_width: Option<i32>,
    pub img_height: Option<i32>,
    pub img_caption: Option<String>,
    pub img_credit: Option<String>,
    pub video_id: Option<i32>,
    pub video_src: Option<String>,
    pub video_width: Option<i32>,
    pub video_height: Option<i32>,
    pub video_kind: Option<String>,
}

/// One row of the join as a value: the item columns, and the sub-entity of each
/// kind that the row carries, if any.
pub struct ItemRowView {
    pub scalars: ItemScalars,
    pub tag: Option<TagView>,
    pub author: Option<AuthorView>,
    pub image: Option<ImageView>,
    pub video: Option<VideoView>,
}

/// The characters of a nullable text column, none where it is null.
pub open spec fn text_or_empty(s: Option<String>) -> Seq<char> {
    match s {
        Some(t) => t@,
        None => Seq::empty(),
    }
}

/// The number of a nullable column, zero where it is null.
pub open spec fn number_or_zero(n: Option<i32>) -> i32 {
    match n {
        Some(v) => v,
        None => 0,
    }
}

impl ItemRow {
    /// The item columns of the row.
    pub open spec fn scalars(&self) -> ItemScalars {
        ItemScalars {
            id: self.id,
            pocket_id: self.pocket_id,
            title: self.title@,
            url: self.url@,
            excerpt: opt_text(self.excerpt),
            is_article: self.is_article,
            is_index: self.is_index,
            has_video: self.has_video,
            has_image: self.has_image,
            word_count: self.word_count,
            lang: opt_text(self.lang),
            time_to_read: self.time_to_read,
            top_image_url: opt_text(self.top_image_url),
            listen_duration_estimate: self.listen_duration_estimate,
            status: self.status,
            time_added: self.time_added,
            time_updated: self.time_updated,
            time_read: self.time_read,
            time_favorited: self.time_favorited,
        }
    }

    /// The tag that the row carries: there is one where the tag's id is not null.
    pub open spec fn tag(&self) -> Option<TagView> {
        match self.tag_id {
            Some(id) => Some(
                TagView { id, tag: text_or_empty(self.tag), name: opt_text(self.tag_name) },
            ),
            None => None,
        }
    }

    /// The author that the row carries: there is one where the author's id is not null.
    pub open spec fn author(&self) -> Option<AuthorView> {
        match self.author_id {
            Some(id) => Some(
                AuthorView {
                    id,
                    name: text_or_empty(self.author_name),
                    url: opt_text(self.author_url),
                },
            ),
            None => None,
        }
    }

    /// The image that the row carries: there is one where the image's id is not null.
    pub open spec fn image(&self) -> Option<ImageView> {
        match self.img_id {
            Some(id) => Some(
                ImageView {
                    id,
                    src: text_or_empty(self.img_src),
                    width: number_or_zero(self.img_width),
                    height: number_or_zero(self.img_height),
                    caption: opt_text(self.img_caption),
                    credit: opt_text(self.img_credit),
                },
            ),
            None => None,
        }
    }

    /// The video that the row carries: there is one where the video's id is not null.
    pub open spec fn video(&self) -> Option<VideoView> {
        match self.video_id {
            Some(id) => Some(
                VideoView {
                    id,
                    src: text_or_empty(self.video_src),
                    width: number_or_zero(self.video_width),
                    height: number_or_zero(self.video_height),
                    kind: opt_text(self.video_kind),
                },
            ),
            None => None,
        }
    }
}

impl ItemRow {
    /// The row of an item beside one slot of each relation.
    pub fn carrying(
        item: &Item,
        tag: &Option<Tag>,
        author: &Option<Author>,
        image: &Option<Image>,
        video: &Option<Video>,
    ) -> (row: ItemRow)
        ensures
            row@ == (ItemRowView {
                scalars: item.scalars(),
                tag: opt_view(*tag),
                author: opt_view(*author),
                image: opt_view(*image),
                video: opt_view(*video),
            }),
    {
        let mut row = ItemRow {
            id: item.id,
            pocket_id: item.pocket_id,
            title: item.title.clone(),
            url: item.url.clone(),
            excerpt: copy_opt_text(&item.excerpt),
            is_article: item.is_article,
            is_index: item.is_index,
            has_video: item.has_video,
            has_image: item.has_image,
            word_count: item.word_count,
            lang: copy_opt_text(&item.lang),
            time_to_read: item.time_to_read,
            top_image_url: copy_opt_text(&item.top_image_url),
            listen_duration_estimate: item.listen_duration_estimate,
            status: item.status,
            time_added: item.time_added,
            time_updated: item.time_updated,
            time_read: item.time_read,
            time_favorited: item.time_favorited,
            tag: None,
            tag_id: None,
            tag_name: None,
            author_id: None,
            author_name: None,
            author_url: None,
            img_id: None,
            img_src: None,
            img_width: None,
            img_height: None,
            img_caption: None,
            img_credit: None,
            video_id: None,
            video_src: None,
            video_width: None,
            video_height: None,
            video_kind: None,
        };
        if let Some(t) = tag {
            row.tag_id = Some(t.id);
            row.tag = Some(t.tag.clone());
            row.tag_name = copy_opt_text(&t.name);
        }
        if let Some(a) = author {
            row.author_id = Some(a.id);
            row.author_name = Some(a.name.clone());
            row.author_url = copy_opt_text(&a.url);
        }
        if let Some(i) = image {
            row.img_id = Some(i.id);
            row.img_src = Some(i.src.clone());
            row.img_width = Some(i.width);
            row.img_height = Some(i.height);
            row.img_caption = copy_opt_text(&i.caption);
            row.img_credit = copy_opt_text(&i.credit);
        }
        if let Some(v) = video {
            row.video_id = Some(v.id);
            row.video_src = Some(v.src.clone());
            row.video_width = Some(v.width);
            row.video_height = Some(v.height);
            row.video_kind = copy_opt_text(&v.kind);
        }
        row
    }
}

impl View for ItemRow {
    type V = ItemRowView;

    open spec fn view(&self) -> ItemRowView {
        ItemRowView {
            scalars: self.scalars(),
            tag: self.tag(),
            author: self.author(),
            image: self.image(),
            video: self.video(),
        }
    }
}

/// The item ids of the rows, row by row.
pub open spec fn row_ids(rows: Seq<ItemRowView>) -> Seq<i64> {
    rows.map_values(|r: ItemRowView| r.scalars.id)
}

/// The distinct values of a sequence, in the order in which each is first seen.
pub open spec fn first_seen(ids: Seq<i64>) -> Seq<i64>
    decreases ids.len(),
{
    if ids.len() == 0 {
        Seq::empty()
    } else {
        let before = first_seen(ids.drop_last());
        if before.contains(ids.last()) {
            before
        } else {
            before.push(ids.last())
        }
    }
}

/// The place of the last row of item `id`, or -1 where no row belongs to it.
pub open spec fn last_row_of(rows: Seq<ItemRowView>, id: i64) -> int
    decreases rows.len(),
{
    if rows.len() == 0 {
        -1
    } else if rows.last().scalars.id == id {
        rows.len() - 1
    } else {
        last_row_of(rows.drop_last(), id)
    }
}

/// What the rows of item `id` carry in one of their parts: `ids` gives the item
/// of each row and `parts` what the row carries there.
pub open spec fn carried<A>(ids: Seq<i64>, parts: Seq<Option<A>>, id: i64) -> Set<A> {
    Set::new(
        |a: A|
            exists|j: int|
                0 <= j < ids.len() && j < parts.len() && ids[j] == id && #[trigger] parts[j]
                    == Some(a),
    )
}

/// The tags that the rows of item `id` carry.
pub open spec fn group_tags(rows: Seq<ItemRowView>, id: i64) -> Set<TagView> {
    carried(row_ids(rows), rows.map_values(|r: ItemRowView| r.tag), id)
}

/// The authors that the rows of item `id` carry.
pub open spec fn group_authors(rows: Seq<ItemRowView>, id: i64) -> Set<AuthorView> {
    carried(row_ids(rows), rows.map_values(|r: ItemRowView| r.author), id)
}

/// The images that the rows of item `id` carry.
pub open spec fn group_images(rows: Seq<ItemRowView>, id: i64) -> Set<ImageView> {
    carried(row_ids(rows), rows.map_values(|r: ItemRowView| r.image), id)
}

/// The videos that the rows of item `id` carry.
pub open spec fn group_videos(rows: Seq<ItemRowView>, id: i64) -> Set<VideoView> {
    carried(row_ids(rows), rows.map_values(|r: ItemRowView| r.video), id)
}

/// The aggregate of item `id`: the item columns of its last row, and in each set
/// what its rows carry of that kind.
pub open spec fn aggregate(rows: Seq<ItemRowView>, id: i64) -> ItemView {
    ItemView {
        scalars: rows[last_row_of(rows, id)].scalars,
        tags: group_tags(rows, id),
        authors: group_authors(rows, id),
        images: group_images(rows, id),
        videos: group_videos(rows, id),
    }
}

/// What `items` must be to be the fold of `rows`: one item for each item id, in
/// the order in which the ids are first seen, each the aggregate of its rows and
/// holding every sub-entity once.
pub open spec fn is_fold_of(items: Seq<Item>, rows: Seq<ItemRowView>) -> bool {
    &&& items.len() == first_seen(row_ids(rows)).len()
    &&& forall|k: int|
        0 <= k < items.len() ==> {
            &&& (#[trigger] items[k]).wf()
            &&& items[k]@ == aggregate(rows, first_seen(row_ids(rows))[k])
        }
}

/// An optional value as a set of at most one element.
pub open spec fn option_set<A>(o: Option<A>) -> Set<A> {
    match o {
        Some(a) => set![a],
        None => Set::empty(),
    }
}

/// A value is among the first-seen values exactly when it is in the sequence, and
/// none of them occurs twice.
pub proof fn lemma_first_seen(ids: Seq<i64>)
    ensures
        first_seen(ids).no_duplicates(),
        forall|x: i64| first_seen(ids).contains(x) <==> ids.contains(x),
    decreases ids.len(),
{
    if ids.len() > 0 {
        let shorter = ids.drop_last();
        lemma_first_seen(shorter);
        let before = first_seen(shorter);
        assert forall|x: i64| first_seen(ids).contains(x) <==> ids.contains(x) by {
            if ids.contains(x) {
                let j = choose|j: int| 0 <= j < ids.len() && ids[j] == x;
                if j < ids.len() - 1 {
                    assert(shorter[j] == x);
                    assert(shorter.contains(x));
                    assert(before.contains(x));
                    let k = choose|k: int| 0 <= k < before.len() && before[k] == x;
                    assert(first_seen(ids)[k] == x);
                } else {
                    if before.contains(x) {
                    } else {
                        assert(first_seen(ids)[before.len() as int] == x);
                    }
                }
            }
            if first_seen(ids).contains(x) {
                let k = choose|k: int| 0 <= k < first_seen(ids).len() && first_seen(ids)[k] == x;
                if k < before.len() {
                    assert(before[k] == x);
                    assert(before.contains(x));
                    assert(shorter.contains(x));
                    let j = choose|j: int| 0 <= j < shorter.len() && shorter[j] == x;
                    assert(ids[j] == x);
                } else {
                    assert(ids[ids.len() - 1] == x);
                }
            }
        }
    }
}

/// The place at which a value is first seen in a sequence, or the length of the
/// sequence where it is not in it.
pub open spec fn first_place(ids: Seq<i64>, x: i64) -> int
    decreases ids.len(),
{
    if ids.len() == 0 {
        0
    } else if first_place(ids.drop_last(), x) < ids.len() - 1 {
        first_place(ids.drop_last(), x)
    } else if ids.last() == x {
        ids.len() - 1
    } else {
        ids.len() as int
    }
}

/// The first place of a value is a place of the value, and the value is at no
/// place before it.
pub proof fn lemma_first_place(ids: Seq<i64>, x: i64)
    ensures
        0 <= first_place(ids, x) <= ids.len(),
        first_place(ids, x) < ids.len() ==> ids[first_place(ids, x)] == x,
        forall|j: int| 0 <= j < first_place(ids, x) && j < ids.len() ==> ids[j] != x,
    decreases ids.len(),
{
    if ids.len() > 0 {
        lemma_first_place(ids.drop_last(), x);
        assert forall|j: int| 0 <= j < first_place(ids, x) && j < ids.len() implies ids[j]
            != x by {
            if j < ids.len() - 1 {
                assert(ids.drop_last()[j] == ids[j]);
            }
        }
    }
}

/// The first-seen values stand in the order in which they are first seen: of
/// two of them, the one that comes first is first seen at an earlier place.
pub proof fn law_first_seen_order(ids: Seq<i64>, a: int, b: int)
    requires
        0 <= a < b < first_seen(ids).len(),
    ensures
        first_place(ids, first_seen(ids)[a]) < first_place(ids, first_seen(ids)[b]) < ids.len(),
    decreases ids.len(),
{
    if ids.len() > 0 {
        let shorter = ids.drop_last();
        let before = first_seen(shorter);
        lemma_first_seen(shorter);
        lemma_first_place(shorter, first_seen(ids)[a]);
        lemma_first_place(shorter, first_seen(ids)[b]);
        lemma_first_place(ids, first_seen(ids)[a]);
        lemma_first_place(ids, first_seen(ids)[b]);
        if b < before.len() {
            law_first_seen_order(shorter, a, b);
        } else {
            // `b` is the value that the last place brings in, and `a` was seen before
            assert(before.contains(before[a]));
            assert(shorter.contains(before[a]));
            let j = choose|j: int| 0 <= j < shorter.len() && shorter[j] == before[a];
            assert(first_place(shorter, before[a]) <= j);
            assert(!shorter.contains(ids.last())) by {
                if shorter.contains(ids.last()) {
                    assert(before.contains(ids.last()));
                }
            }
            if first_place(shorter, ids.last()) < shorter.len() {
                assert(shorter.contains(shorter[first_place(shorter, ids.last())]));
            }
        }
    }
}

/// What one more row does to what the rows of an item carry.
pub proof fn lemma_carried_push<A>(ids: Seq<i64>, parts: Seq<Option<A>>, i: i64, p: Option<A>, id: i64)
    requires
        ids.len() == parts.len(),
    ensures
        i == id ==> carried(ids.push(i), parts.push(p), id) == carried(ids, parts, id).union(
            option_set(p),
        ),
        i != id ==> carried(ids.push(i), parts.push(p), id) == carried(ids, parts, id),
{
    let ids2 = ids.push(i);
    let parts2 = parts.push(p);
    let grown = if i == id {
        carried(ids, parts, id).union(option_set(p))
    } else {
        carried(ids, parts, id)
    };
    assert forall|a: A| carried(ids2, parts2, id).contains(a) implies grown.contains(a) by {
        let j = choose|j: int|
            0 <= j < ids2.len() && j < parts2.len() && ids2[j] == id && #[trigger] parts2[j]
                == Some(a);
        if j < ids.len() {
            assert(parts[j] == Some(a));
        }
    }
    assert forall|a: A| grown.contains(a) implies carried(ids2, parts2, id).contains(a) by {
        if carried(ids, parts, id).contains(a) {
            let j = choose|j: int|
                0 <= j < ids.len() && j < parts.len() && ids[j] == id && #[trigger] parts[j]
                    == Some(a);
            assert(parts2[j] == Some(a));
        } else {
            assert(parts2[ids.len() as int] == Some(a));
        }
    }
    assert(carried(ids2, parts2, id) =~= grown);
}

/// Adds an entity to a vector that stands for a set, unless it is there already.
pub fn insert_entity<T: Entity>(set: &mut Vec<T>, x: T)
    requires
        distinct(old(set)@),
    ensures
        distinct(final(set)@),
        view_set(final(set)@) == view_set(old(set)@).insert(x@),
        final(set)@ == old(set)@ || final(set)@ == old(set)@.push(x),
{
    let n = set.len();
    let mut i: usize = 0;
    while i < n
        invariant
            i <= n,
            n == set.len(),
            set@ == old(set)@,
            distinct(set@),
            forall|j: int| 0 <= j < i ==> set[j]@ != x@,
        decreases n - i,
    {
        if set[i].same(&x) {
            proof {
                assert(views(set@)[i as int] == x@);
                assert(view_set(set@).contains(x@));
                assert(view_set(set@) =~= view_set(set@).insert(x@));
            }
            return ;
        }
        i = i + 1;
    }
    proof {
        let before = views(set@);
        let after = views(set@.push(x));
        assert(after =~= before.push(x@));
        assert(after.no_duplicates()) by {
            assert forall|a: int, b: int|
                0 <= a < after.len() && 0 <= b < after.len() && a != b implies after[a]
                != after[b] by {
                if a < before.len() && b < before.len() {
                    assert(before[a] != before[b]);
                } else if a < before.len() {
                    assert(before[a] == set[a]@);
                } else {
                    assert(before[b] == set[b]@);
                }
            }
        }
        assert(after.to_set() =~= before.to_set().insert(x@)) by {
            assert forall|v: T::V| after.to_set().contains(v) <==> before.to_set().insert(
                x@,
            ).contains(v) by {
                if after.contains(v) {
                    let j = choose|j: int| 0 <= j < after.len() && after[j] == v;
                    if j < before.len() {
                        assert(before[j] == v);
                    }
                }
                if before.contains(v) {
                    let j = choose|j: int| 0 <= j < before.len() && before[j] == v;
                    assert(after[j] == v);
                }
                if v == x@ {
                    assert(after[before.len() as int] == v);
                }
            }
        }
    }
    set.push(x);
}

/// What one more row does to the aggregate of an item: the rows of other items
/// leave it as it is, a row of its own replaces the item columns and adds what it
/// carries to the sets.
pub proof fn lemma_aggregate_push(rows: Seq<ItemRowView>, row: ItemRowView, id: i64)
    ensures
        row.scalars.id == id ==> aggregate(rows.push(row), id) == (ItemView {
            scalars: row.scalars,
            tags: group_tags(rows, id).union(option_set(row.tag)),
            authors: group_authors(rows, id).union(option_set(row.author)),
            images: group_images(rows, id).union(option_set(row.image)),
            videos: group_videos(rows, id).union(option_set(row.video)),
        }),
        row.scalars.id != id && row_ids(rows).contains(id) ==> aggregate(rows.push(row), id)
            == aggregate(rows, id),
{
    let longer = rows.push(row);
    assert(longer.drop_last() =~= rows);
    assert(row_ids(longer) =~= row_ids(rows).push(row.scalars.id));
    assert(longer.map_values(|r: ItemRowView| r.tag) =~= rows.map_values(
        |r: ItemRowView| r.tag,
    ).push(row.tag));
    assert(longer.map_values(|r: ItemRowView| r.author) =~= rows.map_values(
        |r: ItemRowView| r.author,
    ).push(row.author));
    assert(longer.map_values(|r: ItemRowView| r.image) =~= rows.map_values(
        |r: ItemRowView| r.image,
    ).push(row.image));
    assert(longer.map_values(|r: ItemRowView| r.video) =~= rows.map_values(
        |r: ItemRowView| r.video,
    ).push(row.video));
    lemma_carried_push(
        row_ids(rows),
        rows.map_values(|r: ItemRowView| r.tag),
        row.scalars.id,
        row.tag,
        id,
    );
    lemma_carried_push(
        row_ids(rows),
        rows.map_values(|r: ItemRowView| r.author),
        row.scalars.id,
        row.author,
        id,
    );
    lemma_carried_push(
        row_ids(rows),
        rows.map_values(|r: ItemRowView| r.image),
        row.scalars.id,
        row.image,
        id,
    );
    lemma_carried_push(
        row_ids(rows),
        rows.map_values(|r: ItemRowView| r.video),
        row.scalars.id,
        row.video,
        id,
    );
    if row.scalars.id != id && row_ids(rows).contains(id) {
        lemma_last_row_of(rows, id);
    }
}

/// The last row of an item that has rows is one of the rows, and one of its own.
pub proof fn lemma_last_row_of(rows: Seq<ItemRowView>, id: i64)
    requires
        row_ids(rows).contains(id),
    ensures
        0 <= last_row_of(rows, id) < rows.len(),
        rows[last_row_of(rows, id)].scalars.id == id,
        forall|j: int| last_row_of(rows, id) < j < rows.len() ==> rows[j].scalars.id != id,
    decreases rows.len(),
{
    let j = choose|j: int| 0 <= j < row_ids(rows).len() && row_ids(rows)[j] == id;
    assert(rows[j].scalars.id == id);
    if rows.last().scalars.id != id {
        let shorter = rows.drop_last();
        assert(row_ids(shorter)[j] == id);
        lemma_last_row_of(shorter, id);
        assert forall|i: int| last_row_of(rows, id) < i < rows.len() implies rows[i].scalars.id
            != id by {
            if i < shorter.len() {
                assert(shorter[i].scalars.id != id);
            }
        }
    }
}

/// An item without rows has nothing in its sets.
pub proof fn lemma_group_without_rows(rows: Seq<ItemRowView>, id: i64)
    requires
        !row_ids(rows).contains(id),
    ensures
        group_tags(rows, id) == Set::<TagView>::empty(),
        group_authors(rows, id) == Set::<AuthorView>::empty(),
        group_images(rows, id) == Set::<ImageView>::empty(),
        group_videos(rows, id) == Set::<VideoView>::empty(),
{
    assert forall|j: int| 0 <= j < rows.len() implies row_ids(rows)[j] != id by {
        assert(row_ids(rows).contains(row_ids(rows)[j]));
    }
    assert(group_tags(rows, id) =~= Set::<TagView>::empty());
    assert(group_authors(rows, id) =~= Set::<AuthorView>::empty());
    assert(group_images(rows, id) =~= Set::<ImageView>::empty());
    assert(group_videos(rows, id) =~= Set::<VideoView>::empty());
}

/// Takes a row into the aggregate that is being built for its item: the item
/// columns of the row replace those of the aggregate, and each sub-entity that
/// the row carries joins its set.
pub fn absorb_row(item: &mut Item, row: ItemRow)
    requires
        old(item).wf(),
    ensures
        final(item).wf(),
        final(item)@ == (ItemView {
            scalars: row@.scalars,
            tags: old(item)@.tags.union(option_set(row@.tag)),
            authors: old(item)@.authors.union(option_set(row@.author)),
            images: old(item)@.images.union(option_set(row@.image)),
            videos: old(item)@.videos.union(option_set(row@.video)),
        }),
{
    item.id = row.id;
    item.pocket_id = row.pocket_id;
    item.title = row.title;
    item.url = row.url;
    item.excerpt = row.excerpt;
    item.is_article = row.is_article;
    item.is_index = row.is_index;
    item.has_video = row.has_video;
    item.has_image = row.has_image;
    item.word_count = row.word_count;
    item.lang = row.lang;
    item.time_to_read = row.time_to_read;
    item.top_image_url = row.top_image_url;
    item.listen_duration_estimate = row.listen_duration_estimate;
    item.status = row.status;
    item.time_added = row.time_added;
    item.time_updated = row.time_updated;
    item.time_read = row.time_read;
    item.time_favorited = row.time_favorited;
    if let Some(tag_id) = row.tag_id {
        let tag = Tag { id: tag_id, tag: row.tag.unwrap_or_default(), name: row.tag_name };
        insert_entity(&mut item.tags, tag);
        assert(item@.tags =~= old(item)@.tags.union(option_set(row.tag())));
    } else {
        assert(item@.tags =~= old(item)@.tags.union(option_set(row.tag())));
    }
    if let Some(author_id) = row.author_id {
        let author = Author {
            id: author_id,
            name: row.author_name.unwrap_or_default(),
            url: row.author_url,
        };
        insert_entity(&mut item.authors, author);
        assert(item@.authors =~= old(item)@.authors.union(option_set(row.author())));
    } else {
        assert(item@.authors =~= old(item)@.authors.union(option_set(row.author())));
    }
    if let Some(image_id) = row.img_id {
        let image = Image {
            id: image_id,
            src: row.img_src.unwrap_or_default(),
            width: row.img_width.unwrap_or_default(),
            height: row.img_height.unwrap_or_default(),
            caption: row.img_caption,
            credit: row.img_credit,
        };
        insert_entity(&mut item.images, image);
        assert(item@.images =~= old(item)@.images.union(option_set(row.image())));
    } else {
        assert(item@.images =~= old(item)@.images.union(option_set(row.image())));
    }
    if let Some(video_id) = row.video_id {
        let video = Video {
            id: video_id,
            src: row.video_src.unwrap_or_default(),
            width: row.video_width.unwrap_or_default(),
            height: row.video_height.unwrap_or_default(),
            kind: row.video_kind,
        };
        insert_entity(&mut item.videos, video);
        assert(item@.videos =~= old(item)@.videos.union(option_set(row.video())));
    } else {
        assert(item@.videos =~= old(item)@.videos.union(option_set(row.video())));
    }
}

/// Finds the aggregate that is being built for item `id`.
fn position_of(items: &Vec<Item>, id: i64) -> (found: Option<usize>)
    ensures
        match found {
            Some(k) => k < items.len() && items[k as int].id == id,
            None => forall|j: int| 0 <= j < items.len() ==> items[j].id != id,
        },
{
    let n = items.len();
    let mut k: usize = 0;
    while k < n
        invariant
            k <= n,
            n == items.len(),
            forall|j: int| 0 <= j < k ==> items[j].id != id,
        decreases n - k,
    {
        if items[k].id == id {
            return Some(k);
        }
        k = k + 1;
    }
    None
}

/// Folds the rows of the join back into items.
///
/// The rows are grouped by item id. The items come out in the order in which
/// their ids are first seen. Each takes its item columns from the last of its
/// rows and collects the tags, authors, images and videos of all its rows into
/// sets, so that none is counted twice. No rows give no items.
pub fn fold_rows(rows: Vec<ItemRow>) -> (items: Vec<Item>)
    ensures
        is_fold_of(items@, views(rows@)),
{
    let ghost all = views(rows@);
    let mut items: Vec<Item> = Vec::new();
    for row in it: rows
        invariant
            views(it.seq()) == all,
            is_fold_of(items@, all.take(it.index())),
            forall|k: int|
                0 <= k < items.len() ==> (#[trigger] items[k]).id == first_seen(
                    row_ids(all.take(it.index())),
                )[k],
    {
        let ghost seen = all.take(it.index());
        let ghost longer = all.take(it.index() + 1);
        let ghost groups = first_seen(row_ids(seen));
        proof {
            assert(longer =~= seen.push(row@));
            assert(row_ids(longer) =~= row_ids(seen).push(row.id));
            assert(row_ids(longer).drop_last() =~= row_ids(seen));
            lemma_first_seen(row_ids(seen));
            assert forall|k: int| 0 <= k < groups.len() implies row_ids(seen).contains(
                #[trigger] groups[k],
            ) by {
                assert(groups.contains(groups[k]));
            }
        }
        match position_of(&items, row.id) {
            Some(k) => {
                proof {
                    assert(groups[k as int] == row.id);
                    assert(groups.contains(row.id));
                    assert(first_seen(row_ids(longer)) == groups);
                    lemma_aggregate_push(seen, row@, row.id);
                    assert forall|j: int| 0 <= j < groups.len() && j != k implies aggregate(
                        longer,
                        #[trigger] groups[j],
                    ) == aggregate(seen, groups[j]) by {
                        lemma_aggregate_push(seen, row@, groups[j]);
                    }
                }
                absorb_row(&mut items[k], row);
            },
            None => {
                proof {
                    assert(!groups.contains(row.id)) by {
                        if groups.contains(row.id) {
                            let j = choose|j: int| 0 <= j < groups.len() && groups[j] == row.id;
                            assert(items[j].id == row.id);
                        }
                    }
                    assert(first_seen(row_ids(longer)) == groups.push(row.id));
                    lemma_group_without_rows(seen, row.id);
                    lemma_aggregate_push(seen, row@, row.id);
                    assert forall|j: int| 0 <= j < groups.len() implies aggregate(
                        longer,
                        #[trigger] groups[j],
                    ) == aggregate(seen, groups[j]) by {
                        lemma_aggregate_push(seen, row@, groups[j]);
                    }
                }
                let mut item = Item::default();
                absorb_row(&mut item, row);
                proof {
                    assert(item@.tags =~= group_tags(seen, row.id).union(option_set(row.tag())));
                    assert(item@.authors =~= group_authors(seen, row.id).union(
                        option_set(row.author()),
                    ));
                    assert(item@.images =~= group_images(seen, row.id).union(
                        option_set(row.image()),
                    ));
                    assert(item@.videos =~= group_videos(seen, row.id).union(
                        option_set(row.video()),
                    ));
                }
                items.push(item);
            },
        }
    }
    proof {
        assert(all.take(all.len() as int) =~= all);
    }
    items
}

} // verus!
