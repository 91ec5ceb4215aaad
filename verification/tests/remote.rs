use readlater::localdb::remote::from_remote;
use readlater::localdb::{Author, HasImage, HasVideo, Image, ItemStatus, Tag, Video};
use readlater::pocket::auth::redirection_uri;
use readlater::pocket::error::protocol_fault;
use readlater::pocket::item::{Authors, Boolean, Images, Videos};
use readlater::pocket::modify::{
    Action, AddUrlRequest, ItemTagAction, ModifyItem, PocketSendRequest, TagDelete, TagRename,
};
use readlater::pocket::retrieve::Tag as TagFilter;
use readlater::pocket::{
    ContentType, DetailType, GetOptions, IncludeTotal, PockeRequest, PocketError,
    RetrieveResponse, SortBy, State,
};
use url::Url;

fn remote_item(item_id: i64, url: &str) -> readlater::pocket::Item {
    readlater::pocket::Item {
        item_id,
        resolved_id: item_id,
        given_url: format!("{}?given", url),
        given_title: "given".to_string(),
        favorite: Boolean::No,
        status: readlater::pocket::item::ItemStatus::Archived,
        time_added: 1,
        time_updated: 2,
        time_read: 3,
        time_favorited: 4,
        sort_id: 0,
        resolved_title: "resolved".to_string(),
        resolved_url: url.to_string(),
        excerpt: "excerpt".to_string(),
        is_article: Boolean::Yes,
        is_index: Boolean::No,
        has_video: readlater::pocket::item::HasVideo::IsVideo,
        has_image: readlater::pocket::item::HasImage::Yes,
        word_count: 120,
        lang: "en".to_string(),
        time_to_read: 5,
        top_image_url: Some("http://example.com/top.png".to_string()),
        listen_duration_estimate: 60,
        tags: vec![],
        authors: None,
        image: None,
        images: None,
        videos: None,
    }
}

fn page(count: Option<i32>, offset: Option<i32>, total: Option<i32>, items: usize) -> RetrieveResponse {
    RetrieveResponse {
        status: 1,
        error: None,
        complete: true,
        since: 100,
        offset,
        count,
        total,
        list: (0..items).map(|n| remote_item(n as i64, "http://example.com")).collect(),
    }
}

#[test]
fn archive_item() {
    let change = ModifyItem::archive(123456789);
    assert_eq!(change.action.name(), "archive");
    assert_eq!(change.item_id, 123456789);
    assert_eq!(change, ModifyItem::new(Action::Archive, 123456789));
}

#[test]
fn readd_item() {
    let change = ModifyItem::readd(123456789);
    assert_eq!(change.action.name(), "readd");
    assert_eq!(change.item_id, 123456789);
}

#[test]
fn favorite_item() {
    let change = ModifyItem::favorite(123456789);
    assert_eq!(change.action.name(), "favorite");
    assert_eq!(change.item_id, 123456789);
}

#[test]
fn unfavorite_item() {
    let change = ModifyItem::unfavorite(123456789);
    assert_eq!(change.action.name(), "unfavorite");
    assert_eq!(change.item_id, 123456789);
}

#[test]
fn delete_item() {
    let change = ModifyItem::delete(123456789);
    assert_eq!(change.action.name(), "delete");
    assert_eq!(change.item_id, 123456789);
}

#[test]
fn add_tags() {
    let change = ItemTagAction::add_tags(123456789, vec!["tag1".to_string(), "tag2".to_string()]);
    assert_eq!(change.action.name(), "tags_replace");
    assert_eq!(change.item_id, 123456789);
    assert_eq!(change.tags.join(","), "tag1,tag2");
}

#[test]
fn clear_tags() {
    let change = ModifyItem::clear_tags(123456789);
    assert_eq!(change.action.name(), "tags_clear");
    assert_eq!(change.item_id, 123456789);
}

#[test]
fn test_add_url_request() {
    let url = Url::parse("https://example.com").unwrap();
    let request = AddUrlRequest::new(url);
    assert_eq!(request.action.name(), "add");
    assert_eq!(request.url.as_str(), "https://example.com/");
    assert_eq!(request.title, None);
    assert!(request.tags.is_empty());
    assert_eq!(request.tweet_id, None);
}

#[test]
fn test_tag_rename() {
    let change = TagRename::new("old_tag".to_string(), "new_tag".to_string());
    assert_eq!(change.action.name(), "tags_rename");
    assert_eq!(change.old_tag, "old_tag");
    assert_eq!(change.new_tag, "new_tag");
}

#[test]
fn test_tag_delete() {
    let change = TagDelete::new("tag".to_string());
    assert_eq!(change.action.name(), "tags_delete");
    assert_eq!(change.tag, "tag");
}

#[test]
fn test_get_options_default() {
    let options = GetOptions::default();
    assert_eq!(options.state.map(|s| s.name()), Some("unread"));
    assert_eq!(options.favorite, None);
    assert!(options.tag.is_none());
    assert_eq!(options.content_type, None);
    assert_eq!(options.sort.map(|s| s.name()), Some("oldest"));
    assert_eq!(options.detail_type.map(|d| d.name()), Some("simple"));
    assert_eq!(options.search, None);
    assert_eq!(options.domain, None);
    assert_eq!(options.since, None);
    assert_eq!(options.count, 30);
    assert_eq!(options.total.name(), "1");
    assert_eq!(options.offset, None);
}

#[test]
fn test_get_options() {
    let options = GetOptions {
        state: Some(State::Archive),
        favorite: Some(true),
        tag: Some(TagFilter::Value("linux".to_string())),
        content_type: Some(ContentType::Article),
        sort: Some(SortBy::Title),
        detail_type: Some(DetailType::Complete),
        search: Some("example".to_string()),
        domain: Some("example.org".to_string()),
        since: Some(1738297033),
        count: 10,
        total: IncludeTotal::Include,
        offset: Some(10),
    };
    assert_eq!(options.state.map(|s| s.name()), Some("archive"));
    assert_eq!(options.favorite, Some(true));
    assert_eq!(options.tag.as_ref().map(|t| t.name()), Some("linux".to_string()));
    assert_eq!(options.content_type.map(|c| c.name()), Some("article"));
    assert_eq!(options.sort.map(|s| s.name()), Some("title"));
    assert_eq!(options.detail_type.map(|d| d.name()), Some("complete"));
    assert_eq!(options.search.as_deref(), Some("example"));
    assert_eq!(options.domain.as_deref(), Some("example.org"));
    assert_eq!(options.since, Some(1738297033));
    assert_eq!(options.count, 10);
    assert_eq!(options.total.name(), "1");
    assert_eq!(options.offset, Some(10));
}

#[test]
fn words_of_the_protocol() {
    assert_eq!(State::Unread.name(), "unread");
    assert_eq!(State::All.name(), "all");
    assert_eq!(DetailType::Simple.name(), "simple");
    assert_eq!(ContentType::Video.name(), "video");
    assert_eq!(ContentType::Image.name(), "image");
    assert_eq!(SortBy::Newest.name(), "newest");
    assert_eq!(SortBy::Site.name(), "site");
    assert_eq!(IncludeTotal::Exclude.name(), "0");
    assert_eq!(TagFilter::Untagged.name(), "_untagged_");
    assert_eq!(Action::TagsAdd.name(), "tags_add");
    assert_eq!(Action::TagsRemove.name(), "tags_remove");
}

#[test]
fn options_builders() {
    let mut options = GetOptions::for_pagination();
    assert_eq!(options.total, IncludeTotal::Include);
    assert_eq!(options.count, 30);
    let built = options.count(10).offset(20).build();
    assert_eq!(built.count, 10);
    assert_eq!(built.offset, Some(20));
    assert_eq!(built.state, Some(State::Unread));
    assert_eq!(options.count, 30);
    assert_eq!(options.offset, None);
}

#[test]
fn tag_changes_of_an_item() {
    let replace = ItemTagAction::replace_tags(1, vec!["a".to_string()]);
    assert_eq!(replace.action, Action::TagsReplace);
    assert_eq!(replace.tags, vec!["a".to_string()]);
    let remove = ItemTagAction::remove_tags(2, vec!["b".to_string()]);
    assert_eq!(remove.action, Action::TagsReplace);
    assert_eq!(remove.item_id, 2);
}

#[test]
fn add_url_request_builders() {
    let url = Url::parse("https://example.com/page?x=1").unwrap();
    let request = AddUrlRequest::new(url.clone())
        .tags(vec!["a".to_string(), "b".to_string()])
        .title("A page".to_string());
    assert_eq!(request.url, url);
    assert_eq!(request.tags, vec!["a".to_string(), "b".to_string()]);
    assert_eq!(request.title, Some("A page".to_string()));
    assert_eq!(request.action, Action::Add);
}

#[test]
fn envelopes_carry_the_credentials() {
    let request = PockeRequest::new("key", "token", 5);
    assert_eq!(request.consumer_key, "key");
    assert_eq!(request.access_token, "token");
    assert_eq!(request.extra, 5);
    let send = PocketSendRequest::new("key", "token", vec![ModifyItem::archive(1)]);
    assert_eq!(send.consumer_key, "key");
    assert_eq!(send.access_token, "token");
    assert_eq!(send.actions, vec![ModifyItem::archive(1)]);
}

#[test]
fn address_for_authorization() {
    assert_eq!(
        redirection_uri("abc", "https://localhost:3000"),
        "https://getpocket.com/auth/authorize?request_token=abc&redirect_uri=https://localhost:3000"
    );
    assert_eq!(
        redirection_uri("", ""),
        "https://getpocket.com/auth/authorize?request_token=&redirect_uri="
    );
}

#[test]
fn has_more_compares_total_with_count_and_offset() {
    assert_eq!(page(Some(30), Some(0), Some(45), 30).has_more().unwrap(), true);
    assert_eq!(page(Some(15), Some(30), Some(45), 15).has_more().unwrap(), false);
    assert_eq!(page(Some(30), Some(0), Some(30), 30).has_more().unwrap(), false);
    assert_eq!(page(Some(30), Some(0), Some(31), 30).has_more().unwrap(), true);
    assert_eq!(page(None, None, Some(3), 2).has_more().unwrap(), true);
    assert_eq!(page(None, None, Some(2), 2).has_more().unwrap(), false);
    assert_eq!(page(None, Some(1), Some(3), 2).has_more().unwrap(), false);
    assert_eq!(page(Some(0), Some(0), Some(0), 0).has_more().unwrap(), false);
}

#[test]
fn has_more_does_not_overflow() {
    let full = page(Some(i32::MAX), Some(i32::MAX), Some(i32::MAX), 0);
    assert_eq!(full.has_more().unwrap(), false);
    let negative = page(Some(i32::MIN), Some(i32::MIN), Some(0), 0);
    assert_eq!(negative.has_more().unwrap(), true);
}

#[test]
fn has_more_without_total_is_a_fault() {
    let fault = page(Some(30), Some(0), None, 30).has_more().unwrap_err();
    assert!(matches!(fault, PocketError::InvalidPagintionRequest));
}

#[test]
fn protocol_fault_from_headers() {
    assert!(protocol_fault(None, Some("ignored".to_string()), None).is_none());
    match protocol_fault(Some("152".to_string()), Some("Invalid key".to_string()), Some("body".to_string())) {
        Some(PocketError::Proto(code, message, body)) => {
            assert_eq!(code, "152");
            assert_eq!(message, "Invalid key");
            assert_eq!(body, Some("body".to_string()));
        }
        other => panic!("unexpected {:?}", other),
    }
    match protocol_fault(Some("199".to_string()), None, None) {
        Some(PocketError::Proto(code, message, body)) => {
            assert_eq!(code, "199");
            assert_eq!(message, "unknown protocol");
            assert_eq!(body, None);
        }
        other => panic!("unexpected {:?}", other),
    }
}

#[test]
fn flags_of_the_remote() {
    assert_eq!(Boolean::Yes.deref(), true);
    assert_eq!(Boolean::No.deref(), false);
}

#[test]
fn remote_item_in_the_shape_of_the_mirror() {
    let mut remote = remote_item(7, "http://example.com");
    remote.tags = vec![
        readlater::pocket::item::Tag { tag: "a".to_string(), item_id: 7 },
        readlater::pocket::item::Tag { tag: "b".to_string(), item_id: 7 },
    ];
    remote.authors = Some(vec![Authors {
        author_id: 3,
        name: "Ann".to_string(),
        url: Some("http://ann.example".to_string()),
    }]);
    remote.images = Some(vec![Images {
        image_id: 1,
        src: "http://example.com/i.png".to_string(),
        width: 10,
        height: 20,
        credit: "credit".to_string(),
        caption: "caption".to_string(),
    }]);
    remote.videos = Some(vec![Videos {
        video_id: 2,
        src: "http://example.com/v.mp4".to_string(),
        width: 30,
        height: 40,
        kind: "1".to_string(),
        vid: "xyz".to_string(),
    }]);

    let item = from_remote(&remote);
    assert_eq!(item.id, 0);
    assert_eq!(item.pocket_id, Some(7));
    assert_eq!(item.title, "resolved");
    assert_eq!(item.url, "http://example.com");
    assert_eq!(item.excerpt, Some("excerpt".to_string()));
    assert_eq!(item.is_article, Some(true));
    assert_eq!(item.is_index, Some(true));
    assert_eq!(item.has_video, Some(HasVideo::IsVideo));
    assert_eq!(item.has_image, Some(HasImage::Yes));
    assert_eq!(item.word_count, Some(120));
    assert_eq!(item.lang, Some("en".to_string()));
    assert_eq!(item.time_to_read, Some(5));
    assert_eq!(item.top_image_url, Some("http://example.com/top.png".to_string()));
    assert_eq!(item.listen_duration_estimate, Some(60));
    assert_eq!(item.status, ItemStatus::Archived);
    assert_eq!(item.time_added, 1);
    assert_eq!(item.time_updated, Some(2));
    assert_eq!(item.time_read, Some(3));
    assert_eq!(item.time_favorited, Some(4));
    assert_eq!(
        item.tags,
        vec![
            Tag { id: 0, tag: "a".to_string(), name: None },
            Tag { id: 0, tag: "b".to_string(), name: None }
        ]
    );
    assert_eq!(
        item.authors,
        vec![Author { id: 3, name: "Ann".to_string(), url: Some("http://ann.example".to_string()) }]
    );
    assert_eq!(
        item.images,
        vec![Image {
            id: 1,
            src: "http://example.com/i.png".to_string(),
            width: 10,
            height: 20,
            caption: Some("caption".to_string()),
            credit: Some("credit".to_string()),
        }]
    );
    assert_eq!(
        item.videos,
        vec![Video {
            id: 2,
            src: "http://example.com/v.mp4".to_string(),
            width: 30,
            height: 40,
            kind: Some("1".to_string()),
        }]
    );

    let through_from: readlater::localdb::Item = (&remote).into();
    assert_eq!(through_from.pocket_id, Some(7));
    assert_eq!(through_from.tags.len(), 2);
}

#[test]
fn conversions_of_single_values() {
    assert_eq!(ItemStatus::from(readlater::pocket::item::ItemStatus::Deleted), ItemStatus::Deleted);
    assert_eq!(
        readlater::pocket::item::ItemStatus::from(ItemStatus::Unread),
        readlater::pocket::item::ItemStatus::Unread
    );
    assert_eq!(HasVideo::from(readlater::pocket::item::HasVideo::No), HasVideo::No);
    assert_eq!(
        readlater::pocket::item::HasVideo::from(HasVideo::Yes),
        readlater::pocket::item::HasVideo::Yes
    );
    assert_eq!(HasImage::from(readlater::pocket::item::HasImage::IsImage), HasImage::IsImage);
    let author = Author::from(Authors { author_id: 4, name: "N".to_string(), url: None });
    assert_eq!(author, Author { id: 4, name: "N".to_string(), url: None });
    let image = Image::from(Images {
        image_id: 5,
        src: "s".to_string(),
        width: 1,
        height: 2,
        credit: "c".to_string(),
        caption: "d".to_string(),
    });
    assert_eq!(image.caption, Some("d".to_string()));
    assert_eq!(image.credit, Some("c".to_string()));
    let video = Video::from(Videos {
        video_id: 6,
        src: "s".to_string(),
        width: 1,
        height: 2,
        kind: "k".to_string(),
        vid: "v".to_string(),
    });
    assert_eq!(video, Video { id: 6, src: "s".to_string(), width: 1, height: 2, kind: Some("k".to_string()) });
}
