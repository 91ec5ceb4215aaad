use readlater::capture::{capture, plan_capture, request_for, split_tags, value_of, Capture, CaptureError};
use readlater::localdb::{DBError, KvConfig, LocalDb};
use readlater::native_host::{plan, Result as Answer, Status};
use readlater::pocket::item::Boolean;
use readlater::pocket::modify::Action;
use readlater::pocket::{GetOptions, IncludeTotal, RetrieveResponse, State};
use readlater::sync::{Progress, SyncEngine, SyncError, PAGE_SIZE};
use url::Url;

fn remote_item(item_id: i64, url: &str, tags: &[&str]) -> readlater::pocket::Item {
    readlater::pocket::Item {
        item_id,
        resolved_id: item_id,
        given_url: url.to_string(),
        given_title: "given".to_string(),
        favorite: Boolean::No,
        status: readlater::pocket::item::ItemStatus::Unread,
        time_added: 1,
        time_updated: 2,
        time_read: 0,
        time_favorited: 0,
        sort_id: 0,
        resolved_title: format!("title {}", item_id),
        resolved_url: url.to_string(),
        excerpt: String::new(),
        is_article: Boolean::Yes,
        is_index: Boolean::No,
        has_video: readlater::pocket::item::HasVideo::No,
        has_image: readlater::pocket::item::HasImage::No,
        word_count: 0,
        lang: "en".to_string(),
        time_to_read: 0,
        top_image_url: None,
        listen_duration_estimate: 0,
        tags: tags
            .iter()
            .map(|t| readlater::pocket::item::Tag { tag: t.to_string(), item_id: item_id as u64 })
            .collect(),
        authors: None,
        image: None,
        images: None,
        videos: None,
    }
}

/// A remote with `total` items, which answers each request with the page that
/// it asks for and counts the requests.
struct Remote {
    total: i32,
    since: i32,
    fetches: Vec<(Option<i32>, Option<i32>, i32)>,
}

impl Remote {
    fn fetch(&mut self, request: &GetOptions) -> RetrieveResponse {
        self.fetches.push((request.since, request.offset, request.count));
        let offset = request.offset.unwrap_or(0);
        let upto = (offset + request.count).min(self.total);
        let list: Vec<readlater::pocket::Item> = (offset..upto)
            .map(|n| remote_item(1000 + n as i64, &format!("http://example.com/{}", n), &[]))
            .collect();
        RetrieveResponse {
            status: 1,
            error: None,
            complete: true,
            since: self.since,
            offset: Some(offset),
            count: Some(list.len() as i32),
            total: Some(self.total),
            list,
        }
    }
}

fn run(remote: &mut Remote, db: &mut LocalDb, config: &mut KvConfig) -> Result<(), SyncError> {
    let mut engine = SyncEngine::resume(config);
    loop {
        let page = remote.fetch(&engine.request());
        match engine.absorb(db, config, &page, 99)? {
            Progress::More => {}
            Progress::Finished => return Ok(()),
        }
    }
}

#[test]
fn two_pages_for_forty_five_items() {
    let mut remote = Remote { total: 45, since: 1738297033, fetches: vec![] };
    let mut db = LocalDb::new();
    let mut config = KvConfig::new();
    run(&mut remote, &mut db, &mut config).unwrap();

    assert_eq!(remote.fetches, vec![(Some(0), Some(0), 30), (Some(0), Some(30), 30)]);
    assert_eq!(db.get_items().unwrap().len(), 45);
    assert_eq!(config.get_pocket_offset(), Some(60));
    assert_eq!(config.get_pocket_since(), Some(1738297033));
}

#[test]
fn exact_multiple_of_the_page_size_needs_no_empty_page() {
    let mut remote = Remote { total: 60, since: 5, fetches: vec![] };
    let mut db = LocalDb::new();
    let mut config = KvConfig::new();
    run(&mut remote, &mut db, &mut config).unwrap();
    assert_eq!(remote.fetches.len(), 2);
    assert_eq!(db.get_items().unwrap().len(), 60);
}

#[test]
fn empty_collection_finishes_at_once() {
    let mut remote = Remote { total: 0, since: 5, fetches: vec![] };
    let mut db = LocalDb::new();
    let mut config = KvConfig::new();
    run(&mut remote, &mut db, &mut config).unwrap();
    assert_eq!(remote.fetches.len(), 1);
    assert!(db.get_items().unwrap().is_empty());
    assert_eq!(config.get_pocket_since(), Some(5));
    assert_eq!(config.get_pocket_offset(), Some(30));
}

#[test]
fn empty_page_finishes_whatever_the_total() {
    let mut db = LocalDb::new();
    let mut config = KvConfig::new();
    let mut engine = SyncEngine::resume(&config);
    let page = RetrieveResponse {
        status: 1,
        error: None,
        complete: true,
        since: 8,
        offset: Some(0),
        count: Some(0),
        total: Some(1000),
        list: vec![],
    };
    assert_eq!(engine.absorb(&mut db, &mut config, &page, 1), Ok(Progress::Finished));
    assert_eq!(config.get_pocket_since(), Some(8));
}

#[test]
fn resumes_at_the_persisted_offset() {
    let mut config = KvConfig::new();
    config.set_pocket_offset(30, 1).unwrap();
    let engine = SyncEngine::resume(&config);
    assert_eq!(engine.offset, 30);
    assert_eq!(engine.since, 0);
    let request = engine.request();
    assert_eq!(request.offset, Some(30));
    assert_eq!(request.since, Some(0));
    assert_eq!(request.count, PAGE_SIZE);
    assert_eq!(request.total, IncludeTotal::Include);
    assert_eq!(request.state, Some(State::Unread));

    let mut remote = Remote { total: 45, since: 77, fetches: vec![] };
    let mut db = LocalDb::new();
    run(&mut remote, &mut db, &mut config).unwrap();
    assert_eq!(remote.fetches, vec![(Some(0), Some(30), 30)]);
    assert_eq!(db.get_items().unwrap().len(), 15);
}

#[test]
fn interrupted_run_is_taken_up_at_the_next_page() {
    let mut remote = Remote { total: 45, since: 77, fetches: vec![] };
    let mut db = LocalDb::new();
    let mut config = KvConfig::new();

    let mut engine = SyncEngine::resume(&config);
    let page = remote.fetch(&engine.request());
    assert_eq!(engine.absorb(&mut db, &mut config, &page, 1), Ok(Progress::More));
    assert_eq!(config.get_pocket_offset(), Some(30));
    assert_eq!(config.get_pocket_since(), None);

    let mut engine = SyncEngine::resume(&config);
    assert_eq!(engine.request().offset, Some(30));
    let page = remote.fetch(&engine.request());
    assert_eq!(engine.absorb(&mut db, &mut config, &page, 2), Ok(Progress::Finished));
    assert_eq!(db.get_items().unwrap().len(), 45);
    assert_eq!(config.get_pocket_since(), Some(77));
}

#[test]
fn resumes_with_the_persisted_since() {
    let mut config = KvConfig::new();
    config.set_pocket_since(1234, 1).unwrap();
    config.set_pocket_offset(0, 1).unwrap();
    let engine = SyncEngine::resume(&config);
    assert_eq!(engine.request().since, Some(1234));
    assert_eq!(engine.request().offset, Some(0));
}

#[test]
fn page_without_total_is_refused_before_anything_is_written() {
    let mut db = LocalDb::new();
    let mut config = KvConfig::new();
    let mut engine = SyncEngine::resume(&config);
    let page = RetrieveResponse {
        status: 1,
        error: None,
        complete: true,
        since: 8,
        offset: Some(0),
        count: Some(1),
        total: None,
        list: vec![remote_item(7, "http://example.com", &[])],
    };
    assert_eq!(engine.absorb(&mut db, &mut config, &page, 1), Err(SyncError::NoTotal));
    assert!(db.get_items().unwrap().is_empty());
    assert_eq!(config.get_pocket_offset(), None);
    assert_eq!(config.get_pocket_since(), None);
    assert_eq!(engine, SyncEngine { since: 0, offset: 0 });
}

#[test]
fn refused_item_leaves_the_position() {
    let mut db = LocalDb::new();
    let mut config = KvConfig::new();
    let mut engine = SyncEngine::resume(&config);
    let page = RetrieveResponse {
        status: 1,
        error: None,
        complete: true,
        since: 8,
        offset: Some(0),
        count: Some(3),
        total: Some(3),
        list: vec![
            remote_item(1, "http://example.com/same", &[]),
            remote_item(2, "http://example.com/same", &[]),
            remote_item(3, "http://example.com/other", &[]),
        ],
    };
    assert_eq!(
        engine.absorb(&mut db, &mut config, &page, 1),
        Err(SyncError::Store(DBError::UniqueViolation))
    );
    assert_eq!(db.get_items().unwrap().len(), 1);
    assert_eq!(config.get_pocket_offset(), None);
    assert_eq!(engine.offset, 0);
}

#[test]
fn position_that_cannot_move_on_is_a_fault() {
    let mut db = LocalDb::new();
    let mut config = KvConfig::new();
    config.set_pocket_offset(i32::MAX - 29, 1).unwrap();
    let mut engine = SyncEngine::resume(&config);
    let page = RetrieveResponse {
        status: 1,
        error: None,
        complete: true,
        since: 8,
        offset: None,
        count: None,
        total: Some(0),
        list: vec![],
    };
    assert_eq!(engine.absorb(&mut db, &mut config, &page, 1), Err(SyncError::OffsetOverflow));
    config.set_pocket_offset(i32::MAX - 30, 1).unwrap();
    let mut engine = SyncEngine::resume(&config);
    assert_eq!(engine.absorb(&mut db, &mut config, &page, 1), Ok(Progress::Finished));
    assert_eq!(config.get_pocket_offset(), Some(i32::MAX));
}

#[test]
fn one_page_with_one_item_and_two_tags() {
    let mut db = LocalDb::new();
    let mut config = KvConfig::new();
    let mut engine = SyncEngine::resume(&config);
    let page = RetrieveResponse {
        status: 1,
        error: None,
        complete: true,
        since: 1738297033,
        offset: Some(0),
        count: Some(1),
        total: Some(1),
        list: vec![remote_item(7, "http://example.com", &["a", "b"])],
    };
    assert_eq!(engine.absorb(&mut db, &mut config, &page, 1), Ok(Progress::Finished));

    let items = db.get_items().unwrap();
    assert_eq!(items.len(), 1);
    assert_eq!(items[0].url, "http://example.com");
    assert_eq!(items[0].pocket_id, Some(7));
    let mut slugs: Vec<&str> = items[0].tags.iter().map(|t| t.tag.as_str()).collect();
    slugs.sort();
    assert_eq!(slugs, vec!["a", "b"]);
}

#[test]
fn delivering_a_page_again_changes_nothing() {
    let mut db = LocalDb::new();
    let mut config = KvConfig::new();
    let page = RetrieveResponse {
        status: 1,
        error: None,
        complete: true,
        since: 3,
        offset: Some(0),
        count: Some(2),
        total: Some(2),
        list: vec![
            remote_item(7, "http://example.com/7", &["a", "b"]),
            remote_item(8, "http://example.com/8", &["B"]),
        ],
    };
    let mut engine = SyncEngine::resume(&config);
    engine.absorb(&mut db, &mut config, &page, 1).unwrap();
    let mut engine = SyncEngine { since: 0, offset: 0 };
    engine.absorb(&mut db, &mut config, &page, 2).unwrap();

    let items = db.get_items().unwrap();
    assert_eq!(items.len(), 2);
    assert_eq!(items[0].tags.len(), 2);
    assert_eq!(items[1].tags.len(), 1);
    assert_eq!(db.get_tags().unwrap().len(), 2);
    assert_eq!(db.join_rows().len(), 3);
}

#[test]
fn tags_of_a_link() {
    assert_eq!(split_tags(""), vec!["readlater".to_string()]);
    assert_eq!(split_tags("a"), vec!["a".to_string(), "readlater".to_string()]);
    assert_eq!(
        split_tags("a,b"),
        vec!["a".to_string(), "b".to_string(), "readlater".to_string()]
    );
    assert_eq!(
        split_tags(",a,,b,"),
        vec!["a".to_string(), "b".to_string(), "readlater".to_string()]
    );
    assert_eq!(split_tags(",,,"), vec!["readlater".to_string()]);
    assert_eq!(
        split_tags("été, x"),
        vec!["été".to_string(), " x".to_string(), "readlater".to_string()]
    );
}

#[test]
fn value_of_a_key_is_that_of_its_last_pair() {
    let pairs = vec![
        ("url".to_string(), "first".to_string()),
        ("tags".to_string(), "a".to_string()),
        ("url".to_string(), "second".to_string()),
    ];
    assert_eq!(value_of(&pairs, "url"), Some("second".to_string()));
    assert_eq!(value_of(&pairs, "tags"), Some("a".to_string()));
    assert_eq!(value_of(&pairs, "title"), None);
    assert_eq!(value_of(&Vec::new(), "url"), None);
}

#[test]
fn plan_of_a_link() {
    let pairs = vec![
        ("url".to_string(), "https://example.com/a".to_string()),
        ("tags".to_string(), "x,y".to_string()),
    ];
    let capture = plan_capture("readlater", &pairs).unwrap();
    assert_eq!(capture.url, "https://example.com/a");
    assert_eq!(capture.tags, vec!["x".to_string(), "y".to_string(), "readlater".to_string()]);

    assert_eq!(plan_capture("https", &pairs).unwrap_err(), CaptureError::WrongScheme);
    assert_eq!(plan_capture("readlater", &Vec::new()).unwrap_err(), CaptureError::NoUrl);
    let only_url = vec![("url".to_string(), "https://example.com/a".to_string())];
    assert_eq!(plan_capture("readlater", &only_url).unwrap().tags, vec!["readlater".to_string()]);
}

#[test]
fn request_for_a_capture() {
    let request = request_for(Capture {
        url: "https://example.com".to_string(),
        tags: vec!["x".to_string(), "readlater".to_string()],
    })
    .unwrap();
    assert_eq!(request.url.as_str(), "https://example.com/");
    assert_eq!(request.action, Action::Add);
    assert_eq!(request.tags, vec!["x".to_string(), "readlater".to_string()]);
    assert_eq!(request.title, None);

    let refused = request_for(Capture { url: "not an address".to_string(), tags: vec![] });
    assert_eq!(refused.unwrap_err(), CaptureError::MalformedUrl);
}

#[test]
fn capture_of_a_link() {
    let link = Url::parse("readlater://save?url=https%3A%2F%2Fexample.com%2Fa%3Fb%3D1&tags=x,,y").unwrap();
    let request = capture(&link).unwrap();
    assert_eq!(request.url.as_str(), "https://example.com/a?b=1");
    assert_eq!(request.tags, vec!["x".to_string(), "y".to_string(), "readlater".to_string()]);

    let other = Url::parse("https://example.com/?url=https%3A%2F%2Fexample.com").unwrap();
    assert_eq!(capture(&other).unwrap_err(), CaptureError::WrongScheme);
    let bare = Url::parse("readlater://save").unwrap();
    assert_eq!(capture(&bare).unwrap_err(), CaptureError::NoUrl);
    let malformed = Url::parse("readlater://save?url=nothing").unwrap();
    assert_eq!(capture(&malformed).unwrap_err(), CaptureError::MalformedUrl);
}

#[test]
fn answers_of_the_host() {
    let ok = Answer::ok("fine");
    assert_eq!(ok.status, Status::Success);
    assert_eq!(ok.status.name(), "Ok");
    assert_eq!(ok.message, "fine");
    let error = Answer::error("bad");
    assert_eq!(error.status, Status::Error);
    assert_eq!(error.status.name(), "Error");
    assert_eq!(error.message, "bad");
}

#[test]
fn host_saves_on_the_save_action() {
    let url = Url::parse("https://example.com/page").unwrap();
    let plan = plan("save", url.clone(), "A page".to_string());
    let save = plan.save.unwrap();
    assert_eq!(save.url, url);
    assert_eq!(save.title, Some("A page".to_string()));
    assert_eq!(save.tags, vec!["readlater".to_string()]);
    assert_eq!(save.action, Action::Add);
    assert_eq!(save.tweet_id, None);
    assert_eq!(plan.answers.len(), 1);
    assert_eq!(plan.answers[0].status, Status::Success);
    assert_eq!(plan.answers[0].message, "URL added to Pocket");
}

#[test]
fn host_refuses_other_actions() {
    let url = Url::parse("https://example.com/page").unwrap();
    let plan = plan("delete", url, "A page".to_string());
    assert!(plan.save.is_none());
    assert_eq!(plan.answers.len(), 2);
    assert_eq!(plan.answers[0].status, Status::Error);
    assert_eq!(plan.answers[0].message, "Invalid action");
    assert_eq!(plan.answers[1].status, Status::Success);
    assert_eq!(plan.answers[1].message, "URL added to Pocket");
}
