use media_catalog::store::MediaStore;
use media_catalog::album::{Service as AlbumService, CreateAlbumRequest};
use media_catalog::episode::{Service as EpisodeService, CreateEpisodeRequest};
use media_catalog::content::{Service, AddEpisodeContentsRequest, UpdateContentRequest};
use media_catalog::common::ServiceError;
use media_catalog::timefmt::Timestamp;

fn stage(store: &mut MediaStore, path: &str, bytes: &[u8]) {
    store.fs.save_file_to_directory(path, bytes.to_vec());
}

/// A store holding one album (id 1, uuid `au`) and one episode
/// (id 1, uuid `eu`) under it.
fn store_with_episode() -> MediaStore {
    let mut store = MediaStore::new("proj".to_string());
    stage(&mut store, "proj/tmp/r/f0/cover.png", b"c");
    let req = CreateAlbumRequest {
        title: "A".to_string(),
        description: "D".to_string(),
        cover: "proj/tmp/r/f0/cover.png".to_string(),
        images: Some(Vec::new()),
        completed: None,
        tags: None,
        enable: None,
        min_age: None,
        released_at: None,
    };
    AlbumService::create_album(&mut store, req, "au".to_string(), "iu".to_string(), Vec::new())
        .expect("album created");
    let ep = CreateEpisodeRequest { album_id: 1, title: "E1".to_string(), file: None };
    EpisodeService::create_episode(&mut store, ep, "eu".to_string(), "fk".to_string())
        .expect("episode created");
    store
}

#[test]
fn add_contents_commits_rows_then_files() {
    let mut store = store_with_episode();
    stage(&mut store, "proj/tmp/r/f1/p1.png", b"one");
    stage(&mut store, "proj/tmp/r/f2/p2.png", b"two");
    let req = AddEpisodeContentsRequest {
        episode_id: 1,
        files: vec!["proj/tmp/r/f1/p1.png".to_string(), "proj/tmp/r/f2/p2.png".to_string()],
    };
    let resp = Service::add_episode_contents(&mut store, req,
        vec!["c1".to_string(), "c2".to_string()]).expect("add succeeds");
    assert_eq!(resp.len(), 2);
    assert_eq!(resp[0].url, "data/au/eu/c1.png");
    assert_eq!(resp[1].url, "data/au/eu/c2.png");
    assert_eq!(resp[0].index_no, 0);
    assert_eq!(resp[1].index_no, 1);
    assert_eq!(resp[0].bytes, 3);
    assert!(store.fs.exists_file("proj/data/au/eu/c1.png"));
    assert!(store.fs.exists_file("proj/data/au/eu/c2.png"));
    assert!(!store.fs.exists_file("proj/tmp/r/f1/p1.png"));
    assert_eq!(store.contents.len(), 2);
}

#[test]
fn lost_staged_file_keeps_rows_and_reports_file_exchange() {
    // three files where one staged file goes missing before its move: the
    // same staged path is named twice, so its second move finds nothing
    let mut store = store_with_episode();
    stage(&mut store, "proj/tmp/r/f1/p1.png", b"one");
    stage(&mut store, "proj/tmp/r/f2/p2.png", b"two");
    let req = AddEpisodeContentsRequest {
        episode_id: 1,
        files: vec![
            "proj/tmp/r/f1/p1.png".to_string(),
            "proj/tmp/r/f2/p2.png".to_string(),
            "proj/tmp/r/f1/p1.png".to_string(),
        ],
    };
    let r = Service::add_episode_contents(&mut store, req,
        vec!["c1".to_string(), "c2".to_string(), "c3".to_string()]);
    assert_eq!(r.err(), Some(ServiceError::FileExchange));
    // the rows were written before the moves, stay, and are queryable
    assert_eq!(store.contents.len(), 3);
    let listed = Service::get_contents_by_episode_uuid(&store, "eu".to_string())
        .expect("rows are queryable after the partial commit");
    assert_eq!(listed.total, 3);
    // exactly two physical files landed
    assert!(store.fs.exists_file("proj/data/au/eu/c1.png"));
    assert!(store.fs.exists_file("proj/data/au/eu/c2.png"));
    assert!(!store.fs.exists_file("proj/data/au/eu/c3.png"));
}

#[test]
fn add_contents_to_unknown_episode_is_not_found() {
    let mut store = store_with_episode();
    let req = AddEpisodeContentsRequest {
        episode_id: 99,
        files: vec!["proj/tmp/r/f1/p1.png".to_string()],
    };
    let r = Service::add_episode_contents(&mut store, req, vec!["c1".to_string()]);
    assert_eq!(r.err(), Some(ServiceError::NotFound));
    assert_eq!(store.contents.len(), 0);
}

#[test]
fn add_contents_with_missing_staged_file_is_rejected() {
    let mut store = store_with_episode();
    let req = AddEpisodeContentsRequest {
        episode_id: 1,
        files: vec!["proj/tmp/r/f9/missing.png".to_string()],
    };
    let r = Service::add_episode_contents(&mut store, req, vec!["c1".to_string()]);
    assert_eq!(r.err(), Some(ServiceError::Validation));
    assert_eq!(store.contents.len(), 0);
}

#[test]
fn contents_listed_by_episode_uuid() {
    let mut store = store_with_episode();
    stage(&mut store, "proj/tmp/r/f1/p1.png", b"one");
    let req = AddEpisodeContentsRequest {
        episode_id: 1,
        files: vec!["proj/tmp/r/f1/p1.png".to_string()],
    };
    Service::add_episode_contents(&mut store, req, vec!["c1".to_string()])
        .expect("add succeeds");
    let listed = Service::get_contents_by_episode_uuid(&store, "eu".to_string())
        .expect("episode exists");
    assert_eq!(listed.total, 1);
    assert_eq!(listed.data[0].uuid, "c1");
    let missing = Service::get_contents_by_episode_uuid(&store, "nope".to_string());
    assert_eq!(missing.err(), Some(ServiceError::NotFound));
}

#[test]
fn update_content_replaces_file_and_identifier() {
    let mut store = store_with_episode();
    stage(&mut store, "proj/tmp/r/f1/p1.png", b"one");
    let req = AddEpisodeContentsRequest {
        episode_id: 1,
        files: vec!["proj/tmp/r/f1/p1.png".to_string()],
    };
    Service::add_episode_contents(&mut store, req, vec!["c1".to_string()])
        .expect("add succeeds");
    stage(&mut store, "proj/tmp/r2/f0/new.gif", b"newdata");
    let update = UpdateContentRequest {
        file: Some("proj/tmp/r2/f0/new.gif".to_string()),
        ads_url: Some("https://ads.example".to_string()),
        index_no: Some(7),
    };
    let resp = Service::update_content(&mut store, "c1".to_string(), update,
        "c9".to_string(), Timestamp { secs: 4 }).expect("update succeeds");
    assert_eq!(resp.uuid, "c9");
    assert_eq!(resp.url, "data/au/eu/c9.gif");
    assert_eq!(resp.index_no, 7);
    assert_eq!(resp.ads_url, Some("https://ads.example".to_string()));
    assert_eq!(resp.bytes, 7);
    assert!(store.fs.exists_file("proj/data/au/eu/c9.gif"));
    assert!(!store.fs.exists_file("proj/tmp/r2/f0/new.gif"));
}

#[test]
fn update_content_without_file_touches_only_the_row() {
    let mut store = store_with_episode();
    stage(&mut store, "proj/tmp/r/f1/p1.png", b"one");
    let req = AddEpisodeContentsRequest {
        episode_id: 1,
        files: vec!["proj/tmp/r/f1/p1.png".to_string()],
    };
    Service::add_episode_contents(&mut store, req, vec!["c1".to_string()])
        .expect("add succeeds");
    let update = UpdateContentRequest { file: None, ads_url: None, index_no: Some(3) };
    let resp = Service::update_content(&mut store, "c1".to_string(), update,
        "unused".to_string(), Timestamp { secs: 4 }).expect("update succeeds");
    assert_eq!(resp.uuid, "c1");
    assert_eq!(resp.url, "data/au/eu/c1.png");
    assert_eq!(resp.index_no, 3);
    assert!(store.fs.exists_file("proj/data/au/eu/c1.png"));
}

#[test]
fn delete_content_removes_row_and_reports_missing_after() {
    let mut store = store_with_episode();
    stage(&mut store, "proj/tmp/r/f1/p1.png", b"one");
    let req = AddEpisodeContentsRequest {
        episode_id: 1,
        files: vec!["proj/tmp/r/f1/p1.png".to_string()],
    };
    Service::add_episode_contents(&mut store, req, vec!["c1".to_string()])
        .expect("add succeeds");
    let n = Service::delete_content(&mut store, "c1".to_string()).expect("first delete");
    assert_eq!(n, 1);
    assert_eq!(store.contents.len(), 0);
    let again = Service::delete_content(&mut store, "c1".to_string());
    assert_eq!(again.err(), Some(ServiceError::NotFound));
}
