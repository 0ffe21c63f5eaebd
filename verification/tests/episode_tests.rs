use media_catalog::store::MediaStore;
use media_catalog::album::{Service as AlbumService, CreateAlbumRequest};
use media_catalog::episode::{Service, CreateEpisodeRequest, UpdateEpisodeRequest, build_updated_episode, Episode};
use media_catalog::common::ServiceError;
use media_catalog::timefmt::Timestamp;
use media_catalog::fields::FieldMap;
use media_catalog::value::infer_value;

fn stage(store: &mut MediaStore, path: &str, bytes: &[u8]) {
    store.fs.save_file_to_directory(path, bytes.to_vec());
}

fn store_with_album() -> MediaStore {
    let mut store = MediaStore::new("proj".to_string());
    stage(&mut store, "proj/tmp/r/f0/cover.png", b"c");
    let req = CreateAlbumRequest {
        title: "A".to_string(),
        description: "D".to_string(),
        cover: "proj/tmp/r/f0/cover.png".to_string(),
        images: Some(Vec::new()),
        completed: None,
        tags: None,
        enable: None,
        min_age: None,
        released_at: None,
    };
    AlbumService::create_album(&mut store, req, "au".to_string(), "iu".to_string(), Vec::new())
        .expect("album created");
    store
}

#[test]
fn create_episode_with_file_moves_it_into_place() {
    let mut store = store_with_album();
    stage(&mut store, "proj/tmp/r/f1/ep.mp4", b"video");
    let req = CreateEpisodeRequest {
        album_id: 1,
        title: "E1".to_string(),
        file: Some("proj/tmp/r/f1/ep.mp4".to_string()),
    };
    let resp = Service::create_episode(&mut store, req, "eu".to_string(), "fk".to_string())
        .expect("create succeeds");
    assert_eq!(resp.uuid, "eu");
    assert_eq!(resp.album_id, 1);
    assert_eq!(resp.url, Some("data/au/eu/fk.mp4".to_string()));
    assert!(store.fs.exists_file("proj/data/au/eu/fk.mp4"));
    assert!(!store.fs.exists_file("proj/tmp/r/f1/ep.mp4"));
}

#[test]
fn create_episode_without_file_stores_no_url() {
    let mut store = store_with_album();
    let req = CreateEpisodeRequest { album_id: 1, title: "E".to_string(), file: None };
    let resp = Service::create_episode(&mut store, req, "eu".to_string(), "fk".to_string())
        .expect("create succeeds");
    assert_eq!(resp.url, None);
}

#[test]
fn create_episode_under_unknown_album_is_not_found() {
    let mut store = store_with_album();
    let req = CreateEpisodeRequest { album_id: 42, title: "E".to_string(), file: None };
    let r = Service::create_episode(&mut store, req, "eu".to_string(), "fk".to_string());
    assert_eq!(r.err(), Some(ServiceError::NotFound));
    assert_eq!(store.episodes.len(), 0);
}

#[test]
fn episodes_listed_by_album_id() {
    let mut store = store_with_album();
    let r1 = CreateEpisodeRequest { album_id: 1, title: "E1".to_string(), file: None };
    Service::create_episode(&mut store, r1, "e1".to_string(), "k1".to_string()).expect("first");
    let r2 = CreateEpisodeRequest { album_id: 1, title: "E2".to_string(), file: None };
    Service::create_episode(&mut store, r2, "e2".to_string(), "k2".to_string()).expect("second");
    let listed = Service::get_episodes_by_album_id(&store, 1);
    assert_eq!(listed.total, 2);
    assert_eq!(listed.data[0].title, "E1");
    assert_eq!(listed.data[1].title, "E2");
    let none = Service::get_episodes_by_album_id(&store, 9);
    assert_eq!(none.total, 0);
}

#[test]
fn update_episode_with_new_file_replaces_directory() {
    let mut store = store_with_album();
    stage(&mut store, "proj/tmp/r/f1/ep.mp4", b"old");
    let req = CreateEpisodeRequest {
        album_id: 1,
        title: "E".to_string(),
        file: Some("proj/tmp/r/f1/ep.mp4".to_string()),
    };
    Service::create_episode(&mut store, req, "eu".to_string(), "fk".to_string())
        .expect("create succeeds");
    stage(&mut store, "proj/tmp/r2/f0/next.webm", b"longer");
    let update = UpdateEpisodeRequest {
        title: Some("E updated".to_string()),
        file: Some("proj/tmp/r2/f0/next.webm".to_string()),
        file_url: None,
        remove_old_file: false,
    };
    let resp = Service::update_episode(&mut store, "eu".to_string(), update,
        "nk".to_string(), Timestamp { secs: 8 }).expect("update succeeds");
    assert_eq!(resp.title, "E updated");
    assert_eq!(resp.url, Some("data/au/eu/nk.webm".to_string()));
    // the old file's directory was dropped before the new file moved in
    assert!(!store.fs.exists_file("proj/data/au/eu/fk.mp4"));
    assert!(store.fs.exists_file("proj/data/au/eu/nk.webm"));
}

#[test]
fn update_episode_with_file_url_resets_media_columns() {
    let ep = Episode {
        id: Some(1),
        album_id: 1,
        uuid: "eu".to_string(),
        title: "E".to_string(),
        url: Some("data/au/eu/fk.mp4".to_string()),
        file_url: None,
        content_type: Some("video/mp4".to_string()),
        width: 10,
        height: 20,
        bytes: 30,
        broken_at: None,
        created_at: None,
        updated_at: None,
    };
    let req = UpdateEpisodeRequest {
        title: None,
        file: None,
        file_url: Some("https://cdn.example/e.mp4".to_string()),
        remove_old_file: false,
    };
    let built = build_updated_episode(&ep, &req, true);
    assert_eq!(built.url, Some(String::new()));
    assert_eq!(built.content_type, Some(String::new()));
    assert_eq!(built.width, 0);
    assert_eq!(built.height, 0);
    assert_eq!(built.bytes, 0);
    assert_eq!(built.title, "E");
    assert_eq!(built.file_url, Some("https://cdn.example/e.mp4".to_string()));
}

#[test]
fn delete_episode_drops_its_directory_and_row() {
    let mut store = store_with_album();
    stage(&mut store, "proj/tmp/r/f1/ep.mp4", b"v");
    let req = CreateEpisodeRequest {
        album_id: 1,
        title: "E".to_string(),
        file: Some("proj/tmp/r/f1/ep.mp4".to_string()),
    };
    Service::create_episode(&mut store, req, "eu".to_string(), "fk".to_string())
        .expect("create succeeds");
    assert!(store.fs.exists_file("proj/data/au/eu/fk.mp4"));
    let n = Service::delete_episode(&mut store, "eu".to_string()).expect("first delete");
    assert_eq!(n, 1);
    // the directory path stored in rows is relative; deletion uses it as given
    assert!(!store.fs.exists_file("data/au/eu/fk.mp4"));
    assert_eq!(store.episodes.len(), 0);
    let again = Service::delete_episode(&mut store, "eu".to_string());
    assert_eq!(again.err(), Some(ServiceError::NotFound));
}

#[test]
fn episode_binding_checks_required_fields() {
    let mut m = FieldMap::new();
    m.insert("title".to_string(), infer_value("E"));
    assert!(!CreateEpisodeRequest::check_required_data(&m));
    m.insert("album_id".to_string(), infer_value("4"));
    assert!(CreateEpisodeRequest::check_required_data(&m));
    let req = CreateEpisodeRequest::from_payload_data(&m).expect("binds");
    assert_eq!(req.album_id, 4);
    assert_eq!(req.title, "E");
    assert_eq!(req.file, None);
}
